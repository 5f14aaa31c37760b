//! Per-host DNS lookup statistics (failures, minimum, maximum and average
//! lookup time) and their exposition as Prometheus gauges.

pub mod decimal;
pub mod exposition;
pub mod flags;
pub mod lookup;
pub mod metrics;
pub mod registry;

pub use exposition::{handle_http_request, http_response, render_metrics};
pub use flags::{
    find_and_remove_debug_flag, find_and_remove_sleep_value_in_ms,
    find_and_remove_warning_time_in_ms, find_help_flag, FlagValueError,
};
pub use lookup::record_lookup;
pub use metrics::Metrics;
pub use registry::MetricsRegistry;
