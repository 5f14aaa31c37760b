use dnsmonitor::decimal::decimal_text;
use dnsmonitor::{record_lookup, Metrics, MetricsRegistry};

fn registry_with(names: &[&str]) -> MetricsRegistry {
    let mut registry = MetricsRegistry::new();
    for name in names {
        registry.add_name(name.to_string());
    }
    registry
}

#[test]
fn new_metrics_are_empty() {
    let m = Metrics::new();
    assert_eq!(m.sum, 0);
    assert_eq!(m.average_count, 0);
    assert_eq!(m.min, u64::MAX);
    assert_eq!(m.max, 0);
    assert_eq!(m.failure_count, 0);
}

#[test]
fn clear_restores_new() {
    let mut m = Metrics { sum: 17, average_count: 3, min: 2, max: 9, failure_count: 4 };
    m.clear();
    assert_eq!(m, Metrics::new());
}

#[test]
fn add_name_keeps_order_and_ignores_duplicates() {
    let mut registry = registry_with(&["www.heise.de", "ldap-db-tkom.tv"]);
    registry.add_name("www.heise.de".to_string());
    assert_eq!(registry.len(), 2);
    assert_eq!(registry.name_at(0), "www.heise.de");
    assert_eq!(registry.name_at(1), "ldap-db-tkom.tv");
    assert_eq!(registry.get("ldap-db-tkom.tv"), Some(Metrics::new()));
    assert_eq!(registry.get("unknown.example"), None);
}

#[test]
fn set_min_max_tracks_extremes() {
    let mut registry = registry_with(&["a.example", "b.example"]);
    Metrics::set_min_max(&mut registry, "a.example", 637);
    Metrics::set_min_max(&mut registry, "a.example", 1158);
    Metrics::set_min_max(&mut registry, "a.example", 900);
    let a = registry.get("a.example").unwrap();
    assert_eq!(a.min, 637);
    assert_eq!(a.max, 1158);
    assert_eq!(a.failure_count, 0);
    assert_eq!(registry.get("b.example"), Some(Metrics::new()));
}

#[test]
fn failure_counts_and_tracks_extremes() {
    let mut registry = registry_with(&["a.example"]);
    Metrics::set_min_max_and_increment_counter(&mut registry, "a.example", 500);
    Metrics::set_min_max_and_increment_counter(&mut registry, "a.example", 300);
    let a = registry.get("a.example").unwrap();
    assert_eq!(a.failure_count, 2);
    assert_eq!(a.min, 300);
    assert_eq!(a.max, 500);
}

#[test]
fn average_accumulates() {
    let mut registry = registry_with(&["a.example"]);
    Metrics::average(&mut registry, "a.example", 600);
    Metrics::average(&mut registry, "a.example", 1244);
    let a = registry.get("a.example").unwrap();
    assert_eq!(a.sum, 1844);
    assert_eq!(a.average_count, 2);
}

#[test]
fn unknown_name_changes_nothing() {
    let mut registry = registry_with(&["a.example"]);
    Metrics::set_min_max(&mut registry, "b.example", 5);
    Metrics::set_min_max_and_increment_counter(&mut registry, "b.example", 5);
    Metrics::average(&mut registry, "b.example", 5);
    assert_eq!(registry.len(), 1);
    assert_eq!(registry.get("a.example"), Some(Metrics::new()));
    assert_eq!(registry.get("b.example"), None);
}

#[test]
fn resolved_lookup_strips_port() {
    let mut registry = registry_with(&["www.heise.de"]);
    let (duration, ip) =
        record_lookup(&mut registry, "www.heise.de", Some("193.99.144.85:42".to_string()), 586);
    assert_eq!(duration, 586);
    assert_eq!(ip, "193.99.144.85");
    let m = registry.get("www.heise.de").unwrap();
    assert_eq!(m.min, 586);
    assert_eq!(m.max, 586);
    assert_eq!(m.failure_count, 0);
}

#[test]
fn resolved_ipv6_lookup_strips_port() {
    let mut registry = registry_with(&["localhost"]);
    let (_, ip) = record_lookup(&mut registry, "localhost", Some("[::1]:42".to_string()), 10);
    assert_eq!(ip, "[::1]");
}

#[test]
fn failed_lookup_reports_not_found() {
    let mut registry = registry_with(&["SOABP-PRD.de.ai"]);
    let (duration, ip) = record_lookup(&mut registry, "SOABP-PRD.de.ai", None, 82415);
    assert_eq!(duration, 82415);
    assert_eq!(ip, "NOT_FOUND");
    let m = registry.get("SOABP-PRD.de.ai").unwrap();
    assert_eq!(m.failure_count, 1);
    assert_eq!(m.min, 82415);
    assert_eq!(m.max, 82415);
}

#[test]
fn lookups_summarised_on_values() {
    // failures, count, sum, minimum and maximum after a series of lookups
    let mut registry = registry_with(&["h.example"]);
    let outcomes = [(true, 700u64), (false, 4000u64), (true, 250u64), (false, 900u64)];
    for (ok, took) in outcomes {
        let resolved = if ok { Some("10.0.0.1:42".to_string()) } else { None };
        record_lookup(&mut registry, "h.example", resolved, took);
        Metrics::average(&mut registry, "h.example", took);
    }
    let m = registry.get("h.example").unwrap();
    assert_eq!(m.failure_count, 2);
    assert_eq!(m.average_count, 4);
    assert_eq!(m.sum, 5850);
    assert_eq!(m.min, 250);
    assert_eq!(m.max, 4000);
}

#[test]
fn clear_all_resets_every_name() {
    let mut registry = registry_with(&["a.example", "b.example"]);
    Metrics::set_min_max(&mut registry, "a.example", 12);
    Metrics::average(&mut registry, "b.example", 30);
    registry.clear_all();
    assert_eq!(registry.len(), 2);
    assert_eq!(registry.metrics_at(0), Metrics::new());
    assert_eq!(registry.metrics_at(1), Metrics::new());
    assert_eq!(registry.name_at(1), "b.example");
}

#[test]
fn decimal_text_of_numbers() {
    assert_eq!(decimal_text(0), "0");
    assert_eq!(decimal_text(7), "7");
    assert_eq!(decimal_text(10), "10");
    assert_eq!(decimal_text(1234567890), "1234567890");
    assert_eq!(decimal_text(u64::MAX), "18446744073709551615");
}
