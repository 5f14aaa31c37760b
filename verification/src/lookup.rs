use vstd::prelude::*;

use crate::metrics::{with_extremes, with_failure, Metrics};
use crate::registry::{lookup, update_named, MetricsRegistry};

verus! {

/// What a lookup that resolved to no address reports in place of one.
pub const NOT_FOUND: &'static str = "NOT_FOUND";

/// Length of the port suffix (`:42`) of a resolved socket address.
pub const PORT_SUFFIX_LEN: usize = 3;

/// The address part of the text of a socket address resolved for port 42:
/// the text without its last three characters.
pub open spec fn address_part(socket_address: Seq<char>) -> Seq<char> {
    socket_address.subrange(0, socket_address.len() - 3)
}

/// Cutting the port off a socket address text keeps everything but its
/// last three characters; for the text of an address followed by `:42`,
/// it gives back exactly the address.
pub proof fn lemma_address_part(address: Seq<char>, socket_address: Seq<char>)
    ensures
        address_part(address + ":42"@) == address,
        socket_address.len() >= 3 ==> address_part(socket_address).len() == socket_address.len()
            - 3 && address_part(socket_address) + socket_address.subrange(
            socket_address.len() - 3,
            socket_address.len() as int,
        ) == socket_address,
{
    reveal_strlit(":42");
    let text = address + ":42"@;
    assert(text.subrange(0, text.len() - 3) =~= address);
    if socket_address.len() >= 3 {
        let n = socket_address.len() as int;
        assert(socket_address.subrange(0, n - 3) + socket_address.subrange(n - 3, n)
            =~= socket_address);
    }
}

/// `c` is an ASCII character.
pub open spec fn is_ascii_char(c: char) -> bool {
    (c as u32) < 128
}

/// The last three characters of `text` are ASCII, so that cutting them off
/// by characters and by bytes agree.
pub open spec fn ascii_suffix(text: Seq<char>) -> bool {
    &&& text.len() >= 3
    &&& forall|i: int| text.len() - 3 <= i < text.len() ==> is_ascii_char(#[trigger] text[i])
}

/// Records the outcome of one lookup of `dns_name` that took `duration`
/// microseconds. `resolved` is the text of the first socket address found
/// for `dns_name` on port 42, or `None` when the name did not resolve.
/// A resolved lookup can lower the minimum or raise the maximum of the name;
/// a failed one also counts a failure. Returns the duration and the address
/// without its port, or `NOT_FOUND`.
pub fn record_lookup(
    registry: &mut MetricsRegistry,
    dns_name: &str,
    resolved: Option<String>,
    duration: u64,
) -> (result: (u64, String))
    requires
        resolved matches Some(a) ==> ascii_suffix(a@),
        resolved is None ==> (lookup(old(registry)@, dns_name@) matches Some(m)
            ==> m.failure_count < u64::MAX),
    ensures
        result.0 == duration,
        resolved matches Some(a) ==> result.1@.len() == a@.len() - 3 && result.1@
            + a@.subrange(a@.len() - 3, a@.len() as int) == a@,
        resolved matches Some(a) ==> result.1@ == address_part(a@) && final(registry)@
            == update_named(old(registry)@, dns_name@, |m: Metrics| with_extremes(m, duration)),
        resolved is None ==> result.1@ == NOT_FOUND@ && final(registry)@ == update_named(
            old(registry)@,
            dns_name@,
            |m: Metrics| with_failure(m, duration),
        ),
{
    match resolved {
        Some(socket_address) => {
            let text = socket_address.as_str();
            let length = text.unicode_len();
            let address = text.substring_char(0, length - PORT_SUFFIX_LEN);
            proof {
                lemma_address_part(address@, text@);
            }
            Metrics::set_min_max(registry, dns_name, duration);
            (duration, address.to_owned())
        },
        None => {
            Metrics::set_min_max_and_increment_counter(registry, dns_name, duration);
            (duration, NOT_FOUND.to_owned())
        },
    }
}

} // verus!
