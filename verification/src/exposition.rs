use vstd::prelude::*;
use vstd::utf8::encode_utf8;

use crate::decimal::{decimal, decimal_value, is_digit, lemma_decimal_denotes, push_decimal};
use crate::metrics::{fresh, Metrics};
use crate::registry::{cleared, Entry, MetricsRegistry};

verus! {

pub const HELP_FAILURE: &'static str = "# HELP yodaforce_application_de_codecoverage_crm_dns_monitor_dnsMonitor_failurecounter Custom metric returning the failures per dns name.\n";

pub const TYPE_FAILURE: &'static str = "# TYPE yodaforce_application_de_codecoverage_crm_dns_monitor_dnsMonitor_failurecounter gauge\n";

pub const FAILURE_SAMPLE: &'static str = "yodaforce_application_de_codecoverage_crm_dns_monitor_dnsMonitor_failurecounter{dns=\"";

pub const HELP_MIN: &'static str = "# HELP yodaforce_application_de_codecoverage_crm_dns_monitor_dnsMonitor_min Custom metric returning the min time in microseconds per dns name.\n";

pub const TYPE_MIN: &'static str = "# TYPE yodaforce_application_de_codecoverage_crm_dns_monitor_dnsMonitor_min gauge\n";

pub const MIN_SAMPLE: &'static str = "yodaforce_application_de_codecoverage_crm_dns_monitor_dnsMonitor_min{dns=\"";

pub const HELP_MAX: &'static str = "# HELP yodaforce_application_de_codecoverage_crm_dns_monitor_dnsMonitor_max Custom metric returning the max time in microseconds per dns name.\n";

pub const TYPE_MAX: &'static str = "# TYPE yodaforce_application_de_codecoverage_crm_dns_monitor_dnsMonitor_max gauge\n";

pub const MAX_SAMPLE: &'static str = "yodaforce_application_de_codecoverage_crm_dns_monitor_dnsMonitor_max{dns=\"";

pub const HELP_AVERAGE: &'static str = "# HELP yodaforce_application_de_codecoverage_crm_dns_monitor_dnsMonitor_average Custom metric returning the average time in microseconds per dns name.\n";

pub const TYPE_AVERAGE: &'static str = "# TYPE yodaforce_application_de_codecoverage_crm_dns_monitor_dnsMonitor_average gauge\n";

pub const AVERAGE_SAMPLE: &'static str = "yodaforce_application_de_codecoverage_crm_dns_monitor_dnsMonitor_average{dns=\"";

/// Closes the label set of a sample and separates it from the value.
pub const LABEL_END: &'static str = "\"} ";

pub const NEWLINE: &'static str = "\n";

/// The status line and fixed headers of every answer.
pub const STATUS_LINE: &'static str = "HTTP/1.1 200 OK\r\nConnection: close\r\nContent-Type: text/plain";

pub const CONTENT_LENGTH: &'static str = "\r\nContent-Length: ";

pub const HEADER_END: &'static str = "\r\n\r\n";

/// The only request line that is answered with the metrics.
pub const METRICS_REQUEST: &'static str = "GET /metrics HTTP/1.1";

/// The body of the answer to any other request.
pub const NOTHING_TO_SEE: &'static str = "There's nothing to see here.";

/// A sample line: `start`, the DNS name, the closing of the labels, `value`, a newline.
pub open spec fn sample(start: Seq<char>, name: Seq<char>, value: Seq<char>) -> Seq<char> {
    start + name + LABEL_END@ + value + NEWLINE@
}

/// A minimum was recorded since the last scrape.
pub open spec fn has_min(m: Metrics) -> bool {
    m.min != u64::MAX
}

/// The average `sum / average_count` is a number (not `0 / 0`).
pub open spec fn has_average(m: Metrics) -> bool {
    !(m.sum == 0 && m.average_count == 0)
}

/// The failure-counter samples of all entries, in order.
pub open spec fn failure_lines(entries: Seq<Entry>) -> Seq<char>
    decreases entries.len(),
{
    if entries.len() == 0 {
        Seq::empty()
    } else {
        let e = entries.last();
        failure_lines(entries.drop_last()) + sample(
            FAILURE_SAMPLE@,
            e.0,
            decimal(e.1.failure_count as nat),
        )
    }
}

/// The minimum samples of the entries that have a minimum, in order.
pub open spec fn min_lines(entries: Seq<Entry>) -> Seq<char>
    decreases entries.len(),
{
    if entries.len() == 0 {
        Seq::empty()
    } else {
        let e = entries.last();
        min_lines(entries.drop_last()) + if has_min(e.1) {
            sample(MIN_SAMPLE@, e.0, decimal(e.1.min as nat))
        } else {
            Seq::empty()
        }
    }
}

/// The maximum samples of all entries, in order.
pub open spec fn max_lines(entries: Seq<Entry>) -> Seq<char>
    decreases entries.len(),
{
    if entries.len() == 0 {
        Seq::empty()
    } else {
        let e = entries.last();
        max_lines(entries.drop_last()) + sample(MAX_SAMPLE@, e.0, decimal(e.1.max as nat))
    }
}

/// The average samples of the entries that have an average, in order; the
/// value of the `i`-th entry is the text `averages[i]`.
pub open spec fn average_lines(entries: Seq<Entry>, averages: Seq<Seq<char>>) -> Seq<char>
    decreases entries.len(),
{
    if entries.len() == 0 {
        Seq::empty()
    } else {
        let e = entries.last();
        average_lines(entries.drop_last(), averages) + if has_average(e.1) {
            sample(AVERAGE_SAMPLE@, e.0, averages[entries.len() - 1])
        } else {
            Seq::empty()
        }
    }
}

/// Some entry has a minimum.
pub open spec fn any_min(entries: Seq<Entry>) -> bool {
    exists|i: int| 0 <= i < entries.len() && has_min(#[trigger] entries[i].1)
}

/// Some entry has an average.
pub open spec fn any_average(entries: Seq<Entry>) -> bool {
    exists|i: int| 0 <= i < entries.len() && has_average(#[trigger] entries[i].1)
}

/// The metrics page: the failure counters, then the minimums (if any),
/// the maximums, and the averages (if any), each group under its own HELP
/// and TYPE lines.
pub open spec fn metrics_page(entries: Seq<Entry>, averages: Seq<Seq<char>>) -> Seq<char> {
    HELP_FAILURE@ + TYPE_FAILURE@ + failure_lines(entries) + (if any_min(entries) {
        HELP_MIN@ + TYPE_MIN@ + min_lines(entries)
    } else {
        Seq::empty()
    }) + HELP_MAX@ + TYPE_MAX@ + max_lines(entries) + (if any_average(entries) {
        HELP_AVERAGE@ + TYPE_AVERAGE@ + average_lines(entries, averages)
    } else {
        Seq::empty()
    })
}

/// The number of bytes of the UTF-8 encoding of `text`, as `str::len` gives it.
pub open spec fn byte_len(text: Seq<char>) -> nat {
    (encode_utf8(text).len() as usize) as nat
}

/// An HTTP answer carrying `body`, whose Content-Length is the number of
/// bytes of the UTF-8 encoding of `body`.
pub open spec fn http_answer(body: Seq<char>) -> Seq<char> {
    STATUS_LINE@ + CONTENT_LENGTH@ + decimal(byte_len(body)) + HEADER_END@ + body
}

/// A sample of value `0` for the name of every entry, in order.
pub open spec fn zero_lines(start: Seq<char>, entries: Seq<Entry>) -> Seq<char>
    decreases entries.len(),
{
    if entries.len() == 0 {
        Seq::empty()
    } else {
        zero_lines(start, entries.drop_last()) + sample(start, entries.last().0, decimal(0))
    }
}

/// Failure and maximum samples of cleared entries are zero samples.
proof fn lemma_cleared_lines(entries: Seq<Entry>)
    ensures
        failure_lines(cleared(entries)) == zero_lines(FAILURE_SAMPLE@, entries),
        max_lines(cleared(entries)) == zero_lines(MAX_SAMPLE@, entries),
    decreases entries.len(),
{
    if entries.len() > 0 {
        lemma_cleared_lines(entries.drop_last());
        assert(cleared(entries).drop_last() =~= cleared(entries.drop_last()));
    }
}

/// A scrape resets the statistics, so the page of the next scrape, with no
/// lookup in between, shows every name with zero failures and a zero
/// maximum, and neither minimums nor averages.
pub proof fn lemma_page_after_scrape(entries: Seq<Entry>, averages: Seq<Seq<char>>)
    ensures
        metrics_page(cleared(entries), averages) == HELP_FAILURE@ + TYPE_FAILURE@ + zero_lines(
            FAILURE_SAMPLE@,
            entries,
        ) + HELP_MAX@ + TYPE_MAX@ + zero_lines(MAX_SAMPLE@, entries),
{
    let c = cleared(entries);
    lemma_cleared_lines(entries);
    assert(!any_min(c)) by {
        if any_min(c) {
            let k = choose|k: int| 0 <= k < c.len() && has_min(#[trigger] c[k].1);
            assert(c[k].1 == fresh());
        }
    }
    assert(!any_average(c)) by {
        if any_average(c) {
            let k = choose|k: int| 0 <= k < c.len() && has_average(#[trigger] c[k].1);
            assert(c[k].1 == fresh());
        }
    }
    assert(metrics_page(c, averages) =~= HELP_FAILURE@ + TYPE_FAILURE@ + zero_lines(
        FAILURE_SAMPLE@,
        entries,
    ) + HELP_MAX@ + TYPE_MAX@ + zero_lines(MAX_SAMPLE@, entries));
}

/// `part` occurs as a contiguous piece of `text`.
pub open spec fn occurs_in(part: Seq<char>, text: Seq<char>) -> bool {
    exists|k: int|
        0 <= k && k + part.len() <= text.len() && #[trigger] text.subrange(k, k + part.len())
            == part
}

/// A text occurs in itself.
proof fn lemma_occurs_in_itself(part: Seq<char>)
    ensures
        occurs_in(part, part),
{
    assert(part.subrange(0, 0int + part.len()) =~= part);
}

/// What occurs in either half of a concatenation occurs in the whole.
proof fn lemma_occurs_in_concat(part: Seq<char>, a: Seq<char>, b: Seq<char>)
    ensures
        occurs_in(part, a) ==> occurs_in(part, a + b),
        occurs_in(part, b) ==> occurs_in(part, a + b),
{
    let whole = a + b;
    if occurs_in(part, a) {
        let k = choose|k: int|
            0 <= k && k + part.len() <= a.len() && #[trigger] a.subrange(k, k + part.len())
                == part;
        assert(whole.subrange(k, k + part.len()) =~= a.subrange(k, k + part.len()));
    }
    if occurs_in(part, b) {
        let k = choose|k: int|
            0 <= k && k + part.len() <= b.len() && #[trigger] b.subrange(k, k + part.len())
                == part;
        let j = k + a.len();
        assert(whole.subrange(j, j + part.len()) =~= b.subrange(k, k + part.len()));
    }
}

/// The failure sample of every entry occurs among the failure lines.
proof fn lemma_failure_line_occurs(entries: Seq<Entry>, i: int)
    requires
        0 <= i < entries.len(),
    ensures
        occurs_in(
            FAILURE_SAMPLE@ + entries[i].0 + LABEL_END@ + decimal(entries[i].1.failure_count as nat)
                + NEWLINE@,
            failure_lines(entries),
        ),
    decreases entries.len(),
{
    let part = FAILURE_SAMPLE@ + entries[i].0 + LABEL_END@ + decimal(
        entries[i].1.failure_count as nat,
    ) + NEWLINE@;
    let prefix = entries.drop_last();
    let last = sample(FAILURE_SAMPLE@, entries.last().0, decimal(entries.last().1.failure_count as nat));
    assert(failure_lines(entries) == failure_lines(prefix) + last);
    if i == entries.len() - 1 {
        lemma_occurs_in_itself(part);
    } else {
        lemma_failure_line_occurs(prefix, i);
        assert(prefix[i] == entries[i]);
    }
    lemma_occurs_in_concat(part, failure_lines(prefix), last);
}

/// The maximum sample of every entry occurs among the maximum lines.
proof fn lemma_max_line_occurs(entries: Seq<Entry>, i: int)
    requires
        0 <= i < entries.len(),
    ensures
        occurs_in(
            MAX_SAMPLE@ + entries[i].0 + LABEL_END@ + decimal(entries[i].1.max as nat) + NEWLINE@,
            max_lines(entries),
        ),
    decreases entries.len(),
{
    let part = MAX_SAMPLE@ + entries[i].0 + LABEL_END@ + decimal(entries[i].1.max as nat)
        + NEWLINE@;
    let prefix = entries.drop_last();
    let last = sample(MAX_SAMPLE@, entries.last().0, decimal(entries.last().1.max as nat));
    assert(max_lines(entries) == max_lines(prefix) + last);
    if i == entries.len() - 1 {
        lemma_occurs_in_itself(part);
    } else {
        lemma_max_line_occurs(prefix, i);
        assert(prefix[i] == entries[i]);
    }
    lemma_occurs_in_concat(part, max_lines(prefix), last);
}

/// The minimum sample of every entry with a minimum occurs among the minimum lines.
proof fn lemma_min_line_occurs(entries: Seq<Entry>, i: int)
    requires
        0 <= i < entries.len(),
        entries[i].1.min != u64::MAX,
    ensures
        occurs_in(
            MIN_SAMPLE@ + entries[i].0 + LABEL_END@ + decimal(entries[i].1.min as nat) + NEWLINE@,
            min_lines(entries),
        ),
    decreases entries.len(),
{
    let part = MIN_SAMPLE@ + entries[i].0 + LABEL_END@ + decimal(entries[i].1.min as nat)
        + NEWLINE@;
    let prefix = entries.drop_last();
    let e = entries.last();
    let last = if has_min(e.1) {
        sample(MIN_SAMPLE@, e.0, decimal(e.1.min as nat))
    } else {
        Seq::empty()
    };
    assert(min_lines(entries) == min_lines(prefix) + last);
    if i == entries.len() - 1 {
        lemma_occurs_in_itself(part);
    } else {
        lemma_min_line_occurs(prefix, i);
        assert(prefix[i] == entries[i]);
    }
    lemma_occurs_in_concat(part, min_lines(prefix), last);
}

/// The average sample of every entry with an average occurs among the average lines.
proof fn lemma_average_line_occurs(entries: Seq<Entry>, averages: Seq<Seq<char>>, i: int)
    requires
        0 <= i < entries.len(),
        !(entries[i].1.sum == 0 && entries[i].1.average_count == 0),
    ensures
        occurs_in(
            AVERAGE_SAMPLE@ + entries[i].0 + LABEL_END@ + averages[i] + NEWLINE@,
            average_lines(entries, averages),
        ),
    decreases entries.len(),
{
    let part = AVERAGE_SAMPLE@ + entries[i].0 + LABEL_END@ + averages[i] + NEWLINE@;
    let prefix = entries.drop_last();
    let e = entries.last();
    let last = if has_average(e.1) {
        sample(AVERAGE_SAMPLE@, e.0, averages[entries.len() - 1])
    } else {
        Seq::empty()
    };
    assert(average_lines(entries, averages) == average_lines(prefix, averages) + last);
    if i == entries.len() - 1 {
        lemma_occurs_in_itself(part);
    } else {
        lemma_average_line_occurs(prefix, averages, i);
        assert(prefix[i] == entries[i]);
    }
    lemma_occurs_in_concat(part, average_lines(prefix, averages), last);
}

/// Every monitored name is on the metrics page: a failure-counter sample and
/// a maximum sample carrying its failure count and maximum in decimal; where
/// the name has a minimum, the minimum group with a sample of its minimum
/// (whatever the other names hold); where the name has an average (its sum
/// and count are not both zero), the average group with a sample of its
/// average text.
pub proof fn lemma_page_shows_every_name(
    entries: Seq<Entry>,
    averages: Seq<Seq<char>>,
    i: int,
)
    requires
        0 <= i < entries.len(),
    ensures
        occurs_in(
            FAILURE_SAMPLE@ + entries[i].0 + LABEL_END@ + decimal(entries[i].1.failure_count as nat)
                + NEWLINE@,
            metrics_page(entries, averages),
        ),
        occurs_in(
            MAX_SAMPLE@ + entries[i].0 + LABEL_END@ + decimal(entries[i].1.max as nat) + NEWLINE@,
            metrics_page(entries, averages),
        ),
        entries[i].1.min != u64::MAX ==> occurs_in(
            HELP_MIN@ + TYPE_MIN@,
            metrics_page(entries, averages),
        ) && occurs_in(
            MIN_SAMPLE@ + entries[i].0 + LABEL_END@ + decimal(entries[i].1.min as nat) + NEWLINE@,
            metrics_page(entries, averages),
        ),
        !(entries[i].1.sum == 0 && entries[i].1.average_count == 0) ==> occurs_in(
            HELP_AVERAGE@ + TYPE_AVERAGE@,
            metrics_page(entries, averages),
        ) && occurs_in(
            AVERAGE_SAMPLE@ + entries[i].0 + LABEL_END@ + averages[i] + NEWLINE@,
            metrics_page(entries, averages),
        ),
{
    let min_group = if any_min(entries) {
        HELP_MIN@ + TYPE_MIN@ + min_lines(entries)
    } else {
        Seq::empty()
    };
    let average_group = if any_average(entries) {
        HELP_AVERAGE@ + TYPE_AVERAGE@ + average_lines(entries, averages)
    } else {
        Seq::empty()
    };
    let s1 = HELP_FAILURE@ + TYPE_FAILURE@;
    let s2 = s1 + failure_lines(entries);
    let s3 = s2 + min_group;
    let s4 = s3 + HELP_MAX@;
    let s5 = s4 + TYPE_MAX@;
    let s6 = s5 + max_lines(entries);
    let page = s6 + average_group;
    assert(page == metrics_page(entries, averages));

    // Each sample travels from its group to the whole page.
    let parts = seq![
        FAILURE_SAMPLE@ + entries[i].0 + LABEL_END@ + decimal(entries[i].1.failure_count as nat)
            + NEWLINE@,
        MAX_SAMPLE@ + entries[i].0 + LABEL_END@ + decimal(entries[i].1.max as nat) + NEWLINE@,
        MIN_SAMPLE@ + entries[i].0 + LABEL_END@ + decimal(entries[i].1.min as nat) + NEWLINE@,
        HELP_MIN@ + TYPE_MIN@,
        AVERAGE_SAMPLE@ + entries[i].0 + LABEL_END@ + averages[i] + NEWLINE@,
        HELP_AVERAGE@ + TYPE_AVERAGE@,
    ];

    lemma_failure_line_occurs(entries, i);
    lemma_occurs_in_concat(parts[0], s1, failure_lines(entries));
    lemma_occurs_in_concat(parts[0], s2, min_group);
    lemma_occurs_in_concat(parts[0], s3, HELP_MAX@);
    lemma_occurs_in_concat(parts[0], s4, TYPE_MAX@);
    lemma_occurs_in_concat(parts[0], s5, max_lines(entries));
    lemma_occurs_in_concat(parts[0], s6, average_group);

    lemma_max_line_occurs(entries, i);
    lemma_occurs_in_concat(parts[1], s5, max_lines(entries));
    lemma_occurs_in_concat(parts[1], s6, average_group);

    if entries[i].1.min != u64::MAX {
        assert(has_min(entries[i].1));
        assert(any_min(entries));
        let head = HELP_MIN@ + TYPE_MIN@;
        assert(min_group == head + min_lines(entries));
        lemma_min_line_occurs(entries, i);
        lemma_occurs_in_concat(parts[2], head, min_lines(entries));
        lemma_occurs_in_itself(head);
        lemma_occurs_in_concat(head, head, min_lines(entries));
        lemma_occurs_in_concat(parts[2], s2, min_group);
        lemma_occurs_in_concat(head, s2, min_group);
        lemma_occurs_in_concat(parts[2], s3, HELP_MAX@);
        lemma_occurs_in_concat(head, s3, HELP_MAX@);
        lemma_occurs_in_concat(parts[2], s4, TYPE_MAX@);
        lemma_occurs_in_concat(head, s4, TYPE_MAX@);
        lemma_occurs_in_concat(parts[2], s5, max_lines(entries));
        lemma_occurs_in_concat(head, s5, max_lines(entries));
        lemma_occurs_in_concat(parts[2], s6, average_group);
        lemma_occurs_in_concat(head, s6, average_group);
    }

    if !(entries[i].1.sum == 0 && entries[i].1.average_count == 0) {
        assert(has_average(entries[i].1));
        assert(any_average(entries));
        let head = HELP_AVERAGE@ + TYPE_AVERAGE@;
        assert(average_group == head + average_lines(entries, averages));
        lemma_average_line_occurs(entries, averages, i);
        lemma_occurs_in_concat(parts[4], head, average_lines(entries, averages));
        lemma_occurs_in_itself(head);
        lemma_occurs_in_concat(head, head, average_lines(entries, averages));
        lemma_occurs_in_concat(parts[4], s6, average_group);
        lemma_occurs_in_concat(head, s6, average_group);
    }
}

/// The Content-Length field of an answer reads back as the byte length of
/// its body: the answer is the status line and the Content-Length name, then
/// a field of decimal digits without leading zero whose value is the number
/// of bytes of the UTF-8 encoding of the body, then the end of the headers
/// and the body.
pub proof fn lemma_content_length_reads_back(body: Seq<char>)
    ensures
        ({
            let answer = http_answer(body);
            let start = (STATUS_LINE@ + CONTENT_LENGTH@).len() as int;
            let end = answer.len() - (HEADER_END@ + body).len();
            let field = answer.subrange(start, end);
            &&& start < end
            &&& answer.subrange(0, start) == STATUS_LINE@ + CONTENT_LENGTH@
            &&& answer.subrange(end, answer.len() as int) == HEADER_END@ + body
            &&& forall|k: int| 0 <= k < field.len() ==> is_digit(#[trigger] field[k])
            &&& field[0] == '0' ==> byte_len(body) == 0
            &&& decimal_value(field) == byte_len(body)
        }),
{
    let digits = decimal(byte_len(body));
    lemma_decimal_denotes(byte_len(body));
    let head = STATUS_LINE@ + CONTENT_LENGTH@;
    let tail = HEADER_END@ + body;
    let answer = http_answer(body);
    assert(answer =~= head + digits + tail);
    let start = head.len() as int;
    let end = answer.len() - tail.len();
    assert(answer.subrange(0, start) =~= head);
    assert(answer.subrange(start, end) =~= digits);
    assert(answer.subrange(end, answer.len() as int) =~= tail);
}

/// Renders the metrics page of `registry`. `averages[i]` is the text of the
/// average lookup time of the `i`-th entry; it is printed only for the
/// entries that have an average.
pub fn render_metrics(registry: &MetricsRegistry, averages: &Vec<String>) -> (page: String)
    requires
        averages@.len() == registry@.len(),
    ensures
        page@ == metrics_page(registry@, averages.deep_view()),
{
    let ghost entries = registry@;
    let ghost avgs = averages.deep_view();
    let n = registry.len();
    let mut failures = String::new();
    let mut mins = String::new();
    let mut maxs = String::new();
    let mut avg_text = String::new();
    let mut found_min = false;
    let mut found_average = false;
    let mut i: usize = 0;
    while i < n
        invariant
            n == entries.len(),
            entries == registry@,
            avgs == averages.deep_view(),
            averages@.len() == n,
            i <= n,
            failures@ == failure_lines(entries.take(i as int)),
            mins@ == min_lines(entries.take(i as int)),
            maxs@ == max_lines(entries.take(i as int)),
            avg_text@ == average_lines(entries.take(i as int), avgs),
            found_min == any_min(entries.take(i as int)),
            found_average == any_average(entries.take(i as int)),
        decreases n - i,
    {
        let ghost prefix = entries.take(i as int);
        let ghost next = entries.take(i + 1);
        assert(next.drop_last() =~= prefix);
        assert(next.last() == entries[i as int]);
        let name = registry.name_at(i);
        let m = registry.metrics_at(i);

        failures.append(FAILURE_SAMPLE);
        failures.append(name.as_str());
        failures.append(LABEL_END);
        push_decimal(&mut failures, m.failure_count);
        failures.append(NEWLINE);

        if m.min != u64::MAX {
            mins.append(MIN_SAMPLE);
            mins.append(name.as_str());
            mins.append(LABEL_END);
            push_decimal(&mut mins, m.min);
            mins.append(NEWLINE);
            found_min = true;
            assert(has_min(next[i as int].1));
        } else {
            assert(mins@ =~= min_lines(next));
            assert(any_min(next) == any_min(prefix)) by {
                if any_min(next) {
                    let k = choose|k: int| 0 <= k < next.len() && has_min(#[trigger] next[k].1);
                    assert(prefix[k] == next[k]);
                }
            }
        }

        maxs.append(MAX_SAMPLE);
        maxs.append(name.as_str());
        maxs.append(LABEL_END);
        push_decimal(&mut maxs, m.max);
        maxs.append(NEWLINE);

        if !(m.sum == 0 && m.average_count == 0) {
            avg_text.append(AVERAGE_SAMPLE);
            avg_text.append(name.as_str());
            avg_text.append(LABEL_END);
            avg_text.append(averages[i].as_str());
            avg_text.append(NEWLINE);
            found_average = true;
            assert(has_average(next[i as int].1));
        } else {
            assert(avg_text@ =~= average_lines(next, avgs));
            assert(any_average(next) == any_average(prefix)) by {
                if any_average(next) {
                    let k = choose|k: int|
                        0 <= k < next.len() && has_average(#[trigger] next[k].1);
                    assert(prefix[k] == next[k]);
                }
            }
        }
        proof {
            assert(failures@ =~= failure_lines(next));
            assert(mins@ =~= min_lines(next));
            assert(maxs@ =~= max_lines(next));
            assert(avg_text@ =~= average_lines(next, avgs));
            if found_min && !any_min(prefix) {
                assert(any_min(next));
            }
            if any_min(prefix) {
                let k = choose|k: int| 0 <= k < prefix.len() && has_min(#[trigger] prefix[k].1);
                assert(next[k] == prefix[k]);
            }
            if any_average(prefix) {
                let k = choose|k: int|
                    0 <= k < prefix.len() && has_average(#[trigger] prefix[k].1);
                assert(next[k] == prefix[k]);
            }
        }
        i = i + 1;
    }
    assert(entries.take(n as int) =~= entries);

    let mut page = String::new();
    page.append(HELP_FAILURE);
    page.append(TYPE_FAILURE);
    page.append(failures.as_str());
    if found_min {
        page.append(HELP_MIN);
        page.append(TYPE_MIN);
        page.append(mins.as_str());
    }
    page.append(HELP_MAX);
    page.append(TYPE_MAX);
    page.append(maxs.as_str());
    if found_average {
        page.append(HELP_AVERAGE);
        page.append(TYPE_AVERAGE);
        page.append(avg_text.as_str());
    }
    assert(page@ =~= metrics_page(entries, avgs));
    page
}

/// Frames `body` as an HTTP answer.
pub fn http_response(body: &str) -> (answer: String)
    ensures
        answer@ == http_answer(body@),
{
    let length = body.len();
    let mut answer = String::new();
    answer.append(STATUS_LINE);
    answer.append(CONTENT_LENGTH);
    push_decimal(&mut answer, length as u64);
    answer.append(HEADER_END);
    answer.append(body);
    assert(answer@ =~= http_answer(body@));
    answer
}

/// Answers one request line. `GET /metrics HTTP/1.1` gets the metrics page
/// of `registry`, after which every statistics is reset; any other line gets
/// a fixed text and leaves the registry as it is. `averages[i]` is the text
/// of the average lookup time of the `i`-th entry.
pub fn handle_http_request(
    registry: &mut MetricsRegistry,
    request_line: &str,
    averages: &Vec<String>,
) -> (answer: String)
    requires
        request_line@ == METRICS_REQUEST@ ==> averages@.len() == old(registry)@.len(),
    ensures
        request_line@ == METRICS_REQUEST@ ==> answer@ == http_answer(
            metrics_page(old(registry)@, averages.deep_view()),
        ) && final(registry)@ == cleared(old(registry)@),
        request_line@ != METRICS_REQUEST@ ==> answer@ == http_answer(NOTHING_TO_SEE@)
            && final(registry)@ == old(registry)@,
{
    let line = request_line.to_owned();
    let wanted = METRICS_REQUEST.to_owned();
    if line == wanted {
        let page = render_metrics(registry, averages);
        let answer = http_response(page.as_str());
        registry.clear_all();
        answer
    } else {
        http_response(NOTHING_TO_SEE)
    }
}

} // verus!
