use vstd::prelude::*;

use crate::metrics::{fresh, with_duration, with_extremes, with_failure, Metrics};

verus! {

/// An entry of the registry as contracts see it: a DNS name and its statistics.
pub type Entry = (Seq<char>, Metrics);

/// No two entries carry the same name.
pub open spec fn names_distinct(entries: Seq<Entry>) -> bool {
    forall|i: int, j: int|
        0 <= i < entries.len() && 0 <= j < entries.len() && i != j ==> entries[i].0 != entries[j].0
}

/// Some entry carries `name`.
pub open spec fn has_name(entries: Seq<Entry>, name: Seq<char>) -> bool {
    exists|i: int| 0 <= i < entries.len() && entries[i].0 == name
}

/// The statistics registered under `name`, if any.
pub open spec fn lookup(entries: Seq<Entry>, name: Seq<char>) -> Option<Metrics> {
    if has_name(entries, name) {
        Some(entries[choose|i: int| 0 <= i < entries.len() && entries[i].0 == name].1)
    } else {
        None
    }
}

/// `entries` with `f` applied to the statistics of the entry named `name`;
/// every other entry, and the order, stay as they are.
pub open spec fn update_named(
    entries: Seq<Entry>,
    name: Seq<char>,
    f: spec_fn(Metrics) -> Metrics,
) -> Seq<Entry> {
    entries.map_values(|e: Entry| if e.0 == name { (e.0, f(e.1)) } else { e })
}

/// `entries` with every statistics reset, names and order kept.
pub open spec fn cleared(entries: Seq<Entry>) -> Seq<Entry> {
    entries.map_values(|e: Entry| (e.0, fresh()))
}

/// With distinct names, `lookup` finds the entry at `i` under its name.
pub proof fn lemma_lookup_index(entries: Seq<Entry>, i: int)
    requires
        names_distinct(entries),
        0 <= i < entries.len(),
    ensures
        lookup(entries, entries[i].0) == Some(entries[i].1),
{
    let name = entries[i].0;
    assert(has_name(entries, name));
    let k = choose|k: int| 0 <= k < entries.len() && entries[k].0 == name;
    assert(k == i);
}

/// Recording something for one name changes the statistics of that name by
/// `f` and nothing else: the names and their order stay, names stay
/// distinct, every other name keeps its statistics, and recording for a
/// name that is not registered changes nothing.
pub proof fn lemma_update_touches_only_name(
    entries: Seq<Entry>,
    name: Seq<char>,
    f: spec_fn(Metrics) -> Metrics,
    other: Seq<char>,
)
    requires
        names_distinct(entries),
    ensures
        update_named(entries, name, f).len() == entries.len(),
        forall|i: int|
            0 <= i < entries.len() ==> (#[trigger] update_named(entries, name, f)[i]).0
                == entries[i].0,
        names_distinct(update_named(entries, name, f)),
        lookup(update_named(entries, name, f), name) == match lookup(entries, name) {
            Some(m) => Some(f(m)),
            None => None::<Metrics>,
        },
        other != name ==> lookup(update_named(entries, name, f), other) == lookup(entries, other),
        !has_name(entries, name) ==> update_named(entries, name, f) == entries,
{
    let updated = update_named(entries, name, f);
    assert forall|i: int| 0 <= i < entries.len() implies (#[trigger] updated[i]).0
        == entries[i].0 by {}
    assert(names_distinct(updated));
    assert forall|n: Seq<char>| has_name(updated, n) == has_name(entries, n) by {
        if has_name(entries, n) {
            let k = choose|k: int| 0 <= k < entries.len() && entries[k].0 == n;
            assert(updated[k].0 == n);
        }
        if has_name(updated, n) {
            let k = choose|k: int| 0 <= k < updated.len() && updated[k].0 == n;
            assert(entries[k].0 == n);
        }
    }
    if has_name(entries, name) {
        let k = choose|k: int| 0 <= k < entries.len() && entries[k].0 == name;
        lemma_lookup_index(entries, k);
        lemma_lookup_index(updated, k);
    }
    if !has_name(entries, name) {
        assert(updated =~= entries);
    }
    if other != name && has_name(entries, other) {
        let k = choose|k: int| 0 <= k < entries.len() && entries[k].0 == other;
        lemma_lookup_index(entries, k);
        lemma_lookup_index(updated, k);
    }
}

/// Clearing keeps the names and their order, and every registered name
/// then has fresh statistics.
pub proof fn lemma_cleared_is_fresh(entries: Seq<Entry>, name: Seq<char>)
    requires
        names_distinct(entries),
    ensures
        cleared(entries).len() == entries.len(),
        forall|i: int|
            0 <= i < entries.len() ==> #[trigger] cleared(entries)[i] == (entries[i].0, fresh()),
        names_distinct(cleared(entries)),
        lookup(cleared(entries), name) == match lookup(entries, name) {
            Some(m) => Some(fresh()),
            None => None::<Metrics>,
        },
{
    let c = cleared(entries);
    assert forall|i: int| 0 <= i < entries.len() implies #[trigger] c[i] == (
    entries[i].0, fresh()) by {}
    assert(names_distinct(c));
    if has_name(c, name) {
        let k = choose|k: int| 0 <= k < c.len() && c[k].0 == name;
        assert(entries[k].0 == name);
    }
    if has_name(entries, name) {
        let k = choose|k: int| 0 <= k < entries.len() && entries[k].0 == name;
        lemma_lookup_index(entries, k);
        lemma_lookup_index(cleared(entries), k);
    }
}

/// The statistics of every monitored DNS name, in the order the names were added.
pub struct MetricsRegistry {
    names: Vec<String>,
    stats: Vec<Metrics>,
}

impl View for MetricsRegistry {
    type V = Seq<Entry>;

    closed spec fn view(&self) -> Seq<Entry> {
        Seq::new(self.names@.len(), |i: int| (self.names@[i]@, self.stats@[i]))
    }
}

impl MetricsRegistry {
    #[verifier::type_invariant]
    closed spec fn well_formed(self) -> bool {
        &&& self.names@.len() == self.stats@.len()
        &&& names_distinct(self@)
    }

    /// A registry with no name in it.
    pub fn new() -> (r: MetricsRegistry)
        ensures
            r@ == Seq::<Entry>::empty(),
    {
        let r = MetricsRegistry { names: Vec::new(), stats: Vec::new() };
        assert(r@ =~= Seq::<Entry>::empty());
        r
    }

    /// Number of registered names; no two of them are the same.
    pub fn len(&self) -> (n: usize)
        ensures
            n == self@.len(),
            names_distinct(self@),
    {
        proof {
            use_type_invariant(self);
        }
        self.names.len()
    }

    /// The name of the `i`-th entry.
    pub fn name_at(&self, i: usize) -> (name: &String)
        requires
            i < self@.len(),
        ensures
            name@ == self@[i as int].0,
    {
        proof {
            use_type_invariant(self);
        }
        &self.names[i]
    }

    /// The statistics of the `i`-th entry.
    pub fn metrics_at(&self, i: usize) -> (m: Metrics)
        requires
            i < self@.len(),
        ensures
            m == self@[i as int].1,
    {
        proof {
            use_type_invariant(self);
        }
        self.stats[i]
    }

    /// Position of the entry named `name`, if there is one.
    fn position(&self, name: &String) -> (r: Option<usize>)
        ensures
            match r {
                Some(i) => i < self@.len() && self@[i as int].0 == name@,
                None => !has_name(self@, name@),
            },
    {
        proof {
            use_type_invariant(self);
        }
        let n = self.names.len();
        let mut i: usize = 0;
        while i < n
            invariant
                n == self.names@.len(),
                self.names@.len() == self.stats@.len(),
                i <= n,
                forall|j: int| 0 <= j < i ==> self@[j].0 != name@,
            decreases n - i,
        {
            if self.names[i] == *name {
                return Some(i);
            }
            i = i + 1;
        }
        None
    }

    /// The statistics registered under `dns_name`, if any.
    pub fn get(&self, dns_name: &str) -> (r: Option<Metrics>)
        ensures
            r == lookup(self@, dns_name@),
    {
        proof {
            use_type_invariant(self);
        }
        let name = dns_name.to_owned();
        match self.position(&name) {
            Some(i) => {
                proof {
                    lemma_lookup_index(self@, i as int);
                }
                Some(self.stats[i])
            },
            None => None,
        }
    }

    /// Adds `dns_name` with fresh statistics unless it is registered already.
    pub fn add_name(&mut self, dns_name: String)
        ensures
            has_name(old(self)@, dns_name@) ==> final(self)@ == old(self)@,
            !has_name(old(self)@, dns_name@) ==> final(self)@ == old(self)@.push(
                (dns_name@, fresh()),
            ),
    {
        proof {
            use_type_invariant(&*self);
        }
        if self.position(&dns_name).is_none() {
            let ghost before = self@;
            let mut taken = MetricsRegistry::new();
            std::mem::swap(&mut taken, self);
            proof {
                use_type_invariant(&taken);
            }
            let MetricsRegistry { mut names, mut stats } = taken;
            names.push(dns_name);
            stats.push(Metrics::new());
            let ghost pushed = before.push((dns_name@, fresh()));
            assert(Seq::new(names@.len(), |k: int| (names@[k]@, stats@[k])) =~= pushed);
            assert(names_distinct(pushed)) by {
                assert forall|a: int, b: int|
                    0 <= a < pushed.len() && 0 <= b < pushed.len() && a != b implies pushed[a].0
                    != pushed[b].0 by {
                    if a < before.len() && b < before.len() {
                        assert(before[a].0 != before[b].0);
                    } else if a < before.len() {
                        assert(before[a].0 != dns_name@);
                    } else {
                        assert(before[b].0 != dns_name@);
                    }
                }
            }
            let updated = MetricsRegistry { names, stats };
            assert(updated@ =~= before.push((dns_name@, fresh())));
            *self = updated;
        }
    }

    /// Applies an update to the entry at `i`, which carries `name`.
    fn set_at(&mut self, i: usize, m: Metrics, Ghost(name): Ghost<Seq<char>>, Ghost(f): Ghost<
        spec_fn(Metrics) -> Metrics,
    >)
        requires
            i < old(self)@.len(),
            old(self)@[i as int].0 == name,
            m == f(old(self)@[i as int].1),
        ensures
            final(self)@ == update_named(old(self)@, name, f),
    {
        proof {
            use_type_invariant(&*self);
        }
        let ghost before = self@;
        let mut taken = MetricsRegistry::new();
        std::mem::swap(&mut taken, self);
        proof {
            use_type_invariant(&taken);
        }
        let MetricsRegistry { names, mut stats } = taken;
        stats.set(i, m);
        assert(Seq::new(names@.len(), |k: int| (names@[k]@, stats@[k])) =~= update_named(
            before,
            name,
            f,
        ));
        let updated = MetricsRegistry { names, stats };
        assert(updated@ =~= update_named(before, name, f));
        *self = updated;
    }
}

impl MetricsRegistry {
    /// Resets the statistics of every name; names and order stay.
    pub fn clear_all(&mut self)
        ensures
            final(self)@ == cleared(old(self)@),
    {
        proof {
            use_type_invariant(&*self);
        }
        let ghost before = self@;
        let mut taken = MetricsRegistry::new();
        std::mem::swap(&mut taken, self);
        proof {
            use_type_invariant(&taken);
        }
        let MetricsRegistry { names, stats } = taken;
        let n = stats.len();
        let mut reset: Vec<Metrics> = Vec::new();
        let mut i: usize = 0;
        while i < n
            invariant
                i <= n,
                reset@.len() == i,
                forall|k: int| 0 <= k < i ==> reset@[k] == fresh(),
            decreases n - i,
        {
            reset.push(Metrics::new());
            i = i + 1;
        }
        assert(Seq::new(names@.len(), |k: int| (names@[k]@, reset@[k])) =~= cleared(before));
        let updated = MetricsRegistry { names, stats: reset };
        *self = updated;
    }
}

impl Metrics {
    /// Lets a lookup of `took` microseconds lower the minimum or raise the
    /// maximum of `dns_name`; a name that is not registered changes nothing.
    pub fn set_min_max(registry: &mut MetricsRegistry, dns_name: &str, took: u64)
        ensures
            final(registry)@ == update_named(
                old(registry)@,
                dns_name@,
                |m: Metrics| with_extremes(m, took),
            ),
    {
        let name = dns_name.to_owned();
        match registry.position(&name) {
            Some(i) => {
                let mut m = registry.metrics_at(i);
                m.observe_extremes(took);
                registry.set_at(i, m, Ghost(name@), Ghost(|m: Metrics| with_extremes(m, took)));
            },
            None => {
                assert(update_named(old(registry)@, dns_name@, |m: Metrics| with_extremes(m, took))
                    =~= old(registry)@);
            },
        }
    }

    /// Counts a failed lookup of `took` microseconds for `dns_name` and lets it
    /// lower the minimum or raise the maximum; a name that is not registered
    /// changes nothing.
    pub fn set_min_max_and_increment_counter(
        registry: &mut MetricsRegistry,
        dns_name: &str,
        took: u64,
    )
        requires
            lookup(old(registry)@, dns_name@) matches Some(m) ==> m.failure_count < u64::MAX,
        ensures
            final(registry)@ == update_named(
                old(registry)@,
                dns_name@,
                |m: Metrics| with_failure(m, took),
            ),
    {
        proof {
            use_type_invariant(&*registry);
        }
        let name = dns_name.to_owned();
        match registry.position(&name) {
            Some(i) => {
                proof {
                    lemma_lookup_index(registry@, i as int);
                }
                let mut m = registry.metrics_at(i);
                m.observe_failure(took);
                registry.set_at(i, m, Ghost(name@), Ghost(|m: Metrics| with_failure(m, took)));
            },
            None => {
                assert(update_named(old(registry)@, dns_name@, |m: Metrics| with_failure(m, took))
                    =~= old(registry)@);
            },
        }
    }

    /// Adds a lookup of `duration` microseconds to the average of `dns_name`;
    /// a name that is not registered changes nothing.
    pub fn average(registry: &mut MetricsRegistry, dns_name: &str, duration: u64)
        requires
            lookup(old(registry)@, dns_name@) matches Some(m) ==> m.sum + duration <= u64::MAX
                && m.average_count < u64::MAX,
        ensures
            final(registry)@ == update_named(
                old(registry)@,
                dns_name@,
                |m: Metrics| with_duration(m, duration),
            ),
    {
        proof {
            use_type_invariant(&*registry);
        }
        let name = dns_name.to_owned();
        match registry.position(&name) {
            Some(i) => {
                proof {
                    lemma_lookup_index(registry@, i as int);
                }
                let mut m = registry.metrics_at(i);
                m.observe_duration(duration);
                registry.set_at(
                    i,
                    m,
                    Ghost(name@),
                    Ghost(|m: Metrics| with_duration(m, duration)),
                );
            },
            None => {
                assert(update_named(
                    old(registry)@,
                    dns_name@,
                    |m: Metrics| with_duration(m, duration),
                ) =~= old(registry)@);
            },
        }
    }
}

} // verus!
