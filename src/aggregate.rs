use vstd::prelude::*;

use crate::category::System;
use crate::scan::ScanResult;
use crate::sums::{lemma_sum_concat, lemma_sum_push, sum_by};

verus! {

/// What identifies a category in the table: its directory and the shape of its items.
pub type CategoryKey = (Seq<char>, bool);

/// A tally in the mathematical model: items, then bytes.
pub type Tally = (nat, nat);

/// The table's entry for one category.
struct Slot {
    directory: String,
    dirs: bool,
    result: ScanResult,
}

spec fn slot_key(s: Slot) -> CategoryKey {
    (s.directory@, s.dirs)
}

spec fn slot_tally(s: Slot) -> Tally {
    (s.result.item_count as nat, s.result.total_bytes as nat)
}

spec fn table_of(s: Seq<Slot>) -> Map<CategoryKey, Tally>
    decreases s.len(),
{
    if s.len() == 0 {
        Map::empty()
    } else {
        table_of(s.drop_last()).insert(slot_key(s.last()), slot_tally(s.last()))
    }
}

spec fn keys_unique(s: Seq<Slot>) -> bool {
    forall|i: int, j: int|
        0 <= i < s.len() && 0 <= j < s.len() && i != j ==> slot_key(s[i]) != slot_key(s[j])
}

proof fn lemma_table_contains(s: Seq<Slot>, k: CategoryKey)
    ensures
        table_of(s).contains_key(k) <==> exists|i: int| 0 <= i < s.len() && slot_key(s[i]) == k,
    decreases s.len(),
{
    if s.len() > 0 {
        lemma_table_contains(s.drop_last(), k);
        if table_of(s.drop_last()).contains_key(k) {
            let i = choose|i: int| 0 <= i < s.len() - 1 && slot_key(s.drop_last()[i]) == k;
            assert(slot_key(s[i]) == k);
        }
        if exists|i: int| 0 <= i < s.len() && slot_key(s[i]) == k {
            let i = choose|i: int| 0 <= i < s.len() && slot_key(s[i]) == k;
            if i < s.len() - 1 {
                assert(slot_key(s.drop_last()[i]) == k);
            }
        }
    }
}

proof fn lemma_table_at(s: Seq<Slot>, i: int)
    requires
        keys_unique(s),
        0 <= i < s.len(),
    ensures
        table_of(s).contains_key(slot_key(s[i])),
        table_of(s)[slot_key(s[i])] == slot_tally(s[i]),
    decreases s.len(),
{
    if i < s.len() - 1 {
        assert(s.drop_last()[i] == s[i]);
        lemma_table_at(s.drop_last(), i);
    }
}

proof fn lemma_table_update(s: Seq<Slot>, i: int, n: Slot)
    requires
        keys_unique(s),
        0 <= i < s.len(),
        slot_key(n) == slot_key(s[i]),
    ensures
        table_of(s.update(i, n)) =~= table_of(s).insert(slot_key(n), slot_tally(n)),
        keys_unique(s.update(i, n)),
    decreases s.len(),
{
    let u = s.update(i, n);
    if i == s.len() - 1 {
        assert(u.drop_last() =~= s.drop_last());
    } else {
        assert(u.drop_last() =~= s.drop_last().update(i, n));
        lemma_table_update(s.drop_last(), i, n);
    }
}

proof fn lemma_table_push(s: Seq<Slot>, n: Slot)
    requires
        keys_unique(s),
        !table_of(s).contains_key(slot_key(n)),
    ensures
        table_of(s.push(n)) == table_of(s).insert(slot_key(n), slot_tally(n)),
        keys_unique(s.push(n)),
{
    lemma_table_contains(s, slot_key(n));
    assert(s.push(n).drop_last() =~= s);
}

/// A category's tally before a record: zero when it has none yet.
pub open spec fn prior(t: Map<CategoryKey, Tally>, k: CategoryKey) -> Tally {
    if t.contains_key(k) {
        t[k]
    } else {
        (0, 0)
    }
}

/// The table after `items` and `bytes` are added to category `k`, which is
/// created if it is not there yet.
pub open spec fn recorded(t: Map<CategoryKey, Tally>, k: CategoryKey, items: nat, bytes: nat) -> Map<
    CategoryKey,
    Tally,
> {
    t.insert(k, (prior(t, k).0 + items, prior(t, k).1 + bytes))
}

/// The record's sums fit in a `ScanResult`.
pub open spec fn record_fits(t: Map<CategoryKey, Tally>, k: CategoryKey, items: nat, bytes: nat) -> bool {
    prior(t, k).0 + items <= u32::MAX && prior(t, k).1 + bytes <= u64::MAX
}

/// One row of a report: a category and its tally.
#[derive(Debug)]
pub struct Row {
    pub system: System,
    pub result: ScanResult,
}

/// The outcome of a run: one row per scanned category in registry order, the
/// grand total of the rows, and the categories whose scan failed.
#[derive(Debug)]
pub struct Report {
    pub rows: Vec<Row>,
    pub total: ScanResult,
    pub failed: Vec<System>,
}

/// The categories of `registry` that have a tally in `t`, in registry order.
pub open spec fn report_systems(registry: Seq<System>, t: Map<CategoryKey, Tally>) -> Seq<System> {
    registry.filter(|s: System| t.contains_key(s.key()))
}

/// The categories of `registry` whose key is in `failures`, in registry order.
pub open spec fn failed_systems(registry: Seq<System>, failures: Set<CategoryKey>) -> Seq<System> {
    registry.filter(|s: System| failures.contains(s.key()))
}

/// Items over the tallies of `shown` in `t`.
pub open spec fn shown_items(t: Map<CategoryKey, Tally>, shown: Seq<System>) -> nat {
    sum_by(shown, |s: System| t[s.key()].0)
}

/// Bytes over the tallies of `shown` in `t`.
pub open spec fn shown_bytes(t: Map<CategoryKey, Tally>, shown: Seq<System>) -> nat {
    sum_by(shown, |s: System| t[s.key()].1)
}

/// The categories of the rows.
pub open spec fn row_systems(rows: Seq<Row>) -> Seq<System> {
    rows.map_values(|r: Row| r.system)
}

/// Items over the rows.
pub open spec fn rows_items(rows: Seq<Row>) -> nat {
    sum_by(rows, |r: Row| r.result.item_count as nat)
}

/// Bytes over the rows.
pub open spec fn rows_bytes(rows: Seq<Row>) -> nat {
    sum_by(rows, |r: Row| r.result.total_bytes as nat)
}

/// Shared table of per-category tallies, which the scans of all categories add to.
pub struct Aggregator {
    slots: Vec<Slot>,
    failed: Vec<System>,
}

impl View for Aggregator {
    type V = Map<CategoryKey, Tally>;

    closed spec fn view(&self) -> Map<CategoryKey, Tally> {
        table_of(self.slots@)
    }
}

impl Aggregator {
    /// Each category has at most one tally. `new` establishes it and every
    /// method keeps it, so every value a caller can hold satisfies it.
    pub closed spec fn wf(&self) -> bool {
        keys_unique(self.slots@)
    }

    /// The categories whose scan failed.
    pub closed spec fn failures(&self) -> Set<CategoryKey> {
        self.failed@.map_values(|s: System| s.key()).to_set()
    }

    /// An empty table, with no failures.
    pub fn new() -> (r: Aggregator)
        ensures
            r.wf(),
            r@ == Map::<CategoryKey, Tally>::empty(),
            r.failures() == Set::<CategoryKey>::empty(),
    {
        let r = Aggregator { slots: Vec::new(), failed: Vec::new() };
        assert(r.failed@.map_values(|s: System| s.key()) =~= Seq::<CategoryKey>::empty());
        r
    }

    fn find(&self, system: &System) -> (r: Option<usize>)
        ensures
            match r {
                Option::Some(i) => i < self.slots@.len() && slot_key(self.slots@[i as int])
                    == system.key(),
                Option::None => !self@.contains_key(system.key()),
            },
    {
        let mut i: usize = 0;
        while i < self.slots.len()
            invariant
                i <= self.slots@.len(),
                forall|j: int| 0 <= j < i ==> slot_key(self.slots@[j]) != system.key(),
            decreases self.slots@.len() - i,
        {
            let s = &self.slots[i];
            if s.directory == system.directory && s.dirs == system.games_are_directories {
                return Some(i);
            }
            i = i + 1;
        }
        proof {
            lemma_table_contains(self.slots@, system.key());
        }
        None
    }

    /// Adds a scan's findings to a category's tally, creating the tally at zero
    /// first if the category has none. Fails, changing nothing, when a sum would
    /// not fit in a `ScanResult`.
    pub fn record(&mut self, system: &System, found: ScanResult) -> (ok: bool)
        requires
            old(self).wf(),
        ensures
            final(self).wf(),
            ok == record_fits(
                old(self)@,
                system.key(),
                found.item_count as nat,
                found.total_bytes as nat,
            ),
            ok ==> final(self)@ == recorded(
                old(self)@,
                system.key(),
                found.item_count as nat,
                found.total_bytes as nat,
            ),
            !ok ==> final(self)@ == old(self)@,
            final(self).failures() == old(self).failures(),
    {
        match self.find(system) {
            Option::Some(i) => {
                proof {
                    lemma_table_at(self.slots@, i as int);
                }
                let cur = self.slots[i].result;
                if found.item_count > u32::MAX - cur.item_count || found.total_bytes > u64::MAX
                    - cur.total_bytes {
                    return false;
                }
                let n = Slot {
                    directory: system.directory.clone(),
                    dirs: system.games_are_directories,
                    result: ScanResult {
                        item_count: cur.item_count + found.item_count,
                        total_bytes: cur.total_bytes + found.total_bytes,
                    },
                };
                proof {
                    lemma_table_update(self.slots@, i as int, n);
                }
                self.slots.set(i, n);
                true
            },
            Option::None => {
                let n = Slot {
                    directory: system.directory.clone(),
                    dirs: system.games_are_directories,
                    result: found,
                };
                proof {
                    lemma_table_push(self.slots@, n);
                }
                self.slots.push(n);
                true
            },
        }
    }

    /// Notes that a category could not be scanned. Its tally, if any, is kept.
    pub fn record_failure(&mut self, system: &System)
        requires
            old(self).wf(),
        ensures
            final(self).wf(),
            final(self)@ == old(self)@,
            final(self).failures() == old(self).failures().insert(system.key()),
    {
        let ghost before = self.failed@;
        self.failed.push(system.clone());
        proof {
            assert(self.failed@.map_values(|s: System| s.key()) =~= before.map_values(
                |s: System| s.key(),
            ).push(system.key()));
            before.map_values(|s: System| s.key()).lemma_push_to_set_commute(system.key());
        }
    }

    /// Takes in the outcome of one category's scan: its tally, or `None` when the
    /// scan failed. A tally that cannot be added without overflow counts as a
    /// failure too.
    pub fn absorb(&mut self, system: &System, tally: Option<ScanResult>)
        requires
            old(self).wf(),
        ensures
            final(self).wf(),
            ({
                let k = system.key();
                match tally {
                    Option::Some(t) => if record_fits(
                        old(self)@,
                        k,
                        t.item_count as nat,
                        t.total_bytes as nat,
                    ) {
                        &&& final(self)@ == recorded(
                            old(self)@,
                            k,
                            t.item_count as nat,
                            t.total_bytes as nat,
                        )
                        &&& final(self).failures() == old(self).failures()
                    } else {
                        &&& final(self)@ == old(self)@
                        &&& final(self).failures() == old(self).failures().insert(k)
                    },
                    Option::None => {
                        &&& final(self)@ == old(self)@
                        &&& final(self).failures() == old(self).failures().insert(k)
                    },
                }
            }),
    {
        match tally {
            Option::Some(t) => {
                if !self.record(system, t) {
                    self.record_failure(system);
                }
            },
            Option::None => {
                self.record_failure(system);
            },
        }
    }

    fn has_failed(&self, system: &System) -> (r: bool)
        ensures
            r == self.failures().contains(system.key()),
    {
        let ghost keys = self.failed@.map_values(|s: System| s.key());
        let mut i: usize = 0;
        while i < self.failed.len()
            invariant
                i <= self.failed@.len(),
                keys == self.failed@.map_values(|s: System| s.key()),
                forall|j: int| 0 <= j < i ==> keys[j] != system.key(),
            decreases self.failed@.len() - i,
        {
            if self.failed[i] == *system {
                assert(keys[i as int] == system.key());
                assert(keys.to_set().contains(system.key()));
                return true;
            }
            i = i + 1;
        }
        assert(!keys.to_set().contains(system.key()));
        false
    }

    /// The report: for each category of `registry` that has a tally, in registry
    /// order, a row with that tally; the grand total of the rows; and the
    /// categories of `registry` that failed. `None` when the grand total does not
    /// fit in a `ScanResult`.
    pub fn snapshot(&self, registry: &Vec<System>) -> (r: Option<Report>)
        requires
            self.wf(),
        ensures
            r is Some <==> shown_items(self@, report_systems(registry@, self@)) <= u32::MAX
                && shown_bytes(self@, report_systems(registry@, self@)) <= u64::MAX,
            r is Some ==> row_systems(r->0.rows@) == report_systems(registry@, self@),
            r is Some ==> forall|i: int|
                0 <= i < r->0.rows@.len() ==> self@[#[trigger] r->0.rows@[i].system.key()] == (
                r->0.rows@[i].result.item_count as nat,
                r->0.rows@[i].result.total_bytes as nat,
            ),
            r is Some ==> r->0.total.item_count == rows_items(r->0.rows@),
            r is Some ==> r->0.total.total_bytes == rows_bytes(r->0.rows@),
            r is Some ==> r->0.failed@ == failed_systems(registry@, self.failures()),
    {
        let ghost t = self@;
        let ghost shown = |s: System| t.contains_key(s.key());
        let ghost lost = |s: System| self.failures().contains(s.key());
        let ghost fi = |s: System| t[s.key()].0;
        let ghost fb = |s: System| t[s.key()].1;
        let mut rows: Vec<Row> = Vec::new();
        let mut failed: Vec<System> = Vec::new();
        let mut items: u32 = 0;
        let mut bytes: u64 = 0;
        let mut i: usize = 0;
        while i < registry.len()
            invariant
                self.wf(),
                t == self@,
                i <= registry@.len(),
                shown == (|s: System| t.contains_key(s.key())),
                lost == (|s: System| self.failures().contains(s.key())),
                fi == (|s: System| t[s.key()].0),
                fb == (|s: System| t[s.key()].1),
                row_systems(rows@) == registry@.take(i as int).filter(shown),
                forall|j: int|
                    0 <= j < rows@.len() ==> t[#[trigger] rows@[j].system.key()] == (
                    rows@[j].result.item_count as nat,
                    rows@[j].result.total_bytes as nat,
                ),
                items == rows_items(rows@),
                bytes == rows_bytes(rows@),
                items == sum_by(registry@.take(i as int).filter(shown), fi),
                bytes == sum_by(registry@.take(i as int).filter(shown), fb),
                failed@ == registry@.take(i as int).filter(lost),
            decreases registry@.len() - i,
        {
            let s = &registry[i];
            let ghost pre = registry@.take(i as int);
            proof {
                reveal(Seq::filter);
                assert(registry@.take(i + 1).drop_last() =~= pre);
                assert(registry@.take(i + 1).last() == registry@[i as int]);
            }
            if self.has_failed(s) {
                failed.push(s.clone());
            }
            match self.find(s) {
                Option::Some(j) => {
                    proof {
                        lemma_table_at(self.slots@, j as int);
                        let next = registry@.take(i + 1).filter(shown);
                        assert(next == pre.filter(shown).push(registry@[i as int]));
                        lemma_sum_push(pre.filter(shown), registry@[i as int], fi);
                        lemma_sum_push(pre.filter(shown), registry@[i as int], fb);
                        assert(registry@ =~= registry@.take(i + 1) + registry@.skip(i + 1));
                        Seq::filter_distributes_over_add(
                            registry@.take(i + 1),
                            registry@.skip(i + 1),
                            shown,
                        );
                        lemma_sum_concat(next, registry@.skip(i + 1).filter(shown), fi);
                        lemma_sum_concat(next, registry@.skip(i + 1).filter(shown), fb);
                    }
                    let res = self.slots[j].result;
                    if res.item_count > u32::MAX - items || res.total_bytes > u64::MAX - bytes {
                        return None;
                    }
                    let ghost old_rows = rows@;
                    rows.push(Row { system: s.clone(), result: res });
                    proof {
                        assert(rows@.drop_last() =~= old_rows);
                        assert(row_systems(rows@) =~= row_systems(old_rows).push(*s));
                    }
                    items = items + res.item_count;
                    bytes = bytes + res.total_bytes;
                },
                Option::None => {},
            }
            i = i + 1;
        }
        proof {
            assert(registry@.take(i as int) =~= registry@);
        }
        Some(Report { rows, total: ScanResult { item_count: items, total_bytes: bytes }, failed })
    }
}

/// The table after the records `ops` (category, items, bytes) are applied to
/// `t` in order.
pub open spec fn apply_records(t: Map<CategoryKey, Tally>, ops: Seq<(CategoryKey, nat, nat)>) -> Map<
    CategoryKey,
    Tally,
>
    decreases ops.len(),
{
    if ops.len() == 0 {
        t
    } else {
        let o = ops.last();
        recorded(apply_records(t, ops.drop_last()), o.0, o.1, o.2)
    }
}

/// Two records, of the same category or of different ones, give the same table
/// in either order.
pub proof fn lemma_records_commute(
    t: Map<CategoryKey, Tally>,
    a: (CategoryKey, nat, nat),
    b: (CategoryKey, nat, nat),
)
    ensures
        recorded(recorded(t, a.0, a.1, a.2), b.0, b.1, b.2) == recorded(
            recorded(t, b.0, b.1, b.2),
            a.0,
            a.1,
            a.2,
        ),
{
    assert(recorded(recorded(t, a.0, a.1, a.2), b.0, b.1, b.2) =~= recorded(
        recorded(t, b.0, b.1, b.2),
        a.0,
        a.1,
        a.2,
    ));
}

proof fn lemma_apply_remove(t: Map<CategoryKey, Tally>, ops: Seq<(CategoryKey, nat, nat)>, j: int)
    requires
        0 <= j < ops.len(),
    ensures
        apply_records(t, ops) == recorded(
            apply_records(t, ops.remove(j)),
            ops[j].0,
            ops[j].1,
            ops[j].2,
        ),
    decreases ops.len(),
{
    if j == ops.len() - 1 {
        assert(ops.remove(j) =~= ops.drop_last());
    } else {
        let d = ops.drop_last();
        let o = ops.last();
        lemma_apply_remove(t, d, j);
        assert(ops.remove(j) =~= d.remove(j).push(o));
        assert(ops.remove(j).drop_last() =~= d.remove(j));
        lemma_records_commute(apply_records(t, d.remove(j)), ops[j], o);
    }
}

/// The table does not depend on the order in which the records reach it: any
/// reordering of the same records, as concurrent scans may produce, gives the
/// same tally for every category.
pub proof fn lemma_record_order_irrelevant(
    t: Map<CategoryKey, Tally>,
    a: Seq<(CategoryKey, nat, nat)>,
    b: Seq<(CategoryKey, nat, nat)>,
)
    requires
        a.to_multiset() == b.to_multiset(),
    ensures
        apply_records(t, a) == apply_records(t, b),
    decreases a.len(),
{
    broadcast use vstd::seq_lib::group_to_multiset_ensures;

    if a.len() == 0 {
        assert(a.to_multiset().len() == 0);
        assert(b.to_multiset().len() == b.len());
    } else {
        let x = a.last();
        assert(a.contains(x)) by {
            assert(a[a.len() - 1] == x);
        }
        assert(a.to_multiset().count(x) > 0);
        assert(b.contains(x));
        let j = choose|j: int| 0 <= j < b.len() && b[j] == x;
        assert(a.drop_last().push(x) =~= a);
        assert(a.drop_last().to_multiset() =~= a.to_multiset().remove(x));
        lemma_record_order_irrelevant(t, a.drop_last(), b.remove(j));
        lemma_apply_remove(t, b, j);
    }
}

/// The rows of a report follow the registry whatever the order in which the
/// categories' records arrived: reordered records give the same rows, in the
/// same order, with the same tallies.
pub proof fn lemma_report_ignores_record_order(
    registry: Seq<System>,
    t: Map<CategoryKey, Tally>,
    a: Seq<(CategoryKey, nat, nat)>,
    b: Seq<(CategoryKey, nat, nat)>,
)
    requires
        a.to_multiset() == b.to_multiset(),
    ensures
        report_systems(registry, apply_records(t, a)) == report_systems(
            registry,
            apply_records(t, b),
        ),
        forall|i: int|
            0 <= i < report_systems(registry, apply_records(t, a)).len() ==> apply_records(t, a)[
            #[trigger] report_systems(registry, apply_records(t, a))[i].key()]
                == apply_records(t, b)[report_systems(registry, apply_records(t, b))[i].key()],
{
    lemma_record_order_irrelevant(t, a, b);
}

} // verus!
