//! Application state: the shared per-partition match counters and the state
//! assembled during startup (options, discovered partitions, counter store).
//!
//! The counters live in a concurrent map so the consumption pipeline can
//! update one key while the render loop reads a snapshot; the map itself
//! comes from the `dashmap` crate and is spoken about through `dash_counts`.

use vstd::prelude::*;
use crate::config::CliOptions;

verus! {

#[verifier::external_type_specification]
#[verifier::external_body]
#[verifier::reject_recursive_types(K)]
#[verifier::reject_recursive_types(V)]
#[verifier::reject_recursive_types(S)]
pub struct ExDashMap<K, V, S>(dashmap::DashMap<K, V, S>);

/// The concurrent map that backs the counter store.
pub type CounterMap = dashmap::DashMap<i32, u64>;

/// One snapshot entry: a partition identifier with its match count.
pub type CountEntry = (i32, u64);

/// What a counter map holds: each present partition's match count.
pub uninterp spec fn dash_counts(m: CounterMap) -> Map<int, u64>;

/// Relies on dashmap::DashMap::with_capacity: a newly created map holds no
/// entries.
#[verifier::external_body]
fn dash_with_capacity(capacity: usize) -> (r: CounterMap)
    ensures
        dash_counts(r).dom().finite(),
        forall|k: int| !dash_counts(r).contains_key(k),
{
    dashmap::DashMap::with_capacity(capacity)
}

/// Relies on dashmap::DashMap::insert: afterwards the key maps to the given
/// value and every other entry is untouched.
#[verifier::external_body]
fn dash_insert(m: &mut CounterMap, key: i32, value: u64)
    ensures
        dash_counts(*final(m)) == dash_counts(*old(m)).insert(key as int, value),
{
    m.insert(key, value);
}

/// One more match for a partition: an existing count goes up by one, a
/// partition seen for the first time enters with count 1.
pub open spec fn bumped(counts: Map<int, u64>, partition: int) -> Map<int, u64> {
    counts.insert(
        partition,
        if counts.contains_key(partition) {
            (counts[partition] + 1) as u64
        } else {
            1u64
        },
    )
}

fn bump(v: u64) -> (r: u64)
    requires
        v < u64::MAX,
    ensures
        r == v + 1,
{
    v + 1
}

/// Relies on dashmap::DashMap::entry with Entry::and_modify and
/// Entry::or_insert: the entry for the key is increased in place, or inserted
/// with count 1, atomically for that key; other entries are untouched.
#[verifier::external_body]
fn dash_increment(m: &mut CounterMap, key: i32)
    requires
        dash_counts(*old(m)).contains_key(key as int) ==> dash_counts(*old(m))[key as int]
            < u64::MAX,
    ensures
        dash_counts(*final(m)) == bumped(dash_counts(*old(m)), key as int),
{
    m.entry(key).and_modify(|v| *v = bump(*v)).or_insert(1);
}

/// Relies on dashmap::DashMap::iter: every entry is yielded exactly once with
/// its current value, in no promised order.
#[verifier::external_body]
fn dash_entries(m: &CounterMap) -> (r: Vec<CountEntry>)
    ensures
        forall|i: int, j: int| 0 <= i < j < r@.len() ==> (#[trigger] r@[i]).0 != (#[trigger] r@[j]).0,
        forall|i: int|
            0 <= i < r@.len() ==> dash_counts(*m).contains_key((#[trigger] r@[i]).0 as int)
                && r@[i].1 == dash_counts(*m)[r@[i].0 as int],
        forall|k: int|
            dash_counts(*m).contains_key(k) ==> exists|i: int|
                0 <= i < r@.len() && (#[trigger] r@[i]).0 as int == k,
{
    m.iter().map(|entry| (*entry.key(), *entry.value())).collect()
}

/// Each listed partition starts at zero, and nothing else is present.
pub open spec fn zeroed_for(counts: Map<int, u64>, partitions: Seq<i32>) -> bool {
    &&& forall|j: int|
        0 <= j < partitions.len() ==> counts.contains_key((#[trigger] partitions[j]) as int)
            && counts[partitions[j] as int] == 0
    &&& forall|k: int|
        counts.contains_key(k) ==> exists|j: int|
            0 <= j < partitions.len() && (#[trigger] partitions[j]) as int == k
}

/// A display snapshot is strictly ordered by partition identifier.
pub open spec fn sorted_by_partition(s: Seq<(i32, u64)>) -> bool {
    forall|i: int, j: int| 0 <= i < j < s.len() ==> (#[trigger] s[i]).0 < (#[trigger] s[j]).0
}

/// The snapshot reports exactly the store's entries: every listed pair is
/// present with that count, and every present partition is listed.
pub open spec fn snapshot_matches(counts: Map<int, u64>, s: Seq<(i32, u64)>) -> bool {
    &&& forall|i: int|
        0 <= i < s.len() ==> counts.contains_key((#[trigger] s[i]).0 as int) && s[i].1
            == counts[s[i].0 as int]
    &&& forall|k: int|
        counts.contains_key(k) ==> exists|i: int| 0 <= i < s.len() && (#[trigger] s[i]).0 as int == k
}

/// The shared counter store: partition identifier to cumulative match count.
pub struct PartitionCounts {
    map: CounterMap,
}

impl View for PartitionCounts {
    type V = Map<int, u64>;

    closed spec fn view(&self) -> Map<int, u64> {
        dash_counts(self.map)
    }
}

/// Builds a counter store from the partition list discovered at startup.
pub trait PartitionCountsExt: View<V = Map<int, u64>> + Sized {
    /// Creates one zero-valued entry per supplied partition identifier.
    fn from_partitions(partitions: &[i32]) -> (r: Self)
        ensures
            r@.dom().finite(),
            zeroed_for(r@, partitions@),
    ;
}

impl PartitionCountsExt for PartitionCounts {
    fn from_partitions(partitions: &[i32]) -> (r: Self) {
        let mut map = dash_with_capacity(partitions.len());
        let mut idx: usize = 0;
        while idx < partitions.len()
            invariant
                idx <= partitions@.len(),
                dash_counts(map).dom().finite(),
                forall|j: int|
                    0 <= j < idx ==> dash_counts(map).contains_key(
                        (#[trigger] partitions@[j]) as int,
                    ) && dash_counts(map)[partitions@[j] as int] == 0,
                forall|k: int|
                    dash_counts(map).contains_key(k) ==> exists|j: int|
                        0 <= j < idx && (#[trigger] partitions@[j]) as int == k,
            decreases partitions@.len() - idx,
        {
            let p = partitions[idx];
            dash_insert(&mut map, p, 0);
            idx += 1;
        }
        PartitionCounts { map }
    }
}

impl PartitionCounts {
    /// Whether the store is well formed: it holds finitely many partitions.
    pub open spec fn wf(&self) -> bool {
        self@.dom().finite()
    }

    /// Records one more match for the partition: an existing count goes up by
    /// one, an unseen partition is inserted with count 1 rather than failing.
    /// No other entry changes and no count ever goes down.
    pub fn increment(&mut self, partition: i32)
        requires
            old(self)@.contains_key(partition as int) ==> old(self)@[partition as int] < u64::MAX,
        ensures
            final(self)@ == bumped(old(self)@, partition as int),
            old(self).wf() ==> final(self).wf(),
    {
        dash_increment(&mut self.map, partition);
    }

    /// An ordered view of all counters for display: the pairs are exactly the
    /// store's entries, sorted by partition identifier.
    pub fn snapshot(&self) -> (r: Vec<CountEntry>)
        ensures
            sorted_by_partition(r@),
            snapshot_matches(self@, r@),
    {
        let entries = dash_entries(&self.map);
        let ghost all = entries@;
        let mut out: Vec<CountEntry> = Vec::new();
        let mut idx: usize = 0;
        while idx < entries.len()
            invariant
                idx <= all.len(),
                entries@ == all,
                forall|i: int, j: int|
                    0 <= i < j < all.len() ==> (#[trigger] all[i]).0 != (#[trigger] all[j]).0,
                sorted_by_partition(out@),
                forall|j: int|
                    0 <= j < out@.len() ==> exists|t: int|
                        0 <= t < idx && all[t] == (#[trigger] out@[j]),
                forall|t: int| 0 <= t < idx ==> out@.contains(#[trigger] all[t]),
            decreases all.len() - idx,
        {
            let x = entries[idx];
            let ghost before = out@;
            proof {
                assert forall|j: int| 0 <= j < before.len() implies (#[trigger] before[j]).0
                    != x.0 by {
                    let t = choose|t: int| 0 <= t < idx && all[t] == before[j];
                    assert(all[t].0 != all[idx as int].0);
                }
            }
            insert_sorted(&mut out, x);
            proof {
                assert forall|j: int| 0 <= j < out@.len() implies exists|t: int|
                    0 <= t < idx + 1 && all[t] == (#[trigger] out@[j]) by {
                    if out@[j] == x {
                        assert(all[idx as int] == out@[j]);
                    } else {
                        let b = choose|b: int| 0 <= b < before.len() && before[b] == out@[j];
                        let t = choose|t: int| 0 <= t < idx && all[t] == before[b];
                        assert(all[t] == out@[j]);
                    }
                }
                assert forall|t: int| 0 <= t < idx + 1 implies out@.contains(
                    #[trigger] all[t],
                ) by {
                    if t < idx {
                        let b = choose|b: int| 0 <= b < before.len() && before[b] == all[t];
                    }
                }
            }
            idx += 1;
        }
        proof {
            assert forall|i: int|
                0 <= i < out@.len() implies self@.contains_key((#[trigger] out@[i]).0 as int)
                && out@[i].1 == self@[out@[i].0 as int] by {
                let t = choose|t: int| 0 <= t < all.len() && all[t] == out@[i];
            }
            assert forall|k: int| self@.contains_key(k) implies exists|i: int|
                0 <= i < out@.len() && (#[trigger] out@[i]).0 as int == k by {
                let t = choose|t: int| 0 <= t < all.len() && (#[trigger] all[t]).0 as int == k;
                assert(out@.contains(all[t]));
                let i = choose|i: int| 0 <= i < out@.len() && out@[i] == all[t];
            }
        }
        out
    }
}

/// Places one entry into a snapshot under construction, keeping it strictly
/// sorted by partition identifier; the entry's partition must be new.
fn insert_sorted(out: &mut Vec<CountEntry>, x: CountEntry)
    requires
        sorted_by_partition(old(out)@),
        forall|j: int| 0 <= j < old(out)@.len() ==> (#[trigger] old(out)@[j]).0 != x.0,
    ensures
        sorted_by_partition(final(out)@),
        final(out)@.contains(x),
        forall|j: int|
            0 <= j < final(out)@.len() ==> final(out)@[j] == x || old(out)@.contains(
                #[trigger] final(out)@[j],
            ),
        forall|j: int| 0 <= j < old(out)@.len() ==> final(out)@.contains(#[trigger] old(out)@[j]),
{
    let ghost before = out@;
    let mut pos: usize = 0;
    while pos < out.len() && out[pos].0 < x.0
        invariant
            pos <= out@.len(),
            out@ == before,
            sorted_by_partition(before),
            forall|j: int| 0 <= j < before.len() ==> (#[trigger] before[j]).0 != x.0,
            forall|j: int| 0 <= j < pos ==> (#[trigger] before[j]).0 < x.0,
        decreases out@.len() - pos,
    {
        pos += 1;
    }
    out.insert(pos, x);
    proof {
        let after = out@;
        assert(after == before.insert(pos as int, x));
        assert(after[pos as int] == x);
        assert forall|j: int, k: int| 0 <= j < k < after.len() implies (#[trigger] after[j]).0
            < (#[trigger] after[k]).0 by {
            if k < pos {
                assert(after[j] == before[j] && after[k] == before[k]);
            } else if j > pos {
                assert(after[j] == before[j - 1] && after[k] == before[k - 1]);
            } else if k == pos {
                assert(after[j] == before[j]);
            } else if j == pos {
                assert(after[k] == before[k - 1]);
                assert(pos < before.len());
                assert(before[pos as int].0 >= x.0);
                if k - 1 > pos {
                    assert(before[pos as int].0 < before[k - 1].0);
                }
            } else {
                assert(j < pos && k > pos);
                assert(after[j] == before[j] && after[k] == before[k - 1]);
                if j < k - 1 {
                    assert(before[j].0 < before[k - 1].0);
                } else {
                    assert(j == pos - 1 && k == pos + 1);
                    assert(before[j].0 < x.0);
                    assert(before[k - 1].0 >= x.0);
                }
            }
        }
        assert forall|j: int|
            0 <= j < after.len() implies after[j] == x || before.contains(
            #[trigger] after[j]) by {
            if j < pos {
                assert(after[j] == before[j]);
            } else if j > pos {
                assert(after[j] == before[j - 1]);
            }
        }
        assert forall|j: int| 0 <= j < before.len() implies after.contains(
            #[trigger] before[j]) by {
            if j < pos {
                assert(after[j] == before[j]);
            } else {
                assert(after[j + 1] == before[j]);
            }
        }
    }
}

/// Repeated increments of one partition, and of no other.
pub open spec fn bumped_n(counts: Map<int, u64>, partition: int, k: nat) -> Map<int, u64>
    decreases k,
{
    if k == 0 {
        counts
    } else {
        bumped(bumped_n(counts, partition, (k - 1) as nat), partition)
    }
}

/// Incrementing partition `p` exactly `k` times on a store of zeroes, and no
/// other partition ever, leaves `p` at exactly `k` and every other partition
/// exactly as it started: present if and only if it was, and still zero.
pub proof fn lemma_increment_only_one(init: Map<int, u64>, p: int, k: nat)
    requires
        forall|q: int| init.contains_key(q) ==> init[q] == 0,
        k <= u64::MAX,
    ensures
        k > 0 ==> bumped_n(init, p, k).contains_key(p) && bumped_n(init, p, k)[p] == k,
        k == 0 ==> bumped_n(init, p, k) == init,
        forall|q: int|
            q != p ==> (bumped_n(init, p, k).contains_key(q) <==> init.contains_key(q)),
        forall|q: int| q != p && init.contains_key(q) ==> bumped_n(init, p, k)[q] == 0,
    decreases k,
{
    if k > 0 {
        lemma_increment_only_one(init, p, (k - 1) as nat);
    }
}

/// One increment never lowers any counter and never drops a partition, so
/// snapshot values are non-decreasing across successive snapshots of a store
/// that only ever advances by increments.
pub proof fn lemma_bumped_monotonic(counts: Map<int, u64>, p: int)
    requires
        counts.contains_key(p) ==> counts[p] < u64::MAX,
    ensures
        forall|q: int| counts.contains_key(q) ==> bumped(counts, p).contains_key(q),
        forall|q: int| counts.contains_key(q) ==> counts[q] <= bumped(counts, p)[q],
{
}

/// A piece of application state was asked for before startup had set it.
#[derive(Clone, Copy, Debug, PartialEq, Eq, Structural)]
pub enum AppError {
    PartitionsNotSet,
    PartitionCountsNotSet,
}

impl AppError {
    /// The message surfaced to the operator.
    pub open spec fn spec_message(&self) -> Seq<char> {
        match self {
            AppError::PartitionsNotSet => "Error accessing partitions from App state. It is not set at this point."@,
            AppError::PartitionCountsNotSet => "Error accessing partition_counts from App state. It is not set at this point."@,
        }
    }

    /// Renders the message surfaced to the operator.
    pub fn message(&self) -> (r: String)
        ensures
            r@ == self.spec_message(),
    {
        match self {
            AppError::PartitionsNotSet => "Error accessing partitions from App state. It is not set at this point.".to_owned(),
            AppError::PartitionCountsNotSet => "Error accessing partition_counts from App state. It is not set at this point.".to_owned(),
        }
    }
}

/// Everything the process knows: the options read at startup, the partition
/// list once discovered, and the shared counter store once created.
pub struct App {
    cli_options: CliOptions,
    partitions: Option<Vec<i32>>,
    partition_counts: Option<PartitionCounts>,
}

impl App {
    /// The options this state was created with.
    pub closed spec fn spec_cli_options(&self) -> CliOptions {
        self.cli_options
    }

    /// The discovered partition list, if set.
    pub closed spec fn spec_partitions(&self) -> Option<Seq<i32>> {
        match self.partitions {
            Some(ref v) => Some(v@),
            None => None,
        }
    }

    /// The counter store's contents, if the store was created.
    pub closed spec fn spec_counts(&self) -> Option<Map<int, u64>> {
        match self.partition_counts {
            Some(ref c) => Some(c@),
            None => None,
        }
    }

    /// Fresh state: options only; partitions and counters come later in the
    /// startup sequence.
    pub fn new(cli_options: CliOptions) -> (r: Self)
        ensures
            r.spec_cli_options() == cli_options,
            r.spec_partitions() is None,
            r.spec_counts() is None,
    {
        App { cli_options, partitions: None, partition_counts: None }
    }

    /// The options read at startup.
    pub fn cli_options(&self) -> (r: &CliOptions)
        ensures
            *r == self.spec_cli_options(),
    {
        &self.cli_options
    }

    /// Records the partition list discovered from the topic metadata.
    pub fn set_partitions(&mut self, partitions: Vec<i32>)
        ensures
            final(self).spec_partitions() == Some(partitions@),
            final(self).spec_cli_options() == old(self).spec_cli_options(),
            final(self).spec_counts() == old(self).spec_counts(),
    {
        self.partitions = Some(partitions);
    }

    /// The discovered partition list; asking before discovery is an error.
    pub fn partitions(&self) -> (r: Result<&Vec<i32>, AppError>)
        ensures
            r is Ok <==> self.spec_partitions() is Some,
            r matches Ok(v) ==> self.spec_partitions() == Some(v@),
            r matches Err(e) ==> e == AppError::PartitionsNotSet,
    {
        match self.partitions {
            Some(ref v) => Ok(v),
            None => Err(AppError::PartitionsNotSet),
        }
    }

    /// Creates the counter store, one zero per discovered partition; asking
    /// before the partition list is set is an error and changes nothing.
    pub fn partition_counts_from_partitions(&mut self) -> (r: Result<(), AppError>)
        ensures
            final(self).spec_cli_options() == old(self).spec_cli_options(),
            final(self).spec_partitions() == old(self).spec_partitions(),
            r is Ok <==> old(self).spec_partitions() is Some,
            r matches Err(e) ==> e == AppError::PartitionsNotSet && final(self).spec_counts()
                == old(self).spec_counts(),
            old(self).spec_partitions() matches Some(ps) ==> final(self).spec_counts()
                matches Some(c) && c.dom().finite() && zeroed_for(c, ps),
    {
        let counts = match self.partitions {
            Some(ref ps) => PartitionCounts::from_partitions(ps.as_slice()),
            None => {
                return Err(AppError::PartitionsNotSet);
            },
        };
        self.partition_counts = Some(counts);
        Ok(())
    }

    /// The shared counter store; asking before it is created is an error.
    pub fn partition_counts(&self) -> (r: Result<&PartitionCounts, AppError>)
        ensures
            r is Ok <==> self.spec_counts() is Some,
            r matches Ok(c) ==> self.spec_counts() == Some(c@),
            r matches Err(e) ==> e == AppError::PartitionCountsNotSet,
    {
        match self.partition_counts {
            Some(ref c) => Ok(c),
            None => Err(AppError::PartitionCountsNotSet),
        }
    }
}

} // verus!
