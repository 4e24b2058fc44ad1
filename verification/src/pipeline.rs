//! The consumption pipeline's logic: the consumer configuration derived from
//! the options, partition discovery from topic metadata, the match decision
//! on each evaluated payload, and the per-message counter update — together
//! with the counting law that ties the final counters to the stream.
//!
//! The broker client itself and the filter engine are external collaborators:
//! they hand this module plain values (partition lists, evaluation outputs)
//! and the logic here is verified for every value they could hand back.

use vstd::prelude::*;
use crate::app_state::{App, PartitionCounts, bumped};
use crate::config::CliOptions;

verus! {

/// The view of an optional payload or evaluation output.
pub open spec fn opt_view(o: Option<String>) -> Option<Seq<char>> {
    match o {
        Some(s) => Some(s@),
        None => None,
    }
}

/// Whether an evaluation output classifies the payload as a match: the
/// filter engine prints `null` (and a newline) for a payload the filter does
/// not select, and an absent output (missing or non-text payload, or an
/// engine error on malformed content) is no match.
pub open spec fn is_match_output(out: Option<Seq<char>>) -> bool {
    match out {
        Some(s) => s != "null\n"@,
        None => false,
    }
}

/// What one processed message does to the counters: a match bumps the
/// message's partition, anything else leaves the store untouched.
pub open spec fn step_counts(counts: Map<int, u64>, partition: int, out: Option<Seq<char>>) -> Map<
    int,
    u64,
> {
    if is_match_output(out) {
        bumped(counts, partition)
    } else {
        counts
    }
}

/// The counters after a whole message sequence, processed in order.
pub open spec fn run_counts(counts: Map<int, u64>, msgs: Seq<(int, Option<Seq<char>>)>) -> Map<
    int,
    u64,
>
    decreases msgs.len(),
{
    if msgs.len() == 0 {
        counts
    } else {
        run_counts(step_counts(counts, msgs.first().0, msgs.first().1), msgs.drop_first())
    }
}

/// How many messages of the sequence were matches.
pub open spec fn matched_count(msgs: Seq<(int, Option<Seq<char>>)>) -> int
    decreases msgs.len(),
{
    if msgs.len() == 0 {
        0
    } else {
        matched_count(msgs.drop_first()) + if is_match_output(msgs.first().1) {
            1int
        } else {
            0int
        }
    }
}

/// The sum of all counters of a finite store.
pub open spec fn map_total(m: Map<int, u64>) -> int
    decreases m.dom().len(),
    when m.dom().finite()
{
    if !m.dom().finite() || m.dom().len() == 0 {
        0
    } else {
        let k = m.dom().choose();
        m[k] + map_total(m.remove(k))
    }
}

proof fn lemma_choose_in(s: Set<int>)
    requires
        s.finite(),
        s.len() > 0,
    ensures
        s.contains(s.choose()),
{
    if !(exists|a: int| s.contains(a)) {
        assert(s =~= Set::<int>::empty());
        assert(s.len() == 0);
    }
}

/// Splitting any present partition out of a finite store splits its total.
pub proof fn lemma_map_total_remove(m: Map<int, u64>, k: int)
    requires
        m.dom().finite(),
        m.contains_key(k),
    ensures
        map_total(m) == m[k] + map_total(m.remove(k)),
    decreases m.dom().len(),
{
    if m.dom().len() == 0 {
        m.dom().lemma_len0_is_empty();
        assert(false);
    }
    let c = m.dom().choose();
    lemma_choose_in(m.dom());
    if c == k {
    } else {
        lemma_map_total_remove(m.remove(c), k);
        lemma_map_total_remove(m.remove(k), c);
        assert(m.remove(c).remove(k) =~= m.remove(k).remove(c));
    }
}

/// A total of unsigned counters is never negative.
pub proof fn lemma_map_total_nonneg(m: Map<int, u64>)
    requires
        m.dom().finite(),
    ensures
        map_total(m) >= 0,
    decreases m.dom().len(),
{
    if m.dom().len() > 0 {
        lemma_choose_in(m.dom());
        lemma_map_total_nonneg(m.remove(m.dom().choose()));
    }
}

/// No single counter exceeds the store's total.
pub proof fn lemma_value_le_total(m: Map<int, u64>, k: int)
    requires
        m.dom().finite(),
        m.contains_key(k),
    ensures
        m[k] <= map_total(m),
{
    lemma_map_total_remove(m, k);
    lemma_map_total_nonneg(m.remove(k));
}

/// Bumping one partition raises the store's total by exactly one.
pub proof fn lemma_map_total_bumped(m: Map<int, u64>, p: int)
    requires
        m.dom().finite(),
        m.contains_key(p) ==> m[p] < u64::MAX,
    ensures
        bumped(m, p).dom().finite(),
        map_total(bumped(m, p)) == map_total(m) + 1,
{
    let b = bumped(m, p);
    lemma_map_total_remove(b, p);
    if m.contains_key(p) {
        lemma_map_total_remove(m, p);
        assert(b.remove(p) =~= m.remove(p));
    } else {
        assert(b.remove(p) =~= m);
    }
}

/// A store of zeroes totals zero.
pub proof fn lemma_map_total_zero(m: Map<int, u64>)
    requires
        m.dom().finite(),
        forall|k: int| m.contains_key(k) ==> m[k] == 0,
    ensures
        map_total(m) == 0,
    decreases m.dom().len(),
{
    if m.dom().len() > 0 {
        lemma_choose_in(m.dom());
        lemma_map_total_zero(m.remove(m.dom().choose()));
    }
}

/// A sequence has at least no matches and at most only matches.
pub proof fn lemma_matched_count_bounds(msgs: Seq<(int, Option<Seq<char>>)>)
    ensures
        0 <= matched_count(msgs) <= msgs.len(),
    decreases msgs.len(),
{
    if msgs.len() > 0 {
        lemma_matched_count_bounds(msgs.drop_first());
    }
}

/// Processing one more message after a sequence is one more step.
pub proof fn lemma_run_counts_snoc(
    counts: Map<int, u64>,
    msgs: Seq<(int, Option<Seq<char>>)>,
    x: (int, Option<Seq<char>>),
)
    ensures
        run_counts(counts, msgs.push(x)) == step_counts(run_counts(counts, msgs), x.0, x.1),
    decreases msgs.len(),
{
    if msgs.len() == 0 {
        assert(msgs.push(x).first() == x);
        assert(msgs.push(x).drop_first() =~= Seq::<(int, Option<Seq<char>>)>::empty());
        assert(run_counts(counts, msgs.push(x)) == run_counts(
            step_counts(counts, x.0, x.1),
            msgs.push(x).drop_first(),
        ));
        assert(run_counts(step_counts(counts, x.0, x.1), msgs.push(x).drop_first())
            == step_counts(counts, x.0, x.1));
        assert(run_counts(counts, msgs) == counts);
    } else {
        assert(msgs.push(x).first() == msgs.first());
        assert(msgs.push(x).drop_first() =~= msgs.drop_first().push(x));
        lemma_run_counts_snoc(
            step_counts(counts, msgs.first().0, msgs.first().1),
            msgs.drop_first(),
            x,
        );
    }
}

/// Over any message sequence the total grows by exactly the number of
/// matches, and never overflows while the store's total leaves room for one
/// count per message.
pub proof fn lemma_run_counts_total(counts: Map<int, u64>, msgs: Seq<(int, Option<Seq<char>>)>)
    requires
        counts.dom().finite(),
        map_total(counts) + msgs.len() <= u64::MAX,
    ensures
        run_counts(counts, msgs).dom().finite(),
        map_total(run_counts(counts, msgs)) == map_total(counts) + matched_count(msgs),
    decreases msgs.len(),
{
    if msgs.len() > 0 {
        let p = msgs.first().0;
        let out = msgs.first().1;
        if is_match_output(out) {
            if counts.contains_key(p) {
                lemma_value_le_total(counts, p);
            }
            lemma_map_total_bumped(counts, p);
        }
        lemma_matched_count_bounds(msgs.drop_first());
        lemma_run_counts_total(step_counts(counts, p, out), msgs.drop_first());
    }
}

/// Reading the counters while the pipeline runs is monotone: however many
/// further messages are processed, no partition disappears and no counter
/// ever reads lower than it did before, so successive snapshots are
/// pointwise non-decreasing.
pub proof fn lemma_run_counts_monotonic(counts: Map<int, u64>, msgs: Seq<(int, Option<Seq<char>>)>)
    requires
        counts.dom().finite(),
        map_total(counts) + msgs.len() <= u64::MAX,
    ensures
        forall|k: int|
            counts.contains_key(k) ==> run_counts(counts, msgs).contains_key(k) && counts[k]
                <= run_counts(counts, msgs)[k],
    decreases msgs.len(),
{
    if msgs.len() > 0 {
        let p = msgs.first().0;
        let out = msgs.first().1;
        let next = step_counts(counts, p, out);
        if is_match_output(out) {
            if counts.contains_key(p) {
                lemma_value_le_total(counts, p);
            }
            lemma_map_total_bumped(counts, p);
        }
        lemma_run_counts_monotonic(next, msgs.drop_first());
        assert forall|k: int| counts.contains_key(k) implies run_counts(
            counts,
            msgs,
        ).contains_key(k) && counts[k] <= run_counts(counts, msgs)[k] by {
            if is_match_output(out) && counts.contains_key(p) {
                lemma_value_le_total(counts, p);
            }
            assert(next.contains_key(k));
            assert(counts[k] <= next[k]);
            assert(run_counts(counts, msgs) == run_counts(next, msgs.drop_first()));
        }
    }
}

/// The pipeline's counting law: starting from a store of zeroes, after any
/// message sequence the counters over all partitions sum to exactly the
/// number of messages whose payload matched the filter.
pub proof fn lemma_counts_sum_to_matches(init: Map<int, u64>, msgs: Seq<(int, Option<Seq<char>>)>)
    requires
        init.dom().finite(),
        forall|k: int| init.contains_key(k) ==> init[k] == 0,
        msgs.len() <= u64::MAX,
    ensures
        map_total(run_counts(init, msgs)) == matched_count(msgs),
{
    lemma_map_total_zero(init);
    lemma_run_counts_total(init, msgs);
}

/// A payload whose evaluation failed is no match: processing it leaves every
/// counter exactly as it was — and the pipeline carries on.
pub proof fn lemma_failed_evaluation_changes_nothing(counts: Map<int, u64>, partition: int)
    ensures
        step_counts(counts, partition, None::<Seq<char>>) == counts,
{
}

/// Classifies one evaluation output: a present output other than the
/// engine's `null` line is a match.
pub fn is_match(eval_output: &Option<String>) -> (r: bool)
    ensures
        r == is_match_output(opt_view(*eval_output)),
{
    match eval_output {
        Some(s) => {
            let null_line: String = "null\n".to_owned();
            !(*s == null_line)
        },
        None => false,
    }
}

/// One iteration of the consume loop, after the filter engine has spoken: on
/// a match the message's partition is bumped (inserted at 1 if previously
/// unseen), otherwise nothing changes; the pipeline never stops here.
pub fn process_message(store: &mut PartitionCounts, partition: i32, eval_output: &Option<String>)
    requires
        old(store)@.contains_key(partition as int) ==> old(store)@[partition as int] < u64::MAX,
    ensures
        final(store)@ == step_counts(old(store)@, partition as int, opt_view(*eval_output)),
        old(store).wf() ==> final(store).wf(),
{
    if is_match(eval_output) {
        store.increment(partition);
    }
}

/// The view of a batch of messages: partition and evaluation output each.
pub open spec fn msgs_view(msgs: Seq<(i32, Option<String>)>) -> Seq<(int, Option<Seq<char>>)> {
    msgs.map_values(|m: (i32, Option<String>)| (m.0 as int, opt_view(m.1)))
}

/// Processes a batch of evaluated messages in order, exactly as the consume
/// loop does one by one.
pub fn process_messages(store: &mut PartitionCounts, msgs: &Vec<(i32, Option<String>)>)
    requires
        old(store).wf(),
        map_total(old(store)@) + msgs@.len() <= u64::MAX,
    ensures
        final(store).wf(),
        final(store)@ == run_counts(old(store)@, msgs_view(msgs@)),
{
    let ghost init = store@;
    let ghost all = msgs_view(msgs@);
    let mut idx: usize = 0;
    while idx < msgs.len()
        invariant
            idx <= msgs@.len(),
            all == msgs_view(msgs@),
            init.dom().finite(),
            map_total(init) + all.len() <= u64::MAX,
            store.wf(),
            store@ == run_counts(init, all.take(idx as int)),
        decreases msgs@.len() - idx,
    {
        proof {
            lemma_matched_count_bounds(all.take(idx as int));
            lemma_run_counts_total(init, all.take(idx as int));
            if store@.contains_key(all[idx as int].0) {
                lemma_value_le_total(store@, all[idx as int].0);
            }
        }
        let m = &msgs[idx];
        process_message(store, m.0, &m.1);
        proof {
            assert(all.take(idx + 1) =~= all.take(idx as int).push(all[idx as int]));
            lemma_run_counts_snoc(init, all.take(idx as int), all[idx as int]);
        }
        idx += 1;
    }
    proof {
        assert(all.take(msgs@.len() as int) =~= all);
    }
}

/// Which metadata the pipeline rejects: not exactly one topic reported.
#[derive(Clone, Copy, Debug, PartialEq, Eq, Structural)]
pub struct MetadataError {
    pub topics_found: usize,
}

/// Resolves the monitored topic's partition list from fetched metadata —
/// each reported topic given as its list of partition identifiers — and
/// records it: exactly one topic must be reported, otherwise nothing changes
/// and the error says how many topics were found.
pub fn topic_partitions(app: &mut App, topics: &Vec<Vec<i32>>) -> (r: Result<(), MetadataError>)
    ensures
        r is Ok <==> topics@.len() == 1,
        topics@.len() == 1 ==> final(app).spec_partitions() == Some(topics@[0]@)
            && final(app).spec_cli_options() == old(app).spec_cli_options()
            && final(app).spec_counts() == old(app).spec_counts(),
        r matches Err(e) ==> e.topics_found == topics@.len() && *final(app) == *old(app),
{
    if topics.len() == 1 {
        let partitions = copy_partitions(&topics[0]);
        app.set_partitions(partitions);
        Ok(())
    } else {
        Err(MetadataError { topics_found: topics.len() })
    }
}

/// A plain copy of a partition list.
fn copy_partitions(partitions: &Vec<i32>) -> (r: Vec<i32>)
    ensures
        r@ == partitions@,
{
    let mut r: Vec<i32> = Vec::new();
    let mut idx: usize = 0;
    while idx < partitions.len()
        invariant
            idx <= partitions@.len(),
            r@ == partitions@.take(idx as int),
        decreases partitions@.len() - idx,
    {
        r.push(partitions[idx]);
        proof {
            assert(partitions@.take(idx + 1) =~= partitions@.take(idx as int).push(
                partitions@[idx as int],
            ));
        }
        idx += 1;
    }
    proof {
        assert(partitions@.take(partitions@.len() as int) =~= partitions@);
    }
    r
}

/// The consumer configuration the pipeline connects with, exactly as derived
/// from the options: fixed session settings plus the operator's choices.
pub fn consumer_settings(opts: &CliOptions) -> (r: Vec<(String, String)>)
    ensures
        r@.len() == 6,
        r@[0].0@ == "group.id"@ && r@[0].1@ == opts.group_id@,
        r@[1].0@ == "bootstrap.servers"@ && r@[1].1@ == opts.bootstrap_servers@,
        r@[2].0@ == "enable.partition.eof"@ && r@[2].1@ == "false"@,
        r@[3].0@ == "session.timeout.ms"@ && r@[3].1@ == "6000"@,
        r@[4].0@ == "enable.auto.commit"@ && r@[4].1@ == "false"@,
        r@[5].0@ == "auto.offset.reset"@ && r@[5].1@ == opts.offset.spec_str(),
{
    let mut r: Vec<(String, String)> = Vec::new();
    r.push(("group.id".to_owned(), opts.group_id.clone()));
    r.push(("bootstrap.servers".to_owned(), opts.bootstrap_servers.clone()));
    r.push(("enable.partition.eof".to_owned(), "false".to_owned()));
    r.push(("session.timeout.ms".to_owned(), "6000".to_owned()));
    r.push(("enable.auto.commit".to_owned(), "false".to_owned()));
    r.push(("auto.offset.reset".to_owned(), opts.offset.to_string()));
    r
}

} // verus!
