//! The guarantees of the per-file reconciliation, proved of the plan that
//! `plan_source_file` is specified against.

use vstd::prelude::*;

use crate::rom::RomSpec;
use crate::seqtools::lemma_filter_push;
use crate::source_scan::{plan_actions, plan_copies, plan_diags, plan_found, ActionSpec, DiagSpec};

verus! {

/// Picks out the copy operations among the planned actions.
pub open spec fn is_copy() -> spec_fn(ActionSpec) -> bool {
    |a: ActionSpec| a is CopyInto
}

/// The copy operation a candidate entry calls for.
pub open spec fn copy_action() -> spec_fn(RomSpec) -> ActionSpec {
    |c: RomSpec| ActionSpec::CopyInto(c.game_name, c.file_name)
}

proof fn lemma_filter_add<A>(a: Seq<A>, b: Seq<A>, pred: spec_fn(A) -> bool)
    ensures
        (a + b).filter(pred) == a.filter(pred) + b.filter(pred),
    decreases b.len(),
{
    reveal(Seq::filter);
    if b.len() == 0 {
        assert(a + b =~= a);
        assert(a.filter(pred) + b.filter(pred) =~= a.filter(pred));
    } else {
        let bd = b.drop_last();
        lemma_filter_add(a, bd, pred);
        assert((a + b).drop_last() =~= a + bd);
        assert((a + b).last() == b.last());
        if pred(b.last()) {
            assert(a.filter(pred) + bd.filter(pred).push(b.last()) =~= (a.filter(pred)
                + bd.filter(pred)).push(b.last()));
        }
    }
}

proof fn lemma_filter_singleton<A>(x: A, pred: spec_fn(A) -> bool)
    ensures
        seq![x].filter(pred) == if pred(x) {
            seq![x]
        } else {
            Seq::<A>::empty()
        },
{
    lemma_filter_push(Seq::<A>::empty(), pred, x);
    assert(Seq::<A>::empty().push(x) =~= seq![x]);
    reveal(Seq::filter);
    assert(Seq::<A>::empty().filter(pred) =~= Seq::<A>::empty());
    assert(Seq::<A>::empty().push(x) =~= seq![x]);
}

/// The planned actions, restricted to copies, are exactly one copy per
/// copied candidate, in bucket order, each into that candidate's own game
/// folder and under that candidate's own file name.
pub proof fn lemma_actions_are_copies(
    found: Set<RomSpec>,
    have: Set<Seq<char>>,
    bucket: Seq<RomSpec>,
    size: u64,
)
    ensures
        plan_actions(found, have, bucket, size).filter(is_copy()) == plan_copies(
            found,
            bucket,
            size,
        ).map_values(copy_action()),
    decreases bucket.len(),
{
    reveal(Seq::filter);
    if bucket.len() == 0 {
        assert(plan_actions(found, have, bucket, size).filter(is_copy())
            =~= plan_copies(found, bucket, size).map_values(copy_action()));
    } else {
        let c = bucket[0];
        let rest = bucket.drop_first();
        if c.size == size && !found.contains(c) {
            lemma_actions_are_copies(found.insert(c), have.insert(c.game_name), rest, size);
            let mk: Seq<ActionSpec> = if have.contains(c.game_name) {
                Seq::empty()
            } else {
                seq![ActionSpec::CreateFolder(c.game_name)]
            };
            let cp = seq![ActionSpec::CopyInto(c.game_name, c.file_name)];
            let tail = plan_actions(found.insert(c), have.insert(c.game_name), rest, size);
            lemma_filter_add(mk + cp, tail, is_copy());
            lemma_filter_add(mk, cp, is_copy());
            lemma_filter_singleton(ActionSpec::CopyInto(c.game_name, c.file_name), is_copy());
            if !have.contains(c.game_name) {
                lemma_filter_singleton(ActionSpec::CreateFolder(c.game_name), is_copy());
            } else {
                assert(mk.filter(is_copy()) =~= Seq::<ActionSpec>::empty());
            }
            assert(plan_actions(found, have, bucket, size) == (mk + cp) + tail);
            assert((mk + cp) + tail == mk + cp + tail);
            assert(mk.filter(is_copy()) + cp.filter(is_copy()) =~= cp);
            assert(plan_actions(found, have, bucket, size).filter(is_copy()) =~= cp + tail.filter(
                is_copy(),
            ));
            assert((seq![c] + plan_copies(found.insert(c), rest, size)).map_values(copy_action())
                =~= cp + plan_copies(found.insert(c), rest, size).map_values(copy_action()));
        } else {
            lemma_actions_are_copies(found, have, rest, size);
        }
    }
}

/// Confirmed entries stay confirmed: reconciling a file never removes one.
pub proof fn lemma_plan_found_monotone(
    found: Set<RomSpec>,
    bucket: Seq<RomSpec>,
    size: u64,
    e: RomSpec,
)
    requires
        found.contains(e),
    ensures
        plan_found(found, bucket, size).contains(e),
    decreases bucket.len(),
{
    if bucket.len() > 0 {
        let c = bucket[0];
        if c.size == size && !found.contains(c) {
            lemma_plan_found_monotone(found.insert(c), bucket.drop_first(), size, e);
        } else {
            lemma_plan_found_monotone(found, bucket.drop_first(), size, e);
        }
    }
}

/// Completeness: a candidate entry whose size matches the observed size is
/// confirmed once the file is reconciled, whether it was confirmed before or
/// is newly satisfied.
pub proof fn lemma_completeness(found: Set<RomSpec>, bucket: Seq<RomSpec>, size: u64, e: RomSpec)
    requires
        bucket.contains(e),
        e.size == size,
    ensures
        plan_found(found, bucket, size).contains(e),
    decreases bucket.len(),
{
    let c = bucket[0];
    let rest = bucket.drop_first();
    let f = if c.size == size && !found.contains(c) {
        found.insert(c)
    } else {
        found
    };
    let j = choose|j: int| 0 <= j < bucket.len() && bucket[j] == e;
    if j == 0 {
        if found.contains(e) || f.contains(e) {
            lemma_plan_found_monotone(f, rest, size, e);
        }
    } else {
        assert(rest[j - 1] == e);
        assert(rest.contains(e));
        lemma_completeness(f, rest, size, e);
    }
}

/// Mismatch isolation: a candidate of the right size not confirmed yet is
/// copied, whatever mismatches or duplicates the other candidates of the
/// bucket produce.
pub proof fn lemma_mismatch_isolation(
    found: Set<RomSpec>,
    bucket: Seq<RomSpec>,
    size: u64,
    e: RomSpec,
)
    requires
        bucket.contains(e),
        e.size == size,
        !found.contains(e),
    ensures
        plan_copies(found, bucket, size).contains(e),
    decreases bucket.len(),
{
    let c = bucket[0];
    let rest = bucket.drop_first();
    let j = choose|j: int| 0 <= j < bucket.len() && bucket[j] == e;
    if c.size == size && !found.contains(c) {
        let tail = plan_copies(found.insert(c), rest, size);
        if c == e {
            assert((seq![c] + tail)[0] == e);
        } else {
            assert(rest[j - 1] == e);
            lemma_mismatch_isolation(found.insert(c), rest, size, e);
            let k = choose|k: int| 0 <= k < tail.len() && tail[k] == e;
            assert((seq![c] + tail)[k + 1] == e);
        }
    } else {
        if j == 0 {
            assert(c == e);
            assert(false);
        } else {
            assert(rest[j - 1] == e);
            lemma_mismatch_isolation(found, rest, size, e);
        }
    }
}

/// Duplicate suppression, first half: an entry already confirmed is never
/// copied again.
pub proof fn lemma_no_second_copy(found: Set<RomSpec>, bucket: Seq<RomSpec>, size: u64, e: RomSpec)
    requires
        found.contains(e),
    ensures
        !plan_copies(found, bucket, size).contains(e),
    decreases bucket.len(),
{
    if bucket.len() > 0 {
        let c = bucket[0];
        let rest = bucket.drop_first();
        if c.size == size && !found.contains(c) {
            lemma_no_second_copy(found.insert(c), rest, size, e);
            let tail = plan_copies(found.insert(c), rest, size);
            assert forall|k: int| 0 <= k < (seq![c] + tail).len() implies (seq![c] + tail)[k]
                != e by {
                if k > 0 {
                    assert((seq![c] + tail)[k] == tail[k - 1]);
                }
            }
        } else {
            lemma_no_second_copy(found, rest, size, e);
        }
    }
}

/// Duplicate suppression, second half: meeting an already confirmed candidate
/// of the right size is reported as a duplicate.
pub proof fn lemma_duplicate_diagnosed(
    found: Set<RomSpec>,
    bucket: Seq<RomSpec>,
    size: u64,
    j: int,
)
    requires
        0 <= j < bucket.len(),
        bucket[j].size == size,
        found.contains(bucket[j]),
    ensures
        plan_diags(found, bucket, size).contains(DiagSpec::AlreadyProcessed(bucket[j].file_name)),
    decreases bucket.len(),
{
    let c = bucket[0];
    let rest = bucket.drop_first();
    let d = DiagSpec::AlreadyProcessed(bucket[j].file_name);
    if j == 0 {
        assert((seq![DiagSpec::AlreadyProcessed(c.file_name)] + plan_diags(found, rest, size))[0]
            == d);
    } else {
        assert(rest[j - 1] == bucket[j]);
        if c.size != size {
            lemma_duplicate_diagnosed(found, rest, size, j - 1);
            let tail = plan_diags(found, rest, size);
            let k = choose|k: int| 0 <= k < tail.len() && tail[k] == d;
            assert((seq![DiagSpec::SizeMismatch(c.size, size)] + tail)[k + 1] == d);
        } else if found.contains(c) {
            lemma_duplicate_diagnosed(found, rest, size, j - 1);
            let tail = plan_diags(found, rest, size);
            let k = choose|k: int| 0 <= k < tail.len() && tail[k] == d;
            assert((seq![DiagSpec::AlreadyProcessed(c.file_name)] + tail)[k + 1] == d);
        } else {
            lemma_duplicate_diagnosed(found.insert(c), rest, size, j - 1);
        }
    }
}

/// Multi-match fan-out: a file whose digest matches a bucket of pairwise
/// distinct candidates, all of the right size and none confirmed yet, is
/// copied exactly once per candidate, in bucket order, each copy into that
/// candidate's own game folder under that candidate's own file name.
pub proof fn lemma_multi_match_fan_out(
    found: Set<RomSpec>,
    have: Set<Seq<char>>,
    bucket: Seq<RomSpec>,
    size: u64,
)
    requires
        forall|k: int| 0 <= k < bucket.len() ==> #[trigger] bucket[k].size == size,
        forall|k: int| 0 <= k < bucket.len() ==> !found.contains(#[trigger] bucket[k]),
        forall|k: int, l: int| 0 <= k < l < bucket.len() ==> bucket[k] != bucket[l],
    ensures
        plan_copies(found, bucket, size) == bucket,
        plan_actions(found, have, bucket, size).filter(is_copy()) == bucket.map_values(
            copy_action(),
        ),
    decreases bucket.len(),
{
    lemma_actions_are_copies(found, have, bucket, size);
    if bucket.len() == 0 {
        assert(plan_copies(found, bucket, size) =~= bucket);
    } else {
        let c = bucket[0];
        let rest = bucket.drop_first();
        assert forall|k: int| 0 <= k < rest.len() implies !found.insert(c).contains(
            #[trigger] rest[k],
        ) by {
            assert(rest[k] == bucket[k + 1]);
            assert(bucket[0] != bucket[k + 1]);
        }
        lemma_multi_match_fan_out(found.insert(c), have.insert(c.game_name), rest, size);
        assert(plan_copies(found, bucket, size) =~= bucket);
    }
}

/// Idempotence of reconciliation: when every candidate of the right size is
/// already confirmed — as it is on a rerun, after the destination scan has
/// re-derived the found-set from what the first run copied — the file plans
/// no folder creation, no copy, and confirms nothing new.
pub proof fn lemma_rerun_is_quiet(
    found: Set<RomSpec>,
    have: Set<Seq<char>>,
    bucket: Seq<RomSpec>,
    size: u64,
)
    requires
        forall|k: int|
            0 <= k < bucket.len() && (#[trigger] bucket[k]).size == size ==> found.contains(
                bucket[k],
            ),
    ensures
        plan_found(found, bucket, size) == found,
        plan_actions(found, have, bucket, size) == Seq::<ActionSpec>::empty(),
        plan_copies(found, bucket, size) == Seq::<RomSpec>::empty(),
    decreases bucket.len(),
{
    if bucket.len() > 0 {
        let c = bucket[0];
        let rest = bucket.drop_first();
        assert(bucket[0] == c);
        assert forall|k: int|
            0 <= k < rest.len() && (#[trigger] rest[k]).size == size implies found.contains(
            rest[k],
        ) by {
            assert(rest[k] == bucket[k + 1]);
        }
        lemma_rerun_is_quiet(found, have, rest, size);
    }
}

} // verus!
