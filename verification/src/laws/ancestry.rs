//! What walks through the ancestry of a snapshot find.

use vstd::prelude::*;

use crate::ancestry::{
    ancestry_ends, lemma_walk_split, may_add_deletes, snapshots_with_deletes, stopped, walk,
    walked_to,
};
use crate::conflicts::conflict_check;
use crate::seqs::{lemma_filter_empty, lemma_filter_push, lemma_filtered};
use crate::types::{DataFile, Snapshot, TableMetadata};

verus! {

broadcast use vstd::std_specs::hash::group_hash_axioms;

/// A walk that has not stopped has passed one snapshot with each step.
pub(crate) proof fn lemma_walk_under_way(
    snapshots: Map<i64, Snapshot>,
    starting: Option<i64>,
    from: Option<i64>,
    steps: nat,
)
    requires
        forall|k: nat| k < steps ==> !#[trigger] stopped(snapshots, starting, from, k),
    ensures
        walk(snapshots, starting, from, steps).len() == steps,
        forall|k: nat|
            k < steps ==> Some(walk(snapshots, starting, from, steps)[k as int])
                == #[trigger] walked_to(snapshots, starting, from, k),
    decreases steps,
{
    if steps > 0 {
        let before = (steps - 1) as nat;
        lemma_walk_under_way(snapshots, starting, from, before);
        lemma_walk_split(snapshots, starting, from, before, 1);
        assert(!stopped(snapshots, starting, from, before));
        let at = walked_to(snapshots, starting, from, before);
        reveal_with_fuel(walk, 3);
        assert(walk(snapshots, starting, at, 1) =~= seq![at->0]);
        let all = walk(snapshots, starting, from, steps);
        assert forall|k: nat| k < steps implies Some(all[k as int]) == #[trigger] walked_to(
            snapshots,
            starting,
            from,
            k,
        ) by {
            if k < before {
                assert(all[k as int] == walk(snapshots, starting, from, before)[k as int]);
            }
        }
    }
}

/// The first step at which a walk stands still, if there is one up to the given step.
pub(crate) proof fn lemma_first_stop(
    snapshots: Map<i64, Snapshot>,
    starting: Option<i64>,
    from: Option<i64>,
    steps: nat,
) -> (first: nat)
    requires
        stopped(snapshots, starting, from, steps),
    ensures
        first <= steps,
        stopped(snapshots, starting, from, first),
        forall|k: nat| k < first ==> !#[trigger] stopped(snapshots, starting, from, k),
    decreases steps,
{
    if exists|k: nat| k < steps && #[trigger] stopped(snapshots, starting, from, k) {
        let k = choose|k: nat| k < steps && #[trigger] stopped(snapshots, starting, from, k);
        lemma_first_stop(snapshots, starting, from, k)
    } else {
        steps
    }
}

/// Up to its first stop a walk passes no snapshot twice, so there are no more steps than
/// snapshots.
pub(crate) proof fn lemma_stop_in_time(
    snapshots: Map<i64, Snapshot>,
    starting: Option<i64>,
    from: Option<i64>,
    first: nat,
)
    requires
        snapshots.dom().finite(),
        stopped(snapshots, starting, from, first),
        forall|k: nat| k < first ==> !#[trigger] stopped(snapshots, starting, from, k),
    ensures
        walk(snapshots, starting, from, first).no_duplicates(),
        first <= snapshots.len(),
{
    let passed = walk(snapshots, starting, from, first);
    lemma_walk_under_way(snapshots, starting, from, first);
    assert forall|i: int, j: int| 0 <= i < j < passed.len() implies passed[i] != passed[j] by {
        if passed[i] == passed[j] {
            let rest = (first - j) as nat;
            assert(walked_to(snapshots, starting, from, i as nat) == walked_to(
                snapshots,
                starting,
                from,
                j as nat,
            ));
            lemma_walk_split(snapshots, starting, from, i as nat, rest);
            lemma_walk_split(snapshots, starting, from, j as nat, rest);
            assert(stopped(snapshots, starting, from, (i + rest) as nat));
        }
    }
    assert(passed.to_set().subset_of(snapshots.dom())) by {
        assert forall|id: i64| passed.to_set().contains(id) implies snapshots.dom().contains(
            id,
        ) by {
            let k = choose|k: int| 0 <= k < passed.len() && passed[k] == id;
            assert(Some(passed[k]) == walked_to(snapshots, starting, from, k as nat));
            assert(!stopped(snapshots, starting, from, k as nat));
        }
    }
    passed.unique_seq_to_set();
    vstd::set_lib::lemma_len_subset(passed.to_set(), snapshots.dom());
}

/// A walk that stands still after any number of steps does so after as many steps as there are
/// snapshots, and has then passed the same snapshots: the condition that a walk ends is no
/// narrower than that it ends at all, and what it finds is what a walk to its very end finds.
pub proof fn law_walks_end_in_time(
    metadata: TableMetadata,
    starting: Option<i64>,
    from: Option<i64>,
    steps: nat,
)
    requires
        stopped(metadata.snapshots@, starting, from, steps),
    ensures
        ancestry_ends(metadata, starting, from),
        walk(metadata.snapshots@, starting, from, steps) == walk(
            metadata.snapshots@,
            starting,
            from,
            metadata.snapshots@.len(),
        ),
{
    let snapshots = metadata.snapshots@;
    let limit = snapshots.len();
    let first = lemma_first_stop(snapshots, starting, from, steps);
    lemma_stop_in_time(snapshots, starting, from, first);
    lemma_walk_split(snapshots, starting, from, first, (limit - first) as nat);
    lemma_walk_split(snapshots, starting, from, first, (steps - first) as nat);
    let passed = walk(snapshots, starting, from, first);
    assert(passed + Seq::<i64>::empty() =~= passed);
}

/// The snapshots that are found are known to the table, changed files in a way that may have
/// added delete files, do not include the starting one, and are found once each. Every such
/// snapshot that the walk passes is found.
pub proof fn law_found_snapshots_are_those_since(
    metadata: TableMetadata,
    starting: Option<i64>,
    current: Option<i64>,
)
    requires
        ancestry_ends(metadata, starting, current),
    ensures
        snapshots_with_deletes(metadata, starting, current).no_duplicates(),
        forall|i: int|
            0 <= i < snapshots_with_deletes(metadata, starting, current).len() ==> {
                let id = #[trigger] snapshots_with_deletes(metadata, starting, current)[i];
                &&& metadata.snapshots@.contains_key(id)
                &&& may_add_deletes(metadata.snapshots@[id])
                &&& Some(id) != starting
            },
        forall|id: i64|
            walk(metadata.snapshots@, starting, current, metadata.snapshots@.len()).contains(id)
                && may_add_deletes(metadata.snapshots@[id]) ==> #[trigger] snapshots_with_deletes(
                metadata,
                starting,
                current,
            ).contains(id),
{
    let snapshots = metadata.snapshots@;
    let limit = snapshots.len();
    let first = lemma_first_stop(snapshots, starting, current, limit);
    lemma_stop_in_time(snapshots, starting, current, first);
    lemma_walk_under_way(snapshots, starting, current, first);
    law_walks_end_in_time(metadata, starting, current, first);
    let passed = walk(snapshots, starting, current, limit);
    let pred = |id: i64| may_add_deletes(metadata.snapshots@[id]);
    lemma_filter_no_duplicates(passed, pred);
    let found = snapshots_with_deletes(metadata, starting, current);
    assert forall|i: int| 0 <= i < found.len() implies {
        let id = #[trigger] found[i];
        &&& snapshots.contains_key(id)
        &&& may_add_deletes(snapshots[id])
        &&& Some(id) != starting
    } by {
        lemma_filtered(passed, pred, i);
        let k = choose|k: int| 0 <= k < passed.len() && passed[k] == found[i];
        assert(Some(passed[k]) == walked_to(snapshots, starting, current, k as nat));
        assert(!stopped(snapshots, starting, current, k as nat));
    }
    assert forall|id: i64|
        passed.contains(id) && may_add_deletes(snapshots[id]) implies #[trigger] found.contains(
        id,
    ) by {
        let k = choose|k: int| 0 <= k < passed.len() && passed[k] == id;
        assert(pred(passed[k]));
        passed.lemma_filter_contains(pred, k);
    }
}

pub(crate) proof fn lemma_filter_no_duplicates<A>(s: Seq<A>, pred: spec_fn(A) -> bool)
    requires
        s.no_duplicates(),
    ensures
        s.filter(pred).no_duplicates(),
    decreases s.len(),
{
    if s.len() == 0 {
        assert(s =~= Seq::empty());
        lemma_filter_empty(pred);
    } else {
        let before = s.drop_last();
        lemma_filter_no_duplicates(before, pred);
        assert(s =~= before.push(s.last()));
        lemma_filter_push(before, s.last(), pred);
        assert forall|i: int| 0 <= i < before.filter(pred).len() implies before.filter(pred)[i]
            != s.last() by {
            lemma_filtered(before, pred, i);
            let k = choose|k: int| 0 <= k < before.len() && before[k] == before.filter(pred)[i];
            assert(s[k] == before[k]);
        }
    }
}

/// A walk that passes a snapshot is, up to there, a walk that starts at that snapshot.
proof fn lemma_walk_to_middle(
    snapshots: Map<i64, Snapshot>,
    starting: Option<i64>,
    middle: i64,
    from: Option<i64>,
    steps: nat,
)
    requires
        forall|k: nat| k < steps ==> !#[trigger] stopped(snapshots, starting, from, k),
        forall|k: nat|
            k < steps ==> #[trigger] walked_to(snapshots, starting, from, k) != Some(middle),
    ensures
        walk(snapshots, Some(middle), from, steps) == walk(snapshots, starting, from, steps),
        walked_to(snapshots, Some(middle), from, steps) == walked_to(
            snapshots,
            starting,
            from,
            steps,
        ),
    decreases steps,
{
    if steps > 0 {
        let before = (steps - 1) as nat;
        lemma_walk_to_middle(snapshots, starting, middle, from, before);
        lemma_walk_split(snapshots, starting, from, before, 1);
        lemma_walk_split(snapshots, Some(middle), from, before, 1);
        assert(!stopped(snapshots, starting, from, before));
        assert(walked_to(snapshots, starting, from, before) != Some(middle));
        reveal_with_fuel(walk, 3);
        reveal_with_fuel(walked_to, 3);
    }
}

/// The search splits at every snapshot that its walk passes: what is found since the start is what
/// is found since the middle, and then what is found up to the middle since the start. Both parts
/// of the walk end if the whole does.
pub proof fn law_search_splits_at_a_middle_snapshot(
    metadata: TableMetadata,
    starting: Option<i64>,
    current: Option<i64>,
    middle: i64,
)
    requires
        ancestry_ends(metadata, starting, current),
        walk(metadata.snapshots@, starting, current, metadata.snapshots@.len()).contains(middle),
    ensures
        ancestry_ends(metadata, Some(middle), current),
        ancestry_ends(metadata, starting, Some(middle)),
        snapshots_with_deletes(metadata, starting, current) == snapshots_with_deletes(
            metadata,
            Some(middle),
            current,
        ) + snapshots_with_deletes(metadata, starting, Some(middle)),
{
    let snapshots = metadata.snapshots@;
    let limit = snapshots.len();
    let first = lemma_first_stop(snapshots, starting, current, limit);
    lemma_stop_in_time(snapshots, starting, current, first);
    lemma_walk_under_way(snapshots, starting, current, first);
    law_walks_end_in_time(metadata, starting, current, first);
    let passed = walk(snapshots, starting, current, first);
    let m = choose|m: int| 0 <= m < passed.len() && passed[m] == middle;
    let steps = m as nat;
    let rest = (first - m) as nat;
    assert forall|k: nat| k < steps implies #[trigger] walked_to(snapshots, starting, current, k)
        != Some(middle) by {
        assert(Some(passed[k as int]) == walked_to(snapshots, starting, current, k));
    }
    assert(Some(passed[m]) == walked_to(snapshots, starting, current, steps));
    lemma_walk_to_middle(snapshots, starting, middle, current, steps);
    lemma_walk_split(snapshots, starting, current, steps, rest);
    assert(stopped(snapshots, Some(middle), current, steps));
    law_walks_end_in_time(metadata, Some(middle), current, steps);
    assert(stopped(snapshots, starting, Some(middle), rest));
    law_walks_end_in_time(metadata, starting, Some(middle), rest);
    Seq::filter_distributes_over_add(
        walk(snapshots, starting, current, steps),
        walk(snapshots, starting, Some(middle), rest),
        |id: i64| may_add_deletes(metadata.snapshots@[id]),
    );
}

/// There is nothing to check, and no conflict, if no snapshot since the starting one may have
/// added delete files: if each of them only added data files or replaced files.
pub proof fn law_harmless_changes_are_no_conflict(
    metadata: TableMetadata,
    starting: Option<i64>,
    files: Seq<DataFile>,
)
    requires
        forall|i: int|
            0 <= i < walk(
                metadata.snapshots@,
                starting,
                metadata.current_snapshot_id,
                metadata.snapshots@.len(),
            ).len() ==> !may_add_deletes(
                metadata.snapshots@[#[trigger] walk(
                    metadata.snapshots@,
                    starting,
                    metadata.current_snapshot_id,
                    metadata.snapshots@.len(),
                )[i]],
            ),
    ensures
        conflict_check(metadata, starting, files) is Passed,
{
    let found = snapshots_with_deletes(metadata, starting, metadata.current_snapshot_id);
    if found.len() > 0 {
        let passed = walk(
            metadata.snapshots@,
            starting,
            metadata.current_snapshot_id,
            metadata.snapshots@.len(),
        );
        lemma_filtered(passed, |id: i64| may_add_deletes(metadata.snapshots@[id]), 0);
        let k = choose|k: int| 0 <= k < passed.len() && passed[k] == found[0];
        assert(!may_add_deletes(metadata.snapshots@[passed[k]]));
    }
}

} // verus!
