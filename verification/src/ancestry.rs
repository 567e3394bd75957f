//! Walks through the ancestry of a snapshot.

use std::collections::HashSet;

use vstd::prelude::*;

use crate::seqs::{lemma_filter_empty, lemma_filter_push};
use crate::types::{Operation, Snapshot, TableMetadata};

verus! {

broadcast use vstd::std_specs::hash::group_hash_axioms;

/// Whether a walk through the ancestry stops before the given snapshot: there is none, it is the
/// starting snapshot, or it is not known.
pub open spec fn stops_at(
    snapshots: Map<i64, Snapshot>,
    starting: Option<i64>,
    at: Option<i64>,
) -> bool {
    match at {
        None => true,
        Some(id) => at == starting || !snapshots.contains_key(id),
    }
}

/// The snapshots that a walk from the given one passes, up to a number of steps.
pub open spec fn walk(
    snapshots: Map<i64, Snapshot>,
    starting: Option<i64>,
    from: Option<i64>,
    steps: nat,
) -> Seq<i64>
    decreases steps,
{
    if steps == 0 || stops_at(snapshots, starting, from) {
        Seq::empty()
    } else {
        seq![from->0] + walk(
            snapshots,
            starting,
            snapshots[from->0].parent_snapshot_id,
            (steps - 1) as nat,
        )
    }
}

/// Where a walk from the given snapshot stands after a number of steps.
pub open spec fn walked_to(
    snapshots: Map<i64, Snapshot>,
    starting: Option<i64>,
    from: Option<i64>,
    steps: nat,
) -> Option<i64>
    decreases steps,
{
    if steps == 0 || stops_at(snapshots, starting, from) {
        from
    } else {
        walked_to(
            snapshots,
            starting,
            snapshots[from->0].parent_snapshot_id,
            (steps - 1) as nat,
        )
    }
}

/// Whether a walk stands still after a number of steps.
pub open spec fn stopped(
    snapshots: Map<i64, Snapshot>,
    starting: Option<i64>,
    from: Option<i64>,
    steps: nat,
) -> bool {
    stops_at(snapshots, starting, walked_to(snapshots, starting, from, steps))
}

/// Whether a walk from the given snapshot comes to a stop, as it does where no snapshot is its
/// own ancestor. There are no more steps to take than there are snapshots.
pub open spec fn ancestry_ends(
    metadata: TableMetadata,
    starting: Option<i64>,
    from: Option<i64>,
) -> bool {
    stops_at(
        metadata.snapshots@,
        starting,
        walked_to(metadata.snapshots@, starting, from, metadata.snapshots@.len()),
    )
}

/// The given snapshot and its ancestors, as far as they are known: a parent counts even if the
/// table has forgotten it, but its own ancestors are then not known.
pub open spec fn with_ancestors(metadata: TableMetadata, from: Option<i64>) -> Set<i64> {
    Set::new(|id: i64| is_met(metadata.snapshots@, from, id))
}

/// Whether a walk from the given snapshot, back to the first one, ever stands at another.
pub open spec fn is_met(snapshots: Map<i64, Snapshot>, from: Option<i64>, id: i64) -> bool {
    exists|steps: nat| #[trigger] walked_to(snapshots, None, from, steps) == Some(id)
}

/// Whether a snapshot may have added delete files.
pub open spec fn may_add_deletes(snapshot: Snapshot) -> bool {
    snapshot.operation == Operation::Overwrite || snapshot.operation == Operation::Delete
}

/// The snapshots on the way from the current one back to the starting one, the latter left out,
/// that may have added delete files.
pub open spec fn snapshots_with_deletes(
    metadata: TableMetadata,
    starting: Option<i64>,
    current: Option<i64>,
) -> Seq<i64> {
    walk(metadata.snapshots@, starting, current, metadata.snapshots@.len()).filter(
        |id: i64| may_add_deletes(metadata.snapshots@[id]),
    )
}

/// A longer walk is a shorter walk and its continuation.
pub(crate) proof fn lemma_walk_split(
    snapshots: Map<i64, Snapshot>,
    starting: Option<i64>,
    from: Option<i64>,
    first: nat,
    more: nat,
)
    ensures
        walk(snapshots, starting, from, first + more) == walk(snapshots, starting, from, first)
            + walk(snapshots, starting, walked_to(snapshots, starting, from, first), more),
        walked_to(snapshots, starting, from, first + more) == walked_to(
            snapshots,
            starting,
            walked_to(snapshots, starting, from, first),
            more,
        ),
    decreases first,
{
    if first == 0 {
        assert(walk(snapshots, starting, from, more) =~= walk(snapshots, starting, from, 0) + walk(
            snapshots,
            starting,
            from,
            more,
        ));
    } else if stops_at(snapshots, starting, from) {
        assert(walk(snapshots, starting, from, first + more) =~= walk(
            snapshots,
            starting,
            from,
            first,
        ) + walk(snapshots, starting, from, more));
    } else {
        let parent = snapshots[from->0].parent_snapshot_id;
        lemma_walk_split(snapshots, starting, parent, (first - 1) as nat, more);
        assert(walk(snapshots, starting, from, first + more) =~= walk(
            snapshots,
            starting,
            from,
            first,
        ) + walk(snapshots, starting, walked_to(snapshots, starting, from, first), more));
    }
}

/// A walk that stands still, or stands where it stood before, meets no more snapshots.
proof fn lemma_all_met(
    snapshots: Map<i64, Snapshot>,
    from: Option<i64>,
    before: nat,
    at: nat,
    steps: nat,
)
    requires
        before <= at,
        walked_to(snapshots, None, from, before) == walked_to(snapshots, None, from, at),
        before == at ==> stopped(snapshots, None, from, at),
    ensures
        exists|k: nat|
            k <= at && #[trigger] walked_to(snapshots, None, from, k) == walked_to(
                snapshots,
                None,
                from,
                steps,
            ),
    decreases steps,
{
    if steps <= at {
        assert(walked_to(snapshots, None, from, steps) == walked_to(snapshots, None, from, steps));
    } else if before == at {
        lemma_walk_split(snapshots, None, from, at, (steps - at) as nat);
        assert(walked_to(snapshots, None, from, at) == walked_to(snapshots, None, from, steps));
    } else {
        let rest = (steps - at) as nat;
        lemma_walk_split(snapshots, None, from, at, rest);
        lemma_walk_split(snapshots, None, from, before, rest);
        lemma_all_met(snapshots, from, before, at, (before + rest) as nat);
    }
}

/// Walks back from the given snapshot to the first one, and collects the snapshots on the way.
pub fn find_with_ancestors(metadata: &TableMetadata, from: Option<i64>) -> (found: HashSet<i64>)
    ensures
        found@ == with_ancestors(*metadata, from),
{
    let ghost snapshots = metadata.snapshots@;
    let ghost mut steps: nat = 0;
    let mut found: HashSet<i64> = HashSet::new();
    let mut at: Option<i64> = from;
    loop
        invariant
            snapshots == metadata.snapshots@,
            at == walked_to(snapshots, None, from, steps),
            found@.finite(),
            found@.subset_of(snapshots.dom()),
            forall|id: i64| #[trigger]
                found@.contains(id) <==> exists|k: nat|
                    k < steps && #[trigger] walked_to(snapshots, None, from, k) == Some(id),
        decreases snapshots.dom().len() - found@.len(),
    {
        let id: i64 = match at {
            None => {
                proof {
                    lemma_up_to(snapshots, from, steps, found@);
                    lemma_collected(*metadata, from, steps, steps, found@);
                }
                return found;
            },
            Some(id) => id,
        };
        if found.contains(&id) {
            proof {
                let before = choose|k: nat|
                    k < steps && #[trigger] walked_to(snapshots, None, from, k) == Some(id);
                lemma_up_to(snapshots, from, steps, found@);
                lemma_collected(*metadata, from, before, steps, found@);
            }
            return found;
        }
        let ghost earlier = found@;
        found.insert(id);
        match metadata.snapshot_by_id(id) {
            None => {
                proof {
                    assert forall|other: i64| #[trigger]
                        found@.contains(other) <==> exists|k: nat|
                            k <= steps && #[trigger] walked_to(snapshots, None, from, k) == Some(
                                other,
                            ) by {
                        lemma_one_more(snapshots, from, steps, earlier, id, other);
                    }
                    lemma_collected(*metadata, from, steps, steps, found@);
                }
                return found;
            },
            Some(snapshot) => {
                proof {
                    assert forall|other: i64| #[trigger]
                        found@.contains(other) <==> exists|k: nat|
                            k < steps + 1 && #[trigger] walked_to(snapshots, None, from, k) == Some(
                                other,
                            ) by {
                        lemma_one_more(snapshots, from, steps, earlier, id, other);
                    }
                    lemma_walk_split(snapshots, None, from, steps, 1);
                    reveal_with_fuel(walked_to, 3);
                    vstd::set_lib::lemma_len_subset(found@, snapshots.dom());
                    steps = steps + 1;
                }
                at = snapshot.parent_snapshot_id;
            },
        }
    }
}

/// A walk that stands nowhere, or at a snapshot that it has met before, meets none with the step.
proof fn lemma_up_to(
    snapshots: Map<i64, Snapshot>,
    from: Option<i64>,
    steps: nat,
    found: Set<i64>,
)
    requires
        walked_to(snapshots, None, from, steps) matches Some(id) ==> found.contains(id),
        forall|id: i64| #[trigger]
            found.contains(id) <==> exists|k: nat|
                k < steps && #[trigger] walked_to(snapshots, None, from, k) == Some(id),
    ensures
        forall|id: i64| #[trigger]
            found.contains(id) <==> exists|k: nat|
                k <= steps && #[trigger] walked_to(snapshots, None, from, k) == Some(id),
{
    assert forall|id: i64| #[trigger] found.contains(id) <==> exists|k: nat|
        k <= steps && #[trigger] walked_to(snapshots, None, from, k) == Some(id) by {
        if found.contains(id) {
            let k = choose|k: nat|
                k < steps && #[trigger] walked_to(snapshots, None, from, k) == Some(id);
            assert(k <= steps);
        }
        if exists|k: nat| k <= steps && #[trigger] walked_to(snapshots, None, from, k) == Some(id) {
            let k = choose|k: nat|
                k <= steps && #[trigger] walked_to(snapshots, None, from, k) == Some(id);
            assert(k < steps || found.contains(id));
        }
    }
}

/// One more snapshot of a walk.
proof fn lemma_one_more(
    snapshots: Map<i64, Snapshot>,
    from: Option<i64>,
    steps: nat,
    earlier: Set<i64>,
    id: i64,
    other: i64,
)
    requires
        walked_to(snapshots, None, from, steps) == Some(id),
        earlier.contains(other) <==> exists|k: nat|
            k < steps && #[trigger] walked_to(snapshots, None, from, k) == Some(other),
    ensures
        earlier.insert(id).contains(other) <==> exists|k: nat|
            k <= steps && #[trigger] walked_to(snapshots, None, from, k) == Some(other),
{
    if earlier.contains(other) {
        let k = choose|k: nat|
            k < steps && #[trigger] walked_to(snapshots, None, from, k) == Some(other);
        assert(k <= steps);
    }
    if exists|k: nat| k <= steps && #[trigger] walked_to(snapshots, None, from, k) == Some(other) {
        let k = choose|k: nat|
            k <= steps && #[trigger] walked_to(snapshots, None, from, k) == Some(other);
        if k < steps {
            assert(earlier.contains(other));
        }
    }
}

/// The snapshots of a walk up to where it meets no more are all that it ever meets.
proof fn lemma_collected(
    metadata: TableMetadata,
    from: Option<i64>,
    before: nat,
    at: nat,
    found: Set<i64>,
)
    requires
        before <= at,
        walked_to(metadata.snapshots@, None, from, before) == walked_to(
            metadata.snapshots@,
            None,
            from,
            at,
        ),
        before == at ==> stopped(metadata.snapshots@, None, from, at),
        forall|id: i64| #[trigger]
            found.contains(id) <==> exists|k: nat|
                k <= at && #[trigger] walked_to(metadata.snapshots@, None, from, k) == Some(id),
    ensures
        found == with_ancestors(metadata, from),
{
    let snapshots = metadata.snapshots@;
    let all = with_ancestors(metadata, from);
    assert forall|id: i64| found.contains(id) <==> all.contains(id) by {
        if is_met(snapshots, from, id) {
            let steps = choose|steps: nat| #[trigger]
                walked_to(snapshots, None, from, steps) == Some(id);
            lemma_all_met(snapshots, from, before, at, steps);
        }
    }
    assert(found =~= all);
}

/// Whether a walk through the ancestry comes to a stop.
pub fn check_ancestry_ends(
    metadata: &TableMetadata,
    starting_snapshot_id: Option<i64>,
    current_snapshot_id: Option<i64>,
) -> (ends: bool)
    ensures
        ends == ancestry_ends(*metadata, starting_snapshot_id, current_snapshot_id),
{
    let ghost snapshots = metadata.snapshots@;
    let limit: usize = metadata.snapshots.len();
    let mut at: Option<i64> = current_snapshot_id;
    let mut steps: usize = 0;
    loop
        invariant
            steps <= limit,
            limit == snapshots.len(),
            snapshots == metadata.snapshots@,
            at == walked_to(snapshots, starting_snapshot_id, current_snapshot_id, steps as nat),
        decreases limit - steps,
    {
        let snapshot = match at {
            None => None,
            Some(id) => if at == starting_snapshot_id {
                None
            } else {
                metadata.snapshot_by_id(id)
            },
        };
        match snapshot {
            None => {
                proof {
                    lemma_walk_split(
                        snapshots,
                        starting_snapshot_id,
                        current_snapshot_id,
                        steps as nat,
                        (limit - steps) as nat,
                    );
                }
                return true;
            },
            Some(snapshot) => {
                if steps == limit {
                    return false;
                }
                proof {
                    lemma_walk_split(
                        snapshots,
                        starting_snapshot_id,
                        current_snapshot_id,
                        steps as nat,
                        1,
                    );
                    reveal_with_fuel(walked_to, 3);
                }
                at = snapshot.parent_snapshot_id;
                steps += 1;
            },
        }
    }
}

/// Walks the ancestry from the current snapshot back to the starting snapshot, and finds the
/// snapshots on the way, the starting one left out, that may have added delete files.
pub fn find_snapshots_with_deletes(
    metadata: &TableMetadata,
    starting_snapshot_id: Option<i64>,
    current_snapshot_id: Option<i64>,
) -> (found: Vec<i64>)
    requires
        ancestry_ends(*metadata, starting_snapshot_id, current_snapshot_id),
    ensures
        found@ == snapshots_with_deletes(*metadata, starting_snapshot_id, current_snapshot_id),
{
    let ghost snapshots = metadata.snapshots@;
    let ghost limit = snapshots.len();
    let ghost pred = |id: i64| may_add_deletes(metadata.snapshots@[id]);
    let ghost mut steps: nat = 0;
    let mut found: Vec<i64> = Vec::new();
    let mut at: Option<i64> = current_snapshot_id;
    proof {
        lemma_filter_empty(pred);
    }
    loop
        invariant
            snapshots == metadata.snapshots@,
            limit == snapshots.len(),
            pred == (|id: i64| may_add_deletes(metadata.snapshots@[id])),
            ancestry_ends(*metadata, starting_snapshot_id, current_snapshot_id),
            steps <= limit,
            at == walked_to(snapshots, starting_snapshot_id, current_snapshot_id, steps),
            found@ == walk(snapshots, starting_snapshot_id, current_snapshot_id, steps).filter(
                pred,
            ),
        decreases limit - steps,
    {
        let next = match at {
            None => None,
            Some(id) => if at == starting_snapshot_id {
                None
            } else {
                match metadata.snapshot_by_id(id) {
                    Some(snapshot) => Some((id, snapshot)),
                    None => None,
                }
            },
        };
        match next {
            None => {
                proof {
                    lemma_walk_split(
                        snapshots,
                        starting_snapshot_id,
                        current_snapshot_id,
                        steps,
                        (limit - steps) as nat,
                    );
                    let passed = walk(
                        snapshots,
                        starting_snapshot_id,
                        current_snapshot_id,
                        steps,
                    );
                    assert(passed + Seq::<i64>::empty() =~= passed);
                }
                return found;
            },
            Some((id, snapshot)) => {
                proof {
                    let passed = walk(
                        snapshots,
                        starting_snapshot_id,
                        current_snapshot_id,
                        steps,
                    );
                    lemma_walk_split(
                        snapshots,
                        starting_snapshot_id,
                        current_snapshot_id,
                        steps,
                        1,
                    );
                    reveal_with_fuel(walk, 3);
                    reveal_with_fuel(walked_to, 3);
                    assert(walk(snapshots, starting_snapshot_id, at, 1) =~= seq![id]);
                    assert(passed + seq![id] =~= passed.push(id));
                    lemma_filter_push(passed, id, pred);
                }
                match snapshot.operation {
                    Operation::Overwrite | Operation::Delete => {
                        found.push(id);
                    },
                    Operation::Append | Operation::Replace => {},
                }
                at = snapshot.parent_snapshot_id;
                proof {
                    steps = steps + 1;
                }
            },
        }
    }
}

} // verus!
