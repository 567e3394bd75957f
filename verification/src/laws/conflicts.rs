//! Which snapshots and which delete files count as changes since the start.
//!
//! The ancestry of a snapshot is told here by chains: ids of snapshots, each the parent of the one
//! before. Ids have no order of their own.

use vstd::prelude::*;

use crate::ancestry::{
    ancestry_ends, is_met, lemma_walk_split, may_add_deletes, snapshots_with_deletes, stopped, walk,
    walked_to, with_ancestors,
};
use crate::conflicts::{conflict_check, conflict_task, conflicting, conflicts, paths_of, Visit};
use crate::error::ErrorKind;
use crate::laws::ancestry::{
    law_found_snapshots_are_those_since, law_walks_end_in_time, lemma_first_stop,
    lemma_stop_in_time, lemma_walk_under_way,
};
use crate::laws::checks::{conflict_checked, law_passed_checks_have_no_conflict, visited, ReadReply};
use crate::laws::selections::{
    law_conflicts_name_replaced_files, law_files_count_by_their_paths, law_own_delete_manifests,
    names_replaced,
};
use crate::seqs::lemma_filtered;
use crate::types::{
    DataFile, ManifestContentType, ManifestEntry, ManifestFile, Operation, Snapshot, TableMetadata,
};

verus! {

broadcast use vstd::std_specs::hash::group_hash_axioms;

/// Whether the ids lead from the given snapshot to the last of them: each but the last is known to
/// the table, and the next is its parent.
pub open spec fn is_chain(
    snapshots: Map<i64, Snapshot>,
    from: Option<i64>,
    chain: Seq<i64>,
) -> bool {
    &&& chain.len() > 0
    &&& from == Some(chain[0])
    &&& forall|i: int|
        0 <= i < chain.len() - 1 ==> {
            &&& snapshots.contains_key(#[trigger] chain[i])
            &&& snapshots[chain[i]].parent_snapshot_id == Some(chain[i + 1])
        }
}

/// Whether all snapshots of a chain are known to the table, and none is the starting one.
pub open spec fn is_since(
    snapshots: Map<i64, Snapshot>,
    starting: Option<i64>,
    chain: Seq<i64>,
) -> bool {
    forall|i: int|
        0 <= i < chain.len() ==> snapshots.contains_key(#[trigger] chain[i]) && Some(chain[i])
            != starting
}

/// Whether a snapshot has the operation `Overwrite` or `Delete`.
pub open spec fn changes_files(snapshots: Map<i64, Snapshot>, id: i64) -> bool {
    let operation = snapshots[id].operation;
    operation == Operation::Overwrite || operation == Operation::Delete
}

/// A walk follows a chain.
proof fn lemma_walk_follows(
    snapshots: Map<i64, Snapshot>,
    starting: Option<i64>,
    from: Option<i64>,
    chain: Seq<i64>,
    k: int,
)
    requires
        is_chain(snapshots, from, chain),
        0 <= k < chain.len(),
        forall|i: int| 0 <= i < k ==> Some(#[trigger] chain[i]) != starting,
    ensures
        walked_to(snapshots, starting, from, k as nat) == Some(chain[k]),
    decreases k,
{
    if k > 0 {
        lemma_walk_follows(snapshots, starting, from, chain, k - 1);
        lemma_walk_split(snapshots, starting, from, (k - 1) as nat, 1);
        assert(snapshots.contains_key(chain[k - 1]));
        assert(Some(chain[k - 1]) != starting);
        reveal_with_fuel(walked_to, 3);
    }
}

/// The ids that a walk stands at, up to a step before which it has not stopped, are a chain.
proof fn lemma_walk_is_chain(
    snapshots: Map<i64, Snapshot>,
    starting: Option<i64>,
    from: Option<i64>,
    k: nat,
) -> (chain: Seq<i64>)
    requires
        forall|j: nat| j < k ==> !#[trigger] stopped(snapshots, starting, from, j),
        walked_to(snapshots, starting, from, k) is Some,
    ensures
        chain.len() == k + 1,
        is_chain(snapshots, from, chain),
        walked_to(snapshots, starting, from, k) == Some(chain.last()),
        forall|i: int|
            0 <= i < k ==> snapshots.contains_key(#[trigger] chain[i]) && Some(chain[i])
                != starting,
    decreases k,
{
    let last = walked_to(snapshots, starting, from, k)->0;
    if k == 0 {
        seq![last]
    } else {
        let before = (k - 1) as nat;
        assert(!stopped(snapshots, starting, from, before));
        let chain = lemma_walk_is_chain(snapshots, starting, from, before);
        lemma_walk_split(snapshots, starting, from, before, 1);
        reveal_with_fuel(walked_to, 3);
        let longer = chain.push(last);
        assert forall|i: int| 0 <= i < longer.len() - 1 implies {
            &&& snapshots.contains_key(#[trigger] longer[i])
            &&& snapshots[longer[i]].parent_snapshot_id == Some(longer[i + 1])
        } by {
            assert(longer[i] == chain[i]);
            if i < chain.len() - 1 {
                assert(longer[i + 1] == chain[i + 1]);
            }
        }
        longer
    }
}

/// The walk from the current snapshot ends if a chain leads to an end: to a snapshot without a
/// parent, to a parent that the table does not know, or to the starting one.
pub proof fn law_walks_end_where_chains_end(
    metadata: TableMetadata,
    starting: Option<i64>,
    current: Option<i64>,
    chain: Seq<i64>,
)
    requires
        is_chain(metadata.snapshots@, current, chain),
        ({
            let last = chain.last();
            let parent = metadata.snapshots@[last].parent_snapshot_id;
            ||| !metadata.snapshots@.contains_key(last)
            ||| Some(last) == starting
            ||| parent is None
        }),
    ensures
        ancestry_ends(metadata, starting, current),
    decreases chain.len(),
{
    let snapshots = metadata.snapshots@;
    let k = chain.len() - 1;
    if exists|i: int| 0 <= i < k && Some(#[trigger] chain[i]) == starting {
        let i = choose|i: int| 0 <= i < k && Some(#[trigger] chain[i]) == starting;
        let head = chain.take(i + 1);
        assert(is_chain(snapshots, current, head)) by {
            assert forall|j: int| 0 <= j < head.len() - 1 implies {
                &&& snapshots.contains_key(#[trigger] head[j])
                &&& snapshots[head[j]].parent_snapshot_id == Some(head[j + 1])
            } by {
                assert(head[j] == chain[j]);
                assert(head[j + 1] == chain[j + 1]);
            }
        }
        assert(head.last() == chain[i]);
        law_walks_end_where_chains_end(metadata, starting, current, head);
    } else {
        lemma_walk_follows(snapshots, starting, current, chain, k);
        if stopped(snapshots, starting, current, k as nat) {
            law_walks_end_in_time(metadata, starting, current, k as nat);
        } else {
            lemma_walk_split(snapshots, starting, current, k as nat, 1);
            reveal_with_fuel(walked_to, 3);
            assert(stopped(snapshots, starting, current, (k + 1) as nat));
            law_walks_end_in_time(metadata, starting, current, (k + 1) as nat);
        }
    }
}

/// The snapshots that are found are those that a chain leads to from the current one without
/// meeting the starting one, and that have the operation `Overwrite` or `Delete`: all of them,
/// whatever their ids, and no others, each once.
pub proof fn law_found_snapshots_are_linked_to_the_current_one(
    metadata: TableMetadata,
    starting: Option<i64>,
    current: Option<i64>,
)
    requires
        ancestry_ends(metadata, starting, current),
    ensures
        snapshots_with_deletes(metadata, starting, current).no_duplicates(),
        forall|chain: Seq<i64>|
            #[trigger] is_chain(metadata.snapshots@, current, chain) && is_since(
                metadata.snapshots@,
                starting,
                chain,
            ) && changes_files(metadata.snapshots@, chain.last()) ==> snapshots_with_deletes(
                metadata,
                starting,
                current,
            ).contains(chain.last()),
        forall|id: i64| #[trigger]
            snapshots_with_deletes(metadata, starting, current).contains(id) ==> changes_files(
                metadata.snapshots@,
                id,
            ) && exists|chain: Seq<i64>|
                #[trigger] is_chain(metadata.snapshots@, current, chain) && is_since(
                    metadata.snapshots@,
                    starting,
                    chain,
                ) && chain.last() == id,
{
    let snapshots = metadata.snapshots@;
    let limit = snapshots.len();
    let found = snapshots_with_deletes(metadata, starting, current);
    let passed = walk(snapshots, starting, current, limit);
    let pred = |id: i64| may_add_deletes(metadata.snapshots@[id]);
    let first = lemma_first_stop(snapshots, starting, current, limit);
    lemma_stop_in_time(snapshots, starting, current, first);
    lemma_walk_under_way(snapshots, starting, current, first);
    law_walks_end_in_time(metadata, starting, current, first);
    law_found_snapshots_are_those_since(metadata, starting, current);
    assert forall|chain: Seq<i64>|
        #[trigger] is_chain(snapshots, current, chain) && is_since(snapshots, starting, chain)
            && changes_files(snapshots, chain.last()) implies found.contains(chain.last()) by {
        let k = chain.len() - 1;
        lemma_walk_follows(snapshots, starting, current, chain, k);
        assert(Some(chain[k]) != starting);
        assert(snapshots.contains_key(chain[k]));
        if first <= k {
            lemma_walk_split(snapshots, starting, current, first, (k - first) as nat);
        }
        assert(Some(passed[k]) == walked_to(snapshots, starting, current, k as nat));
        assert(pred(passed[k]));
        passed.lemma_filter_contains(pred, k);
    }
    assert forall|id: i64| #[trigger] found.contains(id) implies changes_files(snapshots, id)
        && exists|chain: Seq<i64>|
        #[trigger] is_chain(snapshots, current, chain) && is_since(snapshots, starting, chain)
            && chain.last() == id by {
        let i = choose|i: int| 0 <= i < found.len() && found[i] == id;
        lemma_filtered(passed, pred, i);
        let k = choose|k: int| 0 <= k < passed.len() && passed[k] == id;
        assert(Some(passed[k]) == walked_to(snapshots, starting, current, k as nat));
        let chain = lemma_walk_is_chain(snapshots, starting, current, k as nat);
        assert(!stopped(snapshots, starting, current, k as nat));
        assert(is_since(snapshots, starting, chain)) by {
            assert forall|j: int| 0 <= j < chain.len() implies snapshots.contains_key(
                #[trigger] chain[j],
            ) && Some(chain[j]) != starting by {
                if j == k {
                    assert(chain[j] == chain.last());
                }
            }
        }
    }
}

/// The snapshots that were there at the start are those that a chain leads to from the starting
/// one, itself among them: all of them and no others.
pub proof fn law_earlier_snapshots_are_linked_to_the_start(
    metadata: TableMetadata,
    starting: Option<i64>,
    id: i64,
)
    ensures
        with_ancestors(metadata, starting).contains(id) <==> exists|chain: Seq<i64>|
            #[trigger] is_chain(metadata.snapshots@, starting, chain) && chain.last() == id,
{
    let snapshots = metadata.snapshots@;
    if exists|chain: Seq<i64>|
        #[trigger] is_chain(snapshots, starting, chain) && chain.last() == id {
        let chain = choose|chain: Seq<i64>|
            #[trigger] is_chain(snapshots, starting, chain) && chain.last() == id;
        lemma_walk_follows(snapshots, None, starting, chain, chain.len() - 1);
        assert(is_met(snapshots, starting, id));
    }
    if is_met(snapshots, starting, id) {
        let steps = choose|steps: nat| #[trigger]
            walked_to(snapshots, None, starting, steps) == Some(id);
        if exists|j: nat| j <= steps && #[trigger] stopped(snapshots, None, starting, j) {
            let j = choose|j: nat| j <= steps && #[trigger] stopped(snapshots, None, starting, j);
            let first = lemma_first_stop(snapshots, None, starting, j);
            lemma_walk_split(snapshots, None, starting, first, (steps - first) as nat);
            let chain = lemma_walk_is_chain(snapshots, None, starting, first);
            assert(is_chain(snapshots, starting, chain) && chain.last() == id);
        } else {
            let chain = lemma_walk_is_chain(snapshots, None, starting, steps);
            assert(is_chain(snapshots, starting, chain) && chain.last() == id);
        }
    }
}

/// What a check for new delete files is asked: to visit every snapshot since the start, by its
/// links and not by its id, that has the operation `Overwrite` or `Delete`, and no others; to look
/// for the paths of the given files; and to leave out what was there at the start.
pub proof fn law_what_conflict_checks_are_asked(
    metadata: TableMetadata,
    starting: Option<i64>,
    files: Seq<DataFile>,
    path: Seq<char>,
    id: i64,
)
    requires
        ancestry_ends(metadata, starting, metadata.current_snapshot_id),
    ensures
        ({
            let task = conflict_task(metadata, starting, files);
            let snapshots = metadata.snapshots@;
            let current = metadata.current_snapshot_id;
            &&& task.snapshot_ids.no_duplicates()
            &&& task.snapshot_ids.contains(id) <==> changes_files(snapshots, id)
                && exists|chain: Seq<i64>|
                #[trigger] is_chain(snapshots, current, chain) && is_since(
                    snapshots,
                    starting,
                    chain,
                ) && chain.last() == id
            &&& task.replaced.contains(path) <==> exists|f: int|
                0 <= f < files.len() && #[trigger] files[f].file_path@ == path
            &&& task.earlier.contains(id) <==> exists|chain: Seq<i64>|
                #[trigger] is_chain(snapshots, starting, chain) && chain.last() == id
        }),
{
    let task = conflict_task(metadata, starting, files);
    law_found_snapshots_are_linked_to_the_current_one(
        metadata,
        starting,
        metadata.current_snapshot_id,
    );
    law_earlier_snapshots_are_linked_to_the_start(metadata, starting, id);
    if files.len() > 0 {
        law_files_count_by_their_paths(files, Seq::empty(), files[0]);
    }
    if exists|f: int| 0 <= f < files.len() && #[trigger] files[f].file_path@ == path {
        let f = choose|f: int| 0 <= f < files.len() && #[trigger] files[f].file_path@ == path;
        assert(paths_of(files)[f] == path);
    }
    if task.replaced.contains(path) {
        let f = choose|f: int| 0 <= f < task.replaced.len() && task.replaced[f] == path;
        assert(files[f].file_path@ == path);
    }
}

/// There is nothing to check if no file is replaced, or if the current snapshot is the starting
/// one.
pub proof fn law_nothing_to_check(
    metadata: TableMetadata,
    starting: Option<i64>,
    files: Seq<DataFile>,
)
    requires
        files.len() == 0 || metadata.current_snapshot_id == starting,
    ensures
        conflict_check(metadata, starting, files) is Passed,
{
}

/// Whether a visit to a snapshot has read every delete manifest that the snapshot has added, and
/// found no new delete file for a replaced file in any. The given manifests are those whose entries
/// were read.
pub open spec fn visited_without_conflict(
    replaced: Seq<Seq<char>>,
    earlier: Set<i64>,
    id: i64,
    visit: Visit,
    manifests: Seq<ManifestFile>,
) -> bool {
    &&& manifests.len() == visit.reads.len()
    &&& forall|m: int|
        0 <= m < visit.manifests.len() && visit.manifests[m].content
            == ManifestContentType::Deletes && visit.manifests[m].added_snapshot_id == id
            ==> manifests.contains(#[trigger] visit.manifests[m])
    &&& forall|i: int, j: int|
        0 <= i < visit.reads.len() && 0 <= j < visit.reads[i].len() ==> !names_replaced(
            replaced,
            earlier,
            #[trigger] visit.reads[i][j],
        )
}

/// A check that has passed, whatever was read, has visited every snapshot since the start that has
/// the operation `Overwrite` or `Delete`, has read every delete manifest that each of them has
/// added, and has seen no new delete file for a replaced file.
pub proof fn law_passed_checks_have_visited_every_snapshot(
    metadata: TableMetadata,
    starting: Option<i64>,
    files: Seq<DataFile>,
    replies: Seq<ReadReply>,
    chain: Seq<i64>,
)
    requires
        files.len() > 0,
        metadata.current_snapshot_id != starting,
        ancestry_ends(metadata, starting, metadata.current_snapshot_id),
        conflict_checked(conflict_check(metadata, starting, files), replies) is Passed,
        is_chain(metadata.snapshots@, metadata.current_snapshot_id, chain),
        is_since(metadata.snapshots@, starting, chain),
        changes_files(metadata.snapshots@, chain.last()),
    ensures
        ({
            let task = conflict_task(metadata, starting, files);
            let visits = visited(conflict_check(metadata, starting, files), replies);
            exists|k: int|
                0 <= k < visits.len() && task.snapshot_ids[k] == chain.last()
                    && visited_without_conflict(
                    task.replaced,
                    task.earlier,
                    chain.last(),
                    #[trigger] visits[k],
                    task.pending(visits, k),
                )
        }),
{
    let task = conflict_task(metadata, starting, files);
    let visits = visited(conflict_check(metadata, starting, files), replies);
    let id = chain.last();
    law_passed_checks_have_no_conflict(metadata, starting, files, replies);
    law_what_conflict_checks_are_asked(metadata, starting, files, Seq::empty(), id);
    assert(task.snapshot_ids.contains(id));
    let k = choose|k: int| 0 <= k < task.snapshot_ids.len() && task.snapshot_ids[k] == id;
    let visit = visits[k];
    let manifests = task.pending(visits, k);
    assert(task.complete(visits, k));
    assert forall|m: int|
        0 <= m < visit.manifests.len() && visit.manifests[m].content
            == ManifestContentType::Deletes && visit.manifests[m].added_snapshot_id
            == id implies manifests.contains(#[trigger] visit.manifests[m]) by {
        law_own_delete_manifests(visit.manifests, Seq::empty(), visit.manifests[m], id);
    }
    assert forall|i: int, j: int|
        0 <= i < visit.reads.len() && 0 <= j < visit.reads[i].len() implies !names_replaced(
        task.replaced,
        task.earlier,
        #[trigger] visit.reads[i][j],
    ) by {
        let entries = visit.reads[i];
        assert(conflicting(task.replaced, task.earlier, visits[k].reads[i]).len() == 0);
        law_conflicts_name_replaced_files(
            task.replaced,
            task.earlier,
            entries,
            Seq::empty(),
            entries[j],
        );
    }
}

/// A check that has failed has read an entry of a new delete file for one of the given files, in a
/// manifest that was read last, and names that file.
pub proof fn law_failed_checks_name_a_replaced_file(
    metadata: TableMetadata,
    starting: Option<i64>,
    files: Seq<DataFile>,
    replies: Seq<ReadReply>,
)
    requires
        files.len() > 0,
        metadata.current_snapshot_id != starting,
        ancestry_ends(metadata, starting, metadata.current_snapshot_id),
        conflict_checked(conflict_check(metadata, starting, files), replies) is Failed,
    ensures
        ({
            let task = conflict_task(metadata, starting, files);
            let visits = visited(conflict_check(metadata, starting, files), replies);
            let error = conflict_checked(
                conflict_check(metadata, starting, files),
                replies,
            )->Failed_0;
            let entries = visits.last().reads.last();
            &&& error.kind == ErrorKind::DataInvalid
            &&& exists|j: int, f: int|
                {
                    &&& 0 <= j < entries.len()
                    &&& 0 <= f < files.len()
                    &&& names_replaced(task.replaced, task.earlier, #[trigger] entries[j])
                    &&& entries[j].data_file.referenced_data_file->0@
                        == #[trigger] files[f].file_path@
                    &&& error.message
                        == "Cannot commit, found new position delete for replaced data file: "@
                        + files[f].file_path@
                }
        }),
{
    let task = conflict_task(metadata, starting, files);
    let visits = visited(conflict_check(metadata, starting, files), replies);
    let entries = visits.last().reads.last();
    law_passed_checks_have_no_conflict(metadata, starting, files, replies);
    let found = conflicting(task.replaced, task.earlier, entries);
    let pred = |e: ManifestEntry| conflicts(task.replaced, task.earlier, e);
    lemma_filtered(entries, pred, 0);
    let j = choose|j: int| 0 <= j < entries.len() && entries[j] == found[0];
    law_conflicts_name_replaced_files(
        task.replaced,
        task.earlier,
        entries,
        Seq::empty(),
        entries[j],
    );
    assert(found.contains(found[0]));
    let path = entries[j].data_file.referenced_data_file->0@;
    law_what_conflict_checks_are_asked(metadata, starting, files, path, 0);
    let f = choose|f: int| 0 <= f < files.len() && #[trigger] files[f].file_path@ == path;
    assert(names_replaced(task.replaced, task.earlier, entries[j]));
}

/// Whether a delete manifest makes a check fail depends on its entries alone: the check fails at it
/// if and only if it lists a new delete file for a replaced file.
pub proof fn law_manifests_fail_the_check_by_their_entries(
    metadata: TableMetadata,
    starting: Option<i64>,
    files: Seq<DataFile>,
    visits: Seq<Visit>,
    entries: Seq<ManifestEntry>,
)
    ensures
        ({
            let task = conflict_task(metadata, starting, files);
            task.after_read(visits, entries) is Failed <==> exists|j: int|
                0 <= j < entries.len() && names_replaced(
                    task.replaced,
                    task.earlier,
                    #[trigger] entries[j],
                )
        }),
{
    let task = conflict_task(metadata, starting, files);
    let found = conflicting(task.replaced, task.earlier, entries);
    let pred = |e: ManifestEntry| conflicts(task.replaced, task.earlier, e);
    if found.len() > 0 {
        lemma_filtered(entries, pred, 0);
        let j = choose|j: int| 0 <= j < entries.len() && entries[j] == found[0];
        assert(names_replaced(task.replaced, task.earlier, entries[j]));
    }
    if exists|j: int|
        0 <= j < entries.len() && names_replaced(task.replaced, task.earlier, #[trigger] entries[j]) {
        let j = choose|j: int|
            0 <= j < entries.len() && names_replaced(
                task.replaced,
                task.earlier,
                #[trigger] entries[j],
            );
        assert(pred(entries[j]));
        entries.lemma_filter_contains(pred, j);
    }
}

} // verus!
