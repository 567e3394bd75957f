//! What the checks before a commit establish.

use vstd::prelude::*;

use crate::ancestry::is_met;
use crate::conflicts::{
    carried_over, conflict_check, conflict_task, conflicting, conflicts, new_delete_error,
    ConflictStepView, ConflictTask, Visit,
};
use crate::existence::{existence_next, is_live, missing_references};
use crate::merging::{unique_paths, ProducerView};
use crate::overwrite::{overwrite_operation, OverwriteStepView, OverwriteView};
use crate::path_set::with_path;
use crate::row_delta::{data_files_among, delta_fault};
use crate::seqs::{lemma_filtered, lemma_push_contains};
use crate::types::{
    DataContentType, DataFile, ManifestEntry, ManifestFile, ManifestStatus, Operation, Table,
    TableMetadata,
};

verus! {

/// What is read for a step of a check.
pub enum ReadReply {
    /// The manifest list that was loaded.
    Listed(Seq<ManifestFile>),
    /// The entries of the manifest that was read.
    Entries(Seq<ManifestEntry>),
}

/// Where a check for new delete files stands after something was read. What was not asked for
/// changes nothing.
pub open spec fn conflict_resumed(step: ConflictStepView, reply: ReadReply) -> ConflictStepView {
    match (step, reply) {
        (ConflictStepView::Load { task, visits }, ReadReply::Listed(list)) => task.next(
            task.with_list(visits, list),
        ),
        (ConflictStepView::Read { task, visits }, ReadReply::Entries(entries)) => task.after_read(
            visits,
            entries,
        ),
        _ => step,
    }
}

/// Where a check for new delete files stands after all that was read.
pub open spec fn conflict_checked(
    start: ConflictStepView,
    replies: Seq<ReadReply>,
) -> ConflictStepView
    decreases replies.len(),
{
    if replies.len() == 0 {
        start
    } else {
        conflict_resumed(conflict_checked(start, replies.drop_last()), replies.last())
    }
}

/// What a check for new delete files has read, by the snapshots that it has visited.
pub open spec fn visited(start: ConflictStepView, replies: Seq<ReadReply>) -> Seq<Visit>
    decreases replies.len(),
{
    if replies.len() == 0 {
        Seq::empty()
    } else {
        let visits = visited(start, replies.drop_last());
        match (conflict_checked(start, replies.drop_last()), replies.last()) {
            (ConflictStepView::Load { .. }, ReadReply::Listed(list)) => visits.push(
                Visit { manifests: list, reads: Seq::empty() },
            ),
            (ConflictStepView::Read { .. }, ReadReply::Entries(entries)) => visits.drop_last().push(
                Visit {
                    manifests: visits.last().manifests,
                    reads: visits.last().reads.push(entries),
                },
            ),
            _ => visits,
        }
    }
}

/// Whether a check for new delete files that has read the given entries can have come to the given
/// step.
pub open spec fn conflict_sound(
    task: ConflictTask,
    visits: Seq<Visit>,
    step: ConflictStepView,
) -> bool {
    match step {
        ConflictStepView::Load { task: t, visits: v } => {
            &&& t == task
            &&& v == visits
            &&& visits.len() < task.snapshot_ids.len()
            &&& forall|k: int| 0 <= k < visits.len() ==> #[trigger] task.complete(visits, k)
            &&& task.clear(visits)
        },
        ConflictStepView::Read { task: t, visits: v } => {
            &&& t == task
            &&& v == visits
            &&& 0 < visits.len() <= task.snapshot_ids.len()
            &&& visits.last().reads.len() < task.pending(visits, visits.len() - 1).len()
            &&& forall|k: int| 0 <= k < visits.len() - 1 ==> #[trigger] task.complete(visits, k)
            &&& task.clear(visits)
        },
        ConflictStepView::Passed => task.cleared(visits),
        ConflictStepView::Failed(error) => {
            let found = conflicting(task.replaced, task.earlier, visits.last().reads.last());
            &&& found.len() > 0
            &&& conflicts(task.replaced, task.earlier, found[0])
            &&& error == new_delete_error(found[0].data_file.referenced_data_file->0@)
        },
    }
}

proof fn lemma_conflict_next(task: ConflictTask, visits: Seq<Visit>)
    requires
        visits.len() <= task.snapshot_ids.len(),
        visits.len() > 0 ==> visits.last().reads.len() <= task.pending(
            visits,
            visits.len() - 1,
        ).len(),
        forall|k: int| 0 <= k < visits.len() - 1 ==> #[trigger] task.complete(visits, k),
        task.clear(visits),
    ensures
        conflict_sound(task, visits, task.next(visits)),
{
    if visits.len() > 0 && !(task.next(visits) is Read) {
        assert(task.complete(visits, visits.len() - 1));
    }
}

proof fn lemma_conflict_list(task: ConflictTask, visits: Seq<Visit>, list: Seq<ManifestFile>)
    requires
        conflict_sound(task, visits, ConflictStepView::Load { task, visits }),
    ensures
        conflict_sound(
            task,
            task.with_list(visits, list),
            task.next(task.with_list(visits, list)),
        ),
{
    let after = task.with_list(visits, list);
    assert forall|k: int| 0 <= k < after.len() - 1 implies #[trigger] task.complete(after, k) by {
        assert(after[k] == visits[k]);
        assert(task.complete(visits, k));
    }
    assert(task.clear(after)) by {
        assert forall|k: int, i: int|
            0 <= k < after.len() && 0 <= i < after[k].reads.len() implies conflicting(
            task.replaced,
            task.earlier,
            #[trigger] after[k].reads[i],
        ).len() == 0 by {
            assert(after[k] == visits[k]);
            assert(conflicting(task.replaced, task.earlier, visits[k].reads[i]).len() == 0);
        }
    }
    lemma_conflict_next(task, after);
}

proof fn lemma_conflict_entries(
    task: ConflictTask,
    visits: Seq<Visit>,
    entries: Seq<ManifestEntry>,
)
    requires
        conflict_sound(task, visits, ConflictStepView::Read { task, visits }),
    ensures
        conflict_sound(
            task,
            task.with_entries(visits, entries),
            task.after_read(visits, entries),
        ),
{
    let found = conflicting(task.replaced, task.earlier, entries);
    let after = task.with_entries(visits, entries);
    if found.len() > 0 {
        lemma_filtered(entries, |e: ManifestEntry| conflicts(task.replaced, task.earlier, e), 0);
    } else {
        assert forall|k: int| 0 <= k < after.len() - 1 implies #[trigger] task.complete(
            after,
            k,
        ) by {
            assert(after[k] == visits[k]);
            assert(task.complete(visits, k));
        }
        assert(task.clear(after)) by {
            assert forall|k: int, i: int|
                0 <= k < after.len() && 0 <= i < after[k].reads.len() implies conflicting(
                task.replaced,
                task.earlier,
                #[trigger] after[k].reads[i],
            ).len() == 0 by {
                if k < visits.len() - 1 || i < visits[k].reads.len() {
                    assert(after[k].reads[i] == visits[k].reads[i]);
                    assert(conflicting(task.replaced, task.earlier, visits[k].reads[i]).len() == 0);
                }
            }
        }
        lemma_conflict_next(task, after);
    }
}

/// A check for new delete files, whatever is read, passes only after the delete manifests that
/// each snapshot to check has added were read, none of which lists a live delete file for a
/// replaced file but those that it carries over from the start. It fails only on a live delete
/// file for a replaced file that is not carried over from the start, and names that file.
pub proof fn law_passed_checks_have_no_conflict(
    metadata: TableMetadata,
    starting: Option<i64>,
    files: Seq<DataFile>,
    replies: Seq<ReadReply>,
)
    requires
        files.len() > 0,
        metadata.current_snapshot_id != starting,
    ensures
        conflict_sound(
            conflict_task(metadata, starting, files),
            visited(conflict_check(metadata, starting, files), replies),
            conflict_checked(conflict_check(metadata, starting, files), replies),
        ),
    decreases replies.len(),
{
    let task = conflict_task(metadata, starting, files);
    let start = conflict_check(metadata, starting, files);
    if replies.len() == 0 {
        lemma_conflict_next(task, Seq::empty());
    } else {
        let before = replies.drop_last();
        law_passed_checks_have_no_conflict(metadata, starting, files, before);
        let visits = visited(start, before);
        match (conflict_checked(start, before), replies.last()) {
            (ConflictStepView::Load { .. }, ReadReply::Listed(list)) => {
                lemma_conflict_list(task, visits, list);
            },
            (ConflictStepView::Read { .. }, ReadReply::Entries(entries)) => {
                lemma_conflict_entries(task, visits, entries);
            },
            _ => {},
        }
    }
}

/// A delete manifest whose live delete files are all carried over from the start is no conflict,
/// whatever they refer to: the check goes on.
pub proof fn law_carried_over_delete_files_are_no_conflict(
    task: ConflictTask,
    visits: Seq<Visit>,
    entries: Seq<ManifestEntry>,
)
    requires
        forall|i: int|
            0 <= i < entries.len() && entries[i].alive() ==> #[trigger] carried_over(
                task.earlier,
                entries[i],
            ),
    ensures
        task.after_read(visits, entries) == task.next(task.with_entries(visits, entries)),
{
    let pred = |e: ManifestEntry| conflicts(task.replaced, task.earlier, e);
    if conflicting(task.replaced, task.earlier, entries).len() > 0 {
        lemma_filtered(entries, pred, 0);
        let k = choose|k: int| 0 <= k < entries.len() && entries[k] == entries.filter(pred)[0];
        assert(!carried_over(task.earlier, entries[k]));
    }
}

/// A live delete file for a replaced file that came after the start makes the check fail, whether
/// the manifest that lists it has added it or carries it over: if its snapshot is neither the
/// starting one nor one of its ancestors.
pub proof fn law_delete_files_since_the_start_are_conflicts(
    metadata: TableMetadata,
    starting: Option<i64>,
    files: Seq<DataFile>,
    visits: Seq<Visit>,
    entries: Seq<ManifestEntry>,
    i: int,
    f: int,
)
    requires
        0 <= i < entries.len(),
        entries[i].alive(),
        0 <= f < files.len(),
        entries[i].data_file.referenced_data_file matches Some(path) && path@
            == files[f].file_path@,
        entries[i].status == ManifestStatus::Added || (entries[i].snapshot_id matches Some(id)
            && !is_met(metadata.snapshots@, starting, id)),
    ensures
        conflict_task(metadata, starting, files).after_read(visits, entries) is Failed,
{
    let task = conflict_task(metadata, starting, files);
    let pred = |e: ManifestEntry| conflicts(task.replaced, task.earlier, e);
    assert(task.replaced[f] == files[f].file_path@);
    assert(pred(entries[i]));
    entries.lemma_filter_contains(pred, i);
}

/// Once all data manifests were read, the check for data files passes if and only if each
/// referenced file is live. The files that it reports as missing are the referenced ones that are
/// not.
pub proof fn law_existence_is_decided(
    references: Seq<Seq<char>>,
    manifests: Seq<ManifestFile>,
    reads: Seq<Seq<ManifestEntry>>,
)
    requires
        reads.len() == manifests.len(),
    ensures
        existence_next(references, manifests, reads) is Passed <==> forall|path: Seq<char>|
            #[trigger] references.contains(path) ==> is_live(reads, path),
        existence_next(references, manifests, reads) is Passed || existence_next(
            references,
            manifests,
            reads,
        ) is Failed,
        forall|path: Seq<char>| #[trigger]
            missing_references(references, reads).contains(path) <==> references.contains(path)
                && !is_live(reads, path),
{
    let absent = |path: Seq<char>| !is_live(reads, path);
    let missing = missing_references(references, reads);
    assert forall|path: Seq<char>| #[trigger] missing.contains(path) <==> references.contains(path)
        && !is_live(reads, path) by {
        if missing.contains(path) {
            let i = choose|i: int| 0 <= i < missing.len() && missing[i] == path;
            lemma_filtered(references, absent, i);
        }
        if references.contains(path) && !is_live(reads, path) {
            let i = choose|i: int| 0 <= i < references.len() && references[i] == path;
            assert(absent(references[i]));
            references.lemma_filter_contains(absent, i);
        }
    }
    if missing.len() > 0 {
        assert(missing.contains(missing[0]));
    } else {
        assert forall|path: Seq<char>| #[trigger] references.contains(path) implies is_live(
            reads,
            path,
        ) by {
            assert(!missing.contains(path));
        }
    }
}

/// The targets of a removal are the paths of the given files, each once. Adding a path twice is
/// adding it once.
pub proof fn law_targets_are_the_paths(files: Seq<DataFile>, path: Seq<char>)
    ensures
        unique_paths(files).no_duplicates(),
        unique_paths(files).contains(path) <==> exists|i: int|
            0 <= i < files.len() && #[trigger] files[i].file_path@ == path,
        with_path(with_path(unique_paths(files), path), path) == with_path(
            unique_paths(files),
            path,
        ),
    decreases files.len(),
{
    if files.len() > 0 {
        let before = files.drop_last();
        let last = files.last().file_path@;
        law_targets_are_the_paths(before, path);
        lemma_push_contains(unique_paths(before), last, path);
        if exists|i: int| 0 <= i < before.len() && #[trigger] before[i].file_path@ == path {
            let i = choose|i: int| 0 <= i < before.len() && #[trigger] before[i].file_path@ == path;
            assert(files[i].file_path@ == path);
        }
        if exists|i: int| 0 <= i < files.len() && #[trigger] files[i].file_path@ == path {
            let i = choose|i: int| 0 <= i < files.len() && #[trigger] files[i].file_path@ == path;
            if i < before.len() {
                assert(before[i].file_path@ == path);
            }
        }
        assert(files[files.len() - 1].file_path@ == last);
    }
    lemma_push_contains(unique_paths(files), path, path);
}

/// What an accepted overwrite is: in one mode only, and with something to do. Without a row filter
/// it is reported by what it adds and removes: both, only one, and never neither.
pub proof fn law_accepted_overwrites_do_something<P>(action: OverwriteView<P>, table: Table)
    ensures
        action.start(table) is Failed <==> action.fault() is Some,
        action.fault() is None <==> if action.row_filter is Some {
            !action.has_deletes()
        } else {
            action.has_adds() || action.has_deletes()
        },
        action.start(table) matches OverwriteStepView::Ready { operation, .. } ==> {
            &&& operation == Operation::Overwrite <==> action.has_adds() && action.has_deletes()
            &&& operation == Operation::Append <==> action.has_adds() && !action.has_deletes()
            &&& operation == Operation::Delete <==> !action.has_adds() && action.has_deletes()
        },
        overwrite_operation(false, false) == Operation::Overwrite,
{
}

/// A row delta is accepted if and only if it adds a file, and none of the files that it adds as
/// delete files holds rows.
pub proof fn law_accepted_row_deltas(producer: ProducerView)
    ensures
        delta_fault(producer) is None <==> {
            &&& producer.added_data_files.len() > 0 || producer.added_delete_files.len() > 0
            &&& forall|i: int|
                0 <= i < producer.added_delete_files.len()
                    ==> #[trigger] producer.added_delete_files[i].content != DataContentType::Data
        },
{
    let files = producer.added_delete_files;
    let pred = |f: DataFile| f.content == DataContentType::Data;
    let data_files = data_files_among(files);
    if data_files.len() > 0 {
        lemma_filtered(files, pred, 0);
        let k = choose|k: int| 0 <= k < files.len() && files[k] == data_files[0];
        assert(files[k].content == DataContentType::Data);
    } else {
        assert forall|i: int| 0 <= i < files.len() implies #[trigger] files[i].content
            != DataContentType::Data by {
            if pred(files[i]) {
                files.lemma_filter_contains(pred, i);
            }
        }
    }
}

} // verus!
