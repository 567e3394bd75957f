//! What the removal of data files does to the files of a snapshot.

use vstd::prelude::*;

use crate::error::{ErrorKind, ErrorView};
use crate::filter::{
    as_existing, lemma_no_entries, lemma_removed_push, lemma_survivors_push, lemma_untouched,
    missing_targets_error, removed_files, retained, survivors, targeted, touched, FilterReply,
    FilterStepView, FilterTask, OutcomeView,
};
use crate::laws::ancestry::lemma_filter_no_duplicates;
use crate::laws::writing::{law_what_follows_a_manifest, replaces};
use crate::matching::live_files;
use crate::seqs::{lemma_filter_empty, lemma_filter_push, lemma_filtered};
use crate::summary::{changes_of, ChangeKind, SummaryChange};
use crate::text::{decimal, joined};
use crate::types::{DataFile, ManifestContentType, ManifestEntry, ManifestFile, ManifestStatus};

verus! {

/// Whether the reply on one manifest is one that a removal gives: manifests of delete files are
/// not read, and a manifest is rewritten if it lists files to remove and files that stay.
pub open spec fn proper_reply(
    targets: Seq<Seq<char>>,
    manifest: ManifestFile,
    reply: FilterReply,
) -> bool {
    match reply {
        FilterReply::Unread => manifest.content != ManifestContentType::Data,
        FilterReply::Read(entries) => {
            &&& manifest.content == ManifestContentType::Data
            &&& touched(targets, entries) ==> survivors(targets, manifest, entries).len() == 0
        },
        FilterReply::Rewritten(entries, _) => {
            &&& manifest.content == ManifestContentType::Data
            &&& touched(targets, entries)
            &&& survivors(targets, manifest, entries).len() > 0
        },
    }
}

/// Whether the replies are such that a removal can have come to them.
pub open spec fn proper(task: FilterTask, replies: Seq<FilterReply>) -> bool {
    &&& replies.len() <= task.manifests.len()
    &&& forall|i: int|
        0 <= i < replies.len() ==> #[trigger] proper_reply(
            task.targets,
            task.manifests[i],
            replies[i],
        )
}

/// The entries of the manifests that were read, in order.
pub open spec fn reads_of(replies: Seq<FilterReply>) -> Seq<Seq<ManifestEntry>>
    decreases replies.len(),
{
    if replies.len() == 0 {
        Seq::empty()
    } else if replies.last() is Unread {
        reads_of(replies.drop_last())
    } else {
        reads_of(replies.drop_last()).push(replies.last().entries())
    }
}

/// Whether a removal that has read the given entries is complete with the given outcome. Without
/// targets it is complete at once; else it is complete when there is a reply for each manifest.
pub open spec fn removed_to(
    task: FilterTask,
    reads: Seq<Seq<ManifestEntry>>,
    outcome: OutcomeView,
) -> bool {
    ||| task.targets.len() == 0 && reads.len() == 0 && task.start() == FilterStepView::Done(outcome)
    ||| exists|replies: Seq<FilterReply>|
        {
            &&& proper(task, replies)
            &&& replies.len() == task.manifests.len()
            &&& reads_of(replies) == reads
            &&& #[trigger] task.end(replies) == FilterStepView::Done(outcome)
        }
}

/// Whether a removal that has read the given entries fails with the given error: every manifest
/// was dealt with and targets are missing; or the manifest that was read last lists a target, and
/// its partition spec is not known, or there is no place for the manifest to write instead.
pub open spec fn refused(
    task: FilterTask,
    reads: Seq<Seq<ManifestEntry>>,
    error: ErrorView,
) -> bool {
    exists|replies: Seq<FilterReply>| #[trigger] proper(task, replies) && {
        ||| {
            &&& replies.len() == task.manifests.len()
            &&& reads_of(replies) == reads
            &&& task.fail_missing
            &&& task.missing(replies).len() > 0
            &&& error.kind == ErrorKind::DataInvalid
            &&& error.message
                == "Failed to find the following files to delete in the current snapshot: "@
                + joined(task.missing(replies), ", "@)
        }
        ||| {
            let manifest = task.manifests[replies.len() as int];
            let location = task.table.metadata.metadata_location;
            &&& replies.len() < task.manifests.len()
            &&& reads.len() > 0
            &&& reads_of(replies) == reads.drop_last()
            &&& touched(task.targets, reads.last())
            &&& if !task.table.metadata.partition_spec_ids@.contains(manifest.partition_spec_id) {
                &&& error.kind == ErrorKind::DataInvalid
                &&& error.message == "Manifest references unknown partition spec "@ + decimal(
                    manifest.partition_spec_id as int,
                )
            } else {
                &&& survivors(task.targets, manifest, reads.last()).len() > 0
                &&& location matches Err(cause) && error == cause@
            }
        }
    }
}

/// Whether a removal that has read the given entries can have come to the given step.
pub open spec fn proper_step(
    task: FilterTask,
    reads: Seq<Seq<ManifestEntry>>,
    step: FilterStepView,
) -> bool {
    match step {
        FilterStepView::Read { task: t, replies } => {
            &&& t == task
            &&& proper(task, replies)
            &&& reads_of(replies) == reads
            &&& replies.len() < task.manifests.len()
            &&& task.manifests[replies.len() as int].content == ManifestContentType::Data
        },
        FilterStepView::Write { task: t, replies, entries, writer } => {
            let manifest = task.manifests[replies.len() as int];
            &&& t == task
            &&& proper(task, replies)
            &&& reads_of(replies).push(entries) == reads
            &&& replies.len() < task.manifests.len()
            &&& manifest.content == ManifestContentType::Data
            &&& touched(task.targets, entries)
            &&& survivors(task.targets, manifest, entries).len() > 0
            &&& writer.entries == survivors(task.targets, manifest, entries)
            &&& replaces(task.table, task.snapshot_id, manifest, writer)
        },
        FilterStepView::Done(outcome) => removed_to(task, reads, outcome),
        FilterStepView::Failed(error) => refused(task, reads, error),
    }
}

proof fn lemma_settled_proper(task: FilterTask, replies: Seq<FilterReply>)
    requires
        proper(task, replies),
    ensures
        proper(task, task.settled(replies)),
        reads_of(task.settled(replies)) == reads_of(replies),
        task.settled(replies).len() < task.manifests.len() ==> task.manifests[task.settled(
            replies,
        ).len() as int].content == ManifestContentType::Data,
    decreases task.manifests.len() - replies.len(),
{
    if replies.len() < task.manifests.len() && task.manifests[replies.len() as int].content
        != ManifestContentType::Data {
        lemma_proper_push(task, replies, FilterReply::Unread);
        lemma_settled_proper(task, replies.push(FilterReply::Unread));
    }
}

proof fn lemma_proper_push(task: FilterTask, replies: Seq<FilterReply>, reply: FilterReply)
    requires
        proper(task, replies),
        replies.len() < task.manifests.len(),
        proper_reply(task.targets, task.manifests[replies.len() as int], reply),
    ensures
        proper(task, replies.push(reply)),
        reads_of(replies.push(reply)) == (if reply is Unread {
            reads_of(replies)
        } else {
            reads_of(replies).push(reply.entries())
        }),
{
    let after = replies.push(reply);
    assert(after.drop_last() =~= replies);
    assert forall|i: int| 0 <= i < after.len() implies #[trigger] proper_reply(
        task.targets,
        task.manifests[i],
        after[i],
    ) by {
        if i < replies.len() {
            assert(after[i] == replies[i]);
        }
    }
}

proof fn lemma_next_proper(task: FilterTask, replies: Seq<FilterReply>)
    requires
        proper(task, replies),
    ensures
        proper_step(task, reads_of(replies), task.next(replies)),
{
    lemma_settled_proper(task, replies);
    let settled = task.settled(replies);
    if settled.len() >= task.manifests.len() {
        assert(task.end(settled) == task.next(replies));
    }
}

/// Every removal starts with a proper step, at which nothing has been read.
pub proof fn law_removals_start_properly(task: FilterTask)
    ensures
        proper_step(task, Seq::empty(), task.start()),
{
    lemma_next_proper(task, Seq::empty());
}

/// Whatever is read or written at a proper step of a removal leads to a proper step.
pub proof fn law_removal_steps_are_proper(
    task: FilterTask,
    reads: Seq<Seq<ManifestEntry>>,
    step: FilterStepView,
    entries: Seq<ManifestEntry>,
    uuid: u128,
    written: ManifestFile,
)
    requires
        proper_step(task, reads, step),
    ensures
        step matches FilterStepView::Read { replies, .. } ==> proper_step(
            task,
            reads.push(entries),
            task.after_read(replies, entries, uuid),
        ),
        step matches FilterStepView::Write { replies, entries: read, .. } ==> proper_step(
            task,
            reads,
            task.after_write(replies, read, written),
        ),
{
    match step {
        FilterStepView::Read { replies, .. } => {
            let manifest = task.manifests[replies.len() as int];
            if !touched(task.targets, entries) || survivors(task.targets, manifest, entries).len()
                == 0 {
                lemma_proper_push(task, replies, FilterReply::Read(entries));
                lemma_next_proper(task, replies.push(FilterReply::Read(entries)));
            }
            assert(reads.push(entries).drop_last() =~= reads);
            assert(proper(task, replies));
            law_what_follows_a_manifest(task, replies, entries, uuid);
        },
        FilterStepView::Write { replies, entries: read, .. } => {
            lemma_proper_push(task, replies, FilterReply::Rewritten(read, written));
            lemma_next_proper(task, replies.push(FilterReply::Rewritten(read, written)));
        },
        _ => {},
    }
}

/// The live data files of the manifests that have been dealt with.
pub open spec fn files_before(replies: Seq<FilterReply>) -> Seq<DataFile>
    decreases replies.len(),
{
    if replies.len() == 0 {
        Seq::empty()
    } else {
        files_before(replies.drop_last()) + live_files(replies.last().entries())
    }
}

/// The live data files of the manifests that stand in their place. A manifest that was written
/// lists the surviving entries.
pub open spec fn files_after(task: FilterTask, replies: Seq<FilterReply>) -> Seq<DataFile>
    decreases replies.len(),
{
    if replies.len() == 0 {
        Seq::empty()
    } else {
        files_after(task, replies.drop_last()) + match replies.last() {
            FilterReply::Unread => Seq::empty(),
            FilterReply::Read(entries) => if touched(task.targets, entries) {
                Seq::empty()
            } else {
                live_files(entries)
            },
            FilterReply::Rewritten(entries, _) => live_files(
                survivors(task.targets, task.manifests[replies.len() - 1], entries),
            ),
        }
    }
}

/// The files of which a summary reports the given kind of change.
pub open spec fn files_with(changes: Seq<SummaryChange>, kind: ChangeKind) -> Seq<DataFile> {
    changes.filter(|c: SummaryChange| c.kind == kind).map_values(|c: SummaryChange| c.file)
}

proof fn lemma_live_push(entries: Seq<ManifestEntry>, entry: ManifestEntry)
    ensures
        live_files(entries.push(entry)) == (if entry.alive() {
            live_files(entries).push(entry.data_file)
        } else {
            live_files(entries)
        }),
{
    lemma_filter_push(entries, entry, |e: ManifestEntry| e.alive());
    if entry.alive() {
        assert(live_files(entries.push(entry)) =~= live_files(entries).push(entry.data_file));
    }
}

proof fn lemma_live_empty()
    ensures
        live_files(Seq::empty()) == Seq::<DataFile>::empty(),
{
    lemma_filter_empty(|e: ManifestEntry| e.alive());
    assert(live_files(Seq::empty()) =~= Seq::<DataFile>::empty());
}

/// The live files of a manifest are those that survive and those that are removed.
proof fn lemma_manifest_balance(
    targets: Seq<Seq<char>>,
    manifest: ManifestFile,
    entries: Seq<ManifestEntry>,
)
    ensures
        live_files(entries).to_multiset() == live_files(
            survivors(targets, manifest, entries),
        ).to_multiset().add(removed_files(targets, entries).to_multiset()),
    decreases entries.len(),
{
    broadcast use vstd::seq_lib::group_to_multiset_ensures;

    if entries.len() == 0 {
        assert(entries =~= Seq::empty());
        lemma_live_empty();
        lemma_no_entries(targets, manifest);
        assert(live_files(entries).to_multiset() =~= live_files(
            survivors(targets, manifest, entries),
        ).to_multiset().add(removed_files(targets, entries).to_multiset()));
    } else {
        let before = entries.drop_last();
        let entry = entries.last();
        assert(entries =~= before.push(entry));
        lemma_manifest_balance(targets, manifest, before);
        lemma_live_push(before, entry);
        lemma_survivors_push(targets, manifest, before, entry);
        lemma_removed_push(targets, before, entry);
        lemma_live_push(survivors(targets, manifest, before), as_existing(entry, manifest));
        assert(live_files(entries).to_multiset() =~= live_files(
            survivors(targets, manifest, entries),
        ).to_multiset().add(removed_files(targets, entries).to_multiset()));
    }
}

pub(crate) proof fn lemma_files_with_add(
    first: Seq<SummaryChange>,
    second: Seq<SummaryChange>,
    kind: ChangeKind,
)
    ensures
        files_with(first + second, kind) == files_with(first, kind) + files_with(second, kind),
{
    Seq::filter_distributes_over_add(first, second, |c: SummaryChange| c.kind == kind);
    assert(files_with(first + second, kind) =~= files_with(first, kind) + files_with(second, kind));
}

pub(crate) proof fn lemma_files_with_changes(
    kind: ChangeKind,
    files: Seq<DataFile>,
    schema_id: i32,
    spec_id: i32,
)
    ensures
        files_with(changes_of(kind, files, schema_id, spec_id), kind) == files,
        forall|other: ChangeKind|
            other != kind ==> #[trigger] files_with(
                changes_of(kind, files, schema_id, spec_id),
                other,
            ) == Seq::<DataFile>::empty(),
    decreases files.len(),
{
    let changes = changes_of(kind, files, schema_id, spec_id);
    if files.len() == 0 {
        assert(changes =~= Seq::empty());
        lemma_filter_empty(|c: SummaryChange| c.kind == kind);
        assert(files_with(changes, kind) =~= files);
        assert forall|other: ChangeKind| other != kind implies #[trigger] files_with(
            changes,
            other,
        ) == Seq::<DataFile>::empty() by {
            lemma_filter_empty(|c: SummaryChange| c.kind == other);
            assert(files_with(changes, other) =~= Seq::<DataFile>::empty());
        }
    } else {
        let before = changes_of(kind, files.drop_last(), schema_id, spec_id);
        let last = SummaryChange {
            kind,
            file: files.last(),
            schema_id,
            partition_spec_id: spec_id,
        };
        assert(changes =~= before.push(last));
        lemma_files_with_changes(kind, files.drop_last(), schema_id, spec_id);
        lemma_filter_push(before, last, |c: SummaryChange| c.kind == kind);
        assert(files_with(changes, kind) =~= files_with(before, kind).push(files.last()));
        assert(files_with(changes, kind) =~= files);
        assert forall|other: ChangeKind| other != kind implies #[trigger] files_with(
            changes,
            other,
        ) == Seq::<DataFile>::empty() by {
            lemma_filter_push(before, last, |c: SummaryChange| c.kind == other);
            assert(files_with(before, other) == Seq::<DataFile>::empty());
        }
    }
}

/// A removal loses no file and invents none: the live files of the old manifests are those of
/// the new manifests and those that are reported as removed, each as often as it is listed.
pub proof fn law_removal_balances(task: FilterTask, replies: Seq<FilterReply>)
    requires
        proper(task, replies),
    ensures
        files_before(replies).to_multiset() == files_after(task, replies).to_multiset().add(
            files_with(task.removed(replies), ChangeKind::Removed).to_multiset(),
        ),
        files_with(task.removed(replies), ChangeKind::Added) == Seq::<DataFile>::empty(),
    decreases replies.len(),
{
    broadcast use vstd::seq_lib::group_to_multiset_ensures;

    if replies.len() == 0 {
        lemma_filter_empty(|c: SummaryChange| c.kind == ChangeKind::Removed);
        lemma_filter_empty(|c: SummaryChange| c.kind == ChangeKind::Added);
        assert(files_with(task.removed(replies), ChangeKind::Removed) =~= Seq::<DataFile>::empty());
        assert(files_with(task.removed(replies), ChangeKind::Added) =~= Seq::<DataFile>::empty());
        assert(files_before(replies).to_multiset() =~= files_after(
            task,
            replies,
        ).to_multiset().add(
            files_with(task.removed(replies), ChangeKind::Removed).to_multiset(),
        ));
    } else {
        let before = replies.drop_last();
        let reply = replies.last();
        let manifest = task.manifests[replies.len() - 1];
        lemma_proper_prefix(task, replies);
        assert(proper_reply(task.targets, manifest, replies[replies.len() - 1]));
        law_removal_balances(task, before);
        let gone = removed_files(task.targets, reply.entries());
        let change = changes_of(
            ChangeKind::Removed,
            gone,
            task.table.metadata.current_schema_id,
            manifest.partition_spec_id,
        );
        lemma_files_with_add(task.removed(before), change, ChangeKind::Removed);
        lemma_files_with_add(task.removed(before), change, ChangeKind::Added);
        lemma_files_with_changes(
            ChangeKind::Removed,
            gone,
            task.table.metadata.current_schema_id,
            manifest.partition_spec_id,
        );
        assert(files_with(change, ChangeKind::Added) == Seq::<DataFile>::empty());
        assert(files_with(task.removed(replies), ChangeKind::Added) =~= Seq::<DataFile>::empty());
        let stay = match reply {
            FilterReply::Unread => Seq::empty(),
            FilterReply::Read(entries) => if touched(task.targets, entries) {
                Seq::empty()
            } else {
                live_files(entries)
            },
            FilterReply::Rewritten(entries, _) => live_files(
                survivors(task.targets, manifest, entries),
            ),
        };
        lemma_manifest_balance(task.targets, manifest, reply.entries());
        lemma_live_empty();
        lemma_no_entries(task.targets, manifest);
        if !touched(task.targets, reply.entries()) {
            lemma_untouched(task.targets, reply.entries());
        }
        if survivors(task.targets, manifest, reply.entries()).len() == 0 {
            assert(survivors(task.targets, manifest, reply.entries()) =~= Seq::empty());
        }
        assert(live_files(reply.entries()).to_multiset() =~= stay.to_multiset().add(
            gone.to_multiset(),
        ));
        vstd::seq_lib::lemma_multiset_commutative(
            files_before(before),
            live_files(reply.entries()),
        );
        vstd::seq_lib::lemma_multiset_commutative(files_after(task, before), stay);
        vstd::seq_lib::lemma_multiset_commutative(
            files_with(task.removed(before), ChangeKind::Removed),
            gone,
        );
        assert(files_before(replies).to_multiset() =~= files_after(
            task,
            replies,
        ).to_multiset().add(
            files_with(task.removed(replies), ChangeKind::Removed).to_multiset(),
        ));
    }
}

/// What a removal leaves is free of its targets, and what it reports as removed are targets.
pub proof fn law_targets_are_gone(task: FilterTask, replies: Seq<FilterReply>)
    requires
        proper(task, replies),
    ensures
        forall|i: int|
            0 <= i < files_after(task, replies).len() ==> !task.targets.contains(
                #[trigger] files_after(task, replies)[i].file_path@,
            ),
        forall|i: int|
            0 <= i < task.removed(replies).len() ==> task.targets.contains(
                #[trigger] task.removed(replies)[i].file.file_path@,
            ),
    decreases replies.len(),
{
    if replies.len() > 0 {
        let before = replies.drop_last();
        let manifest = task.manifests[replies.len() - 1];
        lemma_proper_prefix(task, replies);
        law_targets_are_gone(task, before);
        assert(proper_reply(task.targets, manifest, replies[replies.len() - 1]));
        lemma_live_survivors(task.targets, manifest, replies.last().entries());
        lemma_live_untouched(task.targets, replies.last().entries());
        lemma_removed_targets(task.targets, replies.last().entries());
        let after = files_after(task, replies);
        assert forall|i: int| 0 <= i < after.len() implies !task.targets.contains(
            #[trigger] after[i].file_path@,
        ) by {
            let earlier = files_after(task, before);
            if i < earlier.len() {
                assert(after[i] == earlier[i]);
            }
        }
        let removed = task.removed(replies);
        assert forall|i: int| 0 <= i < removed.len() implies task.targets.contains(
            #[trigger] removed[i].file.file_path@,
        ) by {
            let earlier = task.removed(before);
            if i < earlier.len() {
                assert(removed[i] == earlier[i]);
            }
        }
    }
}

pub(crate) proof fn lemma_proper_prefix(task: FilterTask, replies: Seq<FilterReply>)
    requires
        proper(task, replies),
        replies.len() > 0,
    ensures
        proper(task, replies.drop_last()),
{
    let before = replies.drop_last();
    assert forall|i: int| 0 <= i < before.len() implies #[trigger] proper_reply(
        task.targets,
        task.manifests[i],
        before[i],
    ) by {
        assert(proper_reply(task.targets, task.manifests[i], replies[i]));
    }
}

proof fn lemma_live_survivors(
    targets: Seq<Seq<char>>,
    manifest: ManifestFile,
    entries: Seq<ManifestEntry>,
)
    ensures
        forall|i: int|
            0 <= i < live_files(survivors(targets, manifest, entries)).len() ==> !targets.contains(
                #[trigger] live_files(survivors(targets, manifest, entries))[i].file_path@,
            ),
    decreases entries.len(),
{
    if entries.len() == 0 {
        assert(entries =~= Seq::empty());
        lemma_no_entries(targets, manifest);
        lemma_live_empty();
    } else {
        let before = entries.drop_last();
        assert(entries =~= before.push(entries.last()));
        lemma_live_survivors(targets, manifest, before);
        lemma_survivors_push(targets, manifest, before, entries.last());
        lemma_live_push(
            survivors(targets, manifest, before),
            as_existing(entries.last(), manifest),
        );
    }
}

proof fn lemma_live_untouched(targets: Seq<Seq<char>>, entries: Seq<ManifestEntry>)
    ensures
        !touched(targets, entries) ==> forall|i: int|
            0 <= i < live_files(entries).len() ==> !targets.contains(
                #[trigger] live_files(entries)[i].file_path@,
            ),
    decreases entries.len(),
{
    if entries.len() == 0 {
        assert(entries =~= Seq::empty());
        lemma_live_empty();
    } else if !touched(targets, entries) {
        let before = entries.drop_last();
        assert(entries =~= before.push(entries.last()));
        assert forall|i: int| 0 <= i < before.len() implies !#[trigger] targeted(
            targets,
            before[i],
        ) by {
            assert(!targeted(targets, entries[i]));
        }
        lemma_live_untouched(targets, before);
        assert(!targeted(targets, entries[entries.len() - 1]));
        lemma_live_push(before, entries.last());
    }
}

proof fn lemma_removed_targets(targets: Seq<Seq<char>>, entries: Seq<ManifestEntry>)
    ensures
        forall|i: int|
            0 <= i < removed_files(targets, entries).len() ==> targets.contains(
                #[trigger] removed_files(targets, entries)[i].file_path@,
            ),
    decreases entries.len(),
{
    if entries.len() == 0 {
        assert(entries =~= Seq::empty());
        lemma_filter_empty(|e: ManifestEntry| targeted(targets, e));
    } else {
        let before = entries.drop_last();
        assert(entries =~= before.push(entries.last()));
        lemma_removed_targets(targets, before);
        lemma_removed_push(targets, before, entries.last());
    }
}

/// The carried-over entries of a manifest list its live files that stay, in order, each in state
/// `Existing` and with the ids that it had or inherited. Carrying an entry over once more, from
/// whatever manifest, changes nothing.
pub proof fn law_survivors_keep_their_identity(
    targets: Seq<Seq<char>>,
    manifest: ManifestFile,
    entries: Seq<ManifestEntry>,
    later: ManifestFile,
)
    ensures
        survivors(targets, manifest, entries).len() == entries.filter(
            |e: ManifestEntry| retained(targets, e),
        ).len(),
        forall|i: int|
            0 <= i < survivors(targets, manifest, entries).len() ==> {
                let entry = entries.filter(|e: ManifestEntry| retained(targets, e))[i];
                let carried = #[trigger] survivors(targets, manifest, entries)[i];
                &&& entries.contains(entry)
                &&& retained(targets, entry)
                &&& carried.status == ManifestStatus::Existing
                &&& carried.data_file == entry.data_file
                &&& entry.snapshot_id is Some ==> carried.snapshot_id == entry.snapshot_id
                &&& entry.snapshot_id is None ==> carried.snapshot_id == Some(
                    manifest.added_snapshot_id,
                )
                &&& entry.sequence_number is Some ==> carried.sequence_number
                    == entry.sequence_number
                &&& entry.file_sequence_number is Some ==> carried.file_sequence_number
                    == entry.file_sequence_number
                &&& as_existing(carried, later) == carried
            },
{
    let pred = |e: ManifestEntry| retained(targets, e);
    assert forall|i: int| 0 <= i < entries.filter(pred).len() implies entries.contains(
        #[trigger] entries.filter(pred)[i],
    ) && retained(targets, entries.filter(pred)[i]) by {
        lemma_filtered(entries, pred, i);
    }
}

/// A removal that must not miss a target completes if and only if it has found a file for each
/// target. It then reports a removed file for each target.
pub proof fn law_completed_removal_found_every_target(
    task: FilterTask,
    replies: Seq<FilterReply>,
)
    requires
        task.fail_missing,
    ensures
        task.end(replies) is Done <==> forall|path: Seq<char>| #[trigger]
            task.targets.contains(path) ==> task.found(replies, path),
        task.end(replies) is Done ==> forall|path: Seq<char>| #[trigger]
            task.targets.contains(path) ==> exists|i: int|
                0 <= i < task.removed(replies).len() && #[trigger] task.removed(
                    replies,
                )[i].file.file_path@ == path,
{
    let absent = |path: Seq<char>| !task.found(replies, path);
    let missing = task.missing(replies);
    if task.end(replies) is Done {
        assert forall|path: Seq<char>| #[trigger] task.targets.contains(path) implies task.found(
            replies,
            path,
        ) by {
            let k = choose|k: int| 0 <= k < task.targets.len() && task.targets[k] == path;
            if absent(task.targets[k]) {
                task.targets.lemma_filter_contains(absent, k);
            }
        }
        assert forall|path: Seq<char>| #[trigger] task.targets.contains(path) implies exists|i: int|
            0 <= i < task.removed(replies).len() && #[trigger] task.removed(
                replies,
            )[i].file.file_path@ == path by {
            lemma_found_is_removed(task, replies, path);
        }
    } else {
        lemma_filtered(task.targets, absent, 0);
        assert(task.targets.contains(missing[0]));
    }
}

proof fn lemma_found_is_removed(task: FilterTask, replies: Seq<FilterReply>, path: Seq<char>)
    requires
        task.found(replies, path),
    ensures
        exists|i: int|
            0 <= i < task.removed(replies).len() && #[trigger] task.removed(
                replies,
            )[i].file.file_path@ == path,
    decreases replies.len(),
{
    let before = replies.drop_last();
    let entries = replies.last().entries();
    assert(replies =~= before.push(replies.last()));
    task.lemma_reply(before, replies.last());
    let removed = task.removed(replies);
    if task.found(before, path) {
        lemma_found_is_removed(task, before, path);
        let i = choose|i: int|
            0 <= i < task.removed(before).len() && #[trigger] task.removed(
                before,
            )[i].file.file_path@ == path;
        assert(removed[i] == task.removed(before)[i]);
    } else {
        let j = choose|j: int|
            0 <= j < entries.len() && #[trigger] targeted(task.targets, entries[j])
                && entries[j].path() == path;
        let pred = |e: ManifestEntry| targeted(task.targets, e);
        entries.lemma_filter_contains(pred, j);
        let k = choose|k: int|
            0 <= k < entries.filter(pred).len() && entries.filter(pred)[k] == entries[j];
        let i = task.removed(before).len() + k;
        assert(removed[i].file == removed_files(task.targets, entries)[k]);
        assert(removed[i].file.file_path@ == path);
    }
}

/// A target is found if and only if a live file of the manifests has its path.
pub proof fn law_targets_are_found_among_live_files(
    task: FilterTask,
    replies: Seq<FilterReply>,
    path: Seq<char>,
)
    requires
        task.targets.contains(path),
    ensures
        task.found(replies, path) <==> exists|i: int|
            0 <= i < files_before(replies).len() && #[trigger] files_before(replies)[i].file_path@
                == path,
    decreases replies.len(),
{
    if replies.len() > 0 {
        let before = replies.drop_last();
        let entries = replies.last().entries();
        let earlier = files_before(before);
        let files = files_before(replies);
        let live = live_files(entries);
        let alive = |e: ManifestEntry| e.alive();
        law_targets_are_found_among_live_files(task, before, path);
        assert(replies =~= before.push(replies.last()));
        task.lemma_reply(before, replies.last());
        if task.found(before, path) {
            let i = choose|i: int|
                0 <= i < earlier.len() && #[trigger] earlier[i].file_path@ == path;
            assert(files[i].file_path@ == path);
        } else if task.found(replies, path) {
            let j = choose|j: int|
                0 <= j < entries.len() && #[trigger] targeted(task.targets, entries[j])
                    && entries[j].path() == path;
            entries.lemma_filter_contains(alive, j);
            let k = choose|k: int|
                0 <= k < entries.filter(alive).len() && entries.filter(alive)[k] == entries[j];
            assert(files[earlier.len() + k] == live[k]);
            assert(files[earlier.len() + k].file_path@ == path);
        }
        if exists|i: int| 0 <= i < files.len() && #[trigger] files[i].file_path@ == path {
            let i = choose|i: int| 0 <= i < files.len() && #[trigger] files[i].file_path@ == path;
            if i < earlier.len() {
                assert(earlier[i].file_path@ == path);
            } else {
                let k = i - earlier.len();
                assert(files[i] == live[k]);
                lemma_filtered(entries, alive, k);
                let j = choose|j: int|
                    0 <= j < entries.len() && entries[j] == entries.filter(alive)[k];
                assert(targeted(task.targets, entries[j]));
            }
        }
    }
}

/// How a removal ends, once every manifest was dealt with. Missing are the targets that no live
/// file has as its path. If there are any and they must not be, it fails; else it leaves what
/// became of the manifests, reports what was removed, and notes what was written.
pub proof fn law_how_removals_end(task: FilterTask, replies: Seq<FilterReply>)
    ensures
        forall|path: Seq<char>| #[trigger]
            task.missing(replies).contains(path) <==> task.targets.contains(path) && !(exists|
                i: int,
            |
                0 <= i < files_before(replies).len() && #[trigger] files_before(
                    replies,
                )[i].file_path@ == path),
        task.targets.no_duplicates() ==> task.missing(replies).no_duplicates(),
        task.end(replies) is Failed <==> task.fail_missing && task.missing(replies).len() > 0,
        task.end(replies) is Failed || task.end(replies) == FilterStepView::Done(
            OutcomeView {
                manifests: task.kept(replies),
                removed: task.removed(replies),
                written_paths: task.written_paths(replies),
            },
        ),
{
    let absent = |path: Seq<char>| !task.found(replies, path);
    let missing = task.missing(replies);
    assert forall|path: Seq<char>| #[trigger] missing.contains(path) <==> task.targets.contains(
        path,
    ) && !(exists|i: int|
        0 <= i < files_before(replies).len() && #[trigger] files_before(replies)[i].file_path@
            == path) by {
        if missing.contains(path) {
            let i = choose|i: int| 0 <= i < missing.len() && missing[i] == path;
            lemma_filtered(task.targets, absent, i);
            law_targets_are_found_among_live_files(task, replies, path);
        }
        if task.targets.contains(path) {
            law_targets_are_found_among_live_files(task, replies, path);
            let k = choose|k: int| 0 <= k < task.targets.len() && task.targets[k] == path;
            if absent(task.targets[k]) {
                task.targets.lemma_filter_contains(absent, k);
            }
        }
    }
    if task.targets.no_duplicates() {
        lemma_filter_no_duplicates(task.targets, absent);
    }
}

/// Manifests that list no target stay as they are, in order; so do manifests of delete files. If
/// no manifest lists a target, nothing is written and nothing is reported. Without targets, the
/// outcome is that of a removal that reads every manifest.
pub proof fn law_untouched_manifests_stay(task: FilterTask, replies: Seq<FilterReply>)
    requires
        proper(task, replies),
    ensures
        forall|i: int|
            0 <= i < replies.len() && !touched(task.targets, replies[i].entries())
                ==> task.kept(replies).contains(#[trigger] task.manifests[i]),
        forall|i: int|
            0 <= i < replies.len() && task.manifests[i].content != ManifestContentType::Data
                ==> task.kept(replies).contains(#[trigger] task.manifests[i]),
        (forall|i: int|
            0 <= i < replies.len() ==> !touched(task.targets, #[trigger] replies[i].entries())) ==> {
            &&& task.kept(replies) == task.manifests.take(replies.len() as int)
            &&& task.removed(replies) == Seq::<SummaryChange>::empty()
            &&& task.written_paths(replies) == Seq::<String>::empty()
        },
        task.targets.len() == 0 && replies.len() == task.manifests.len() ==> task.end(replies)
            == task.start(),
    decreases replies.len(),
{
    if replies.len() > 0 {
        let before = replies.drop_last();
        let n = replies.len() - 1;
        let reply = replies.last();
        lemma_proper_prefix(task, replies);
        law_untouched_manifests_stay(task, before);
        assert(proper_reply(task.targets, task.manifests[n], replies[n]));
        assert(replies =~= before.push(reply));
        task.lemma_reply(before, reply);
        let kept = task.kept(replies);
        let earlier = task.kept(before);
        assert forall|i: int|
            0 <= i < replies.len() && !touched(task.targets, replies[i].entries()) implies kept.contains(
            #[trigger] task.manifests[i],
        ) by {
            if i < n {
                assert(before[i] == replies[i]);
                assert(earlier.contains(task.manifests[i]));
                let k = choose|k: int| 0 <= k < earlier.len() && earlier[k] == task.manifests[i];
                assert(kept[k] == task.manifests[i]);
            } else {
                assert(kept[earlier.len() as int] == task.manifests[n]);
            }
        }
        assert forall|i: int|
            0 <= i < replies.len() && task.manifests[i].content
                != ManifestContentType::Data implies kept.contains(#[trigger] task.manifests[i]) by {
            assert(proper_reply(task.targets, task.manifests[i], replies[i]));
            assert(replies[i] is Unread);
            assert(!touched(task.targets, replies[i].entries()));
        }
        if forall|i: int|
            0 <= i < replies.len() ==> !touched(task.targets, #[trigger] replies[i].entries()) {
            assert forall|i: int| 0 <= i < before.len() implies !touched(
                task.targets,
                #[trigger] before[i].entries(),
            ) by {
                assert(before[i] == replies[i]);
            }
            assert(!touched(task.targets, replies[n].entries()));
            lemma_untouched(task.targets, reply.entries());
            assert(kept =~= task.manifests.take(replies.len() as int));
            assert(task.removed(replies) =~= Seq::<SummaryChange>::empty());
        }
    } else {
        assert(task.kept(replies) =~= task.manifests.take(0));
    }
    if task.targets.len() == 0 && replies.len() == task.manifests.len() {
        assert forall|i: int| 0 <= i < replies.len() implies !touched(
            task.targets,
            #[trigger] replies[i].entries(),
        ) by {}
        assert(task.manifests.take(replies.len() as int) =~= task.manifests);
        assert(task.targets =~= Seq::empty());
        lemma_filter_empty(|path: Seq<char>| !task.found(replies, path));
    }
}

/// The manifests that a removal has written are among those that it leaves, and no others are
/// noted as written.
pub proof fn law_written_manifests_are_kept(task: FilterTask, replies: Seq<FilterReply>)
    ensures
        forall|i: int|
            0 <= i < replies.len() ==> (#[trigger] replies[i] matches FilterReply::Rewritten(
                _,
                written,
            ) ==> task.kept(replies).contains(written) && task.written_paths(replies).contains(
                written.manifest_path,
            )),
        forall|path: String| #[trigger]
            task.written_paths(replies).contains(path) ==> exists|i: int|
                0 <= i < replies.len() && (#[trigger] replies[i] matches FilterReply::Rewritten(
                    _,
                    written,
                ) && written.manifest_path == path),
    decreases replies.len(),
{
    if replies.len() > 0 {
        let before = replies.drop_last();
        let n = replies.len() - 1;
        let reply = replies.last();
        law_written_manifests_are_kept(task, before);
        assert(replies =~= before.push(reply));
        task.lemma_reply(before, reply);
        let kept = task.kept(replies);
        let earlier = task.kept(before);
        let paths = task.written_paths(replies);
        let earlier_paths = task.written_paths(before);
        assert forall|i: int| 0 <= i < replies.len() implies (
        #[trigger] replies[i] matches FilterReply::Rewritten(_, written) ==> kept.contains(written)
            && paths.contains(written.manifest_path)) by {
            if let FilterReply::Rewritten(_, written) = replies[i] {
                if i < n {
                    assert(before[i] == replies[i]);
                    let k = choose|k: int| 0 <= k < earlier.len() && earlier[k] == written;
                    assert(kept[k] == written);
                    let p = choose|p: int|
                        0 <= p < earlier_paths.len() && earlier_paths[p] == written.manifest_path;
                    assert(paths[p] == written.manifest_path);
                } else {
                    assert(kept[earlier.len() as int] == written);
                    assert(paths[earlier_paths.len() as int] == written.manifest_path);
                }
            }
        }
        assert forall|path: String| #[trigger] paths.contains(path) implies exists|i: int|
            0 <= i < replies.len() && (#[trigger] replies[i] matches FilterReply::Rewritten(
                _,
                written,
            ) && written.manifest_path == path) by {
            if earlier_paths.contains(path) {
                let i = choose|i: int|
                    0 <= i < before.len() && (#[trigger] before[i] matches FilterReply::Rewritten(
                        _,
                        written,
                    ) && written.manifest_path == path);
                assert(replies[i] == before[i]);
            } else {
                let k = choose|k: int| 0 <= k < paths.len() && paths[k] == path;
                if k < earlier_paths.len() {
                    assert(earlier_paths[k] == path);
                }
                assert(replies[n] == reply);
            }
        }
    }
}

/// Removing the same files once more changes nothing: if the second removal reads no live files
/// but those that the first has left, it finds no target, leaves the manifests as they are, and
/// writes and reports nothing. If it must not miss a target, it fails and names them all.
pub proof fn law_removing_twice_changes_nothing(
    task: FilterTask,
    replies: Seq<FilterReply>,
    again: FilterTask,
    again_replies: Seq<FilterReply>,
)
    requires
        proper(task, replies),
        again.targets == task.targets,
        again.manifests == task.kept(replies),
        proper(again, again_replies),
        again_replies.len() == again.manifests.len(),
        forall|i: int|
            0 <= i < files_before(again_replies).len() ==> files_after(task, replies).contains(
                #[trigger] files_before(again_replies)[i],
            ),
    ensures
        again.kept(again_replies) == again.manifests,
        again.removed(again_replies) == Seq::<SummaryChange>::empty(),
        again.written_paths(again_replies) == Seq::<String>::empty(),
        again.missing(again_replies) == task.targets,
        again.end(again_replies) == (if again.fail_missing && task.targets.len() > 0 {
            FilterStepView::Failed(missing_targets_error(task.targets))
        } else {
            FilterStepView::Done(
                OutcomeView {
                    manifests: again.manifests,
                    removed: Seq::empty(),
                    written_paths: Seq::empty(),
                },
            )
        }),
{
    let left = files_after(task, replies);
    let read = files_before(again_replies);
    law_targets_are_gone(task, replies);
    assert forall|path: Seq<char>| #[trigger] task.targets.contains(path) implies !again.found(
        again_replies,
        path,
    ) by {
        law_targets_are_found_among_live_files(again, again_replies, path);
        if again.found(again_replies, path) {
            let i = choose|i: int| 0 <= i < read.len() && #[trigger] read[i].file_path@ == path;
            let k = choose|k: int| 0 <= k < left.len() && left[k] == read[i];
            assert(!task.targets.contains(left[k].file_path@));
        }
    }
    assert forall|i: int| 0 <= i < again_replies.len() implies !touched(
        again.targets,
        #[trigger] again_replies[i].entries(),
    ) by {
        let entries = again_replies[i].entries();
        if touched(again.targets, entries) {
            let j = choose|j: int|
                0 <= j < entries.len() && #[trigger] targeted(again.targets, entries[j]);
            assert(targeted(again.targets, again_replies[i].entries()[j]));
            assert(again.found(again_replies, entries[j].path()));
            assert(task.targets.contains(entries[j].path()));
        }
    }
    law_untouched_manifests_stay(again, again_replies);
    assert(again.manifests.take(again_replies.len() as int) =~= again.manifests);
    lemma_filter_all(task.targets, |path: Seq<char>| !again.found(again_replies, path));
}

proof fn lemma_filter_all<A>(s: Seq<A>, pred: spec_fn(A) -> bool)
    requires
        forall|x: A| #[trigger] s.contains(x) ==> pred(x),
    ensures
        s.filter(pred) == s,
    decreases s.len(),
{
    if s.len() == 0 {
        assert(s =~= Seq::empty());
        lemma_filter_empty(pred);
    } else {
        let before = s.drop_last();
        assert(s =~= before.push(s.last()));
        assert forall|x: A| #[trigger] before.contains(x) implies pred(x) by {
            let k = choose|k: int| 0 <= k < before.len() && before[k] == x;
            assert(s[k] == x);
            assert(s.contains(x));
        }
        lemma_filter_all(before, pred);
        assert(s.contains(s[s.len() - 1]));
        lemma_filter_push(before, s.last(), pred);
    }
}

} // verus!
