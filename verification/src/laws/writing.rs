//! What is written for a snapshot, and what its summary reports.

use vstd::prelude::*;

use crate::commit::{begun, CommitStepView, CommitTask};
use crate::error::{ErrorKind, ErrorView};
use crate::filter::{
    lemma_no_entries, retained, survivors, targeted, touched, FilterReply, FilterStepView,
    FilterTask, ManifestFilterManager,
};
use crate::ids::{hyphenated, is_version_7};
use crate::laws::selections::{
    law_added_files_are_listed_as_added, law_changes_report_each_file, one_or_none, to_keep,
    to_remove,
};
use crate::merging::{
    added_manifest, empty_cache, empty_producer, summary_of, CacheView, ProducerView,
};
use crate::seqs::lemma_filtered;
use crate::summary::{ChangeKind, SummaryChange};
use crate::text::{decimal, digits, joined, texts};
use crate::types::{
    DataFile, FormatVersion, ManifestContentType, ManifestEntry, ManifestFile, ManifestStatus,
    Operation, Table, TableMetadata,
};
use crate::writer::{empty_writer, ManifestLayout, WriterView};

verus! {

/// Whether a manifest to write is encoded as the table's version has it for the given content, and
/// encrypted if and only if the table is.
pub open spec fn encoded_for(
    table: Table,
    content: ManifestContentType,
    writer: WriterView,
) -> bool {
    let version = table.metadata.format_version;
    let data = content == ManifestContentType::Data;
    &&& writer.encrypted == table.encrypted
    &&& writer.layout == ManifestLayout::V1 <==> version == FormatVersion::V1
    &&& writer.layout == ManifestLayout::V2Data <==> version == FormatVersion::V2 && data
    &&& writer.layout == ManifestLayout::V2Deletes <==> version == FormatVersion::V2 && !data
    &&& writer.layout == ManifestLayout::V3Data <==> version == FormatVersion::V3 && data
    &&& writer.layout == ManifestLayout::V3Deletes <==> version == FormatVersion::V3 && !data
}

/// A new manifest writer is encoded for its table, and has the given place, snapshot, schema and
/// partition spec, and no entries.
pub proof fn law_new_writers_fit_their_table(
    table: Table,
    output_file: Seq<char>,
    snapshot_id: Option<i64>,
    content: ManifestContentType,
    schema_id: i32,
    partition_spec_id: i32,
)
    ensures
        ({
            let writer = empty_writer(
                table,
                output_file,
                snapshot_id,
                content,
                schema_id,
                partition_spec_id,
            );
            &&& encoded_for(table, content, writer)
            &&& writer.output_file == output_file
            &&& writer.snapshot_id == snapshot_id
            &&& writer.schema_id == schema_id
            &&& writer.partition_spec_id == partition_spec_id
            &&& writer.entries.len() == 0
        }),
{
}

/// Whether a manifest to write replaces the given one: it is a data manifest of the table's current
/// schema, has the partition spec of the manifest that it replaces, whatever the table's default is,
/// and belongs to the new snapshot.
pub open spec fn replaces(
    table: Table,
    snapshot_id: i64,
    manifest: ManifestFile,
    writer: WriterView,
) -> bool {
    &&& writer.partition_spec_id == manifest.partition_spec_id
    &&& writer.snapshot_id == Some(snapshot_id)
    &&& writer.schema_id == table.metadata.current_schema_id
    &&& encoded_for(table, ManifestContentType::Data, writer)
    &&& table.metadata.partition_spec_ids@.contains(manifest.partition_spec_id)
    &&& table.metadata.metadata_location is Ok
    &&& exists|uuid: u128|
        writer.output_file == table.metadata.metadata_location->Ok_0@ + "/"@ + #[trigger]
            hyphenated(uuid) + "-m-filter-"@ + decimal(manifest.partition_spec_id as int)
            + ".avro"@
}

/// Whether an entry of the list is to be removed.
pub open spec fn any_to_remove(targets: Seq<Seq<char>>, entries: Seq<ManifestEntry>) -> bool {
    exists|j: int| 0 <= j < entries.len() && to_remove(targets, #[trigger] entries[j])
}

/// Whether an entry of the list is to be kept.
pub open spec fn any_to_keep(targets: Seq<Seq<char>>, entries: Seq<ManifestEntry>) -> bool {
    exists|j: int| 0 <= j < entries.len() && to_keep(targets, #[trigger] entries[j])
}

pub(crate) proof fn lemma_touched(targets: Seq<Seq<char>>, entries: Seq<ManifestEntry>)
    ensures
        touched(targets, entries) <==> any_to_remove(targets, entries),
{
    if touched(targets, entries) {
        let j = choose|j: int| 0 <= j < entries.len() && #[trigger] targeted(targets, entries[j]);
        assert(to_remove(targets, entries[j]));
    }
    if any_to_remove(targets, entries) {
        let j = choose|j: int| 0 <= j < entries.len() && to_remove(targets, #[trigger] entries[j]);
        assert(targeted(targets, entries[j]));
    }
}

pub(crate) proof fn lemma_survives(
    targets: Seq<Seq<char>>,
    manifest: ManifestFile,
    entries: Seq<ManifestEntry>,
)
    ensures
        survivors(targets, manifest, entries).len() > 0 <==> any_to_keep(targets, entries),
{
    let stays = |e: ManifestEntry| retained(targets, e);
    if survivors(targets, manifest, entries).len() > 0 {
        lemma_filtered(entries, stays, 0);
        let j = choose|j: int| 0 <= j < entries.len() && entries[j] == entries.filter(stays)[0];
        assert(to_keep(targets, entries[j]));
    }
    if any_to_keep(targets, entries) {
        let j = choose|j: int| 0 <= j < entries.len() && to_keep(targets, #[trigger] entries[j]);
        assert(stays(entries[j]));
        entries.lemma_filter_contains(stays, j);
    }
}

/// What follows when a manifest was read. If none of its live files is to be removed, or all are,
/// the removal goes on, and in the latter case only if the manifest's partition spec is known. If
/// some are and some are not, a manifest is to be written that replaces it; without a place for
/// that, or under an unknown partition spec, the removal fails.
pub proof fn law_what_follows_a_manifest(
    task: FilterTask,
    replies: Seq<FilterReply>,
    entries: Seq<ManifestEntry>,
    uuid: u128,
)
    ensures
        ({
            let manifest = task.manifests[replies.len() as int];
            let metadata = task.table.metadata;
            let known = metadata.partition_spec_ids@.contains(manifest.partition_spec_id);
            let step = task.after_read(replies, entries, uuid);
            if !any_to_remove(task.targets, entries) {
                step == task.next(replies.push(FilterReply::Read(entries)))
            } else if !known {
                &&& step is Failed
                &&& step->Failed_0.kind == ErrorKind::DataInvalid
                &&& step->Failed_0.message == "Manifest references unknown partition spec "@
                    + decimal(manifest.partition_spec_id as int)
            } else if !any_to_keep(task.targets, entries) {
                step == task.next(replies.push(FilterReply::Read(entries)))
            } else if metadata.metadata_location is Err {
                step == FilterStepView::Failed(metadata.metadata_location->Err_0@)
            } else {
                &&& step is Write
                &&& step->Write_task == task
                &&& step->Write_replies == replies
                &&& step->Write_entries == entries
                &&& step->Write_writer.entries == survivors(task.targets, manifest, entries)
                &&& replaces(task.table, task.snapshot_id, manifest, step->Write_writer)
                &&& step->Write_writer.output_file == metadata.metadata_location->Ok_0@ + "/"@
                    + hyphenated(uuid) + "-m-filter-"@ + decimal(manifest.partition_spec_id as int)
                    + ".avro"@
            }
        }),
{
    let manifest = task.manifests[replies.len() as int];
    lemma_touched(task.targets, entries);
    lemma_survives(task.targets, manifest, entries);
}

/// What follows when a manifest was written in place of one that was read: that manifest stands in
/// its place, and the removal goes on.
pub proof fn law_what_follows_a_replacement(
    task: FilterTask,
    replies: Seq<FilterReply>,
    entries: Seq<ManifestEntry>,
    written: ManifestFile,
)
    ensures
        task.after_write(replies, entries, written) == task.next(
            replies.push(FilterReply::Rewritten(entries, written)),
        ),
{
}

/// Where each manifest goes: one that was not read stays; one in whose place another was written
/// gives way to that one; one that was read stays if none of its live files is to be removed, and
/// is left out otherwise. The order is kept.
pub proof fn law_where_each_manifest_goes(
    task: FilterTask,
    replies: Seq<FilterReply>,
    reply: FilterReply,
)
    ensures
        task.kept(Seq::empty()) == Seq::<ManifestFile>::empty(),
        task.kept(replies.push(reply)) == task.kept(replies) + (match reply {
            FilterReply::Unread => seq![task.manifests[replies.len() as int]],
            FilterReply::Read(entries) => one_or_none(
                task.manifests[replies.len() as int],
                !any_to_remove(task.targets, entries),
            ),
            FilterReply::Rewritten(_, written) => seq![written],
        }),
        task.written_paths(Seq::empty()) == Seq::<String>::empty(),
        task.written_paths(replies.push(reply)) == task.written_paths(replies) + (match reply {
            FilterReply::Rewritten(_, written) => seq![written.manifest_path],
            _ => Seq::empty(),
        }),
{
    assert(replies.push(reply).drop_last() =~= replies);
    lemma_touched(task.targets, reply.entries());
    assert(task.kept(replies.push(reply)) =~= task.kept(replies) + (match reply {
        FilterReply::Unread => seq![task.manifests[replies.len() as int]],
        FilterReply::Read(entries) => one_or_none(
            task.manifests[replies.len() as int],
            !any_to_remove(task.targets, entries),
        ),
        FilterReply::Rewritten(_, written) => seq![written],
    }));
    assert(task.written_paths(replies.push(reply)) =~= task.written_paths(replies) + (match reply {
        FilterReply::Rewritten(_, written) => seq![written.manifest_path],
        _ => Seq::empty(),
    }));
}

/// Whether a change reports that the given entry's file was removed from the given manifest.
pub open spec fn reports_removal(
    table: Table,
    manifest: ManifestFile,
    entry: ManifestEntry,
    change: SummaryChange,
) -> bool {
    &&& change.kind == ChangeKind::Removed
    &&& change.file == entry.data_file
    &&& change.schema_id == table.metadata.current_schema_id
    &&& change.partition_spec_id == manifest.partition_spec_id
}

/// What a removal reports of one entry more: a removal, under the current schema and the partition
/// spec of the manifest that lists it, if the file is in the table and to be removed; else nothing.
pub proof fn law_each_removed_file_is_reported(
    task: FilterTask,
    replies: Seq<FilterReply>,
    entries: Seq<ManifestEntry>,
    entry: ManifestEntry,
)
    ensures
        task.removed(Seq::empty()) == Seq::<SummaryChange>::empty(),
        task.removed(replies.push(FilterReply::Unread)) == task.removed(replies),
        task.removed(replies.push(FilterReply::Read(Seq::empty()))) == task.removed(replies),
        ({
            let manifest = task.manifests[replies.len() as int];
            let shorter = task.removed(replies.push(FilterReply::Read(entries)));
            let longer = task.removed(replies.push(FilterReply::Read(entries.push(entry))));
            if to_remove(task.targets, entry) {
                &&& longer.len() == shorter.len() + 1
                &&& shorter == longer.drop_last()
                &&& reports_removal(task.table, manifest, entry, longer.last())
            } else {
                longer == shorter
            }
        }),
        forall|written: ManifestFile| #[trigger]
            task.removed(replies.push(FilterReply::Rewritten(entries, written))) == task.removed(
                replies.push(FilterReply::Read(entries)),
            ),
{
    task.lemma_reply(replies, FilterReply::Unread);
    task.lemma_reply(replies, FilterReply::Read(Seq::empty()));
    task.lemma_reply(replies, FilterReply::Read(entries));
    task.lemma_entry(replies, entries, entry);
    lemma_no_entries(task.targets, task.manifests[0]);
    assert(task.removed(replies.push(FilterReply::Read(Seq::empty()))) =~= task.removed(replies));
    let shorter = task.removed(replies.push(FilterReply::Read(entries)));
    let longer = task.removed(replies.push(FilterReply::Read(entries.push(entry))));
    if to_remove(task.targets, entry) {
        assert(longer.drop_last() =~= shorter);
    }
    assert forall|written: ManifestFile| #[trigger]
        task.removed(replies.push(FilterReply::Rewritten(entries, written))) == task.removed(
            replies.push(FilterReply::Read(entries)),
        ) by {
        task.lemma_reply(replies, FilterReply::Rewritten(entries, written));
    }
}

/// The manifest of added files lists exactly them, in state `Added`, under the table's current
/// schema and default partition spec, for the new snapshot, and under a name made of the commit and
/// the suffix. It is refused for delete files in version 1, and without a place for it.
pub proof fn law_manifests_of_added_files_fit_their_table(
    uuid: u128,
    table: Table,
    snapshot_id: i64,
    content: ManifestContentType,
    files: Seq<DataFile>,
    suffix: Seq<char>,
)
    ensures
        ({
            let metadata = table.metadata;
            let result = added_manifest(uuid, table, snapshot_id, content, files, suffix);
            if content == ManifestContentType::Deletes && metadata.format_version
                == FormatVersion::V1 {
                &&& result is Err
                &&& result->Err_0.kind == ErrorKind::FeatureUnsupported
                &&& result->Err_0.message == "Delete files are not supported in format version 1"@
            } else if metadata.metadata_location is Err {
                result == Err::<WriterView, ErrorView>(metadata.metadata_location->Err_0@)
            } else {
                let writer = result->Ok_0;
                &&& result is Ok
                &&& encoded_for(table, content, writer)
                &&& writer.output_file == metadata.metadata_location->Ok_0@ + "/"@ + hyphenated(
                    uuid,
                ) + "-m-"@ + suffix + ".avro"@
                &&& writer.snapshot_id == Some(snapshot_id)
                &&& writer.schema_id == metadata.current_schema_id
                &&& writer.partition_spec_id == metadata.default_partition_spec_id
                &&& writer.entries.len() == files.len()
                &&& forall|i: int|
                    0 <= i < files.len() ==> {
                        let entry = #[trigger] writer.entries[i];
                        &&& entry.data_file == files[i]
                        &&& entry.status == ManifestStatus::Added
                        &&& entry.snapshot_id == if metadata.format_version == FormatVersion::V1 {
                            Some(snapshot_id)
                        } else {
                            None
                        }
                        &&& entry.sequence_number is None
                        &&& entry.file_sequence_number is None
                    }
            }
        }),
{
    law_added_files_are_listed_as_added(table.metadata.format_version, snapshot_id, files);
}

/// The current snapshot of a table is the one that it names, if it knows it.
pub proof fn law_current_snapshots_are_known(metadata: TableMetadata, id: i64)
    ensures
        metadata.current() == Some(id) <==> metadata.current_snapshot_id == Some(id)
            && metadata.snapshots@.contains_key(id),
{
}

/// A summary reports the given operation, carries the totals of the current snapshot forward, and
/// reports first every added data file, then every added delete file if they count, under the
/// current schema and the default partition spec, and then the removals as they are.
pub proof fn law_summaries_report_what_changes(
    producer: ProducerView,
    table: Table,
    removed: Seq<SummaryChange>,
    operation: Operation,
    with_delete_files: bool,
)
    ensures
        ({
            let summary = summary_of(producer, table, removed, operation, with_delete_files);
            let n = producer.added_data_files.len();
            let d = if with_delete_files {
                producer.added_delete_files.len()
            } else {
                0
            };
            &&& summary.operation == operation
            &&& forall|id: i64|
                summary.previous_snapshot_id == Some(id) <==> #[trigger]
                table.metadata.snapshots@.contains_key(id)
                    && table.metadata.current_snapshot_id == Some(id)
            &&& summary.changes.len() == n + d + removed.len()
            &&& forall|i: int|
                0 <= i < n + d ==> {
                    let change = #[trigger] summary.changes[i];
                    &&& change.kind == ChangeKind::Added
                    &&& change.schema_id == table.metadata.current_schema_id
                    &&& change.partition_spec_id == table.metadata.default_partition_spec_id
                    &&& change.file == if i < n {
                        producer.added_data_files[i]
                    } else {
                        producer.added_delete_files[i - n]
                    }
                }
            &&& summary.changes.skip((n + d) as int) == removed
        }),
{
    let summary = summary_of(producer, table, removed, operation, with_delete_files);
    let delete_files = if with_delete_files {
        producer.added_delete_files
    } else {
        Seq::empty()
    };
    let files = producer.added_data_files + delete_files;
    law_changes_report_each_file(
        ChangeKind::Added,
        files,
        table.metadata.current_schema_id,
        table.metadata.default_partition_spec_id,
    );
    assert(summary.changes.skip(files.len() as int) =~= removed);
}

/// How an attempt starts: with the snapshot id of the first attempt, or with the generated one if
/// there was none; with the given files, table, operation and targets; and with the manifests of
/// added data files that an earlier attempt has written. A table with a current snapshot has its
/// manifest list loaded; for one without, there are no manifests. Nothing else in the cache changes
/// but that what an earlier removal has left is handed out to be deleted.
pub proof fn law_how_attempts_start(
    producer: ProducerView,
    table: Table,
    operation: Operation,
    targets: Seq<Seq<char>>,
    with_delete_files: bool,
    cache: CacheView,
    generated: i64,
)
    ensures
        ({
            let (step, held) = begun(
                producer,
                table,
                operation,
                targets,
                with_delete_files,
                cache,
                generated,
            );
            let has_snapshot = table.metadata.current_snapshot_id is Some
                && table.metadata.snapshots@.contains_key(table.metadata.current_snapshot_id->0);
            let snapshot_id = if cache.snapshot_id is Some {
                cache.snapshot_id->0
            } else {
                generated
            };
            let task = CommitTask {
                producer,
                table,
                operation,
                snapshot_id,
                with_delete_files,
                cached: cache.data_manifests,
            };
            &&& held.snapshot_id == Some(snapshot_id)
            &&& held.data_manifests == cache.data_manifests
            &&& held.delete_manifests == cache.delete_manifests
            &&& if has_snapshot {
                &&& step == CommitStepView::Load { task, targets }
                &&& held.stale_paths == cache.stale_paths
            } else {
                &&& step == CommitStepView::CleanUp {
                    task,
                    targets,
                    manifests: Seq::empty(),
                    paths: cache.stale_paths,
                }
                &&& held.stale_paths.len() == 0
            }
        }),
{
}

/// What a removal within an attempt is asked: to remove the given paths, all of them or to fail,
/// from the given manifests of the attempt's table, for the attempt's snapshot. A removal by a
/// manager is asked for the manager's paths.
pub proof fn law_what_removals_are_asked(
    task: CommitTask,
    targets: Seq<Seq<char>>,
    manifests: Seq<ManifestFile>,
    manager: ManifestFilterManager,
    table: Table,
    snapshot_id: i64,
)
    ensures
        task.removal(targets, manifests) == (FilterTask {
            targets,
            fail_missing: true,
            manifests,
            table: task.table,
            snapshot_id: task.snapshot_id,
        }),
        manager.task(table, manifests, snapshot_id) == (FilterTask {
            targets: manager.targets(),
            fail_missing: manager.fails_on_missing(),
            manifests,
            table,
            snapshot_id,
        }),
{
}

/// What follows when the manifest of added files was written: it is in the plan, behind what was
/// there before, and is kept for later attempts; nothing else in the cache changes. Behind the
/// manifest of added data files comes that of added delete files, if any count: the one of an
/// earlier attempt, or a new one.
pub proof fn law_what_follows_added_files(
    task: CommitTask,
    manifests: Seq<ManifestFile>,
    removed: Seq<SummaryChange>,
    written: ManifestFile,
    cache: CacheView,
)
    ensures
        ({
            let (step, held) = task.after_data(manifests, removed, written, cache);
            let with_deletes = task.with_delete_files && task.producer.added_delete_files.len() > 0;
            &&& held == (CacheView { data_manifests: Some(seq![written]), ..cache })
            &&& !with_deletes ==> is_plan(task, step, manifests.push(written), removed)
            &&& with_deletes && cache.delete_manifests is Some ==> is_plan(
                task,
                step,
                manifests.push(written) + cache.delete_manifests->0,
                removed,
            )
            &&& with_deletes && cache.delete_manifests is None ==> {
                ||| step is Failed
                ||| {
                    &&& step is WriteDeletes
                    &&& step->WriteDeletes_task == task
                    &&& step->WriteDeletes_manifests == manifests.push(written)
                    &&& step->WriteDeletes_removed == removed
                }
            }
        }),
        ({
            let (step, held) = task.after_deletes(manifests, removed, written, cache);
            &&& held == (CacheView { delete_manifests: Some(seq![written]), ..cache })
            &&& is_plan(task, step, manifests.push(written), removed)
        }),
{
}

/// Whether a step is the plan with the given manifests and removals.
pub open spec fn is_plan(
    task: CommitTask,
    step: CommitStepView,
    manifests: Seq<ManifestFile>,
    removed: Seq<SummaryChange>,
) -> bool {
    &&& step is Done
    &&& step->Done_0.snapshot_id == task.snapshot_id
    &&& step->Done_0.manifests == manifests
    &&& step->Done_0.summary == summary_of(
        task.producer,
        task.table,
        removed,
        task.operation,
        task.with_delete_files,
    )
}

/// What follows a step of the removal: its next step, its failure, or, once it is complete, the
/// manifest of added data files, if any are added: the one of an earlier attempt, or a new one. The
/// cache changes only when the removal is complete, and then notes what the removal has written.
pub proof fn law_what_follows_a_step_of_the_removal(
    task: CommitTask,
    step: FilterStepView,
    cache: CacheView,
)
    ensures
        ({
            let (next, held) = task.with_filter(step, cache);
            match step {
                FilterStepView::Read { task: filter, replies } => {
                    &&& next == CommitStepView::Read { task, filter, replies }
                    &&& held == cache
                },
                FilterStepView::Write { task: filter, replies, entries, writer } => {
                    &&& next == CommitStepView::Rewrite { task, filter, replies, entries, writer }
                    &&& held == cache
                },
                FilterStepView::Failed(error) => {
                    &&& next == CommitStepView::Failed(error)
                    &&& held == cache
                },
                FilterStepView::Done(outcome) => {
                    let adds = task.producer.added_data_files.len() > 0;
                    let deletes = task.with_delete_files && task.producer.added_delete_files.len()
                        > 0;
                    let before = if adds && task.cached is Some {
                        outcome.manifests + task.cached->0
                    } else {
                        outcome.manifests
                    };
                    &&& held == (CacheView { stale_paths: outcome.written_paths, ..cache })
                    &&& adds && task.cached is None ==> next is Failed || (next is WriteData
                        && next->WriteData_task == task && next->WriteData_manifests == before
                        && next->WriteData_removed == outcome.removed)
                    &&& !(adds && task.cached is None) && !deletes ==> is_plan(
                        task,
                        next,
                        before,
                        outcome.removed,
                    )
                    &&& !(adds && task.cached is None) && deletes ==> {
                        if cache.delete_manifests is Some {
                            is_plan(
                                task,
                                next,
                                before + cache.delete_manifests->0,
                                outcome.removed,
                            )
                        } else {
                            next is Failed || (next is WriteDeletes && next->WriteDeletes_task
                                == task && next->WriteDeletes_manifests == before
                                && next->WriteDeletes_removed == outcome.removed)
                        }
                    }
                },
            }
        }),
{
}

/// A new producer has no files, and a new cache holds nothing.
pub proof fn law_producers_and_caches_start_empty(operation: Operation, uuid: u128)
    ensures
        ({
            let producer = empty_producer(operation, uuid);
            let cache = empty_cache();
            &&& producer.operation == operation
            &&& producer.commit_uuid == uuid
            &&& producer.added_data_files.len() == 0
            &&& producer.deleted_data_files.len() == 0
            &&& producer.added_delete_files.len() == 0
            &&& cache.snapshot_id is None
            &&& cache.data_manifests is None
            &&& cache.delete_manifests is None
            &&& cache.stale_paths.len() == 0
        }),
{
}

/// The number that a sequence of decimal digits stands for.
pub open spec fn value_of(text: Seq<char>) -> int
    decreases text.len(),
{
    if text.len() == 0 {
        0
    } else {
        10 * value_of(text.drop_last()) + (text.last() as int - '0' as int)
    }
}

/// Decimal notation can be read back, and does not start with a zero unless it is one. A negative
/// number is a `-` before the notation of its magnitude.
pub proof fn law_decimals_can_be_read_back(n: nat)
    ensures
        value_of(digits(n)) == n,
        digits(n).len() > 0,
        forall|i: int|
            0 <= i < digits(n).len() ==> '0' as int <= #[trigger] digits(n)[i] as int <= '9' as int,
        n > 0 ==> digits(n)[0] != '0',
        decimal(n as int) == digits(n),
        n > 0 ==> decimal(-n) == seq!['-'] + digits(n),
    decreases n,
{
    if n < 10 {
        assert(digits(n).drop_last() =~= Seq::empty());
        assert(value_of(Seq::empty()) == 0);
    } else {
        law_decimals_can_be_read_back(n / 10);
        assert(digits(n).drop_last() =~= digits(n / 10));
        assert(digits(n).last() == (48 + n % 10) as char);
        assert forall|i: int| 0 <= i < digits(n).len() implies '0' as int
            <= #[trigger] digits(n)[i] as int <= '9' as int by {
            if i < digits(n / 10).len() {
                assert(digits(n)[i] == digits(n / 10)[i]);
            }
        }
        assert(digits(n)[0] == digits(n / 10)[0]);
    }
}

/// The notation of a UUID: 36 characters, with hyphens between the groups, and with the digit 7 at
/// the head of the third group if the UUID is of version 7.
pub proof fn law_uuids_are_hyphenated(value: u128)
    ensures
        hyphenated(value).len() == 36,
        hyphenated(value)[8] == '-',
        hyphenated(value)[13] == '-',
        hyphenated(value)[18] == '-',
        hyphenated(value)[23] == '-',
        is_version_7(value) ==> hyphenated(value)[14] == '7',
{
}

/// What strings hold, one by one and in order.
pub proof fn law_texts_are_what_strings_hold(strings: Seq<String>)
    ensures
        texts(strings).len() == strings.len(),
        forall|i: int| 0 <= i < strings.len() ==> #[trigger] texts(strings)[i] == strings[i]@,
{
}

/// Joined texts: nothing for none, a single text as it is, and two lists in a row with the
/// separator between them.
pub proof fn law_joined_texts_can_be_split(
    first: Seq<Seq<char>>,
    second: Seq<Seq<char>>,
    text: Seq<char>,
    separator: Seq<char>,
)
    requires
        first.len() > 0,
        second.len() > 0,
    ensures
        joined(Seq::empty(), separator) == Seq::<char>::empty(),
        joined(seq![text], separator) == text,
        joined(first + second, separator) == joined(first, separator) + separator + joined(
            second,
            separator,
        ),
    decreases second.len(),
{
    let all = first + second;
    assert(all.drop_last() =~= first + second.drop_last());
    if second.len() == 1 {
        assert(first + second.drop_last() =~= first);
    } else {
        law_joined_texts_can_be_split(first, second.drop_last(), text, separator);
    }
    assert(joined(all, separator) =~= joined(first, separator) + separator + joined(
        second,
        separator,
    ));
}

} // verus!
