//! What the attempts of one commit come to.

use vstd::prelude::*;

use crate::commit::{
    begun, chosen_snapshot_id, commit_task, with_files, CommitStepView, CommitTask, PlanView,
};
use crate::error::ErrorView;
use crate::filter::{FilterReply, FilterStepView, FilterTask, OutcomeView};
use crate::laws::removal::{
    files_after, files_before, files_with, law_completed_removal_found_every_target,
    law_removal_balances, law_removal_steps_are_proper, law_removals_start_properly,
    law_targets_are_gone, law_untouched_manifests_stay, lemma_files_with_add,
    lemma_files_with_changes, proper, proper_reply, proper_step, reads_of, refused, removed_to,
};
use crate::laws::selections::{
    law_live_files_are_added_or_existing, law_manifests_with_files_are_carried_over, may_list_files,
};
use crate::laws::writing::replaces;
use crate::matching::candidates;
use crate::merging::{added_manifest, summary_of, CacheView, ProducerView};
use crate::seqs::{lemma_filter_empty, lemma_filtered};
use crate::summary::{changes_of, ChangeKind, SummaryChange};
use crate::types::{DataFile, ManifestContentType, ManifestEntry, ManifestFile, Operation, Table};
use crate::writer::WriterView;

verus! {

/// What the storage answers to a step of an attempt.
pub enum StorageReply {
    /// The manifest list that was loaded.
    Listed(Seq<ManifestFile>),
    /// The files of an earlier attempt were deleted, as far as that was possible.
    CleanedUp,
    /// The entries of the manifest that was read, and the UUID for a manifest in its place.
    Entries(Seq<ManifestEntry>, u128),
    /// The manifest that was written.
    Written(ManifestFile),
}

/// Where an attempt stands, and what the cache holds, after a step was answered. An answer to
/// another question changes nothing.
pub open spec fn resumed(step: CommitStepView, reply: StorageReply, cache: CacheView) -> (
    CommitStepView,
    CacheView,
) {
    match (step, reply) {
        (CommitStepView::Load { task, targets }, StorageReply::Listed(list)) => task.with_manifests(
            targets,
            with_files(list),
            cache,
        ),
        (
            CommitStepView::CleanUp { task, targets, manifests, .. },
            StorageReply::CleanedUp,
        ) => task.with_filter(task.removal(targets, manifests).start(), cache),
        (
            CommitStepView::Read { task, filter, replies },
            StorageReply::Entries(entries, uuid),
        ) => task.with_filter(filter.after_read(replies, entries, uuid), cache),
        (
            CommitStepView::Rewrite { task, filter, replies, entries, .. },
            StorageReply::Written(manifest),
        ) => task.with_filter(filter.after_write(replies, entries, manifest), cache),
        (
            CommitStepView::WriteData { task, manifests, removed, .. },
            StorageReply::Written(manifest),
        ) => task.after_data(manifests, removed, manifest, cache),
        (
            CommitStepView::WriteDeletes { task, manifests, removed, .. },
            StorageReply::Written(manifest),
        ) => task.after_deletes(manifests, removed, manifest, cache),
        _ => (step, cache),
    }
}

/// Where an attempt stands, and what the cache holds, after the given answers.
pub open spec fn attempted(
    start: (CommitStepView, CacheView),
    replies: Seq<StorageReply>,
) -> (CommitStepView, CacheView)
    decreases replies.len(),
{
    if replies.len() == 0 {
        start
    } else {
        let (step, cache) = attempted(start, replies.drop_last());
        resumed(step, replies.last(), cache)
    }
}

/// The manifests that an attempt removes files from: those of the current snapshot that list
/// files, once they have been loaded.
pub open spec fn existing_manifests(
    start: (CommitStepView, CacheView),
    replies: Seq<StorageReply>,
) -> Seq<ManifestFile>
    decreases replies.len(),
{
    if replies.len() == 0 {
        Seq::empty()
    } else {
        match (attempted(start, replies.drop_last()).0, replies.last()) {
            (CommitStepView::Load { .. }, StorageReply::Listed(list)) => with_files(list),
            _ => existing_manifests(start, replies.drop_last()),
        }
    }
}

/// The entries of the manifests that an attempt has read, in order.
pub open spec fn entries_read(
    start: (CommitStepView, CacheView),
    replies: Seq<StorageReply>,
) -> Seq<Seq<ManifestEntry>>
    decreases replies.len(),
{
    if replies.len() == 0 {
        Seq::empty()
    } else {
        let before = entries_read(start, replies.drop_last());
        match (attempted(start, replies.drop_last()).0, replies.last()) {
            (CommitStepView::Read { .. }, StorageReply::Entries(entries, _)) => before.push(
                entries,
            ),
            _ => before,
        }
    }
}

/// What an attempt is asked to do, what the cache holds at its start, and what it has read.
pub struct Attempt {
    pub task: CommitTask,
    pub targets: Seq<Seq<char>>,
    pub first: CacheView,
    pub existing: Seq<ManifestFile>,
    pub reads: Seq<Seq<ManifestEntry>>,
}

impl Attempt {
    /// The removal of the targets from the existing manifests.
    pub open spec fn removal(self) -> FilterTask {
        self.task.removal(self.targets, self.existing)
    }

    /// The attempt that starts with the given arguments and gets the given answers.
    pub open spec fn of(
        producer: ProducerView,
        table: Table,
        operation: Operation,
        targets: Seq<Seq<char>>,
        with_delete_files: bool,
        cache: CacheView,
        generated: i64,
        replies: Seq<StorageReply>,
    ) -> Attempt {
        let task = commit_task(producer, table, operation, with_delete_files, cache, generated);
        let start = begun(producer, table, operation, targets, with_delete_files, cache, generated);
        Attempt {
            task,
            targets,
            first: CacheView { snapshot_id: Some(task.snapshot_id), ..cache },
            existing: existing_manifests(start, replies),
            reads: entries_read(start, replies),
        }
    }
}

/// Whether the given manifests are those of the added data files: none if none are added, else
/// those of an earlier attempt or, if there are none, a new one that is kept in the cache.
pub open spec fn lists_added_data(
    attempt: Attempt,
    data: Seq<ManifestFile>,
    cache: CacheView,
) -> bool {
    let Attempt { task, first, .. } = attempt;
    if task.producer.added_data_files.len() == 0 {
        data.len() == 0 && cache.data_manifests == first.data_manifests
    } else {
        &&& cache.data_manifests == Some(data)
        &&& first.data_manifests is None || first.data_manifests == Some(data)
        &&& first.data_manifests is None ==> data.len() == 1
    }
}

/// Whether the given manifests are those of the added delete files.
pub open spec fn lists_added_deletes(
    attempt: Attempt,
    deletes: Seq<ManifestFile>,
    cache: CacheView,
) -> bool {
    let Attempt { task, first, .. } = attempt;
    if !task.with_delete_files || task.producer.added_delete_files.len() == 0 {
        deletes.len() == 0 && cache.delete_manifests == first.delete_manifests
    } else {
        &&& cache.delete_manifests == Some(deletes)
        &&& first.delete_manifests is None || first.delete_manifests == Some(deletes)
        &&& first.delete_manifests is None ==> deletes.len() == 1
    }
}

/// Whether a plan is the result of a removal with the given outcome and of the given manifests of
/// added files: it has the manifests in this order, and reports all added and removed files. The
/// manifests that the removal has written are noted in the cache.
pub open spec fn planned_from(
    attempt: Attempt,
    plan: PlanView,
    cache: CacheView,
    outcome: OutcomeView,
    data: Seq<ManifestFile>,
    deletes: Seq<ManifestFile>,
) -> bool {
    let task = attempt.task;
    &&& removed_to(attempt.removal(), attempt.reads, outcome)
    &&& lists_added_data(attempt, data, cache)
    &&& lists_added_deletes(attempt, deletes, cache)
    &&& cache.stale_paths == outcome.written_paths
    &&& plan.snapshot_id == task.snapshot_id
    &&& plan.manifests == outcome.manifests + data + deletes
    &&& plan.summary == summary_of(
        task.producer,
        task.table,
        outcome.removed,
        task.operation,
        task.with_delete_files,
    )
}

/// Whether nothing that one state of the cache holds for later attempts is changed in another.
pub open spec fn keeps(before: CacheView, after: CacheView) -> bool {
    &&& before.snapshot_id is Some ==> after.snapshot_id == before.snapshot_id
    &&& before.data_manifests is Some ==> after.data_manifests == before.data_manifests
    &&& before.delete_manifests is Some ==> after.delete_manifests == before.delete_manifests
}

/// Whether an attempt can have come to the given step and cache.
pub open spec fn sound(attempt: Attempt, step: CommitStepView, cache: CacheView) -> bool {
    let Attempt { task, targets, first, existing, reads } = attempt;
    let cleaned = CacheView { stale_paths: Seq::empty(), ..first };
    &&& first.snapshot_id == Some(task.snapshot_id)
    &&& task.cached == first.data_manifests
    &&& keeps(first, cache)
    &&& match step {
        CommitStepView::Load { task: t, targets: g } => {
            &&& t == task
            &&& g == targets
            &&& cache == first
            &&& existing.len() == 0
            &&& reads.len() == 0
        },
        CommitStepView::CleanUp { task: t, targets: g, manifests, paths } => {
            &&& t == task
            &&& g == targets
            &&& paths == first.stale_paths
            &&& cache == cleaned
            &&& manifests == existing
            &&& reads.len() == 0
        },
        CommitStepView::Read { task: t, filter, replies } => {
            &&& t == task
            &&& cache == cleaned
            &&& filter == attempt.removal()
            &&& proper_step(filter, reads, FilterStepView::Read { task: filter, replies })
        },
        CommitStepView::Rewrite { task: t, filter, replies, entries, writer } => {
            &&& t == task
            &&& cache == cleaned
            &&& filter == attempt.removal()
            &&& proper_step(
                filter,
                reads,
                FilterStepView::Write { task: filter, replies, entries, writer },
            )
            &&& replaces(task.table, task.snapshot_id, existing[replies.len() as int], writer)
        },
        CommitStepView::WriteData { task: t, manifests, removed, writer } => {
            &&& t == task
            &&& task.producer.added_data_files.len() > 0
            &&& first.data_manifests is None
            &&& cache == (CacheView { stale_paths: cache.stale_paths, ..first })
            &&& removed_to(
                attempt.removal(),
                reads,
                OutcomeView { manifests, removed, written_paths: cache.stale_paths },
            )
            &&& added_manifest(
                task.producer.commit_uuid,
                task.table,
                task.snapshot_id,
                ManifestContentType::Data,
                task.producer.added_data_files,
                "added"@,
            ) == Ok::<_, ErrorView>(writer)
        },
        CommitStepView::WriteDeletes { task: t, manifests, removed, writer } => {
            &&& t == task
            &&& task.with_delete_files
            &&& task.producer.added_delete_files.len() > 0
            &&& first.delete_manifests is None
            &&& cache == (CacheView {
                data_manifests: cache.data_manifests,
                stale_paths: cache.stale_paths,
                ..first
            })
            &&& exists|outcome: OutcomeView, data: Seq<ManifestFile>|
                {
                    &&& #[trigger] removed_to(attempt.removal(), reads, outcome)
                    &&& #[trigger] lists_added_data(attempt, data, cache)
                    &&& outcome.removed == removed
                    &&& outcome.written_paths == cache.stale_paths
                    &&& manifests == outcome.manifests + data
                }
            &&& added_manifest(
                task.producer.commit_uuid,
                task.table,
                task.snapshot_id,
                ManifestContentType::Deletes,
                task.producer.added_delete_files,
                "deletes"@,
            ) == Ok::<_, ErrorView>(writer)
        },
        CommitStepView::Done(plan) => exists|
            outcome: OutcomeView,
            data: Seq<ManifestFile>,
            deletes: Seq<ManifestFile>,
        | #[trigger]
            planned_from(attempt, plan, cache, outcome, data, deletes),
        CommitStepView::Failed(error) => {
            ||| refused(attempt.removal(), reads, error) && cache == cleaned
            ||| {
                &&& task.producer.added_data_files.len() > 0
                &&& first.data_manifests is None
                &&& added_manifest(
                    task.producer.commit_uuid,
                    task.table,
                    task.snapshot_id,
                    ManifestContentType::Data,
                    task.producer.added_data_files,
                    "added"@,
                ) == Err::<WriterView, _>(error)
            }
            ||| {
                &&& task.with_delete_files
                &&& task.producer.added_delete_files.len() > 0
                &&& first.delete_manifests is None
                &&& added_manifest(
                    task.producer.commit_uuid,
                    task.table,
                    task.snapshot_id,
                    ManifestContentType::Deletes,
                    task.producer.added_delete_files,
                    "deletes"@,
                ) == Err::<WriterView, _>(error)
            }
        },
    }
}

proof fn lemma_sound_with_data(
    attempt: Attempt,
    outcome: OutcomeView,
    data: Seq<ManifestFile>,
    cache: CacheView,
)
    requires
        attempt.first.snapshot_id == Some(attempt.task.snapshot_id),
        attempt.task.cached == attempt.first.data_manifests,
        removed_to(attempt.removal(), attempt.reads, outcome),
        lists_added_data(attempt, data, cache),
        outcome.written_paths == cache.stale_paths,
        cache == (CacheView {
            data_manifests: cache.data_manifests,
            stale_paths: cache.stale_paths,
            ..attempt.first
        }),
    ensures
        ({
            let (step, after) = attempt.task.with_data(
                outcome.manifests + data,
                outcome.removed,
                cache,
            );
            sound(attempt, step, after)
        }),
{
    let task = attempt.task;
    let manifests = outcome.manifests + data;
    let (step, after) = task.with_data(manifests, outcome.removed, cache);
    match step {
        CommitStepView::Done(plan) => {
            let deletes = if !task.with_delete_files || task.producer.added_delete_files.len()
                == 0 {
                Seq::empty()
            } else {
                cache.delete_manifests->0
            };
            assert(manifests + Seq::<ManifestFile>::empty() =~= manifests);
            assert(planned_from(attempt, plan, after, outcome, data, deletes));
        },
        _ => {},
    }
}

proof fn lemma_sound_with_filter(attempt: Attempt, filtered: FilterStepView, cache: CacheView)
    requires
        attempt.first.snapshot_id == Some(attempt.task.snapshot_id),
        attempt.task.cached == attempt.first.data_manifests,
        cache == (CacheView { stale_paths: Seq::empty(), ..attempt.first }),
        proper_step(attempt.removal(), attempt.reads, filtered),
    ensures
        ({
            let (step, after) = attempt.task.with_filter(filtered, cache);
            sound(attempt, step, after)
        }),
{
    match filtered {
        FilterStepView::Done(outcome) => {
            let noted = CacheView { stale_paths: outcome.written_paths, ..cache };
            if attempt.task.producer.added_data_files.len() == 0 {
                let data = Seq::<ManifestFile>::empty();
                assert(outcome.manifests + data =~= outcome.manifests);
                lemma_sound_with_data(attempt, outcome, data, noted);
            } else {
                match attempt.task.cached {
                    Some(data) => {
                        lemma_sound_with_data(attempt, outcome, data, noted);
                    },
                    None => {},
                }
            }
        },
        _ => {},
    }
}

/// How one more answer changes what an attempt has read.
spec fn with_reply(attempt: Attempt, step: CommitStepView, reply: StorageReply) -> Attempt {
    match (step, reply) {
        (CommitStepView::Load { .. }, StorageReply::Listed(list)) => Attempt {
            existing: with_files(list),
            ..attempt
        },
        (CommitStepView::Read { .. }, StorageReply::Entries(entries, _)) => Attempt {
            reads: attempt.reads.push(entries),
            ..attempt
        },
        _ => attempt,
    }
}

proof fn lemma_sound_resumed(
    attempt: Attempt,
    step: CommitStepView,
    reply: StorageReply,
    cache: CacheView,
)
    requires
        sound(attempt, step, cache),
    ensures
        ({
            let (next, after) = resumed(step, reply, cache);
            sound(with_reply(attempt, step, reply), next, after)
        }),
{
    let filter = attempt.removal();
    let next = with_reply(attempt, step, reply);
    match (step, reply) {
        (CommitStepView::CleanUp { .. }, StorageReply::CleanedUp) => {
            law_removals_start_properly(filter);
            assert(attempt.reads =~= Seq::empty());
            lemma_sound_with_filter(attempt, filter.start(), cache);
        },
        (
            CommitStepView::Read { replies, .. },
            StorageReply::Entries(entries, uuid),
        ) => {
            let before = FilterStepView::Read { task: filter, replies };
            law_removal_steps_are_proper(
                filter,
                attempt.reads,
                before,
                entries,
                uuid,
                filter.manifests[0],
            );
            lemma_sound_with_filter(next, filter.after_read(replies, entries, uuid), cache);
        },
        (
            CommitStepView::Rewrite { replies, entries, writer, .. },
            StorageReply::Written(manifest),
        ) => {
            let before = FilterStepView::Write { task: filter, replies, entries, writer };
            law_removal_steps_are_proper(filter, attempt.reads, before, entries, 0, manifest);
            lemma_sound_with_filter(next, filter.after_write(replies, entries, manifest), cache);
        },
        (
            CommitStepView::WriteData { manifests, removed, .. },
            StorageReply::Written(manifest),
        ) => {
            let outcome = OutcomeView { manifests, removed, written_paths: cache.stale_paths };
            let data = seq![manifest];
            assert(outcome.manifests + data =~= manifests.push(manifest));
            lemma_sound_with_data(
                attempt,
                outcome,
                data,
                CacheView { data_manifests: Some(data), ..cache },
            );
        },
        (
            CommitStepView::WriteDeletes { manifests, removed, .. },
            StorageReply::Written(manifest),
        ) => {
            let (outcome, data) = choose|outcome: OutcomeView, data: Seq<ManifestFile>|
                {
                    &&& #[trigger] removed_to(attempt.removal(), attempt.reads, outcome)
                    &&& #[trigger] lists_added_data(attempt, data, cache)
                    &&& outcome.removed == removed
                    &&& outcome.written_paths == cache.stale_paths
                    &&& manifests == outcome.manifests + data
                };
            let deletes = seq![manifest];
            let after = CacheView { delete_manifests: Some(deletes), ..cache };
            assert(outcome.manifests + data + deletes =~= manifests.push(manifest));
            match attempt.task.end(manifests.push(manifest), removed) {
                CommitStepView::Done(plan) => {
                    assert(planned_from(attempt, plan, after, outcome, data, deletes));
                },
                _ => {},
            }
        },
        _ => {},
    }
}

/// Every attempt is sound, whatever the storage answers: the snapshot id is chosen at its start;
/// the files that the previous removal has left behind are to be deleted, and are forgotten then;
/// what the cache holds for later attempts is kept; manifests of added files are written only if
/// the cache has none; a plan has the manifests of the removal's outcome, of the added data files
/// and of the added delete files, and reports what was added and removed; and a failure has its
/// cause in the removal or in the manifests of added files.
pub proof fn law_attempts_are_sound(
    producer: ProducerView,
    table: Table,
    operation: Operation,
    targets: Seq<Seq<char>>,
    with_delete_files: bool,
    cache: CacheView,
    generated: i64,
    replies: Seq<StorageReply>,
)
    ensures
        ({
            let attempt = Attempt::of(
                producer,
                table,
                operation,
                targets,
                with_delete_files,
                cache,
                generated,
                replies,
            );
            let (step, after) = attempted(
                begun(producer, table, operation, targets, with_delete_files, cache, generated),
                replies,
            );
            sound(attempt, step, after)
        }),
    decreases replies.len(),
{
    let start = begun(producer, table, operation, targets, with_delete_files, cache, generated);
    if replies.len() > 0 {
        let before = replies.drop_last();
        law_attempts_are_sound(
            producer,
            table,
            operation,
            targets,
            with_delete_files,
            cache,
            generated,
            before,
        );
        let attempt = Attempt::of(
            producer,
            table,
            operation,
            targets,
            with_delete_files,
            cache,
            generated,
            before,
        );
        let (step, after) = attempted(start, before);
        lemma_sound_resumed(attempt, step, replies.last(), after);
    }
}

/// A later attempt with what an earlier one has left in the cache, at whatever point that one was
/// given up: it has the same snapshot id, whatever id is generated for it and whatever has become
/// of the table; it starts with the deletion of what the earlier one has noted; it does not write
/// manifests that the earlier one has written, but plans with them; and the cache keeps them.
pub proof fn law_later_attempts_reuse_what_was_written(
    producer: ProducerView,
    table: Table,
    operation: Operation,
    targets: Seq<Seq<char>>,
    with_delete_files: bool,
    cache: CacheView,
    generated: i64,
    replies: Seq<StorageReply>,
    later_table: Table,
    later_operation: Operation,
    later_targets: Seq<Seq<char>>,
    later_generated: i64,
    later_replies: Seq<StorageReply>,
)
    ensures
        ({
            let (step, left) = attempted(
                begun(producer, table, operation, targets, with_delete_files, cache, generated),
                replies,
            );
            let (later_step, later_left) = attempted(
                begun(
                    producer,
                    later_table,
                    later_operation,
                    later_targets,
                    with_delete_files,
                    left,
                    later_generated,
                ),
                later_replies,
            );
            &&& chosen_snapshot_id(left, later_generated) == chosen_snapshot_id(cache, generated)
            &&& keeps(left, later_left)
            &&& later_step matches CommitStepView::CleanUp { paths, .. } ==> paths
                == left.stale_paths
            &&& left.data_manifests is Some ==> !(later_step is WriteData)
            &&& left.delete_manifests is Some ==> !(later_step is WriteDeletes)
            &&& step is Done && later_step is Done ==> {
                let plan = step->Done_0;
                let later_plan = later_step->Done_0;
                &&& later_plan.snapshot_id == plan.snapshot_id
                &&& exists|
                    kept: Seq<ManifestFile>,
                    later_kept: Seq<ManifestFile>,
                    data: Seq<ManifestFile>,
                    deletes: Seq<ManifestFile>,
                |
                    {
                        &&& plan.manifests == #[trigger] (kept + data + deletes)
                        &&& later_plan.manifests == #[trigger] (later_kept + data + deletes)
                        &&& producer.added_data_files.len() > 0 ==> left.data_manifests == Some(
                            data,
                        )
                        &&& with_delete_files && producer.added_delete_files.len() > 0
                            ==> left.delete_manifests == Some(deletes)
                    }
            }
        }),
{
    let start = begun(producer, table, operation, targets, with_delete_files, cache, generated);
    let attempt = Attempt::of(
        producer,
        table,
        operation,
        targets,
        with_delete_files,
        cache,
        generated,
        replies,
    );
    let (step, left) = attempted(start, replies);
    law_attempts_are_sound(
        producer,
        table,
        operation,
        targets,
        with_delete_files,
        cache,
        generated,
        replies,
    );
    let later_start = begun(
        producer,
        later_table,
        later_operation,
        later_targets,
        with_delete_files,
        left,
        later_generated,
    );
    let later_attempt = Attempt::of(
        producer,
        later_table,
        later_operation,
        later_targets,
        with_delete_files,
        left,
        later_generated,
        later_replies,
    );
    let (later_step, later_left) = attempted(later_start, later_replies);
    law_attempts_are_sound(
        producer,
        later_table,
        later_operation,
        later_targets,
        with_delete_files,
        left,
        later_generated,
        later_replies,
    );
    if step is Done && later_step is Done {
        let plan = step->Done_0;
        let later_plan = later_step->Done_0;
        let (outcome, data, deletes) = choose|
            outcome: OutcomeView,
            data: Seq<ManifestFile>,
            deletes: Seq<ManifestFile>,
        | #[trigger]
            planned_from(attempt, plan, left, outcome, data, deletes);
        let (later_outcome, later_data, later_deletes) = choose|
            outcome: OutcomeView,
            data: Seq<ManifestFile>,
            deletes: Seq<ManifestFile>,
        | #[trigger]
            planned_from(later_attempt, later_plan, later_left, outcome, data, deletes);
        assert(later_data =~= data);
        assert(later_deletes =~= deletes);
        assert(plan.manifests == outcome.manifests + data + deletes);
        assert(later_plan.manifests == later_outcome.manifests + data + deletes);
    }
}

/// The summary of a plan reports the added data files and then the added delete files as added,
/// and the files of the removal as removed; no file is reported otherwise.
pub proof fn law_summary_reports_every_file(
    producer: ProducerView,
    table: Table,
    removed: Seq<SummaryChange>,
    operation: Operation,
    with_delete_files: bool,
)
    requires
        files_with(removed, ChangeKind::Added) == Seq::<DataFile>::empty(),
    ensures
        ({
            let changes = summary_of(
                producer,
                table,
                removed,
                operation,
                with_delete_files,
            ).changes;
            &&& files_with(changes, ChangeKind::Added) == producer.added_data_files + (
            if with_delete_files {
                producer.added_delete_files
            } else {
                Seq::empty()
            })
            &&& files_with(changes, ChangeKind::Removed) == files_with(removed, ChangeKind::Removed)
        }),
{
    let delete_files = if with_delete_files {
        producer.added_delete_files
    } else {
        Seq::empty()
    };
    let files = producer.added_data_files + delete_files;
    let schema_id = table.metadata.current_schema_id;
    let spec_id = table.metadata.default_partition_spec_id;
    let added = changes_of(ChangeKind::Added, files, schema_id, spec_id);
    lemma_files_with_changes(ChangeKind::Added, files, schema_id, spec_id);
    lemma_files_with_add(added, removed, ChangeKind::Added);
    lemma_files_with_add(added, removed, ChangeKind::Removed);
    assert(files_with(added, ChangeKind::Removed) == Seq::<DataFile>::empty());
    assert(files + Seq::<DataFile>::empty() =~= files);
    assert(Seq::<DataFile>::empty() + files_with(removed, ChangeKind::Removed) =~= files_with(
        removed,
        ChangeKind::Removed,
    ));
}

/// Whether a plan accounts for the live files of the manifests that were read: every target was
/// among them; they are the files that stay and the files that the summary reports as removed; and
/// the plan begins with the manifests of the files that stay.
pub open spec fn accounts_for(attempt: Attempt, plan: PlanView, found: Seq<FilterReply>) -> bool {
    let removal = attempt.removal();
    let removed = files_with(plan.summary.changes, ChangeKind::Removed);
    &&& proper(removal, found)
    &&& found.len() == attempt.existing.len()
    &&& reads_of(found) == attempt.reads
    &&& removal.kept(found).is_prefix_of(plan.manifests)
    &&& removed == files_with(removal.removed(found), ChangeKind::Removed)
    &&& files_before(found).to_multiset() == files_after(removal, found).to_multiset().add(
        removed.to_multiset(),
    )
    &&& forall|path: Seq<char>| #[trigger]
        attempt.targets.contains(path) ==> removal.found(found, path)
}

/// A plan accounts for every file. Its summary reports exactly the files that the producer adds as
/// added. Without targets it reports no file as removed, and begins with the existing manifests;
/// with targets it accounts for the live files of the manifests that were read.
pub proof fn law_plan_accounts_for_every_file(
    producer: ProducerView,
    table: Table,
    operation: Operation,
    targets: Seq<Seq<char>>,
    with_delete_files: bool,
    cache: CacheView,
    generated: i64,
    replies: Seq<StorageReply>,
)
    ensures
        ({
            let attempt = Attempt::of(
                producer,
                table,
                operation,
                targets,
                with_delete_files,
                cache,
                generated,
                replies,
            );
            let (step, _) = attempted(
                begun(producer, table, operation, targets, with_delete_files, cache, generated),
                replies,
            );
            step matches CommitStepView::Done(plan) ==> {
                &&& files_with(plan.summary.changes, ChangeKind::Added)
                    == producer.added_data_files + (if with_delete_files {
                    producer.added_delete_files
                } else {
                    Seq::empty()
                })
                &&& if targets.len() == 0 {
                    &&& files_with(plan.summary.changes, ChangeKind::Removed).len() == 0
                    &&& attempt.existing.is_prefix_of(plan.manifests)
                } else {
                    exists|found: Seq<FilterReply>| #[trigger] accounts_for(attempt, plan, found)
                }
            }
        }),
{
    let attempt = Attempt::of(
        producer,
        table,
        operation,
        targets,
        with_delete_files,
        cache,
        generated,
        replies,
    );
    let (step, after) = attempted(
        begun(producer, table, operation, targets, with_delete_files, cache, generated),
        replies,
    );
    law_attempts_are_sound(
        producer,
        table,
        operation,
        targets,
        with_delete_files,
        cache,
        generated,
        replies,
    );
    if let CommitStepView::Done(plan) = step {
        let (outcome, data, deletes) = choose|
            outcome: OutcomeView,
            data: Seq<ManifestFile>,
            deletes: Seq<ManifestFile>,
        | #[trigger]
            planned_from(attempt, plan, after, outcome, data, deletes);
        let removal = attempt.removal();
        assert(plan.manifests =~= outcome.manifests + (data + deletes));
        if targets.len() == 0 && removal.start() == FilterStepView::Done(outcome) {
            lemma_nothing_removed(producer, table, operation, with_delete_files, outcome.removed);
        } else {
            let found = choose|found: Seq<FilterReply>|
                {
                    &&& proper(removal, found)
                    &&& found.len() == removal.manifests.len()
                    &&& reads_of(found) == attempt.reads
                    &&& #[trigger] removal.end(found) == FilterStepView::Done(outcome)
                };
            law_removal_balances(removal, found);
            law_completed_removal_found_every_target(removal, found);
            law_summary_reports_every_file(
                producer,
                table,
                outcome.removed,
                operation,
                with_delete_files,
            );
            if targets.len() == 0 {
                law_untouched_manifests_stay(removal, found);
                lemma_nothing_removed(
                    producer,
                    table,
                    operation,
                    with_delete_files,
                    outcome.removed,
                );
            } else {
                assert(accounts_for(attempt, plan, found));
            }
        }
    }
}

/// The manifest list that an attempt has loaded.
pub open spec fn loaded_list(
    start: (CommitStepView, CacheView),
    replies: Seq<StorageReply>,
) -> Seq<ManifestFile>
    decreases replies.len(),
{
    if replies.len() == 0 {
        Seq::empty()
    } else {
        match (attempted(start, replies.drop_last()).0, replies.last()) {
            (CommitStepView::Load { .. }, StorageReply::Listed(list)) => list,
            _ => loaded_list(start, replies.drop_last()),
        }
    }
}

proof fn lemma_existing_of_loaded(start: (CommitStepView, CacheView), replies: Seq<StorageReply>)
    ensures
        existing_manifests(start, replies) == with_files(loaded_list(start, replies)),
    decreases replies.len(),
{
    if replies.len() == 0 {
        lemma_filter_empty(|m: ManifestFile| m.lists_files());
    } else {
        lemma_existing_of_loaded(start, replies.drop_last());
    }
}

/// No manifest of the loaded list is lost. Every manifest of the list that may list files, in
/// whatever state, is in the plan, if there is nothing to remove or if it lists delete files; and
/// if there is something to remove, each of the data manifests among them was read.
pub proof fn law_no_manifest_of_the_list_is_lost(
    producer: ProducerView,
    table: Table,
    operation: Operation,
    targets: Seq<Seq<char>>,
    with_delete_files: bool,
    cache: CacheView,
    generated: i64,
    replies: Seq<StorageReply>,
    manifest: ManifestFile,
)
    ensures
        ({
            let start = begun(
                producer,
                table,
                operation,
                targets,
                with_delete_files,
                cache,
                generated,
            );
            let attempt = Attempt::of(
                producer,
                table,
                operation,
                targets,
                with_delete_files,
                cache,
                generated,
                replies,
            );
            let list = loaded_list(start, replies);
            attempted(start, replies).0 matches CommitStepView::Done(plan) ==> {
                &&& attempt.existing.contains(manifest) <==> list.contains(manifest)
                    && may_list_files(manifest)
                &&& list.contains(manifest) && may_list_files(manifest) && (targets.len() == 0
                    || manifest.content == ManifestContentType::Deletes)
                    ==> plan.manifests.contains(manifest)
                &&& targets.len() > 0 ==> exists|found: Seq<FilterReply>|
                    #[trigger] accounts_for(attempt, plan, found) && forall|i: int|
                        0 <= i < found.len() && attempt.existing[i].content
                            == ManifestContentType::Data ==> !(#[trigger] found[i] is Unread)
            }
        }),
{
    let start = begun(producer, table, operation, targets, with_delete_files, cache, generated);
    let attempt = Attempt::of(
        producer,
        table,
        operation,
        targets,
        with_delete_files,
        cache,
        generated,
        replies,
    );
    let list = loaded_list(start, replies);
    lemma_existing_of_loaded(start, replies);
    law_manifests_with_files_are_carried_over(list, Seq::empty(), manifest);
    law_plan_accounts_for_every_file(
        producer,
        table,
        operation,
        targets,
        with_delete_files,
        cache,
        generated,
        replies,
    );
    if let CommitStepView::Done(plan) = attempted(start, replies).0 {
        let removal = attempt.removal();
        if targets.len() == 0 {
            if attempt.existing.contains(manifest) {
                let i = choose|i: int|
                    0 <= i < attempt.existing.len() && attempt.existing[i] == manifest;
                assert(plan.manifests[i] == manifest);
            }
        } else {
            let found = choose|found: Seq<FilterReply>| #[trigger]
                accounts_for(attempt, plan, found);
            law_untouched_manifests_stay(removal, found);
            let kept = removal.kept(found);
            if attempt.existing.contains(manifest) && manifest.content
                == ManifestContentType::Deletes {
                let i = choose|i: int|
                    0 <= i < attempt.existing.len() && attempt.existing[i] == manifest;
                assert(removal.manifests[i] == manifest);
                assert(kept.contains(manifest));
                let k = choose|k: int| 0 <= k < kept.len() && kept[k] == manifest;
                assert(plan.manifests[k] == manifest);
            }
            assert forall|i: int|
                0 <= i < found.len() && attempt.existing[i].content
                    == ManifestContentType::Data implies !(#[trigger] found[i] is Unread) by {
                assert(proper_reply(removal.targets, removal.manifests[i], found[i]));
            }
        }
    }
}

pub(crate) proof fn lemma_before_is_read(replies: Seq<FilterReply>)
    ensures
        files_before(replies) == candidates(reads_of(replies)),
    decreases replies.len(),
{
    if replies.len() > 0 {
        let before = replies.drop_last();
        lemma_before_is_read(before);
        law_live_files_are_added_or_existing(
            replies.last().entries(),
            Seq::empty(),
            arbitrary(),
            reads_of(before),
        );
        if replies.last() is Unread {
            lemma_filter_empty(|e: ManifestEntry| e.alive());
            assert(files_before(replies) =~= files_before(before));
        }
    }
}

/// The files that stay after a planned removal are exactly the live files of the manifests that were
/// read whose paths are not among the targets; those that the summary reports as removed are
/// exactly the others.
pub proof fn law_plans_leave_exactly_what_is_not_targeted(
    attempt: Attempt,
    plan: PlanView,
    found: Seq<FilterReply>,
    file: DataFile,
)
    requires
        accounts_for(attempt, plan, found),
    ensures
        files_after(attempt.removal(), found).contains(file) <==> candidates(
            attempt.reads,
        ).contains(file) && !attempt.targets.contains(file.file_path@),
        files_with(plan.summary.changes, ChangeKind::Removed).contains(file) <==> candidates(
            attempt.reads,
        ).contains(file) && attempt.targets.contains(file.file_path@),
{
    broadcast use vstd::seq_lib::group_to_multiset_ensures;

    let removal = attempt.removal();
    let before = files_before(found);
    let after = files_after(removal, found);
    let changes = removal.removed(found);
    let removed = files_with(plan.summary.changes, ChangeKind::Removed);
    law_targets_are_gone(removal, found);
    lemma_before_is_read(found);
    assert(before.to_multiset().count(file) == after.to_multiset().count(file)
        + removed.to_multiset().count(file));
    if after.contains(file) {
        let i = choose|i: int| 0 <= i < after.len() && after[i] == file;
        assert(!removal.targets.contains(after[i].file_path@));
    }
    if removed.contains(file) {
        let i = choose|i: int| 0 <= i < removed.len() && removed[i] == file;
        let pred = |c: SummaryChange| c.kind == ChangeKind::Removed;
        lemma_filtered(changes, pred, i);
        let k = choose|k: int| 0 <= k < changes.len() && changes[k] == changes.filter(pred)[i];
        assert(removal.targets.contains(changes[k].file.file_path@));
    }
}

proof fn lemma_nothing_removed(
    producer: ProducerView,
    table: Table,
    operation: Operation,
    with_delete_files: bool,
    removed: Seq<SummaryChange>,
)
    requires
        removed.len() == 0,
    ensures
        ({
            let changes = summary_of(
                producer,
                table,
                removed,
                operation,
                with_delete_files,
            ).changes;
            &&& files_with(changes, ChangeKind::Removed).len() == 0
            &&& files_with(changes, ChangeKind::Added) == producer.added_data_files + (
            if with_delete_files {
                producer.added_delete_files
            } else {
                Seq::empty()
            })
        }),
{
    assert(removed =~= Seq::empty());
    lemma_filter_empty(|c: SummaryChange| c.kind == ChangeKind::Added);
    lemma_filter_empty(|c: SummaryChange| c.kind == ChangeKind::Removed);
    assert(files_with(removed, ChangeKind::Added) =~= Seq::<DataFile>::empty());
    law_summary_reports_every_file(producer, table, removed, operation, with_delete_files);
}

} // verus!
