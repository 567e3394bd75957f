//! That both ways of naming the files to remove come to the same.

use vstd::prelude::*;

use crate::commit::{begun, CommitStepView, CommitTask};
use crate::filter::{targeted, FilterReply, FilterStepView, FilterTask};
use crate::laws::attempts::{
    accounts_for, attempted, entries_read, existing_manifests, law_attempts_are_sound,
    law_plan_accounts_for_every_file, resumed, Attempt, StorageReply,
};
use crate::laws::removal::{files_after, lemma_proper_prefix, proper, proper_reply, reads_of};
use crate::merging::{unique_paths, CacheView, ProducerView};
use crate::seqs::lemma_filter_same;
use crate::summary::SummaryChange;
use crate::types::{DataFile, ManifestFile, Operation, Table};
use crate::writer::WriterView;

verus! {

/// Whether two answers of the storage are alike: the same lists and entries were read. What was
/// written, and under which names, may differ.
pub open spec fn same_answer(a: StorageReply, b: StorageReply) -> bool {
    match (a, b) {
        (StorageReply::Listed(list), StorageReply::Listed(other)) => list == other,
        (StorageReply::CleanedUp, StorageReply::CleanedUp) => true,
        (StorageReply::Entries(entries, _), StorageReply::Entries(other, _)) => entries == other,
        (StorageReply::Written(_), StorageReply::Written(_)) => true,
        _ => false,
    }
}

/// Whether two sequences of answers are alike.
pub open spec fn same_answers(a: Seq<StorageReply>, b: Seq<StorageReply>) -> bool {
    &&& a.len() == b.len()
    &&& forall|i: int| 0 <= i < a.len() ==> #[trigger] same_answer(a[i], b[i])
}

/// Whether two tasks differ at most in how the removed files and the commit are named: they add
/// the same data files and no delete files.
pub open spec fn same_task(a: CommitTask, b: CommitTask) -> bool {
    &&& a.table == b.table
    &&& a.operation == b.operation
    &&& a.snapshot_id == b.snapshot_id
    &&& a.cached == b.cached
    &&& a.producer.added_data_files == b.producer.added_data_files
    &&& a.producer.added_delete_files.len() == 0
    &&& b.producer.added_delete_files.len() == 0
}

/// Whether the same became of a manifest, up to what was written in its place.
pub open spec fn same_fate(a: FilterReply, b: FilterReply) -> bool {
    match (a, b) {
        (FilterReply::Unread, FilterReply::Unread) => true,
        (FilterReply::Read(entries), FilterReply::Read(other)) => entries == other,
        (FilterReply::Rewritten(entries, _), FilterReply::Rewritten(other, _)) => entries == other,
        _ => false,
    }
}

/// Whether the same became of all manifests, up to what was written in their place.
pub open spec fn same_fates(a: Seq<FilterReply>, b: Seq<FilterReply>) -> bool {
    &&& a.len() == b.len()
    &&& forall|i: int| 0 <= i < a.len() ==> #[trigger] same_fate(a[i], b[i])
}

/// Whether two manifests to write differ at most in their names.
pub open spec fn same_content(a: WriterView, b: WriterView) -> bool {
    a == (WriterView { output_file: a.output_file, ..b })
}

/// Whether two removals of the same targets stand at the same point. If the answers of the storage
/// were not only alike but equal, the manifests that they leave are equal.
pub open spec fn same_removal_step(a: FilterStepView, b: FilterStepView, equal: bool) -> bool {
    match (a, b) {
        (
            FilterStepView::Read { task, replies },
            FilterStepView::Read { task: other, replies: others },
        ) => {
            &&& task == other
            &&& same_fates(replies, others)
            &&& equal ==> replies == others
        },
        (
            FilterStepView::Write { task, replies, entries, writer },
            FilterStepView::Write {
                task: other,
                replies: others,
                entries: other_entries,
                writer: other_writer,
            },
        ) => {
            &&& task == other
            &&& same_fates(replies, others)
            &&& equal ==> replies == others
            &&& entries == other_entries
            &&& same_content(writer, other_writer)
        },
        (FilterStepView::Done(outcome), FilterStepView::Done(other)) => {
            &&& outcome.removed == other.removed
            &&& equal ==> outcome == other
        },
        (FilterStepView::Failed(error), FilterStepView::Failed(other)) => error == other,
        _ => false,
    }
}

/// Whether two attempts stand at the same point. Plans have the same snapshot id and the same
/// summary, failures are equal, and manifests to write have the same content. If the answers of
/// the storage were not only alike but equal, plans have the same manifests.
pub open spec fn same_step(a: CommitStepView, b: CommitStepView, equal: bool) -> bool {
    match (a, b) {
        (
            CommitStepView::Load { task, targets },
            CommitStepView::Load { task: other, targets: other_targets },
        ) => same_task(task, other) && targets == other_targets,
        (
            CommitStepView::CleanUp { task, targets, manifests, paths },
            CommitStepView::CleanUp {
                task: other,
                targets: other_targets,
                manifests: other_manifests,
                paths: other_paths,
            },
        ) => {
            &&& same_task(task, other)
            &&& targets == other_targets
            &&& manifests == other_manifests
            &&& paths == other_paths
        },
        (
            CommitStepView::Read { task, filter, replies },
            CommitStepView::Read { task: other, filter: other_filter, replies: others },
        ) => {
            &&& same_task(task, other)
            &&& same_removal_step(
                FilterStepView::Read { task: filter, replies },
                FilterStepView::Read { task: other_filter, replies: others },
                equal,
            )
        },
        (
            CommitStepView::Rewrite { task, filter, replies, entries, writer },
            CommitStepView::Rewrite {
                task: other,
                filter: other_filter,
                replies: others,
                entries: other_entries,
                writer: other_writer,
            },
        ) => {
            &&& same_task(task, other)
            &&& same_removal_step(
                FilterStepView::Write { task: filter, replies, entries, writer },
                FilterStepView::Write {
                    task: other_filter,
                    replies: others,
                    entries: other_entries,
                    writer: other_writer,
                },
                equal,
            )
        },
        (
            CommitStepView::WriteData { task, manifests, removed, writer },
            CommitStepView::WriteData {
                task: other,
                manifests: other_manifests,
                removed: other_removed,
                writer: other_writer,
            },
        ) => {
            &&& same_task(task, other)
            &&& equal ==> manifests == other_manifests
            &&& removed == other_removed
            &&& same_content(writer, other_writer)
        },
        (CommitStepView::Done(plan), CommitStepView::Done(other)) => {
            &&& plan.snapshot_id == other.snapshot_id
            &&& plan.summary == other.summary
            &&& equal ==> plan.manifests == other.manifests
        },
        (CommitStepView::Failed(error), CommitStepView::Failed(other)) => error == other,
        _ => false,
    }
}

proof fn lemma_fates_push(
    a: Seq<FilterReply>,
    b: Seq<FilterReply>,
    reply: FilterReply,
    other: FilterReply,
)
    requires
        same_fates(a, b),
        same_fate(reply, other),
    ensures
        same_fates(a.push(reply), b.push(other)),
{
    let longer = a.push(reply);
    let others = b.push(other);
    assert forall|i: int| 0 <= i < longer.len() implies #[trigger] same_fate(
        longer[i],
        others[i],
    ) by {
        if i < a.len() {
            assert(same_fate(a[i], b[i]));
        }
    }
}

proof fn lemma_fates_prefix(a: Seq<FilterReply>, b: Seq<FilterReply>)
    requires
        same_fates(a, b),
        a.len() > 0,
    ensures
        same_fates(a.drop_last(), b.drop_last()),
        same_fate(a.last(), b.last()),
{
    assert(same_fate(a[a.len() - 1], b[b.len() - 1]));
    assert forall|i: int| 0 <= i < a.drop_last().len() implies #[trigger] same_fate(
        a.drop_last()[i],
        b.drop_last()[i],
    ) by {
        assert(same_fate(a[i], b[i]));
    }
}

proof fn lemma_same_settled(task: FilterTask, a: Seq<FilterReply>, b: Seq<FilterReply>)
    requires
        same_fates(a, b),
    ensures
        same_fates(task.settled(a), task.settled(b)),
    decreases task.manifests.len() - a.len(),
{
    if task.settled(a) != a || task.settled(b) != b {
        lemma_fates_push(a, b, FilterReply::Unread, FilterReply::Unread);
        lemma_same_settled(task, a.push(FilterReply::Unread), b.push(FilterReply::Unread));
    }
}

proof fn lemma_same_found(
    task: FilterTask,
    a: Seq<FilterReply>,
    b: Seq<FilterReply>,
    path: Seq<char>,
)
    requires
        same_fates(a, b),
        task.found(a, path),
    ensures
        task.found(b, path),
{
    let (i, j) = choose|i: int, j: int|
        0 <= i < a.len() && 0 <= j < a[i].entries().len() && #[trigger] targeted(
            task.targets,
            a[i].entries()[j],
        ) && a[i].entries()[j].path() == path;
    assert(same_fate(a[i], b[i]));
    assert(targeted(task.targets, b[i].entries()[j]));
}

proof fn lemma_fates_symmetric(a: Seq<FilterReply>, b: Seq<FilterReply>)
    requires
        same_fates(a, b),
    ensures
        same_fates(b, a),
{
    assert forall|i: int| 0 <= i < b.len() implies #[trigger] same_fate(b[i], a[i]) by {
        assert(same_fate(a[i], b[i]));
    }
}

proof fn lemma_same_missing(task: FilterTask, a: Seq<FilterReply>, b: Seq<FilterReply>)
    requires
        same_fates(a, b),
    ensures
        task.missing(a) == task.missing(b),
{
    let absent = |path: Seq<char>| !task.found(a, path);
    let other = |path: Seq<char>| !task.found(b, path);
    lemma_fates_symmetric(a, b);
    assert forall|path: Seq<char>| #[trigger] absent(path) == other(path) by {
        if task.found(a, path) {
            lemma_same_found(task, a, b, path);
        }
        if task.found(b, path) {
            lemma_same_found(task, b, a, path);
        }
    }
    lemma_filter_same(task.targets, absent, other);
}

proof fn lemma_same_removed(task: FilterTask, a: Seq<FilterReply>, b: Seq<FilterReply>)
    requires
        same_fates(a, b),
    ensures
        task.removed(a) == task.removed(b),
        files_after(task, a) == files_after(task, b),
    decreases a.len(),
{
    if a.len() > 0 {
        lemma_fates_prefix(a, b);
        lemma_same_removed(task, a.drop_last(), b.drop_last());
    }
}

proof fn lemma_same_next(task: FilterTask, a: Seq<FilterReply>, b: Seq<FilterReply>, equal: bool)
    requires
        same_fates(a, b),
        equal ==> a == b,
    ensures
        same_removal_step(task.next(a), task.next(b), equal),
{
    lemma_same_settled(task, a, b);
    let settled = task.settled(a);
    let others = task.settled(b);
    lemma_same_missing(task, settled, others);
    lemma_same_removed(task, settled, others);
}

proof fn lemma_same_with_data(
    a: CommitTask,
    b: CommitTask,
    manifests: Seq<ManifestFile>,
    other_manifests: Seq<ManifestFile>,
    removed: Seq<SummaryChange>,
    cache: CacheView,
    other_cache: CacheView,
    equal: bool,
)
    requires
        same_task(a, b),
        equal ==> manifests == other_manifests,
    ensures
        same_step(
            a.with_data(manifests, removed, cache).0,
            b.with_data(other_manifests, removed, other_cache).0,
            equal,
        ),
{
    assert(a.producer.added_delete_files =~= Seq::empty());
    assert(b.producer.added_delete_files =~= Seq::empty());
}

proof fn lemma_same_with_filter(
    a: CommitTask,
    b: CommitTask,
    step: FilterStepView,
    other: FilterStepView,
    cache: CacheView,
    other_cache: CacheView,
    equal: bool,
)
    requires
        same_task(a, b),
        same_removal_step(step, other, equal),
    ensures
        same_step(
            a.with_filter(step, cache).0,
            b.with_filter(other, other_cache).0,
            equal,
        ),
{
    match (step, other) {
        (FilterStepView::Done(outcome), FilterStepView::Done(others)) => {
            let noted = CacheView { stale_paths: outcome.written_paths, ..cache };
            let other_noted = CacheView { stale_paths: others.written_paths, ..other_cache };
            let added = match a.cached {
                Some(cached) => cached,
                None => Seq::empty(),
            };
            lemma_same_with_data(
                a,
                b,
                outcome.manifests,
                others.manifests,
                outcome.removed,
                noted,
                other_noted,
                equal,
            );
            lemma_same_with_data(
                a,
                b,
                outcome.manifests + added,
                others.manifests + added,
                outcome.removed,
                noted,
                other_noted,
                equal,
            );
        },
        _ => {},
    }
}

proof fn lemma_same_resumed(
    step: CommitStepView,
    other: CommitStepView,
    reply: StorageReply,
    other_reply: StorageReply,
    cache: CacheView,
    other_cache: CacheView,
    before: bool,
    equal: bool,
)
    requires
        same_step(step, other, before),
        same_answer(reply, other_reply),
        cache.stale_paths == other_cache.stale_paths || !(step is Load),
        equal ==> before && reply == other_reply,
    ensures
        same_step(
            resumed(step, reply, cache).0,
            resumed(other, other_reply, other_cache).0,
            equal,
        ),
{
    match (step, reply) {
        (CommitStepView::CleanUp { task, targets, manifests, .. }, StorageReply::CleanedUp) => {
            let removal = task.removal(targets, manifests);
            lemma_same_next(removal, Seq::empty(), Seq::empty(), true);
            lemma_same_with_filter(
                task,
                other->CleanUp_task,
                removal.start(),
                removal.start(),
                cache,
                other_cache,
                equal,
            );
        },
        (
            CommitStepView::Read { task, filter, replies },
            StorageReply::Entries(entries, uuid),
        ) => {
            let others = other->Read_replies;
            let other_uuid = other_reply->Entries_1;
            let read = FilterReply::Read(entries);
            lemma_fates_push(replies, others, read, read);
            lemma_same_next(filter, replies.push(read), others.push(read), equal);
            lemma_same_with_filter(
                task,
                other->Read_task,
                filter.after_read(replies, entries, uuid),
                filter.after_read(others, entries, other_uuid),
                cache,
                other_cache,
                equal,
            );
        },
        (
            CommitStepView::Rewrite { task, filter, replies, entries, .. },
            StorageReply::Written(written),
        ) => {
            let others = other->Rewrite_replies;
            let other_written = other_reply->Written_0;
            let reply = FilterReply::Rewritten(entries, written);
            let other_fate = FilterReply::Rewritten(entries, other_written);
            lemma_fates_push(replies, others, reply, other_fate);
            lemma_same_next(filter, replies.push(reply), others.push(other_fate), equal);
            lemma_same_with_filter(
                task,
                other->Rewrite_task,
                filter.after_write(replies, entries, written),
                filter.after_write(others, entries, other_written),
                cache,
                other_cache,
                equal,
            );
        },
        (
            CommitStepView::WriteData { task, manifests, removed, .. },
            StorageReply::Written(written),
        ) => {
            let other_written = other_reply->Written_0;
            lemma_same_with_data(
                task,
                other->WriteData_task,
                manifests.push(written),
                other->WriteData_manifests.push(other_written),
                removed,
                CacheView { data_manifests: Some(seq![written]), ..cache },
                CacheView { data_manifests: Some(seq![other_written]), ..other_cache },
                equal,
            );
        },
        _ => {},
    }
}

/// Removing files that were registered with the producer, and removing the same files as dynamic
/// deletes, come to the same, where no delete files are added: at any point, if the storage was
/// read alike, both attempts have loaded the same manifests, have read the same entries and stand
/// at the same step. So both have the same plan but for the names of what was written, or have
/// failed with the same error; and if the storage has answered the same, the manifests of their
/// plans are equal.
pub proof fn law_registered_and_dynamic_removals_agree(
    registered: ProducerView,
    dynamic: ProducerView,
    files: Seq<DataFile>,
    table: Table,
    operation: Operation,
    cache: CacheView,
    generated: i64,
    replies: Seq<StorageReply>,
    other_replies: Seq<StorageReply>,
)
    requires
        registered.deleted_data_files == files,
        registered.added_data_files == dynamic.added_data_files,
        registered.added_delete_files.len() == 0,
        dynamic.added_delete_files.len() == 0,
        same_answers(replies, other_replies),
    ensures
        ({
            let start = begun(
                registered,
                table,
                operation,
                unique_paths(registered.deleted_data_files),
                true,
                cache,
                generated,
            );
            let other_start = begun(
                dynamic,
                table,
                operation,
                unique_paths(files),
                false,
                cache,
                generated,
            );
            let step = attempted(start, replies).0;
            let other_step = attempted(other_start, other_replies).0;
            &&& existing_manifests(start, replies) == existing_manifests(
                other_start,
                other_replies,
            )
            &&& entries_read(start, replies) == entries_read(other_start, other_replies)
            &&& same_step(step, other_step, replies == other_replies)
        }),
    decreases replies.len(),
{
    let start = begun(
        registered,
        table,
        operation,
        unique_paths(registered.deleted_data_files),
        true,
        cache,
        generated,
    );
    let other_start = begun(
        dynamic,
        table,
        operation,
        unique_paths(files),
        false,
        cache,
        generated,
    );
    if replies.len() > 0 {
        let before = replies.drop_last();
        let other_before = other_replies.drop_last();
        assert forall|i: int| 0 <= i < before.len() implies #[trigger] same_answer(
            before[i],
            other_before[i],
        ) by {
            assert(same_answer(replies[i], other_replies[i]));
        }
        assert(same_answer(replies[replies.len() - 1], other_replies[replies.len() - 1]));
        law_registered_and_dynamic_removals_agree(
            registered,
            dynamic,
            files,
            table,
            operation,
            cache,
            generated,
            before,
            other_before,
        );
        let (step, held) = attempted(start, before);
        let (other_step, other_held) = attempted(other_start, other_before);
        law_attempts_are_sound(
            registered,
            table,
            operation,
            unique_paths(files),
            true,
            cache,
            generated,
            before,
        );
        law_attempts_are_sound(
            dynamic,
            table,
            operation,
            unique_paths(files),
            false,
            cache,
            generated,
            other_before,
        );
        lemma_same_resumed(
            step,
            other_step,
            replies.last(),
            other_replies.last(),
            held,
            other_held,
            before == other_before,
            replies == other_replies,
        );
    }
}

/// What a removal leaves does not depend on the names of what was written: two removals of the
/// same targets from the same manifests that have read the same entries leave the same files, in
/// the same order, and report the same removals.
pub proof fn law_same_reads_leave_the_same_files(
    task: FilterTask,
    replies: Seq<FilterReply>,
    others: Seq<FilterReply>,
)
    requires
        proper(task, replies),
        proper(task, others),
        replies.len() == others.len(),
        reads_of(replies) == reads_of(others),
    ensures
        same_fates(replies, others),
        files_after(task, replies) == files_after(task, others),
        task.removed(replies) == task.removed(others),
{
    lemma_same_reads_same_fates(task, replies, others);
    lemma_same_removed(task, replies, others);
}

/// What the agreement of registered and dynamic removals means for the table. Either way the
/// attempt ends with a plan, or either way it fails with the same error. Plans report the same
/// operation and the same changes, and leave the same live files.
pub proof fn law_agreeing_removals_leave_the_same_table(
    registered: ProducerView,
    dynamic: ProducerView,
    files: Seq<DataFile>,
    table: Table,
    operation: Operation,
    cache: CacheView,
    generated: i64,
    replies: Seq<StorageReply>,
    other_replies: Seq<StorageReply>,
)
    requires
        registered.deleted_data_files == files,
        registered.added_data_files == dynamic.added_data_files,
        registered.added_delete_files.len() == 0,
        dynamic.added_delete_files.len() == 0,
        same_answers(replies, other_replies),
    ensures
        ({
            let targets = unique_paths(files);
            let attempt = Attempt::of(
                registered,
                table,
                operation,
                targets,
                true,
                cache,
                generated,
                replies,
            );
            let other = Attempt::of(
                dynamic,
                table,
                operation,
                targets,
                false,
                cache,
                generated,
                other_replies,
            );
            let step = attempted(
                begun(registered, table, operation, targets, true, cache, generated),
                replies,
            ).0;
            let other_step = attempted(
                begun(dynamic, table, operation, targets, false, cache, generated),
                other_replies,
            ).0;
            &&& step is Failed <==> other_step is Failed
            &&& step is Failed ==> step->Failed_0 == other_step->Failed_0
            &&& step is Done <==> other_step is Done
            &&& step is Done ==> {
                let plan = step->Done_0;
                let other_plan = other_step->Done_0;
                &&& plan.snapshot_id == other_plan.snapshot_id
                &&& plan.summary == other_plan.summary
                &&& replies == other_replies ==> plan.manifests == other_plan.manifests
                &&& if targets.len() == 0 {
                    &&& attempt.existing == other.existing
                    &&& attempt.existing.is_prefix_of(plan.manifests)
                    &&& other.existing.is_prefix_of(other_plan.manifests)
                } else {
                    exists|found: Seq<FilterReply>, other_found: Seq<FilterReply>|
                        {
                            &&& #[trigger] accounts_for(attempt, plan, found)
                            &&& #[trigger] accounts_for(other, other_plan, other_found)
                            &&& files_after(attempt.removal(), found) == files_after(
                                other.removal(),
                                other_found,
                            )
                        }
                }
            }
        }),
{
    let targets = unique_paths(files);
    let attempt = Attempt::of(
        registered,
        table,
        operation,
        targets,
        true,
        cache,
        generated,
        replies,
    );
    let other = Attempt::of(
        dynamic,
        table,
        operation,
        targets,
        false,
        cache,
        generated,
        other_replies,
    );
    law_registered_and_dynamic_removals_agree(
        registered,
        dynamic,
        files,
        table,
        operation,
        cache,
        generated,
        replies,
        other_replies,
    );
    law_plan_accounts_for_every_file(
        registered,
        table,
        operation,
        targets,
        true,
        cache,
        generated,
        replies,
    );
    law_plan_accounts_for_every_file(
        dynamic,
        table,
        operation,
        targets,
        false,
        cache,
        generated,
        other_replies,
    );
    let step = attempted(
        begun(registered, table, operation, targets, true, cache, generated),
        replies,
    ).0;
    let other_step = attempted(
        begun(dynamic, table, operation, targets, false, cache, generated),
        other_replies,
    ).0;
    if step is Done && targets.len() > 0 {
        let plan = step->Done_0;
        let other_plan = other_step->Done_0;
        let found = choose|found: Seq<FilterReply>| #[trigger] accounts_for(attempt, plan, found);
        let other_found = choose|found: Seq<FilterReply>| #[trigger]
            accounts_for(other, other_plan, found);
        assert(attempt.removal() == other.removal());
        law_same_reads_leave_the_same_files(attempt.removal(), found, other_found);
    }
}

proof fn lemma_same_reads_same_fates(
    task: FilterTask,
    replies: Seq<FilterReply>,
    others: Seq<FilterReply>,
)
    requires
        proper(task, replies),
        proper(task, others),
        replies.len() == others.len(),
        reads_of(replies) == reads_of(others),
    ensures
        same_fates(replies, others),
    decreases replies.len(),
{
    if replies.len() > 0 {
        let n = replies.len() - 1;
        let before = replies.drop_last();
        let other_before = others.drop_last();
        assert(proper_reply(task.targets, task.manifests[n], replies[n]));
        assert(proper_reply(task.targets, task.manifests[n], others[n]));
        if !(replies[n] is Unread) {
            let reads = reads_of(before).push(replies[n].entries());
            let other_reads = reads_of(other_before).push(others[n].entries());
            assert(reads == other_reads);
            assert(reads.drop_last() =~= reads_of(before));
            assert(other_reads.drop_last() =~= reads_of(other_before));
            assert(reads.last() == other_reads.last());
        }
        lemma_proper_prefix(task, replies);
        lemma_proper_prefix(task, others);
        lemma_same_reads_same_fates(task, before, other_before);
        lemma_fates_push(before, other_before, replies[n], others[n]);
        assert(before.push(replies[n]) =~= replies);
        assert(other_before.push(others[n]) =~= others);
    }
}

} // verus!
