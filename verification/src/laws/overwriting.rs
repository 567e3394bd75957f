//! What overwriting does to a table, from the request to the plan.

use vstd::prelude::*;

use crate::commit::{begun, CommitStepView};
use crate::error::ErrorKind;
use crate::filter::FilterReply;
use crate::laws::attempts::{
    accounts_for, attempted, law_attempts_are_sound, law_plan_accounts_for_every_file,
    law_plans_leave_exactly_what_is_not_targeted, lemma_before_is_read, Attempt, StorageReply,
};
use crate::laws::checks::law_targets_are_the_paths;
use crate::laws::matching::{
    all_match, evaluated_by, law_found_means_that_all_rows_match,
    law_searches_find_exactly_what_matches, match_resumed, reads_made, searched, MatchReply,
};
use crate::laws::removal::{files_after, files_with, law_targets_are_found_among_live_files};
use crate::matching::{candidates, match_start, MatchStepView, Stage};
use crate::merging::{unique_paths, CacheView};
use crate::overwrite::{OverwriteStepView, OverwriteView};
use crate::summary::ChangeKind;
use crate::types::{DataFile, Operation, Table};

verus! {

/// What a step of an overwrite is answered.
pub enum OverwriteReply {
    /// The row filter is bound.
    Bound,
    /// The answer to a step of the search.
    Search(MatchReply),
}

/// Where an overwrite stands after a step was answered. An answer to another question changes
/// nothing.
pub open spec fn overwrite_resumed<P>(
    step: OverwriteStepView<P>,
    reply: OverwriteReply,
) -> OverwriteStepView<P> {
    match (step, reply) {
        (OverwriteStepView::Bind { action, table }, OverwriteReply::Bound) => action.with_match(
            table,
            match_start(table),
        ),
        (
            OverwriteStepView::Search { action, table, search },
            OverwriteReply::Search(answer),
        ) => action.with_match(table, match_resumed(search, answer)),
        _ => step,
    }
}

/// Where an overwrite stands after the given answers.
pub open spec fn overwritten<P>(
    start: OverwriteStepView<P>,
    replies: Seq<OverwriteReply>,
) -> OverwriteStepView<P>
    decreases replies.len(),
{
    if replies.len() == 0 {
        start
    } else {
        overwrite_resumed(overwritten(start, replies.drop_last()), replies.last())
    }
}

/// How the snapshot of an overwrite that is ready is produced: with the files that the search has
/// found as the files to remove or, without a search, with those that the request names.
pub open spec fn overwrite_begun<P>(
    ready: OverwriteStepView<P>,
    cache: CacheView,
    generated: i64,
) -> (CommitStepView, CacheView) {
    let producer = ready->Ready_action.producer;
    let by_filter = ready->Ready_delete_files is Some;
    let files = if by_filter {
        ready->Ready_delete_files->0
    } else {
        producer.deleted_data_files
    };
    begun(
        producer,
        ready->Ready_table,
        ready->Ready_operation,
        unique_paths(files),
        !by_filter,
        cache,
        generated,
    )
}

/// Whether the row filter of an overwrite has been bound.
pub open spec fn bound<P>(start: OverwriteStepView<P>, replies: Seq<OverwriteReply>) -> bool
    decreases replies.len(),
{
    replies.len() > 0 && (bound(start, replies.drop_last()) || (overwritten(
        start,
        replies.drop_last(),
    ) is Bind && replies.last() is Bound))
}

/// What the search of an overwrite has been answered.
pub open spec fn search_replies<P>(
    start: OverwriteStepView<P>,
    replies: Seq<OverwriteReply>,
) -> Seq<MatchReply>
    decreases replies.len(),
{
    if replies.len() == 0 {
        Seq::empty()
    } else {
        let before = search_replies(start, replies.drop_last());
        match (overwritten(start, replies.drop_last()), replies.last()) {
            (OverwriteStepView::Search { .. }, OverwriteReply::Search(answer)) => before.push(
                answer,
            ),
            _ => before,
        }
    }
}

/// Whether an operation is the one to report, by whether files are added and removed.
pub open spec fn reported_as(operation: Operation, adds: bool, removes: bool) -> bool {
    &&& operation == Operation::Append <==> adds && !removes
    &&& operation == Operation::Delete <==> !adds && removes
    &&& operation == Operation::Overwrite <==> adds == removes
}

/// Whether an overwrite by row filter, whose search has come to the given step, stands at the given
/// step: it hands over exactly the files that the search has found, whether or not it adds any;
/// it fails if the search fails; and else it goes on searching.
pub open spec fn follows_search<P>(
    action: OverwriteView<P>,
    table: Table,
    search: MatchStepView,
    step: OverwriteStepView<P>,
) -> bool {
    match search {
        MatchStepView::Matched(files) => {
            &&& step is Ready
            &&& step->Ready_action == action
            &&& step->Ready_table == table
            &&& step->Ready_delete_files == Some(files)
            &&& reported_as(
                step->Ready_operation,
                action.producer.added_data_files.len() > 0,
                files.len() > 0,
            )
        },
        MatchStepView::Failed(error) => step == OverwriteStepView::<P>::Failed(error),
        _ => step == (OverwriteStepView::Search { action, table, search }),
    }
}

/// An overwrite by row filter binds the filter, searches the current snapshot of the table anew,
/// and removes exactly the files that the search finds, whatever it adds.
pub proof fn law_row_filters_remove_what_the_search_finds<P>(
    action: OverwriteView<P>,
    table: Table,
    replies: Seq<OverwriteReply>,
)
    requires
        action.row_filter is Some,
        action.producer.deleted_data_files.len() == 0,
    ensures
        ({
            let start = action.start(table);
            let step = overwritten(start, replies);
            let answers = search_replies(start, replies);
            if bound(start, replies) {
                follows_search(action, table, searched(match_start(table), answers), step)
            } else {
                step == (OverwriteStepView::Bind { action, table }) && answers.len() == 0
            }
        }),
    decreases replies.len(),
{
    if replies.len() > 0 {
        let start = action.start(table);
        let before = replies.drop_last();
        law_row_filters_remove_what_the_search_finds(action, table, before);
        let answers = search_replies(start, before);
        if bound(start, before) {
            match (overwritten(start, before), replies.last()) {
                (OverwriteStepView::Search { .. }, OverwriteReply::Search(answer)) => {
                    assert(answers.push(answer).drop_last() =~= answers);
                },
                _ => {},
            }
        } else {
            assert(answers =~= Seq::empty());
        }
    }
}

/// An overwrite without a row filter removes the files that it was given, which the attempt takes
/// from the producer. It is refused if it neither adds nor removes a file; one with a row filter is
/// refused if it was given files to remove.
pub proof fn law_requests_are_refused_or_carried_out<P>(action: OverwriteView<P>, table: Table)
    ensures
        ({
            let adds = action.producer.added_data_files.len() > 0;
            let removes = action.producer.deleted_data_files.len() > 0;
            let step = action.start(table);
            if action.row_filter is Some {
                if removes {
                    &&& step is Failed
                    &&& step->Failed_0.kind == ErrorKind::DataInvalid
                    &&& step->Failed_0.message
                        == "Cannot use both overwrite_by_row_filter and delete_file in the same action"@
                } else {
                    step == (OverwriteStepView::Bind { action, table })
                }
            } else if !adds && !removes {
                &&& step is Failed
                &&& step->Failed_0.kind == ErrorKind::DataInvalid
                &&& step->Failed_0.message
                    == "Overwrite requires a row filter, or at least one file to add or delete"@
            } else {
                &&& step is Ready
                &&& step->Ready_action == action
                &&& step->Ready_table == table
                &&& step->Ready_delete_files is None
                &&& reported_as(step->Ready_operation, adds, removes)
            }
        }),
{
}

/// An overwrite by row filter, from the request to the plan. If the search is answered by an
/// evaluation, and the attempt reads no live files but those that the search has seen, then of the
/// files that the attempt has read those stay that do not share the path of a file of which all
/// rows match, and the others are reported as removed. So no file stays of which all rows match; in
/// particular none stays if all rows of all files match.
pub proof fn law_no_matching_file_stays<P>(
    action: OverwriteView<P>,
    table: Table,
    replies: Seq<OverwriteReply>,
    holds: spec_fn(DataFile, Stage) -> bool,
    cache: CacheView,
    generated: i64,
    storage: Seq<StorageReply>,
    file: DataFile,
)
    requires
        action.row_filter is Some,
        action.producer.deleted_data_files.len() == 0,
        overwritten(action.start(table), replies) is Ready,
        evaluated_by(match_start(table), search_replies(action.start(table), replies), holds),
    ensures
        ({
            let start = action.start(table);
            let ready = overwritten(start, replies);
            let files = ready->Ready_delete_files->0;
            let targets = unique_paths(files);
            let seen = candidates(
                reads_made(match_start(table), search_replies(start, replies)),
            );
            let attempt = Attempt::of(
                action.producer,
                table,
                ready->Ready_operation,
                targets,
                false,
                cache,
                generated,
                storage,
            );
            let step = attempted(overwrite_begun(ready, cache, generated), storage).0;
            &&& ready->Ready_delete_files is Some
            &&& files.contains(file) <==> seen.contains(file) && all_match(holds, file)
            &&& files.len() > 0 && action.producer.added_data_files.len() == 0
                ==> ready->Ready_operation == Operation::Delete
            &&& step is Done && files.len() > 0 && (candidates(attempt.reads).contains(file)
                ==> seen.contains(file)) ==> exists|found: Seq<FilterReply>|
                {
                    let left = files_after(attempt.removal(), found);
                    let removed = files_with(step->Done_0.summary.changes, ChangeKind::Removed);
                    &&& #[trigger] accounts_for(attempt, step->Done_0, found)
                    &&& step->Done_0.summary.operation == ready->Ready_operation
                    &&& all_match(holds, file) ==> !left.contains(file)
                    &&& candidates(attempt.reads).contains(file) && all_match(holds, file)
                        ==> removed.contains(file)
                    &&& candidates(attempt.reads).contains(file) && (forall|other: DataFile|
                        #[trigger] seen.contains(other) && all_match(holds, other)
                            ==> other.file_path@ != file.file_path@) ==> left.contains(file)
                        && !removed.contains(file)
                }
        }),
{
    let start = action.start(table);
    let ready = overwritten(start, replies);
    let answers = search_replies(start, replies);
    let seen = candidates(reads_made(match_start(table), answers));
    law_row_filters_remove_what_the_search_finds(action, table, replies);
    law_searches_find_exactly_what_matches(table, answers, holds);
    let files = ready->Ready_delete_files->0;
    let targets = unique_paths(files);
    law_found_means_that_all_rows_match(holds, seen, files, file);
    let attempt = Attempt::of(
        action.producer,
        table,
        ready->Ready_operation,
        targets,
        false,
        cache,
        generated,
        storage,
    );
    let step = attempted(
        begun(
            action.producer,
            table,
            ready->Ready_operation,
            targets,
            false,
            cache,
            generated,
        ),
        storage,
    ).0;
    if step is Done && files.len() > 0 && (candidates(attempt.reads).contains(file)
        ==> seen.contains(file)) {
        let plan = step->Done_0;
        law_targets_are_the_paths(files, files[0].file_path@);
        assert(targets.len() > 0);
        law_plan_accounts_for_every_file(
            action.producer,
            table,
            ready->Ready_operation,
            targets,
            false,
            cache,
            generated,
            storage,
        );
        law_attempts_are_sound(
            action.producer,
            table,
            ready->Ready_operation,
            targets,
            false,
            cache,
            generated,
            storage,
        );
        let found = choose|found: Seq<FilterReply>| #[trigger] accounts_for(attempt, plan, found);
        law_plans_leave_exactly_what_is_not_targeted(attempt, plan, found, file);
        law_targets_are_the_paths(files, file.file_path@);
        if all_match(holds, file) && seen.contains(file) {
            let i = choose|i: int| 0 <= i < files.len() && files[i] == file;
            assert(files[i].file_path@ == file.file_path@);
        }
        if (forall|other: DataFile| #[trigger] seen.contains(other) && all_match(holds, other)
            ==> other.file_path@ != file.file_path@) && targets.contains(file.file_path@) {
            let i = choose|i: int|
                0 <= i < files.len() && #[trigger] files[i].file_path@ == file.file_path@;
            law_found_means_that_all_rows_match(holds, seen, files, files[i]);
            assert(files.contains(files[i]));
            assert(seen.contains(files[i]));
        }
    }
}

/// An overwrite of named files, from the request to the plan: every named path was that of a live
/// file that the attempt has read; exactly the live files with a named path are reported as
/// removed; and exactly the others stay.
pub proof fn law_named_files_are_removed<P>(
    action: OverwriteView<P>,
    table: Table,
    cache: CacheView,
    generated: i64,
    storage: Seq<StorageReply>,
    file: DataFile,
    n: int,
)
    requires
        action.row_filter is None,
        0 <= n < action.producer.deleted_data_files.len(),
    ensures
        ({
            let named = action.producer.deleted_data_files;
            let ready = action.start(table);
            let attempt = Attempt::of(
                action.producer,
                table,
                ready->Ready_operation,
                unique_paths(named),
                true,
                cache,
                generated,
                storage,
            );
            let step = attempted(overwrite_begun(ready, cache, generated), storage).0;
            let is_named = exists|i: int|
                0 <= i < named.len() && #[trigger] named[i].file_path@ == file.file_path@;
            step is Done ==> exists|found: Seq<FilterReply>|
                {
                    let left = files_after(attempt.removal(), found);
                    let removed = files_with(step->Done_0.summary.changes, ChangeKind::Removed);
                    let read = candidates(attempt.reads);
                    &&& #[trigger] accounts_for(attempt, step->Done_0, found)
                    &&& step->Done_0.summary.operation == ready->Ready_operation
                    &&& left.contains(file) <==> read.contains(file) && !is_named
                    &&& removed.contains(file) <==> read.contains(file) && is_named
                    &&& exists|k: int|
                        0 <= k < read.len() && #[trigger] read[k].file_path@ == named[n].file_path@
                }
        }),
{
    let named = action.producer.deleted_data_files;
    let ready = action.start(table);
    let targets = unique_paths(named);
    let attempt = Attempt::of(
        action.producer,
        table,
        ready->Ready_operation,
        targets,
        true,
        cache,
        generated,
        storage,
    );
    let step = attempted(overwrite_begun(ready, cache, generated), storage).0;
    law_requests_are_refused_or_carried_out(action, table);
    if step is Done {
        let plan = step->Done_0;
        law_targets_are_the_paths(named, named[n].file_path@);
        assert(targets.contains(named[n].file_path@));
        assert(targets.len() > 0);
        law_plan_accounts_for_every_file(
            action.producer,
            table,
            ready->Ready_operation,
            targets,
            true,
            cache,
            generated,
            storage,
        );
        law_attempts_are_sound(
            action.producer,
            table,
            ready->Ready_operation,
            targets,
            true,
            cache,
            generated,
            storage,
        );
        let found = choose|found: Seq<FilterReply>| #[trigger] accounts_for(attempt, plan, found);
        law_plans_leave_exactly_what_is_not_targeted(attempt, plan, found, file);
        law_targets_are_the_paths(named, file.file_path@);
        law_targets_are_found_among_live_files(attempt.removal(), found, named[n].file_path@);
        lemma_before_is_read(found);
    }
}

} // verus!
