//! That every operation comes to an end, if its steps are answered.

use vstd::prelude::*;

use crate::commit::{begun, CommitStepView};
use crate::conflicts::{conflict_check, ConflictStepView};
use crate::existence::{existence_next, ExistenceStepView};
use crate::filter::{FilterReply, FilterTask};
use crate::laws::attempts::{attempted, law_attempts_are_sound, resumed, StorageReply};
use crate::laws::checks::{
    conflict_checked, conflict_resumed, law_passed_checks_have_no_conflict, ReadReply,
};
use crate::laws::matching::{law_searches_are_sound, match_resumed, searched, MatchReply};
use crate::matching::{match_start, MatchStepView, Stage};
use crate::merging::{CacheView, ProducerView};
use crate::types::{DataFile, ManifestEntry, ManifestFile, Operation, Table, TableMetadata};

verus! {

/// How far an operation is from its end.
pub struct Distance {
    /// The phases that are left.
    pub phases: int,
    /// The manifests or snapshots that are left in the phase.
    pub rounds: int,
    /// The files or manifests that are left in the round.
    pub turns: int,
    /// The steps that are left in the turn.
    pub steps: int,
}

/// Whether one distance is shorter than another.
pub open spec fn shorter(a: Distance, b: Distance) -> bool {
    &&& 0 <= a.phases && 0 <= a.rounds && 0 <= a.turns && 0 <= a.steps
    &&& a.phases < b.phases || (a.phases == b.phases && (a.rounds < b.rounds || (a.rounds
        == b.rounds && (a.turns < b.turns || (a.turns == b.turns && a.steps < b.steps)))))
}

/// The distance at the start of a phase, or at the end if none is left.
pub open spec fn phases_left(phases: int) -> Distance {
    Distance { phases, rounds: 0, turns: 0, steps: 0 }
}

/// Whether the storage was asked for the given reply.
pub open spec fn asked(step: CommitStepView, reply: StorageReply) -> bool {
    match step {
        CommitStepView::Load { .. } => reply is Listed,
        CommitStepView::CleanUp { .. } => reply is CleanedUp,
        CommitStepView::Read { .. } => reply is Entries,
        CommitStepView::Rewrite { .. } => reply is Written,
        CommitStepView::WriteData { .. } => reply is Written,
        CommitStepView::WriteDeletes { .. } => reply is Written,
        CommitStepView::Done(_) => false,
        CommitStepView::Failed(_) => false,
    }
}

/// How far an attempt is from its end.
pub open spec fn left_of_attempt(step: CommitStepView) -> Distance {
    match step {
        CommitStepView::Load { .. } => phases_left(5),
        CommitStepView::CleanUp { .. } => phases_left(4),
        CommitStepView::Read { filter, replies, .. } => Distance {
            phases: 3,
            rounds: filter.manifests.len() - replies.len(),
            turns: 0,
            steps: 1,
        },
        CommitStepView::Rewrite { filter, replies, .. } => Distance {
            phases: 3,
            rounds: filter.manifests.len() - replies.len(),
            turns: 0,
            steps: 0,
        },
        CommitStepView::WriteData { .. } => phases_left(2),
        CommitStepView::WriteDeletes { .. } => phases_left(1),
        CommitStepView::Done(_) => phases_left(0),
        CommitStepView::Failed(_) => phases_left(0),
    }
}

proof fn lemma_settled_is_no_shorter(task: FilterTask, replies: Seq<FilterReply>)
    ensures
        task.settled(replies).len() >= replies.len(),
    decreases task.manifests.len() - replies.len(),
{
    if task.settled(replies) != replies {
        lemma_settled_is_no_shorter(task, replies.push(FilterReply::Unread));
    }
}

/// Every answer that an attempt has asked for brings it nearer to its end.
pub proof fn law_attempts_come_to_an_end(
    producer: ProducerView,
    table: Table,
    operation: Operation,
    targets: Seq<Seq<char>>,
    with_delete_files: bool,
    cache: CacheView,
    generated: i64,
    replies: Seq<StorageReply>,
    reply: StorageReply,
)
    ensures
        ({
            let (step, held) = attempted(
                begun(producer, table, operation, targets, with_delete_files, cache, generated),
                replies,
            );
            asked(step, reply) ==> shorter(
                left_of_attempt(resumed(step, reply, held).0),
                left_of_attempt(step),
            )
        }),
{
    let start = begun(producer, table, operation, targets, with_delete_files, cache, generated);
    let (step, held) = attempted(start, replies);
    law_attempts_are_sound(
        producer,
        table,
        operation,
        targets,
        with_delete_files,
        cache,
        generated,
        replies,
    );
    let more = replies.push(reply);
    assert(more.drop_last() =~= replies);
    law_attempts_are_sound(
        producer,
        table,
        operation,
        targets,
        with_delete_files,
        cache,
        generated,
        more,
    );
    assert(attempted(start, more) == resumed(step, reply, held));
    match (step, reply) {
        (
            CommitStepView::Read { filter, replies: before, .. },
            StorageReply::Entries(entries, _),
        ) => {
            lemma_settled_is_no_shorter(filter, before.push(FilterReply::Read(entries)));
        },
        (
            CommitStepView::Rewrite { filter, replies: before, entries, .. },
            StorageReply::Written(written),
        ) => {
            lemma_settled_is_no_shorter(
                filter,
                before.push(FilterReply::Rewritten(entries, written)),
            );
        },
        _ => {},
    }
}

/// How far a check for new delete files is from its end.
pub open spec fn left_of_conflict_check(step: ConflictStepView) -> Distance {
    match step {
        ConflictStepView::Load { task, visits } => Distance {
            phases: 0,
            rounds: task.snapshot_ids.len() - visits.len(),
            turns: 0,
            steps: 0,
        },
        ConflictStepView::Read { task, visits } => Distance {
            phases: 0,
            rounds: task.snapshot_ids.len() - visits.len(),
            turns: task.pending(visits, visits.len() - 1).len() - visits.last().reads.len(),
            steps: 0,
        },
        ConflictStepView::Passed => phases_left(0),
        ConflictStepView::Failed(_) => phases_left(0),
    }
}

/// Everything that a check for new delete files has asked for brings it nearer to its end.
pub proof fn law_conflict_checks_come_to_an_end(
    metadata: TableMetadata,
    starting: Option<i64>,
    files: Seq<DataFile>,
    replies: Seq<ReadReply>,
    reply: ReadReply,
)
    requires
        files.len() > 0,
        metadata.current_snapshot_id != starting,
    ensures
        ({
            let step = conflict_checked(conflict_check(metadata, starting, files), replies);
            (step is Load && reply is Listed) || (step is Read && reply is Entries) ==> shorter(
                left_of_conflict_check(conflict_resumed(step, reply)),
                left_of_conflict_check(step),
            )
        }),
{
    let start = conflict_check(metadata, starting, files);
    let step = conflict_checked(start, replies);
    law_passed_checks_have_no_conflict(metadata, starting, files, replies);
    let more = replies.push(reply);
    assert(more.drop_last() =~= replies);
    law_passed_checks_have_no_conflict(metadata, starting, files, more);
    assert(conflict_checked(start, more) == conflict_resumed(step, reply));
}

/// How far a check for data files is from its end.
pub open spec fn left_of_existence_check(step: ExistenceStepView) -> Distance {
    match step {
        ExistenceStepView::Load { .. } => phases_left(2),
        ExistenceStepView::Read { manifests, reads, .. } => Distance {
            phases: 1,
            rounds: manifests.len() - reads.len(),
            turns: 0,
            steps: 0,
        },
        ExistenceStepView::Passed => phases_left(0),
        ExistenceStepView::Failed(_) => phases_left(0),
    }
}

/// Every manifest that a check for data files has read brings it nearer to its end.
pub proof fn law_existence_checks_come_to_an_end(
    references: Seq<Seq<char>>,
    manifests: Seq<ManifestFile>,
    reads: Seq<Seq<ManifestEntry>>,
    entries: Seq<ManifestEntry>,
    snapshot_id: i64,
)
    requires
        reads.len() <= manifests.len(),
    ensures
        shorter(
            left_of_existence_check(existence_next(references, manifests, reads)),
            left_of_existence_check(ExistenceStepView::Load { references, snapshot_id }),
        ),
        existence_next(references, manifests, reads) is Read ==> shorter(
            left_of_existence_check(existence_next(references, manifests, reads.push(entries))),
            left_of_existence_check(existence_next(references, manifests, reads)),
        ),
{
}

/// How far a search is from its end.
pub open spec fn left_of_search(step: MatchStepView) -> Distance {
    match step {
        MatchStepView::Load(_) => phases_left(1),
        MatchStepView::Read(state) => Distance {
            phases: 0,
            rounds: state.manifests.len() - state.reads.len(),
            turns: 0,
            steps: 0,
        },
        MatchStepView::Check(state, stage) => Distance {
            phases: 0,
            rounds: state.manifests.len() - state.reads.len(),
            turns: state.files().len() - state.verdicts.len(),
            steps: match stage {
                Stage::Partition => 2,
                Stage::Strict => 1,
                Stage::Inclusive => 0,
            },
        },
        MatchStepView::Matched(_) => phases_left(0),
        MatchStepView::Failed(_) => phases_left(0),
    }
}

/// Every answer that a search has asked for brings it nearer to its end.
pub proof fn law_searches_come_to_an_end(
    table: Table,
    replies: Seq<MatchReply>,
    reply: MatchReply,
)
    ensures
        ({
            let step = searched(match_start(table), replies);
            (step is Load && reply is Listed) || (step is Read && reply is Entries) || (
            step is Check && reply is Answer) ==> shorter(
                left_of_search(match_resumed(step, reply)),
                left_of_search(step),
            )
        }),
{
    let start = match_start(table);
    let step = searched(start, replies);
    law_searches_are_sound(table, replies, None);
    let more = replies.push(reply);
    assert(more.drop_last() =~= replies);
    law_searches_are_sound(table, more, None);
    assert(searched(start, more) == match_resumed(step, reply));
}

} // verus!
