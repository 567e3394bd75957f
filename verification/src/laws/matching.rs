//! What the search for the files that match a row filter finds.

use vstd::prelude::*;

use crate::error::ErrorKind;
use crate::existence::data_manifests;
use crate::filter::{targeted, FilterReply, FilterTask};
use crate::laws::checks::law_targets_are_the_paths;
use crate::matching::{
    candidates, lemma_matched_prefix, live_files, match_list, match_start, matched,
    partial_match_error, MatchStepView, MatchView, Stage, Verdict,
};
use crate::merging::unique_paths;
use crate::seqs::{lemma_filtered, lemma_push_contains};
use crate::types::{DataFile, ManifestEntry, ManifestFile, Table};

verus! {

/// What a step of a search is answered.
pub enum MatchReply {
    /// The manifest list that was loaded.
    Listed(Seq<ManifestFile>),
    /// The entries of the manifest that was read.
    Entries(Seq<ManifestEntry>),
    /// The answer to the question about a file.
    Answer(bool),
}

/// Where a search stands after a step was answered. An answer to another question changes nothing.
pub open spec fn match_resumed(step: MatchStepView, reply: MatchReply) -> MatchStepView {
    match (step, reply) {
        (MatchStepView::Load(_), MatchReply::Listed(list)) => match_list(list),
        (MatchStepView::Read(state), MatchReply::Entries(entries)) => state.with_entries(
            entries,
        ).next(),
        (MatchStepView::Check(state, stage), MatchReply::Answer(holds)) => state.after_check(
            stage,
            holds,
        ),
        _ => step,
    }
}

/// Where a search stands after the given answers.
pub open spec fn searched(start: MatchStepView, replies: Seq<MatchReply>) -> MatchStepView
    decreases replies.len(),
{
    if replies.len() == 0 {
        start
    } else {
        match_resumed(searched(start, replies.drop_last()), replies.last())
    }
}

/// The files that are found are those of which all rows match: each of the files with that
/// verdict, in order, and no other. If all rows of all files match, all files are found; if no
/// file has that verdict, none is.
pub proof fn law_found_files_match(files: Seq<DataFile>, verdicts: Seq<Verdict>)
    requires
        verdicts.len() <= files.len(),
    ensures
        forall|file: DataFile| #[trigger]
            matched(files, verdicts).contains(file) <==> exists|i: int|
                0 <= i < verdicts.len() && #[trigger] files[i] == file && verdicts[i] is AllRows,
        (forall|i: int| 0 <= i < verdicts.len() ==> #[trigger] verdicts[i] is AllRows) ==> matched(
            files,
            verdicts,
        ) == files.take(verdicts.len() as int),
        (forall|i: int| 0 <= i < verdicts.len() ==> !(#[trigger] verdicts[i] is AllRows))
            ==> matched(files, verdicts) == Seq::<DataFile>::empty(),
    decreases verdicts.len(),
{
    let found = matched(files, verdicts);
    if verdicts.len() == 0 {
        assert(found =~= files.take(0));
    } else {
        let before = verdicts.drop_last();
        let n = verdicts.len() - 1;
        law_found_files_match(files, before);
        let earlier = matched(files, before);
        assert forall|file: DataFile| #[trigger] found.contains(file) <==> exists|i: int|
            0 <= i < verdicts.len() && #[trigger] files[i] == file && verdicts[i] is AllRows by {
            if found.contains(file) {
                let k = choose|k: int| 0 <= k < found.len() && found[k] == file;
                if k < earlier.len() {
                    assert(earlier[k] == file);
                    assert(earlier.contains(file));
                    let i = choose|i: int|
                        0 <= i < before.len() && #[trigger] files[i] == file
                            && before[i] is AllRows;
                    assert(verdicts[i] == before[i]);
                } else {
                    assert(files[n] == file);
                }
            }
            if exists|i: int|
                0 <= i < verdicts.len() && #[trigger] files[i] == file && verdicts[i] is AllRows {
                let i = choose|i: int|
                    0 <= i < verdicts.len() && #[trigger] files[i] == file
                        && verdicts[i] is AllRows;
                if i < n {
                    assert(before[i] == verdicts[i]);
                    assert(earlier.contains(file));
                    let k = choose|k: int| 0 <= k < earlier.len() && earlier[k] == file;
                    assert(found[k] == file);
                } else {
                    assert(found[earlier.len() as int] == file);
                }
            }
        }
        if forall|i: int| 0 <= i < verdicts.len() ==> #[trigger] verdicts[i] is AllRows {
            assert forall|i: int| 0 <= i < before.len() implies #[trigger] before[i] is AllRows by {
                assert(before[i] == verdicts[i]);
            }
            assert(verdicts[n] is AllRows);
            assert(found =~= files.take(verdicts.len() as int));
        }
        if forall|i: int| 0 <= i < verdicts.len() ==> !(#[trigger] verdicts[i] is AllRows) {
            assert forall|i: int| 0 <= i < before.len() implies !(
            #[trigger] before[i] is AllRows) by {
                assert(before[i] == verdicts[i]);
            }
            assert(!(verdicts[n] is AllRows));
        }
    }
}

/// The entries of the manifests that a search has read, in order.
pub open spec fn reads_made(start: MatchStepView, replies: Seq<MatchReply>) -> Seq<
    Seq<ManifestEntry>,
>
    decreases replies.len(),
{
    if replies.len() == 0 {
        Seq::empty()
    } else {
        let before = reads_made(start, replies.drop_last());
        match (searched(start, replies.drop_last()), replies.last()) {
            (MatchStepView::Read(_), MatchReply::Entries(entries)) => before.push(entries),
            _ => before,
        }
    }
}

/// Whether a search that has read the given entries can be in the given state, with the given
/// verdict on every file so far, if there is a common one. The files of all manifests but the last
/// have been judged.
pub open spec fn in_order(
    state: MatchView,
    reads: Seq<Seq<ManifestEntry>>,
    common: Option<Verdict>,
) -> bool {
    &&& state.reads == reads
    &&& state.verdicts.len() <= state.files().len()
    &&& reads.len() <= state.manifests.len()
    &&& reads.len() > 0 ==> candidates(reads.drop_last()).len() <= state.verdicts.len()
    &&& common matches Some(verdict) ==> forall|i: int|
        0 <= i < state.verdicts.len() ==> #[trigger] state.verdicts[i] == verdict
}

/// Whether a search that has read the given entries can have come to a step. If the answers are
/// all yes or all no, the verdicts are all alike, and the search cannot have failed.
pub open spec fn match_sound(
    step: MatchStepView,
    reads: Seq<Seq<ManifestEntry>>,
    answer: Option<bool>,
) -> bool {
    let common = common_verdict(answer);
    match step {
        MatchStepView::Load(_) => reads.len() == 0,
        MatchStepView::Read(state) => {
            &&& in_order(state, reads, common)
            &&& state.verdicts.len() == state.files().len()
            &&& reads.len() < state.manifests.len()
        },
        MatchStepView::Check(state, stage) => {
            &&& in_order(state, reads, common)
            &&& state.verdicts.len() < state.files().len()
            &&& answer is Some ==> stage == Stage::Partition || (stage == Stage::Strict
                && answer == Some(true))
        },
        MatchStepView::Matched(files) => {
            &&& exists|verdicts: Seq<Verdict>|
                verdicts.len() == candidates(reads).len() && files == #[trigger] matched(
                    candidates(reads),
                    verdicts,
                )
            &&& answer == Some(true) ==> files == candidates(reads)
            &&& answer == Some(false) ==> files.len() == 0
        },
        MatchStepView::Failed(error) => {
            &&& answer is None
            &&& exists|n: int|
                0 <= n < candidates(reads).len() && error == partial_match_error(
                    #[trigger] candidates(reads)[n].file_path@,
                )
        },
    }
}

/// The verdict on every file if every question gets the given answer.
pub open spec fn common_verdict(answer: Option<bool>) -> Option<Verdict> {
    match answer {
        Some(true) => Some(Verdict::AllRows),
        Some(false) => Some(Verdict::Pruned),
        None => None,
    }
}

proof fn lemma_match_next(state: MatchView, answer: Option<bool>)
    requires
        in_order(state, state.reads, common_verdict(answer)),
    ensures
        match_sound(state.next(), state.reads, answer),
{
    let files = state.files();
    let verdicts = state.verdicts;
    law_found_files_match(files, verdicts);
    if state.next() is Matched {
        assert(verdicts.len() == files.len());
        assert(files.take(verdicts.len() as int) =~= files);
        assert(matched(candidates(state.reads), verdicts) == matched(files, verdicts));
        if answer == Some(true) {
            assert forall|i: int|
                0 <= i < verdicts.len() implies #[trigger] verdicts[i] is AllRows by {}
        } else if answer == Some(false) {
            assert forall|i: int| 0 <= i < verdicts.len() implies !(
            #[trigger] verdicts[i] is AllRows) by {}
        }
    }
}

proof fn lemma_match_verdict(state: MatchView, verdict: Verdict, answer: Option<bool>)
    requires
        in_order(state, state.reads, common_verdict(answer)),
        state.verdicts.len() < state.files().len(),
        answer is Some ==> common_verdict(answer) == Some(verdict),
    ensures
        match_sound(state.with_verdict(verdict).next(), state.reads, answer),
{
    let after = state.with_verdict(verdict);
    if common_verdict(answer) is Some {
        assert forall|i: int| 0 <= i < after.verdicts.len() implies #[trigger] after.verdicts[i]
            == verdict by {
            if i < state.verdicts.len() {
                assert(after.verdicts[i] == state.verdicts[i]);
            }
        }
    }
    lemma_match_next(after, answer);
}

/// Whatever a search reads and is answered, the files that it finds are live files of the
/// manifests that it has read, as its verdicts have it, and it fails only on such a file. If every
/// question is answered with yes, as for a filter that matches every row, it does not fail, and
/// finds all live files. If every question is answered with no, it does not fail either, and finds
/// nothing.
pub proof fn law_searches_are_sound(table: Table, replies: Seq<MatchReply>, answer: Option<bool>)
    requires
        answer matches Some(common) ==> forall|i: int|
            0 <= i < replies.len() ==> (#[trigger] replies[i] matches MatchReply::Answer(holds)
                ==> holds == common),
    ensures
        match_sound(
            searched(match_start(table), replies),
            reads_made(match_start(table), replies),
            answer,
        ),
    decreases replies.len(),
{
    let start = match_start(table);
    if replies.len() == 0 {
        let none = Seq::<Verdict>::empty();
        assert(candidates(Seq::empty()) == Seq::<DataFile>::empty());
        assert(matched(candidates(Seq::empty()), none) == Seq::<DataFile>::empty());
    } else {
        let before = replies.drop_last();
        let reads = reads_made(start, before);
        if answer is Some {
            assert forall|i: int| 0 <= i < before.len() implies (
            #[trigger] before[i] matches MatchReply::Answer(holds) ==> holds == answer->0) by {
                assert(before[i] == replies[i]);
            }
        }
        law_searches_are_sound(table, before, answer);
        match (searched(start, before), replies[replies.len() - 1]) {
            (MatchStepView::Load(_), MatchReply::Listed(list)) => {
                let state = MatchView {
                    manifests: data_manifests(list),
                    reads: Seq::empty(),
                    verdicts: Seq::empty(),
                };
                assert(reads =~= state.reads);
                lemma_match_next(state, answer);
            },
            (MatchStepView::Read(state), MatchReply::Entries(entries)) => {
                let after = state.with_entries(entries);
                assert(after.reads.drop_last() =~= state.reads);
                lemma_match_next(after, answer);
            },
            (MatchStepView::Check(state, stage), MatchReply::Answer(holds)) => {
                match (stage, holds) {
                    (Stage::Partition, false) => {
                        lemma_match_verdict(state, Verdict::Pruned, answer);
                    },
                    (Stage::Strict, true) => {
                        lemma_match_verdict(state, Verdict::AllRows, answer);
                    },
                    (Stage::Inclusive, false) => {
                        lemma_match_verdict(state, Verdict::NoRows, answer);
                    },
                    (Stage::Inclusive, true) => {
                        let n = state.verdicts.len() as int;
                        assert(partial_match_error(candidates(reads)[n].file_path@)
                            == partial_match_error(state.files()[n].file_path@));
                    },
                    _ => {},
                }
            },
            _ => {},
        }
    }
}

/// The manifest list that a search has loaded, if it has.
pub open spec fn list_searched(start: MatchStepView, replies: Seq<MatchReply>) -> Option<
    Seq<ManifestFile>,
>
    decreases replies.len(),
{
    if replies.len() == 0 {
        None
    } else {
        match (searched(start, replies.drop_last()), replies.last()) {
            (MatchStepView::Load(_), MatchReply::Listed(list)) => Some(list),
            _ => list_searched(start, replies.drop_last()),
        }
    }
}

/// Whether every answer is that of the given evaluation to the question that was asked.
pub open spec fn evaluated_by(
    start: MatchStepView,
    replies: Seq<MatchReply>,
    holds: spec_fn(DataFile, Stage) -> bool,
) -> bool {
    forall|i: int|
        0 <= i < replies.len() ==> match (
            searched(start, replies.take(i)),
            #[trigger] replies[i],
        ) {
            (MatchStepView::Check(state, stage), MatchReply::Answer(answer)) => answer == holds(
                state.files()[state.verdicts.len() as int],
                stage,
            ),
            _ => true,
        }
}

/// Whether all rows of a file match: its partition may hold matching rows, and its metrics show
/// that all match.
pub open spec fn all_match(holds: spec_fn(DataFile, Stage) -> bool, file: DataFile) -> bool {
    holds(file, Stage::Partition) && holds(file, Stage::Strict)
}

/// Whether some, but not all, rows of a file may match.
pub open spec fn some_match(holds: spec_fn(DataFile, Stage) -> bool, file: DataFile) -> bool {
    holds(file, Stage::Partition) && !holds(file, Stage::Strict) && holds(file, Stage::Inclusive)
}

/// Whether the found files are those among the given ones of which all rows match, in order, and no
/// file matches in part.
pub open spec fn found_among(
    holds: spec_fn(DataFile, Stage) -> bool,
    files: Seq<DataFile>,
    found: Seq<DataFile>,
) -> bool
    decreases files.len(),
{
    if files.len() == 0 {
        found.len() == 0
    } else {
        let file = files.last();
        &&& !some_match(holds, file)
        &&& if all_match(holds, file) {
            &&& found.len() > 0
            &&& found.last() == file
            &&& found_among(holds, files.drop_last(), found.drop_last())
        } else {
            found_among(holds, files.drop_last(), found)
        }
    }
}

/// Whether a search that is answered by the given evaluation can have come to a step.
pub open spec fn search_sound(
    table: Table,
    step: MatchStepView,
    list: Option<Seq<ManifestFile>>,
    reads: Seq<Seq<ManifestEntry>>,
    holds: spec_fn(DataFile, Stage) -> bool,
) -> bool {
    let current = table.metadata.current_snapshot_id;
    let has_snapshot = current is Some && table.metadata.snapshots@.contains_key(current->0);
    let files = candidates(reads);
    match step {
        MatchStepView::Load(id) => {
            &&& has_snapshot && current == Some(id)
            &&& list is None
            &&& reads.len() == 0
        },
        MatchStepView::Read(state) => {
            &&& has_snapshot && list is Some
            &&& state.manifests == data_manifests(list->0)
            &&& state.reads == reads
            &&& state.files() == files
            &&& reads.len() < state.manifests.len()
            &&& state.verdicts.len() == files.len()
            &&& found_among(holds, files, matched(files, state.verdicts))
        },
        MatchStepView::Check(state, stage) => {
            let n = state.verdicts.len() as int;
            &&& has_snapshot && list is Some
            &&& state.manifests == data_manifests(list->0)
            &&& state.reads == reads
            &&& state.files() == files
            &&& reads.len() <= state.manifests.len()
            &&& n < files.len()
            &&& found_among(holds, files.take(n), matched(files, state.verdicts))
            &&& stage == Stage::Strict ==> holds(files[n], Stage::Partition)
            &&& stage == Stage::Inclusive ==> holds(files[n], Stage::Partition) && !holds(
                files[n],
                Stage::Strict,
            )
        },
        MatchStepView::Matched(found) => {
            &&& found_among(holds, files, found)
            &&& has_snapshot == (list is Some)
            &&& has_snapshot ==> reads.len() == data_manifests(list->0).len()
            &&& !has_snapshot ==> reads.len() == 0
        },
        MatchStepView::Failed(error) => exists|n: int|
            {
                &&& 0 <= n < files.len()
                &&& some_match(holds, #[trigger] files[n])
                &&& error.kind == ErrorKind::DataInvalid
                &&& error.message
                    == "Cannot delete file where some, but not all, rows match filter: "@
                    + files[n].file_path@
            },
    }
}

proof fn lemma_search_next(
    table: Table,
    state: MatchView,
    list: Seq<ManifestFile>,
    holds: spec_fn(DataFile, Stage) -> bool,
)
    requires
        table.metadata.current_snapshot_id is Some,
        table.metadata.snapshots@.contains_key(table.metadata.current_snapshot_id->0),
        state.manifests == data_manifests(list),
        state.reads.len() <= state.manifests.len(),
        state.verdicts.len() <= state.files().len(),
        found_among(
            holds,
            state.files().take(state.verdicts.len() as int),
            matched(state.files(), state.verdicts),
        ),
    ensures
        search_sound(table, state.next(), Some(list), state.reads, holds),
{
    if state.verdicts.len() == state.files().len() {
        assert(state.files().take(state.verdicts.len() as int) =~= state.files());
    }
}

proof fn lemma_search_verdict(
    table: Table,
    state: MatchView,
    list: Seq<ManifestFile>,
    verdict: Verdict,
    holds: spec_fn(DataFile, Stage) -> bool,
)
    requires
        table.metadata.current_snapshot_id is Some,
        table.metadata.snapshots@.contains_key(table.metadata.current_snapshot_id->0),
        state.manifests == data_manifests(list),
        state.reads.len() <= state.manifests.len(),
        state.verdicts.len() < state.files().len(),
        found_among(
            holds,
            state.files().take(state.verdicts.len() as int),
            matched(state.files(), state.verdicts),
        ),
        (verdict is AllRows) == all_match(
            holds,
            state.files()[state.verdicts.len() as int],
        ),
        !some_match(holds, state.files()[state.verdicts.len() as int]),
    ensures
        search_sound(
            table,
            state.with_verdict(verdict).next(),
            Some(list),
            state.reads,
            holds,
        ),
{
    let n = state.verdicts.len() as int;
    let files = state.files();
    let after = state.with_verdict(verdict);
    assert(files.take(n + 1).drop_last() =~= files.take(n));
    assert(files.take(n + 1).last() == files[n]);
    assert(after.verdicts.drop_last() =~= state.verdicts);
    let before = matched(files, state.verdicts);
    let found = matched(files, after.verdicts);
    if verdict is AllRows {
        assert(found.drop_last() =~= before);
    }
    lemma_search_next(table, after, list, holds);
}

/// A search that is answered by an evaluation finds exactly the live files of which all rows match,
/// in order, over all data manifests of the current snapshot. It fails only on a live file that
/// matches in part, which it names, and it does not end with files if there is one. A table without
/// a snapshot has no files.
pub proof fn law_searches_find_exactly_what_matches(
    table: Table,
    replies: Seq<MatchReply>,
    holds: spec_fn(DataFile, Stage) -> bool,
)
    requires
        evaluated_by(match_start(table), replies, holds),
    ensures
        search_sound(
            table,
            searched(match_start(table), replies),
            list_searched(match_start(table), replies),
            reads_made(match_start(table), replies),
            holds,
        ),
    decreases replies.len(),
{
    let start = match_start(table);
    if replies.len() == 0 {
        assert(candidates(Seq::empty()) == Seq::<DataFile>::empty());
    } else {
        let before = replies.drop_last();
        let n = replies.len() - 1;
        assert forall|i: int| 0 <= i < before.len() implies match (
            searched(start, before.take(i)),
            #[trigger] before[i],
        ) {
            (MatchStepView::Check(state, stage), MatchReply::Answer(answer)) => answer == holds(
                state.files()[state.verdicts.len() as int],
                stage,
            ),
            _ => true,
        } by {
            assert(before[i] == replies[i]);
            assert(before.take(i) =~= replies.take(i));
        }
        law_searches_find_exactly_what_matches(table, before, holds);
        assert(replies.take(n) =~= before);
        let reads = reads_made(start, before);
        match (searched(start, before), replies[n]) {
            (MatchStepView::Load(_), MatchReply::Listed(list)) => {
                let state = MatchView {
                    manifests: data_manifests(list),
                    reads: Seq::empty(),
                    verdicts: Seq::empty(),
                };
                assert(reads =~= state.reads);
                assert(state.files().take(0) =~= Seq::empty());
                lemma_search_next(table, state, list, holds);
            },
            (MatchStepView::Read(state), MatchReply::Entries(entries)) => {
                let list = list_searched(start, before)->0;
                let after = state.with_entries(entries);
                let live = live_files(entries);
                assert(after.reads.drop_last() =~= state.reads);
                lemma_matched_prefix(state.files(), live, state.verdicts);
                assert(after.files() == state.files() + live);
                assert(after.files().take(state.verdicts.len() as int) =~= state.files());
                lemma_search_next(table, after, list, holds);
            },
            (MatchStepView::Check(state, stage), MatchReply::Answer(answer)) => {
                let list = list_searched(start, before)->0;
                let file = state.files()[state.verdicts.len() as int];
                assert(answer == holds(file, stage));
                match (stage, answer) {
                    (Stage::Partition, false) => {
                        lemma_search_verdict(table, state, list, Verdict::Pruned, holds);
                    },
                    (Stage::Strict, true) => {
                        lemma_search_verdict(table, state, list, Verdict::AllRows, holds);
                    },
                    (Stage::Inclusive, false) => {
                        lemma_search_verdict(table, state, list, Verdict::NoRows, holds);
                    },
                    (Stage::Inclusive, true) => {
                        let k = state.verdicts.len() as int;
                        assert(some_match(holds, candidates(reads)[k]));
                    },
                    _ => {},
                }
            },
            _ => {},
        }
    }
}

/// What is found among files: exactly those of which all rows match, and none matches in part.
pub proof fn law_found_means_that_all_rows_match(
    holds: spec_fn(DataFile, Stage) -> bool,
    files: Seq<DataFile>,
    found: Seq<DataFile>,
    file: DataFile,
)
    requires
        found_among(holds, files, found),
    ensures
        found.contains(file) <==> files.contains(file) && all_match(holds, file),
        files.contains(file) ==> !some_match(holds, file),
    decreases files.len(),
{
    if files.len() > 0 {
        let before = files.drop_last();
        let last = files.last();
        assert(files =~= before.push(last));
        lemma_push_contains(before, last, file);
        if all_match(holds, last) {
            law_found_means_that_all_rows_match(holds, before, found.drop_last(), file);
            assert(found =~= found.drop_last().push(last));
            lemma_push_contains(found.drop_last(), last, file);
        } else {
            law_found_means_that_all_rows_match(holds, before, found, file);
        }
    }
}

/// Every candidate stems from a live entry of one of the manifests.
proof fn lemma_candidate_is_listed(reads: Seq<Seq<ManifestEntry>>, n: int) -> (at: (int, int))
    requires
        0 <= n < candidates(reads).len(),
    ensures
        0 <= at.0 < reads.len(),
        0 <= at.1 < reads[at.0].len(),
        reads[at.0][at.1].alive(),
        reads[at.0][at.1].data_file == candidates(reads)[n],
    decreases reads.len(),
{
    let before = reads.drop_last();
    let earlier = candidates(before);
    if n < earlier.len() {
        let at = lemma_candidate_is_listed(before, n);
        assert(before[at.0] == reads[at.0]);
        at
    } else {
        let entries = reads.last();
        let k = n - earlier.len();
        let pred = |e: ManifestEntry| e.alive();
        assert(candidates(reads)[n] == live_files(entries)[k]);
        lemma_filtered(entries, pred, k);
        let j = choose|j: int| 0 <= j < entries.len() && entries[j] == entries.filter(pred)[k];
        (reads.len() - 1, j)
    }
}

/// A removal of the files that a search has found misses none of them, if it reads the entries
/// that the search has read: overwriting by a row filter does not fail for want of a file.
pub proof fn law_found_files_can_be_removed(
    reads: Seq<Seq<ManifestEntry>>,
    verdicts: Seq<Verdict>,
    task: FilterTask,
    replies: Seq<FilterReply>,
)
    requires
        verdicts.len() <= candidates(reads).len(),
        task.targets == unique_paths(matched(candidates(reads), verdicts)),
        forall|i: int|
            0 <= i < reads.len() ==> exists|k: int|
                0 <= k < replies.len() && (#[trigger] replies[k]).entries() == #[trigger] reads[i],
    ensures
        task.missing(replies).len() == 0,
        task.end(replies) is Done,
{
    let files = candidates(reads);
    let found = matched(files, verdicts);
    let absent = |path: Seq<char>| !task.found(replies, path);
    law_found_files_match(files, verdicts);
    if task.missing(replies).len() > 0 {
        let path = task.missing(replies)[0];
        lemma_filtered(task.targets, absent, 0);
        law_targets_are_the_paths(found, path);
        let f = choose|f: int| 0 <= f < found.len() && #[trigger] found[f].file_path@ == path;
        assert(found.contains(found[f]));
        let n = choose|n: int|
            0 <= n < verdicts.len() && #[trigger] files[n] == found[f] && verdicts[n] is AllRows;
        let at = lemma_candidate_is_listed(reads, n);
        let entries = reads[at.0];
        let k = choose|k: int|
            0 <= k < replies.len() && (#[trigger] replies[k]).entries() == entries;
        assert(targeted(task.targets, replies[k].entries()[at.1]));
        assert(task.found(replies, path));
    }
}

} // verus!
