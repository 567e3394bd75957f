//! What row deltas require of the files that they refer to.

use vstd::prelude::*;

use crate::commit::{begun, CommitStepView};
use crate::error::ErrorKind;
use crate::existence::{
    data_manifests, existence_check, existence_next, missing_references, ExistenceStepView,
};
use crate::laws::attempts::{
    attempted, law_attempts_are_sound, law_no_manifest_of_the_list_is_lost,
    law_plan_accounts_for_every_file, loaded_list, StorageReply,
};
use crate::laws::checks::{law_accepted_row_deltas, ReadReply};
use crate::laws::removal::files_with;
use crate::laws::selections::{
    law_files_count_by_their_paths, law_missing_references_are_listed_nowhere, lists_under,
    may_list_files,
};
use crate::merging::{CacheView, ProducerView};
use crate::row_delta::{
    data_files_among, delta_start, delta_with_search, references_of, RowDeltaStepView,
};
use crate::seqs::lemma_filtered;
use crate::summary::ChangeKind;
use crate::text::joined;
use crate::types::{DataContentType, DataFile, ManifestEntry, ManifestFile, Operation, Table};

verus! {

/// Where a check for data files stands after something was read. What was not asked for changes
/// nothing.
pub open spec fn existence_resumed(step: ExistenceStepView, reply: ReadReply) -> ExistenceStepView {
    match (step, reply) {
        (ExistenceStepView::Load { references, .. }, ReadReply::Listed(list)) => existence_next(
            references,
            data_manifests(list),
            Seq::empty(),
        ),
        (
            ExistenceStepView::Read { references, manifests, reads },
            ReadReply::Entries(entries),
        ) => existence_next(references, manifests, reads.push(entries)),
        _ => step,
    }
}

/// Where a check for data files stands after all that was read.
pub open spec fn existence_checked(
    start: ExistenceStepView,
    replies: Seq<ReadReply>,
) -> ExistenceStepView
    decreases replies.len(),
{
    if replies.len() == 0 {
        start
    } else {
        existence_resumed(existence_checked(start, replies.drop_last()), replies.last())
    }
}

/// The manifest list that a check for data files has loaded, if it has.
pub open spec fn list_checked(start: ExistenceStepView, replies: Seq<ReadReply>) -> Option<
    Seq<ManifestFile>,
>
    decreases replies.len(),
{
    if replies.len() == 0 {
        None
    } else {
        match (existence_checked(start, replies.drop_last()), replies.last()) {
            (ExistenceStepView::Load { .. }, ReadReply::Listed(list)) => Some(list),
            _ => list_checked(start, replies.drop_last()),
        }
    }
}

/// The entries of the manifests that a check for data files has read, in order.
pub open spec fn reads_checked(start: ExistenceStepView, replies: Seq<ReadReply>) -> Seq<
    Seq<ManifestEntry>,
>
    decreases replies.len(),
{
    if replies.len() == 0 {
        Seq::empty()
    } else {
        let before = reads_checked(start, replies.drop_last());
        match (existence_checked(start, replies.drop_last()), replies.last()) {
            (ExistenceStepView::Read { .. }, ReadReply::Entries(entries)) => before.push(entries),
            _ => before,
        }
    }
}

/// Whether an entry that was read lists a file of the table under the given path.
pub open spec fn is_listed(reads: Seq<Seq<ManifestEntry>>, path: Seq<char>) -> bool {
    exists|i: int, j: int|
        0 <= i < reads.len() && 0 <= j < reads[i].len() && #[trigger] lists_under(
            reads[i][j],
            path,
        )
}

/// Whether every one of the paths is listed.
pub open spec fn all_listed(reads: Seq<Seq<ManifestEntry>>, references: Seq<Seq<char>>) -> bool {
    forall|r: int| 0 <= r < references.len() ==> is_listed(reads, #[trigger] references[r])
}

/// Whether a check for data files can have come to a step. It looks at the current snapshot, reads
/// every data manifest of its list, passes if and only if every referenced path is then listed, and
/// otherwise fails and names those that are not. Without references it passes at once; with some,
/// but without a snapshot, it fails and names them all.
pub open spec fn existence_sound(
    table: Table,
    references: Seq<Seq<char>>,
    step: ExistenceStepView,
    list: Option<Seq<ManifestFile>>,
    reads: Seq<Seq<ManifestEntry>>,
) -> bool {
    let current = table.metadata.current_snapshot_id;
    let has_snapshot = current is Some && table.metadata.snapshots@.contains_key(current->0);
    let complete = list is Some && reads.len() == data_manifests(list->0).len();
    match step {
        ExistenceStepView::Load { references: r, snapshot_id } => {
            &&& r == references
            &&& references.len() > 0
            &&& has_snapshot && current == Some(snapshot_id)
            &&& list is None
            &&& reads.len() == 0
        },
        ExistenceStepView::Read { references: r, manifests, reads: rs } => {
            &&& r == references
            &&& references.len() > 0
            &&& has_snapshot
            &&& list is Some
            &&& manifests == data_manifests(list->0)
            &&& rs == reads
            &&& reads.len() < manifests.len()
        },
        ExistenceStepView::Passed => {
            ||| references.len() == 0
            ||| has_snapshot && complete && all_listed(reads, references)
        },
        ExistenceStepView::Failed(error) => {
            &&& references.len() > 0
            &&& error.kind == ErrorKind::DataInvalid
            &&& if has_snapshot {
                &&& complete
                &&& !all_listed(reads, references)
                &&& error.message == "Cannot add delete files that reference missing data files: "@
                    + joined(missing_references(references, reads), ", "@)
            } else {
                &&& list is None
                &&& error.message
                    == "Cannot add delete files: table has no snapshot, but delete files reference: "@
                    + joined(references, ", "@)
            }
        },
    }
}

proof fn lemma_missing_means_unlisted(
    references: Seq<Seq<char>>,
    reads: Seq<Seq<ManifestEntry>>,
)
    ensures
        missing_references(references, reads).len() == 0 <==> all_listed(reads, references),
    decreases references.len(),
{
    if references.len() == 0 {
        law_missing_references_are_listed_nowhere(references, references, Seq::empty(), reads);
        let missing = missing_references(references, reads);
        assert(references + references =~= references);
        assert(missing.len() == missing.len() + missing.len());
    } else {
        let before = references.drop_last();
        let last = references.last();
        assert(references =~= before + seq![last]);
        lemma_missing_means_unlisted(before, reads);
        law_missing_references_are_listed_nowhere(before, seq![last], last, reads);
        if all_listed(reads, references) {
            assert(is_listed(reads, references[references.len() - 1]));
            assert forall|r: int| 0 <= r < before.len() implies is_listed(
                reads,
                #[trigger] before[r],
            ) by {
                assert(is_listed(reads, references[r]));
            }
        }
        if all_listed(reads, before) && is_listed(reads, last) {
            assert forall|r: int| 0 <= r < references.len() implies is_listed(
                reads,
                #[trigger] references[r],
            ) by {
                if r < before.len() {
                    assert(is_listed(reads, before[r]));
                }
            }
        }
    }
}

/// Every check for data files is sound, whatever is read.
pub proof fn law_existence_checks_are_sound(
    table: Table,
    references: Seq<Seq<char>>,
    replies: Seq<ReadReply>,
)
    ensures
        ({
            let start = existence_check(table, references);
            existence_sound(
                table,
                references,
                existence_checked(start, replies),
                list_checked(start, replies),
                reads_checked(start, replies),
            )
        }),
    decreases replies.len(),
{
    let start = existence_check(table, references);
    if replies.len() > 0 {
        let before = replies.drop_last();
        law_existence_checks_are_sound(table, references, before);
        let reads = reads_checked(start, replies);
        lemma_missing_means_unlisted(references, reads);
        match (existence_checked(start, before), replies.last()) {
            (ExistenceStepView::Load { .. }, ReadReply::Listed(list)) => {
                assert(reads =~= Seq::empty());
            },
            _ => {},
        }
    }
}

/// Where a row delta stands after something was read. What was not asked for changes nothing.
pub open spec fn delta_resumed(step: RowDeltaStepView, reply: ReadReply) -> RowDeltaStepView {
    match step {
        RowDeltaStepView::Search { producer, table, search } => delta_with_search(
            producer,
            table,
            existence_resumed(search, reply),
        ),
        _ => step,
    }
}

/// Where a row delta stands after all that was read.
pub open spec fn delta_checked(
    start: RowDeltaStepView,
    replies: Seq<ReadReply>,
) -> RowDeltaStepView
    decreases replies.len(),
{
    if replies.len() == 0 {
        start
    } else {
        delta_resumed(delta_checked(start, replies.drop_last()), replies.last())
    }
}

/// How the snapshot of a row delta that is ready is produced.
pub open spec fn delta_begun(
    ready: RowDeltaStepView,
    cache: CacheView,
    generated: i64,
) -> (CommitStepView, CacheView) {
    begun(
        ready->Ready_producer,
        ready->Ready_table,
        Operation::Overwrite,
        Seq::empty(),
        true,
        cache,
        generated,
    )
}

/// The plan of a row delta reports the operation `Overwrite`, and every data file and delete file
/// of the row delta as added, and nothing as removed. It has every manifest of the loaded list that
/// may list files.
pub proof fn law_row_deltas_add_their_files(
    producer: ProducerView,
    table: Table,
    cache: CacheView,
    generated: i64,
    storage: Seq<StorageReply>,
    manifest: ManifestFile,
)
    ensures
        ({
            let start = delta_begun(RowDeltaStepView::Ready { producer, table }, cache, generated);
            attempted(start, storage).0 matches CommitStepView::Done(plan) ==> {
                &&& plan.summary.operation == Operation::Overwrite
                &&& files_with(plan.summary.changes, ChangeKind::Added)
                    == producer.added_data_files + producer.added_delete_files
                &&& files_with(plan.summary.changes, ChangeKind::Removed).len() == 0
                &&& loaded_list(start, storage).contains(manifest) && may_list_files(manifest)
                    ==> plan.manifests.contains(manifest)
            }
        }),
{
    let targets = Seq::<Seq<char>>::empty();
    law_plan_accounts_for_every_file(
        producer,
        table,
        Operation::Overwrite,
        targets,
        true,
        cache,
        generated,
        storage,
    );
    law_no_manifest_of_the_list_is_lost(
        producer,
        table,
        Operation::Overwrite,
        targets,
        true,
        cache,
        generated,
        storage,
        manifest,
    );
    law_attempts_are_sound(
        producer,
        table,
        Operation::Overwrite,
        targets,
        true,
        cache,
        generated,
        storage,
    );
}

/// Whether a row delta adds a file, and none of its delete files holds rows.
pub open spec fn is_acceptable(producer: ProducerView) -> bool {
    &&& producer.added_data_files.len() > 0 || producer.added_delete_files.len() > 0
    &&& forall|i: int|
        0 <= i < producer.added_delete_files.len()
            ==> #[trigger] producer.added_delete_files[i].content != DataContentType::Data
}

/// Whether a delete file of the row delta names the given data file.
pub open spec fn names(producer: ProducerView, path: Seq<char>) -> bool {
    exists|d: int|
        0 <= d < producer.added_delete_files.len() && (
        #[trigger] producer.added_delete_files[d]).referenced_data_file is Some
            && producer.added_delete_files[d].referenced_data_file->0@ == path
}

proof fn lemma_references(files: Seq<DataFile>, path: Seq<char>)
    ensures
        references_of(files).contains(path) <==> exists|d: int|
            0 <= d < files.len() && (#[trigger] files[d]).referenced_data_file is Some
                && files[d].referenced_data_file->0@ == path,
    decreases files.len(),
{
    if files.len() == 0 {
        law_files_count_by_their_paths(files, files, arbitrary());
        assert(files + files =~= files);
        let references = references_of(files);
        assert(references.len() == references.len() + references.len());
    } else {
        let before = files.drop_last();
        let last = files.last();
        assert(files =~= before + seq![last]);
        lemma_references(before, path);
        law_files_count_by_their_paths(before, seq![last], last);
        let all = references_of(files);
        let earlier = references_of(before);
        let own = references_of(seq![last]);
        assert(all == earlier + own);
        if earlier.contains(path) {
            let i = choose|i: int| 0 <= i < earlier.len() && earlier[i] == path;
            assert(all[i] == path);
            let d = choose|d: int|
                0 <= d < before.len() && (#[trigger] before[d]).referenced_data_file is Some
                    && before[d].referenced_data_file->0@ == path;
            assert(files[d] == before[d]);
        }
        if own.contains(path) {
            let i = choose|i: int| 0 <= i < own.len() && own[i] == path;
            assert(all[earlier.len() + i] == path);
            assert(files[files.len() - 1] == last);
        }
        if all.contains(path) {
            let i = choose|i: int| 0 <= i < all.len() && all[i] == path;
            if i < earlier.len() {
                assert(earlier[i] == path);
            } else {
                assert(own[i - earlier.len()] == path);
            }
        }
        if exists|d: int|
            0 <= d < files.len() && (#[trigger] files[d]).referenced_data_file is Some
                && files[d].referenced_data_file->0@ == path {
            let d = choose|d: int|
                0 <= d < files.len() && (#[trigger] files[d]).referenced_data_file is Some
                    && files[d].referenced_data_file->0@ == path;
            if d < before.len() {
                assert(before[d] == files[d]);
            } else {
                assert(own[0] == path);
            }
        }
    }
}

/// A row delta stands where the check for the files that its delete files refer to stands, whether
/// or not it adds data files: it is ready if the check has passed, and has failed if that has.
pub proof fn law_row_deltas_follow_the_check(
    producer: ProducerView,
    table: Table,
    replies: Seq<ReadReply>,
)
    requires
        is_acceptable(producer),
    ensures
        ({
            let step = delta_checked(delta_start(producer, table), replies);
            let references = references_of(producer.added_delete_files);
            match existence_checked(existence_check(table, references), replies) {
                ExistenceStepView::Passed => step == (RowDeltaStepView::Ready { producer, table }),
                ExistenceStepView::Failed(error) => step == RowDeltaStepView::Failed(error),
                search => step == (RowDeltaStepView::Search { producer, table, search }),
            }
        }),
    decreases replies.len(),
{
    law_accepted_row_deltas(producer);
    if replies.len() > 0 {
        law_row_deltas_follow_the_check(producer, table, replies.drop_last());
    }
}

/// A row delta becomes ready only if it is acceptable and every data file that one of its delete
/// files names is listed, in state `Added` or `Existing`, by a data manifest of the current
/// snapshot. Once every data manifest was read, it is ready if all are listed, and has failed if
/// one is not. One that is not acceptable has failed from the start.
pub proof fn law_row_deltas_refer_to_files_of_the_table(
    producer: ProducerView,
    table: Table,
    replies: Seq<ReadReply>,
    path: Seq<char>,
)
    ensures
        ({
            let references = references_of(producer.added_delete_files);
            let check = existence_check(table, references);
            let step = delta_checked(delta_start(producer, table), replies);
            let list = list_checked(check, replies);
            let reads = reads_checked(check, replies);
            let complete = list is Some && reads.len() == data_manifests(list->0).len();
            &&& references.contains(path) <==> names(producer, path)
            &&& !is_acceptable(producer) ==> step is Failed
            &&& step is Ready ==> is_acceptable(producer) && step == (RowDeltaStepView::Ready {
                producer,
                table,
            })
            &&& step is Ready && names(producer, path) ==> complete && is_listed(reads, path)
            &&& complete && names(producer, path) && !is_listed(reads, path) ==> step is Failed
            &&& is_acceptable(producer) && complete && (forall|p: Seq<char>| #[trigger]
                names(producer, p) ==> is_listed(reads, p)) ==> step is Ready
            &&& is_acceptable(producer) && (forall|p: Seq<char>| !#[trigger] names(producer, p))
                ==> step is Ready
        }),
{
    let references = references_of(producer.added_delete_files);
    let check = existence_check(table, references);
    let step = delta_checked(delta_start(producer, table), replies);
    let reads = reads_checked(check, replies);
    lemma_references(producer.added_delete_files, path);
    law_accepted_row_deltas(producer);
    law_existence_checks_are_sound(table, references, replies);
    if is_acceptable(producer) {
        law_row_deltas_follow_the_check(producer, table, replies);
        if names(producer, path) {
            let r = choose|r: int| 0 <= r < references.len() && references[r] == path;
            if all_listed(reads, references) {
                assert(is_listed(reads, references[r]));
            }
        }
        if forall|p: Seq<char>| #[trigger] names(producer, p) ==> is_listed(reads, p) {
            assert forall|r: int| 0 <= r < references.len() implies is_listed(
                reads,
                #[trigger] references[r],
            ) by {
                lemma_references(producer.added_delete_files, references[r]);
                assert(references.contains(references[r]));
                assert(names(producer, references[r]));
            }
        }
        if forall|p: Seq<char>| !#[trigger] names(producer, p) {
            if references.len() > 0 {
                lemma_references(producer.added_delete_files, references[0]);
                assert(references.contains(references[0]));
                assert(names(producer, references[0]));
            }
            lemma_passed_stays(existence_check(table, references), replies);
        }
    } else {
        lemma_refused_stays(delta_start(producer, table), replies);
    }
}

proof fn lemma_passed_stays(start: ExistenceStepView, replies: Seq<ReadReply>)
    requires
        start is Passed,
    ensures
        existence_checked(start, replies) is Passed,
    decreases replies.len(),
{
    if replies.len() > 0 {
        lemma_passed_stays(start, replies.drop_last());
    }
}

proof fn lemma_refused_stays(start: RowDeltaStepView, replies: Seq<ReadReply>)
    requires
        start is Failed,
    ensures
        delta_checked(start, replies) is Failed,
    decreases replies.len(),
{
    if replies.len() > 0 {
        lemma_refused_stays(start, replies.drop_last());
    }
}

/// A row delta that is refused from the start: for want of a file to add, or for the first file
/// with rows among its delete files, which it names.
pub proof fn law_refused_row_deltas_say_why(producer: ProducerView, table: Table, i: int)
    ensures
        ({
            let step = delta_start(producer, table);
            let deletes = producer.added_delete_files;
            &&& producer.added_data_files.len() == 0 && deletes.len() == 0 ==> {
                &&& step is Failed
                &&& step->Failed_0.kind == ErrorKind::DataInvalid
                &&& step->Failed_0.message
                    == "RowDelta requires at least one data file or delete file to add"@
            }
            &&& 0 <= i < deletes.len() && deletes[i].content == DataContentType::Data && (forall|
                k: int,
            |
                0 <= k < i ==> #[trigger] deletes[k].content != DataContentType::Data) ==> {
                &&& step is Failed
                &&& step->Failed_0.kind == ErrorKind::DataInvalid
                &&& step->Failed_0.message == "Cannot add a data file as a delete file: "@
                    + deletes[i].file_path@
            }
        }),
{
    let deletes = producer.added_delete_files;
    if 0 <= i < deletes.len() && deletes[i].content == DataContentType::Data && (forall|k: int|
        0 <= k < i ==> #[trigger] deletes[k].content != DataContentType::Data) {
        let before = deletes.take(i);
        let own = seq![deletes[i]];
        let rest = deletes.skip(i + 1);
        assert(deletes =~= before + own + rest);
        law_files_count_by_their_paths(before + own, rest, deletes[i]);
        law_files_count_by_their_paths(before, own, deletes[i]);
        let among = data_files_among(before);
        if among.len() > 0 {
            lemma_filtered(before, |f: DataFile| f.content == DataContentType::Data, 0);
            let k = choose|k: int| 0 <= k < before.len() && before[k] == among[0];
            assert(deletes[k].content != DataContentType::Data);
        }
        assert(data_files_among(deletes)[0] == deletes[i]);
    }
}

} // verus!
