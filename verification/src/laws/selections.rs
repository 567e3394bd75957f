//! What is selected from lists of manifests, entries and files.
//!
//! Each selection is fixed by three facts over the plain records: what becomes of a single element,
//! that the selection from two lists in a row is the two selections in a row, and what the
//! selection holds.

use vstd::prelude::*;

use crate::commit::with_files;
use crate::conflicts::{conflicting, conflicts, delete_manifests_of, paths_of};
use crate::existence::{data_manifests, is_live, lists_live, missing_references};
use crate::filter::{as_existing, removed_files, retained, survivors, targeted};
use crate::matching::{candidates, live_files};
use crate::merging::{added_entries, unique_paths};
use crate::row_delta::{data_files_among, references_of};
use crate::seqs::{lemma_filter_empty, lemma_filter_push, lemma_filtered};
use crate::summary::{changes_of, ChangeKind};
use crate::types::{
    DataContentType, DataFile, FormatVersion, ManifestContentType, ManifestEntry, ManifestFile,
    ManifestStatus,
};

verus! {

/// Whether a manifest may list a file in any state.
pub open spec fn may_list_files(manifest: ManifestFile) -> bool {
    ||| manifest.has_added_files
    ||| manifest.has_existing_files
    ||| manifest.has_deleted_files
}

/// Whether the file of an entry is in the table.
pub open spec fn in_table(entry: ManifestEntry) -> bool {
    entry.status == ManifestStatus::Added || entry.status == ManifestStatus::Existing
}

/// Whether an entry lists a file of the table that is to be removed.
pub open spec fn to_remove(targets: Seq<Seq<char>>, entry: ManifestEntry) -> bool {
    in_table(entry) && targets.contains(entry.data_file.file_path@)
}

/// Whether an entry lists a file of the table that is to stay.
pub open spec fn to_keep(targets: Seq<Seq<char>>, entry: ManifestEntry) -> bool {
    in_table(entry) && !targets.contains(entry.data_file.file_path@)
}

/// The selection from a single element.
pub open spec fn one_or_none<A>(element: A, selected: bool) -> Seq<A> {
    if selected {
        seq![element]
    } else {
        Seq::empty()
    }
}

proof fn lemma_filter_parts<A>(first: Seq<A>, second: Seq<A>, element: A, pred: spec_fn(A) -> bool)
    ensures
        (first + second).filter(pred) == first.filter(pred) + second.filter(pred),
        seq![element].filter(pred) == one_or_none(element, pred(element)),
        first.filter(pred).contains(element) <==> first.contains(element) && pred(element),
{
    Seq::filter_distributes_over_add(first, second, pred);
    lemma_filter_empty(pred);
    lemma_filter_push(Seq::empty(), element, pred);
    assert(seq![element] =~= Seq::<A>::empty().push(element));
    assert(seq![element].filter(pred) =~= one_or_none(element, pred(element)));
    if first.filter(pred).contains(element) {
        let i = choose|i: int|
            0 <= i < first.filter(pred).len() && first.filter(pred)[i] == element;
        lemma_filtered(first, pred, i);
    }
    if first.contains(element) && pred(element) {
        let i = choose|i: int| 0 <= i < first.len() && first[i] == element;
        first.lemma_filter_contains(pred, i);
    }
}

/// An attempt works on the manifests of the loaded list that may list files in state `Added`,
/// `Existing` or `Deleted`, on all of them, on no others, and in the order of the list.
pub proof fn law_manifests_with_files_are_carried_over(
    first: Seq<ManifestFile>,
    second: Seq<ManifestFile>,
    manifest: ManifestFile,
)
    ensures
        with_files(first + second) == with_files(first) + with_files(second),
        with_files(seq![manifest]) == one_or_none(manifest, may_list_files(manifest)),
        with_files(first).contains(manifest) <==> first.contains(manifest) && may_list_files(
            manifest,
        ),
{
    lemma_filter_parts(first, second, manifest, |m: ManifestFile| m.lists_files());
}

/// Searches for data files go through the data manifests of a list, through all of them, through no
/// others, and in the order of the list.
pub proof fn law_data_manifests_are_searched(
    first: Seq<ManifestFile>,
    second: Seq<ManifestFile>,
    manifest: ManifestFile,
)
    ensures
        data_manifests(first + second) == data_manifests(first) + data_manifests(second),
        data_manifests(seq![manifest]) == one_or_none(
            manifest,
            manifest.content == ManifestContentType::Data,
        ),
        data_manifests(first).contains(manifest) <==> first.contains(manifest) && manifest.content
            == ManifestContentType::Data,
{
    lemma_filter_parts(
        first,
        second,
        manifest,
        |m: ManifestFile| m.content == ManifestContentType::Data,
    );
}

/// The delete manifests that a snapshot has added itself are those of its list that list delete
/// files and carry its id.
pub proof fn law_own_delete_manifests(
    first: Seq<ManifestFile>,
    second: Seq<ManifestFile>,
    manifest: ManifestFile,
    snapshot_id: i64,
)
    ensures
        delete_manifests_of(first + second, snapshot_id) == delete_manifests_of(first, snapshot_id)
            + delete_manifests_of(second, snapshot_id),
        delete_manifests_of(seq![manifest], snapshot_id) == one_or_none(
            manifest,
            manifest.content == ManifestContentType::Deletes && manifest.added_snapshot_id
                == snapshot_id,
        ),
        delete_manifests_of(first, snapshot_id).contains(manifest) <==> first.contains(manifest)
            && manifest.content == ManifestContentType::Deletes && manifest.added_snapshot_id
            == snapshot_id,
{
    lemma_filter_parts(
        first,
        second,
        manifest,
        |m: ManifestFile|
            m.content == ManifestContentType::Deletes && m.added_snapshot_id == snapshot_id,
    );
}

/// The live files of a manifest are those of its entries in state `Added` or `Existing`, in order;
/// those of several manifests are those of each in turn.
pub proof fn law_live_files_are_added_or_existing(
    first: Seq<ManifestEntry>,
    second: Seq<ManifestEntry>,
    entry: ManifestEntry,
    reads: Seq<Seq<ManifestEntry>>,
)
    ensures
        live_files(first + second) == live_files(first) + live_files(second),
        live_files(seq![entry]) == one_or_none(entry.data_file, in_table(entry)),
        entry.alive() == in_table(entry),
        entry.path() == entry.data_file.file_path@,
        candidates(Seq::empty()) == Seq::<DataFile>::empty(),
        candidates(reads.push(first)) == candidates(reads) + live_files(first),
{
    let pred = |e: ManifestEntry| e.alive();
    lemma_filter_parts(first, second, entry, pred);
    assert(live_files(first + second) =~= live_files(first) + live_files(second));
    assert(live_files(seq![entry]) =~= one_or_none(entry.data_file, in_table(entry)));
    assert(reads.push(first).drop_last() =~= reads);
}

/// A removal takes the live files with the given paths out of a manifest, all of them, in order,
/// and carries the entries of the other live files over, all of them, in order: each with its file
/// and its ids, in state `Existing`. Entries of deleted files are not carried over.
pub proof fn law_removal_parts_the_live_entries(
    targets: Seq<Seq<char>>,
    manifest: ManifestFile,
    first: Seq<ManifestEntry>,
    second: Seq<ManifestEntry>,
    entry: ManifestEntry,
)
    ensures
        removed_files(targets, first + second) == removed_files(targets, first) + removed_files(
            targets,
            second,
        ),
        removed_files(targets, seq![entry]) == one_or_none(
            entry.data_file,
            to_remove(targets, entry),
        ),
        survivors(targets, manifest, first + second) == survivors(targets, manifest, first)
            + survivors(targets, manifest, second),
        survivors(targets, manifest, seq![entry]) == one_or_none(
            ManifestEntry {
                status: ManifestStatus::Existing,
                snapshot_id: if entry.snapshot_id is Some {
                    entry.snapshot_id
                } else {
                    Some(manifest.added_snapshot_id)
                },
                sequence_number: if entry.sequence_number is Some {
                    entry.sequence_number
                } else {
                    Some(0)
                },
                file_sequence_number: if entry.file_sequence_number is Some {
                    entry.file_sequence_number
                } else {
                    Some(0)
                },
                data_file: entry.data_file,
            },
            to_keep(targets, entry),
        ),
{
    let gone = |e: ManifestEntry| targeted(targets, e);
    let stays = |e: ManifestEntry| retained(targets, e);
    lemma_filter_parts(first, second, entry, gone);
    lemma_filter_parts(first, second, entry, stays);
    assert(removed_files(targets, first + second) =~= removed_files(targets, first) + removed_files(
        targets,
        second,
    ));
    assert(removed_files(targets, seq![entry]) =~= one_or_none(
        entry.data_file,
        to_remove(targets, entry),
    ));
    assert(survivors(targets, manifest, first + second) =~= survivors(targets, manifest, first)
        + survivors(targets, manifest, second));
    assert(survivors(targets, manifest, seq![entry]) =~= one_or_none(
        as_existing(entry, manifest),
        to_keep(targets, entry),
    ));
}

/// Every added file is listed once, in order, in state `Added`, without sequence numbers, and with
/// the snapshot id on the entry in version 1 only.
pub proof fn law_added_files_are_listed_as_added(
    version: FormatVersion,
    snapshot_id: i64,
    files: Seq<DataFile>,
)
    ensures
        added_entries(version, snapshot_id, files).len() == files.len(),
        forall|i: int|
            0 <= i < files.len() ==> {
                let entry = #[trigger] added_entries(version, snapshot_id, files)[i];
                &&& entry.status == ManifestStatus::Added
                &&& entry.data_file == files[i]
                &&& entry.sequence_number is None
                &&& entry.file_sequence_number is None
                &&& version == FormatVersion::V1 ==> entry.snapshot_id == Some(snapshot_id)
                &&& version != FormatVersion::V1 ==> entry.snapshot_id is None
            },
{
}

/// Every file is reported once, in order, as the given kind of change and under the given schema
/// and partition spec.
pub proof fn law_changes_report_each_file(
    kind: ChangeKind,
    files: Seq<DataFile>,
    schema_id: i32,
    partition_spec_id: i32,
)
    ensures
        changes_of(kind, files, schema_id, partition_spec_id).len() == files.len(),
        forall|i: int|
            0 <= i < files.len() ==> {
                let change = #[trigger] changes_of(kind, files, schema_id, partition_spec_id)[i];
                &&& change.kind == kind
                &&& change.file == files[i]
                &&& change.schema_id == schema_id
                &&& change.partition_spec_id == partition_spec_id
            },
{
}

/// Replaced files count by their paths, and the references of delete files are all the paths that
/// they name, in order.
pub proof fn law_files_count_by_their_paths(
    first: Seq<DataFile>,
    second: Seq<DataFile>,
    file: DataFile,
)
    ensures
        paths_of(first).len() == first.len(),
        forall|i: int|
            0 <= i < first.len() ==> #[trigger] paths_of(first)[i] == first[i].file_path@,
        references_of(first + second) == references_of(first) + references_of(second),
        references_of(seq![file]) == (match file.referenced_data_file {
            Some(path) => seq![path@],
            None => Seq::empty(),
        }),
        data_files_among(first + second) == data_files_among(first) + data_files_among(second),
        data_files_among(seq![file]) == one_or_none(file, file.content == DataContentType::Data),
        unique_paths(first).is_prefix_of(unique_paths(first + second)),
{
    let refers = |f: DataFile| f.referenced_data_file is Some;
    lemma_filter_parts(first, second, file, refers);
    lemma_filter_parts(first, second, file, |f: DataFile| f.content == DataContentType::Data);
    assert(references_of(first + second) =~= references_of(first) + references_of(second));
    assert(references_of(seq![file]) =~= (match file.referenced_data_file {
        Some(path) => seq![path@],
        None => Seq::empty(),
    }));
    lemma_paths_prefix(first, second);
}

proof fn lemma_paths_prefix(first: Seq<DataFile>, second: Seq<DataFile>)
    ensures
        unique_paths(first).is_prefix_of(unique_paths(first + second)),
    decreases second.len(),
{
    if second.len() == 0 {
        assert(first + second =~= first);
    } else {
        lemma_paths_prefix(first, second.drop_last());
        assert((first + second).drop_last() =~= first + second.drop_last());
        let before = unique_paths(first + second.drop_last());
        assert(before.is_prefix_of(unique_paths(first + second)));
        assert(unique_paths(first) =~= unique_paths(first + second).take(
            unique_paths(first).len() as int,
        ));
    }
}

/// Whether an entry lists a file of the table under the given path.
pub open spec fn lists_under(entry: ManifestEntry, path: Seq<char>) -> bool {
    in_table(entry) && entry.data_file.file_path@ == path
}

/// Missing are the references that no entry that was read lists, in order.
pub proof fn law_missing_references_are_listed_nowhere(
    first: Seq<Seq<char>>,
    second: Seq<Seq<char>>,
    path: Seq<char>,
    reads: Seq<Seq<ManifestEntry>>,
)
    ensures
        missing_references(first + second, reads) == missing_references(first, reads)
            + missing_references(second, reads),
        missing_references(seq![path], reads) == one_or_none(
            path,
            forall|i: int, j: int|
                0 <= i < reads.len() && 0 <= j < reads[i].len() ==> !#[trigger] lists_under(
                    reads[i][j],
                    path,
                ),
        ),
{
    let absent = |p: Seq<char>| !is_live(reads, p);
    lemma_filter_parts(first, second, path, absent);
    if is_live(reads, path) {
        let i = choose|i: int|
            0 <= i < reads.len() && #[trigger] lists_live(reads[i], path);
        let j = choose|j: int|
            0 <= j < reads[i].len() && (#[trigger] reads[i][j]).alive() && reads[i][j].path()
                == path;
        assert(lists_under(reads[i][j], path));
    }
    if exists|i: int, j: int|
        0 <= i < reads.len() && 0 <= j < reads[i].len() && #[trigger] lists_under(
            reads[i][j],
            path,
        ) {
        let (i, j) = choose|i: int, j: int|
            0 <= i < reads.len() && 0 <= j < reads[i].len() && #[trigger] lists_under(
                reads[i][j],
                path,
            );
        assert(reads[i][j].alive());
        assert(lists_live(reads[i], path));
    }
}

/// Whether an entry lists a delete file of the table for one of the given files, and is not carried
/// over from one of the given snapshots.
pub open spec fn names_replaced(
    replaced: Seq<Seq<char>>,
    earlier: Set<i64>,
    entry: ManifestEntry,
) -> bool {
    &&& in_table(entry)
    &&& !(entry.status == ManifestStatus::Existing && entry.snapshot_id is Some && earlier.contains(
        entry.snapshot_id->0,
    ))
    &&& entry.data_file.referenced_data_file is Some
    &&& replaced.contains(entry.data_file.referenced_data_file->0@)
}

/// Conflicts are all entries of delete files for replaced files, but for those that are carried
/// over from the start, in order.
pub proof fn law_conflicts_name_replaced_files(
    replaced: Seq<Seq<char>>,
    earlier: Set<i64>,
    first: Seq<ManifestEntry>,
    second: Seq<ManifestEntry>,
    entry: ManifestEntry,
)
    ensures
        conflicting(replaced, earlier, first + second) == conflicting(replaced, earlier, first)
            + conflicting(replaced, earlier, second),
        conflicting(replaced, earlier, seq![entry]) == one_or_none(
            entry,
            names_replaced(replaced, earlier, entry),
        ),
        conflicting(replaced, earlier, first).contains(entry) <==> first.contains(entry)
            && names_replaced(replaced, earlier, entry),
{
    lemma_filter_parts(
        first,
        second,
        entry,
        |e: ManifestEntry| conflicts(replaced, earlier, e),
    );
}

} // verus!
