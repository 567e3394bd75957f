//! The checks before a commit, and the search for matching files.

use std::collections::{HashMap, HashSet};

use snapshot_commit::ancestry::{
    check_ancestry_ends, find_snapshots_with_deletes, find_with_ancestors,
};
use snapshot_commit::conflicts::{validate_no_new_deletes_for_data_files, ConflictStep};
use snapshot_commit::error::ErrorKind;
use snapshot_commit::existence::{validate_data_files_exist, ExistenceStep};
use snapshot_commit::matching::{MatchStep, Stage};
use snapshot_commit::overwrite::OverwriteFilesAction;
use snapshot_commit::types::{
    DataContentType, DataFile, FormatVersion, ManifestContentType, ManifestEntry, ManifestFile,
    ManifestStatus, Operation, Snapshot, Table, TableMetadata,
};

/// A table with the given snapshots: id, parent and operation. The last one is current.
fn table(snapshots: &[(i64, Option<i64>, Operation)]) -> Table {
    Table {
        metadata: TableMetadata {
            format_version: FormatVersion::V2,
            current_snapshot_id: snapshots.last().map(|s| s.0),
            snapshots: snapshots
                .iter()
                .map(|s| (s.0, Snapshot { parent_snapshot_id: s.1, operation: s.2 }))
                .collect::<HashMap<i64, Snapshot>>(),
            metadata_location: Ok("loc".to_string()),
            current_schema_id: 0,
            default_partition_spec_id: 0,
            partition_spec_ids: HashSet::from([0]),
        },
        encrypted: false,
    }
}

fn file(path: &str, referenced: Option<&str>) -> DataFile {
    DataFile {
        content: DataContentType::Data,
        file_path: path.to_string(),
        record_count: 1,
        file_size_in_bytes: 2,
        referenced_data_file: referenced.map(|path| path.to_string()),
        details: 0,
    }
}

fn entry(status: ManifestStatus, path: &str, referenced: Option<&str>) -> ManifestEntry {
    ManifestEntry {
        status,
        snapshot_id: None,
        sequence_number: None,
        file_sequence_number: None,
        data_file: file(path, referenced),
    }
}

fn manifest(path: &str, content: ManifestContentType, added_snapshot_id: i64) -> ManifestFile {
    ManifestFile {
        manifest_path: path.to_string(),
        content,
        partition_spec_id: 0,
        added_snapshot_id,
        has_added_files: true,
        has_existing_files: true,
        has_deleted_files: true,
    }
}

fn line() -> Table {
    table(&[
        (1, None, Operation::Overwrite),
        (2, Some(1), Operation::Append),
        (3, Some(2), Operation::Delete),
        (4, Some(3), Operation::Replace),
        (5, Some(4), Operation::Overwrite),
    ])
}

#[test]
fn walks_find_the_snapshots_since_the_start() {
    let metadata = line().metadata;
    assert_eq!(find_snapshots_with_deletes(&metadata, Some(2), Some(5)), [5, 3]);
    assert_eq!(find_snapshots_with_deletes(&metadata, Some(3), Some(5)), [5]);
    assert_eq!(find_snapshots_with_deletes(&metadata, None, Some(5)), [5, 3, 1]);
    assert_eq!(find_snapshots_with_deletes(&metadata, Some(5), Some(4)), [3, 1]);
    assert!(find_snapshots_with_deletes(&metadata, Some(5), Some(5)).is_empty());
    assert!(find_snapshots_with_deletes(&metadata, Some(1), None).is_empty());
    assert!(find_snapshots_with_deletes(&metadata, Some(1), Some(99)).is_empty());
}

#[test]
fn walks_stop_at_unknown_snapshots() {
    let metadata = table(&[(3, Some(2), Operation::Delete)]).metadata;
    assert!(check_ancestry_ends(&metadata, Some(1), Some(3)));
    assert_eq!(find_snapshots_with_deletes(&metadata, Some(1), Some(3)), [3]);
}

#[test]
fn cyclic_ancestry_does_not_end() {
    let metadata = table(&[
        (1, Some(2), Operation::Delete),
        (2, Some(1), Operation::Append),
        (3, Some(2), Operation::Append),
    ])
    .metadata;
    assert!(!check_ancestry_ends(&metadata, None, Some(3)));
    assert!(!check_ancestry_ends(&metadata, Some(9), Some(1)));
    // The walk ends where the starting snapshot is a part of the cycle.
    assert!(check_ancestry_ends(&metadata, Some(1), Some(3)));
    assert!(find_snapshots_with_deletes(&metadata, Some(1), Some(3)).is_empty());
    assert_eq!(find_snapshots_with_deletes(&metadata, Some(2), Some(1)), [1]);
    assert!(check_ancestry_ends(&line().metadata, None, Some(5)));
}

#[test]
fn conflicts_are_searched_in_own_delete_manifests() {
    let table = line();
    let replaced = vec![file("a", None), file("b", None)];
    let step = validate_no_new_deletes_for_data_files(&table, Some(2), &replaced);
    let ConflictStep::Load(load) = step else { panic!("a list is to be loaded") };
    assert_eq!(load.snapshot_id(), 5);
    let step = load.resume(vec![
        manifest("data.avro", ManifestContentType::Data, 5),
        manifest("older.avro", ManifestContentType::Deletes, 3),
        manifest("own-1.avro", ManifestContentType::Deletes, 5),
        manifest("own-2.avro", ManifestContentType::Deletes, 5),
    ]);
    let ConflictStep::Read(read) = step else { panic!("a manifest is to be read") };
    assert_eq!(read.manifest().manifest_path, "own-1.avro");
    let step = read.resume(vec![
        entry(ManifestStatus::Deleted, "d1", Some("a")),
        entry(ManifestStatus::Added, "d2", Some("c")),
        entry(ManifestStatus::Added, "d3", None),
        // The path of a delete file does not matter.
        entry(ManifestStatus::Added, "a", Some("d")),
    ]);
    let ConflictStep::Read(read) = step else { panic!("a manifest is to be read") };
    assert_eq!(read.manifest().manifest_path, "own-2.avro");
    let step = read.resume(vec![]);
    let ConflictStep::Load(load) = step else { panic!("a list is to be loaded") };
    assert_eq!(load.snapshot_id(), 3);
    let step = load.resume(vec![manifest("own-3.avro", ManifestContentType::Deletes, 3)]);
    let ConflictStep::Read(read) = step else { panic!("a manifest is to be read") };
    let mut carried = entry(ManifestStatus::Existing, "d4", Some("b"));
    carried.snapshot_id = Some(1);
    let step = read.resume(vec![carried, entry(ManifestStatus::Added, "d5", Some("a"))]);
    let ConflictStep::Failed(error) = step else { panic!("there is a conflict") };
    assert_eq!(error.kind(), ErrorKind::DataInvalid);
    assert_eq!(
        error.message(),
        "Cannot commit, found new position delete for replaced data file: a"
    );
}

/// A later snapshot that only rewrote a delete manifest has added no delete file.
#[test]
fn delete_files_that_were_there_at_the_start_are_no_conflict() {
    let table = table(&[(1, None, Operation::Append), (2, Some(1), Operation::Overwrite)]);
    let replaced = vec![file("test/1.parquet", None)];
    let step = validate_no_new_deletes_for_data_files(&table, Some(1), &replaced);
    let ConflictStep::Load(load) = step else { panic!("a list is to be loaded") };
    assert_eq!(load.snapshot_id(), 2);
    let step = load.resume(vec![manifest("rewritten.avro", ManifestContentType::Deletes, 2)]);
    let ConflictStep::Read(read) = step else { panic!("a manifest is to be read") };
    let mut carried = entry(ManifestStatus::Existing, "del.parquet", Some("test/1.parquet"));
    carried.snapshot_id = Some(1);
    assert!(matches!(read.resume(vec![carried]), ConflictStep::Passed));
}

/// A delete file that came after the start is a conflict, though the manifest that lists it only
/// carries it over from a snapshot that the table has forgotten.
#[test]
fn delete_files_that_came_after_the_start_are_conflicts() {
    let table = table(&[(1, Some(0), Operation::Append), (3, Some(2), Operation::Overwrite)]);
    let replaced = vec![file("test/1.parquet", None)];
    for (starting, status, snapshot_id, passes) in [
        (Some(1), ManifestStatus::Existing, Some(2), false),
        (Some(1), ManifestStatus::Existing, Some(3), false),
        (Some(1), ManifestStatus::Existing, None, false),
        (Some(1), ManifestStatus::Added, Some(1), false),
        (Some(1), ManifestStatus::Existing, Some(1), true),
        (Some(1), ManifestStatus::Existing, Some(0), true),
        (Some(1), ManifestStatus::Deleted, Some(2), true),
        (Some(0), ManifestStatus::Existing, Some(1), false),
        (None, ManifestStatus::Existing, Some(1), false),
    ] {
        let step = validate_no_new_deletes_for_data_files(&table, starting, &replaced);
        let ConflictStep::Load(load) = step else { panic!("a list is to be loaded") };
        assert_eq!(load.snapshot_id(), 3);
        let step = load.resume(vec![manifest("own.avro", ManifestContentType::Deletes, 3)]);
        let ConflictStep::Read(read) = step else { panic!("a manifest is to be read") };
        let mut listed = entry(status, "del.parquet", Some("test/1.parquet"));
        listed.snapshot_id = snapshot_id;
        match read.resume(vec![listed]) {
            ConflictStep::Passed => assert!(passes),
            ConflictStep::Failed(error) => {
                assert!(!passes);
                assert_eq!(
                    error.message(),
                    "Cannot commit, found new position delete for replaced data file: test/1.parquet"
                );
            },
            _ => panic!("the check has an end"),
        }
    }
}

#[test]
fn ancestors_are_found_on_every_ancestry() {
    let metadata = line().metadata;
    assert_eq!(find_with_ancestors(&metadata, Some(3)), HashSet::from([1, 2, 3]));
    assert_eq!(find_with_ancestors(&metadata, Some(99)), HashSet::from([99]));
    assert!(find_with_ancestors(&metadata, None).is_empty());
    let forgotten = table(&[(3, Some(2), Operation::Delete)]).metadata;
    assert_eq!(find_with_ancestors(&forgotten, Some(3)), HashSet::from([2, 3]));
    let cyclic = table(&[
        (1, Some(2), Operation::Delete),
        (2, Some(1), Operation::Append),
        (3, Some(2), Operation::Append),
    ])
    .metadata;
    assert_eq!(find_with_ancestors(&cyclic, Some(3)), HashSet::from([1, 2, 3]));
    assert_eq!(find_with_ancestors(&cyclic, Some(1)), HashSet::from([1, 2]));
}

#[test]
fn searches_split_at_a_middle_snapshot() {
    let metadata = line().metadata;
    for starting in [None, Some(1)] {
        let all = find_snapshots_with_deletes(&metadata, starting, Some(5));
        for middle in 2..=5 {
            let mut parts = find_snapshots_with_deletes(&metadata, Some(middle), Some(5));
            parts.extend(find_snapshots_with_deletes(&metadata, starting, Some(middle)));
            assert_eq!(parts, all);
        }
    }
}

#[test]
fn conflict_checks_pass_after_the_last_snapshot() {
    let table = line();
    let replaced = vec![file("a", None)];
    let step = validate_no_new_deletes_for_data_files(&table, Some(2), &replaced);
    let ConflictStep::Load(load) = step else { panic!("a list is to be loaded") };
    let ConflictStep::Load(load) = load.resume(vec![]) else { panic!("a list is to be loaded") };
    assert!(matches!(load.resume(vec![]), ConflictStep::Passed));
}

#[test]
fn harmless_changes_need_no_conflict_check() {
    let table = table(&[
        (1, None, Operation::Overwrite),
        (2, Some(1), Operation::Append),
        (3, Some(2), Operation::Replace),
    ]);
    let replaced = vec![file("a", None)];
    for starting in [Some(1), Some(2), Some(3)] {
        let step = validate_no_new_deletes_for_data_files(&table, starting, &replaced);
        assert!(matches!(step, ConflictStep::Passed));
    }
    let step = validate_no_new_deletes_for_data_files(&table, None, &replaced);
    assert!(matches!(step, ConflictStep::Load(_)));
}

#[test]
fn referenced_files_must_be_live() {
    let table = line();
    let references: Vec<String> = ["a", "gone", "b", "ghost", "gone"].map(String::from).to_vec();
    let step = validate_data_files_exist(&table, references.clone());
    let ExistenceStep::Load(load) = step else { panic!("a list is to be loaded") };
    assert_eq!(load.snapshot_id(), 5);
    let step = load.resume(vec![
        manifest("deletes.avro", ManifestContentType::Deletes, 5),
        manifest("data-1.avro", ManifestContentType::Data, 5),
        manifest("data-2.avro", ManifestContentType::Data, 1),
    ]);
    let ExistenceStep::Read(read) = step else { panic!("a manifest is to be read") };
    assert_eq!(read.manifest().manifest_path, "data-1.avro");
    let step = read.resume(vec![
        entry(ManifestStatus::Existing, "b", None),
        entry(ManifestStatus::Deleted, "gone", None),
    ]);
    let ExistenceStep::Read(read) = step else { panic!("a manifest is to be read") };
    assert_eq!(read.manifest().manifest_path, "data-2.avro");
    let step = read.resume(vec![entry(ManifestStatus::Added, "a", None)]);
    let ExistenceStep::Failed(error) = step else { panic!("files are missing") };
    assert_eq!(error.kind(), ErrorKind::DataInvalid);
    assert_eq!(
        error.message(),
        "Cannot add delete files that reference missing data files: gone, ghost, gone"
    );

    let step = validate_data_files_exist(&table, vec!["a".to_string()]);
    let ExistenceStep::Load(load) = step else { panic!("a list is to be loaded") };
    let step = load.resume(vec![manifest("data.avro", ManifestContentType::Data, 5)]);
    let ExistenceStep::Read(read) = step else { panic!("a manifest is to be read") };
    let step = read.resume(vec![entry(ManifestStatus::Added, "a", None)]);
    assert!(matches!(step, ExistenceStep::Passed));
}

#[test]
fn references_need_a_snapshot() {
    let table = table(&[]);
    assert!(matches!(validate_data_files_exist(&table, vec![]), ExistenceStep::Passed));
    let references = vec!["a".to_string(), "b".to_string()];
    let ExistenceStep::Failed(error) = validate_data_files_exist(&table, references) else {
        panic!("there is no snapshot")
    };
    assert_eq!(
        error.message(),
        "Cannot add delete files: table has no snapshot, but delete files reference: a, b"
    );
}

/// Searches a table whose manifest list has two data manifests, with the files a, b and c, d,
/// under different partition specs. The answers are given by the stage and the path of the file.
fn search(answer: fn(Stage, &str) -> bool) -> (Result<Vec<String>, String>, Vec<(Stage, String)>) {
    let table = line();
    let mut questions = Vec::new();
    let mut step = OverwriteFilesAction::<()>::collect_files_matching_filter(&table);
    loop {
        step = match step {
            MatchStep::Load(load) => {
                assert_eq!(load.snapshot_id(), 5);
                let mut other_spec = manifest("cd.avro", ManifestContentType::Data, 5);
                other_spec.partition_spec_id = 8;
                load.resume(vec![
                    manifest("ab.avro", ManifestContentType::Data, 5),
                    manifest("deletes.avro", ManifestContentType::Deletes, 5),
                    other_spec,
                ])
            },
            MatchStep::Read(read) => {
                let entries = if read.manifest().manifest_path == "ab.avro" {
                    vec![
                        entry(ManifestStatus::Added, "a", None),
                        entry(ManifestStatus::Deleted, "gone", None),
                        entry(ManifestStatus::Existing, "b", None),
                    ]
                } else {
                    vec![
                        entry(ManifestStatus::Added, "c", None),
                        entry(ManifestStatus::Added, "d", None),
                    ]
                };
                read.resume(entries)
            },
            MatchStep::Check(check) => {
                questions.push((check.stage(), check.file().file_path.clone()));
                let in_first = check.file().file_path == "a" || check.file().file_path == "b";
                assert_eq!(check.partition_spec_id(), if in_first { 0 } else { 8 });
                let holds = answer(check.stage(), &check.file().file_path);
                check.resume(holds)
            },
            MatchStep::Matched(files) => {
                return (Ok(files.iter().map(|f| f.file_path.clone()).collect()), questions);
            },
            MatchStep::Failed(error) => return (Err(error.message().to_string()), questions),
        };
    }
}

#[test]
fn filters_that_match_every_row_find_all_live_files() {
    let (found, questions) = search(|_, _| true);
    assert_eq!(found.unwrap(), ["a", "b", "c", "d"]);
    assert_eq!(questions.len(), 8);
}

#[test]
fn filters_that_match_no_row_find_nothing() {
    let (found, questions) = search(|_, _| false);
    assert!(found.unwrap().is_empty());
    assert_eq!(questions.len(), 4);
    let (found, questions) = search(|stage, _| stage == Stage::Partition);
    assert!(found.unwrap().is_empty());
    assert_eq!(questions.len(), 12);
}

#[test]
fn searches_ask_in_order() {
    let (found, questions) = search(|stage, path| match stage {
        Stage::Partition => path != "a",
        Stage::Strict => path == "b" || path == "d",
        Stage::Inclusive => false,
    });
    assert_eq!(found.unwrap(), ["b", "d"]);
    let expected = [
        (Stage::Partition, "a"),
        (Stage::Partition, "b"),
        (Stage::Strict, "b"),
        (Stage::Partition, "c"),
        (Stage::Strict, "c"),
        (Stage::Inclusive, "c"),
        (Stage::Partition, "d"),
        (Stage::Strict, "d"),
    ];
    assert_eq!(questions, expected.map(|(stage, path)| (stage, path.to_string())));
}

#[test]
fn partial_matches_end_the_search() {
    let (found, questions) = search(|stage, path| stage != Stage::Strict || path != "c");
    assert_eq!(
        found.unwrap_err(),
        "Cannot delete file where some, but not all, rows match filter: c"
    );
    assert_eq!(questions.last(), Some(&(Stage::Inclusive, "c".to_string())));
}

#[test]
fn tables_without_a_snapshot_have_no_files() {
    let step = OverwriteFilesAction::<()>::collect_files_matching_filter(&table(&[]));
    let MatchStep::Matched(files) = step else { panic!("nothing is to be read") };
    assert!(files.is_empty());
    // A current snapshot that is not known counts as none.
    let mut unknown = line();
    unknown.metadata.current_snapshot_id = Some(99);
    let step = OverwriteFilesAction::<()>::collect_files_matching_filter(&unknown);
    assert!(matches!(step, MatchStep::Matched(_)));
}
