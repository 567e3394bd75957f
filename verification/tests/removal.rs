//! The removal of data files from manifests, step by step.

use std::collections::{HashMap, HashSet};

use snapshot_commit::error::{Error, ErrorKind};
use snapshot_commit::filter::{FilterOutcome, FilterStep, ManifestFilterManager};
use snapshot_commit::summary::ChangeKind;
use snapshot_commit::types::{
    DataContentType, DataFile, FormatVersion, ManifestContentType, ManifestEntry, ManifestFile,
    ManifestStatus, Table, TableMetadata,
};
use snapshot_commit::writer::ManifestLayout;

const UUID: u128 = 0x0190a5b8_1c2d_7e3f_8a4b_5c6d7e8f9012;

fn table(format_version: FormatVersion) -> Table {
    Table {
        metadata: TableMetadata {
            format_version,
            current_snapshot_id: None,
            snapshots: HashMap::new(),
            metadata_location: Ok("s3://warehouse/t/metadata".to_string()),
            current_schema_id: 4,
            default_partition_spec_id: 0,
            partition_spec_ids: HashSet::from([0, 3]),
        },
        encrypted: false,
    }
}

fn file(path: &str) -> DataFile {
    DataFile {
        content: DataContentType::Data,
        file_path: path.to_string(),
        record_count: 1,
        file_size_in_bytes: 2,
        referenced_data_file: None,
        details: 9,
    }
}

fn entry(status: ManifestStatus, path: &str) -> ManifestEntry {
    ManifestEntry {
        status,
        snapshot_id: None,
        sequence_number: None,
        file_sequence_number: None,
        data_file: file(path),
    }
}

fn manifest(path: &str, content: ManifestContentType, partition_spec_id: i32) -> ManifestFile {
    ManifestFile {
        manifest_path: path.to_string(),
        content,
        partition_spec_id,
        added_snapshot_id: 77,
        has_added_files: true,
        has_existing_files: false,
        has_deleted_files: false,
    }
}

fn manager(fail_missing: bool, paths: &[&str]) -> ManifestFilterManager {
    let mut manager = ManifestFilterManager::new(fail_missing);
    for path in paths {
        manager.add_delete(path.to_string());
    }
    manager
}

fn done(step: FilterStep<'_>) -> FilterOutcome {
    match step {
        FilterStep::Done(outcome) => outcome,
        _ => panic!("the removal is not complete"),
    }
}

fn failed(step: FilterStep<'_>) -> Error {
    match step {
        FilterStep::Failed(error) => error,
        _ => panic!("the removal has not failed"),
    }
}

fn paths(manifests: &[ManifestFile]) -> Vec<&str> {
    manifests.iter().map(|m| m.manifest_path.as_str()).collect()
}

#[test]
fn nothing_to_remove_reads_nothing() {
    let table = table(FormatVersion::V2);
    let manifests = vec![
        manifest("a.avro", ManifestContentType::Data, 0),
        manifest("b.avro", ManifestContentType::Deletes, 0),
    ];
    let outcome = done(manager(true, &[]).filter_manifests(&table, manifests, 5));
    assert_eq!(paths(&outcome.manifests), ["a.avro", "b.avro"]);
    assert!(outcome.removed.changes().is_empty());
    assert!(outcome.written_paths.is_empty());
}

#[test]
fn delete_manifests_are_passed_over() {
    let table = table(FormatVersion::V2);
    let manifests = vec![
        manifest("d1.avro", ManifestContentType::Deletes, 0),
        manifest("a.avro", ManifestContentType::Data, 0),
        manifest("d2.avro", ManifestContentType::Deletes, 0),
    ];
    let step = manager(false, &["x"]).filter_manifests(&table, manifests, 5);
    let FilterStep::Read(read) = step else { panic!("a manifest is to be read") };
    assert_eq!(read.manifest().manifest_path, "a.avro");
    let outcome = done(read.resume(vec![entry(ManifestStatus::Added, "y")]));
    assert_eq!(paths(&outcome.manifests), ["d1.avro", "a.avro", "d2.avro"]);
}

#[test]
fn survivors_are_carried_over_as_existing() {
    let table = table(FormatVersion::V2);
    let manifests = vec![manifest("a.avro", ManifestContentType::Data, 3)];
    let step = manager(true, &["x"]).filter_manifests(&table, manifests, 5);
    let FilterStep::Read(read) = step else { panic!("a manifest is to be read") };
    let mut known = entry(ManifestStatus::Existing, "kept-with-ids");
    known.snapshot_id = Some(11);
    known.sequence_number = Some(12);
    known.file_sequence_number = Some(13);
    let step = read.resume_with_uuid(
        vec![
            entry(ManifestStatus::Added, "kept"),
            entry(ManifestStatus::Added, "x"),
            entry(ManifestStatus::Deleted, "gone"),
            known,
        ],
        UUID,
    );
    let FilterStep::Write(write) = step else { panic!("a manifest is to be written") };
    let writer = write.writer();
    assert_eq!(
        writer.output_file,
        "s3://warehouse/t/metadata/0190a5b8-1c2d-7e3f-8a4b-5c6d7e8f9012-m-filter-3.avro"
    );
    assert_eq!(writer.snapshot_id, Some(5));
    assert_eq!(writer.layout, ManifestLayout::V2Data);
    assert_eq!(writer.schema_id, 4);
    assert_eq!(writer.partition_spec_id, 3);
    assert!(!writer.encrypted);
    assert_eq!(writer.entries.len(), 2);
    let first = &writer.entries[0];
    assert_eq!(first.status, ManifestStatus::Existing);
    assert_eq!(first.file_path(), "kept");
    assert_eq!(first.snapshot_id, Some(77));
    assert_eq!(first.sequence_number, Some(0));
    assert_eq!(first.file_sequence_number, Some(0));
    assert_eq!(first.data_file.details, 9);
    let second = &writer.entries[1];
    assert_eq!(second.status, ManifestStatus::Existing);
    assert_eq!(second.file_path(), "kept-with-ids");
    assert_eq!(second.snapshot_id, Some(11));
    assert_eq!(second.sequence_number, Some(12));
    assert_eq!(second.file_sequence_number, Some(13));

    let outcome = done(write.resume(manifest("new.avro", ManifestContentType::Data, 3)));
    assert_eq!(paths(&outcome.manifests), ["new.avro"]);
    assert_eq!(outcome.written_paths, ["new.avro"]);
    let changes = outcome.removed.changes();
    assert_eq!(changes.len(), 1);
    assert_eq!(changes[0].kind, ChangeKind::Removed);
    assert_eq!(changes[0].file.file_path, "x");
    assert_eq!(changes[0].schema_id, 4);
    assert_eq!(changes[0].partition_spec_id, 3);
}

#[test]
fn rewritten_manifests_get_a_new_version_7_uuid() {
    let table = table(FormatVersion::V3);
    let mut names = Vec::new();
    for _ in 0..2 {
        let manifests = vec![manifest("a.avro", ManifestContentType::Data, 0)];
        let step = manager(true, &["x"]).filter_manifests(&table, manifests, 5);
        let FilterStep::Read(read) = step else { panic!("a manifest is to be read") };
        let step = read.resume(vec![
            entry(ManifestStatus::Added, "x"),
            entry(ManifestStatus::Added, "kept"),
        ]);
        let FilterStep::Write(write) = step else { panic!("a manifest is to be written") };
        let name = write
            .writer()
            .output_file
            .strip_prefix("s3://warehouse/t/metadata/")
            .unwrap()
            .strip_suffix("-m-filter-0.avro")
            .unwrap()
            .to_string();
        assert_eq!(name.len(), 36);
        assert_eq!(&name[14..15], "7");
        assert!("89ab".contains(&name[19..20]));
        assert_eq!(write.writer().layout, ManifestLayout::V3Data);
        names.push(name);
    }
    assert_ne!(names[0], names[1]);
}

#[test]
fn manifests_without_survivors_are_dropped() {
    let table = table(FormatVersion::V2);
    let manifests = vec![
        manifest("a.avro", ManifestContentType::Data, 0),
        manifest("b.avro", ManifestContentType::Data, 0),
    ];
    let step = manager(true, &["x", "y"]).filter_manifests(&table, manifests, 5);
    let FilterStep::Read(read) = step else { panic!("a manifest is to be read") };
    let step = read.resume(vec![
        entry(ManifestStatus::Added, "x"),
        entry(ManifestStatus::Deleted, "gone"),
        entry(ManifestStatus::Existing, "y"),
    ]);
    let FilterStep::Read(read) = step else { panic!("a manifest is to be read") };
    assert_eq!(read.manifest().manifest_path, "b.avro");
    let outcome = done(read.resume(vec![entry(ManifestStatus::Added, "z")]));
    assert_eq!(paths(&outcome.manifests), ["b.avro"]);
    assert!(outcome.written_paths.is_empty());
    let removed: Vec<&str> =
        outcome.removed.changes().iter().map(|c| c.file.file_path.as_str()).collect();
    assert_eq!(removed, ["x", "y"]);
}

#[test]
fn deleted_entries_are_not_found() {
    let table = table(FormatVersion::V2);
    let manifests = vec![manifest("a.avro", ManifestContentType::Data, 0)];
    let step = manager(true, &["x", "y", "x"]).filter_manifests(&table, manifests, 5);
    let FilterStep::Read(read) = step else { panic!("a manifest is to be read") };
    let error = failed(read.resume(vec![entry(ManifestStatus::Deleted, "x")]));
    assert_eq!(error.kind(), ErrorKind::DataInvalid);
    assert_eq!(
        error.message(),
        "Failed to find the following files to delete in the current snapshot: x, y"
    );
}

#[test]
fn missing_files_can_be_tolerated() {
    let table = table(FormatVersion::V2);
    let manifests = vec![manifest("a.avro", ManifestContentType::Data, 0)];
    let step = manager(false, &["x", "y"]).filter_manifests(&table, manifests, 5);
    let FilterStep::Read(read) = step else { panic!("a manifest is to be read") };
    let outcome = done(read.resume(vec![entry(ManifestStatus::Added, "x")]));
    assert!(outcome.manifests.is_empty());
    assert_eq!(outcome.removed.changes().len(), 1);
}

#[test]
fn missing_files_fail_without_manifests() {
    let table = table(FormatVersion::V2);
    let error = failed(manager(true, &["x"]).filter_manifests(&table, vec![], 5));
    assert_eq!(
        error.message(),
        "Failed to find the following files to delete in the current snapshot: x"
    );
}

#[test]
fn unknown_partition_specs_are_refused() {
    let table = table(FormatVersion::V2);
    for (id, text) in [(-7, "-7"), (120, "120"), (i32::MIN, "-2147483648")] {
        let manifests = vec![manifest("a.avro", ManifestContentType::Data, id)];
        let step = manager(true, &["x"]).filter_manifests(&table, manifests, 5);
        let FilterStep::Read(read) = step else { panic!("a manifest is to be read") };
        let error = failed(read.resume(vec![entry(ManifestStatus::Added, "x")]));
        assert_eq!(error.kind(), ErrorKind::DataInvalid);
        assert_eq!(
            error.message(),
            format!("Manifest references unknown partition spec {}", text)
        );
    }
    // A manifest that lists none of the files is not looked at more closely.
    let manifests = vec![manifest("a.avro", ManifestContentType::Data, -7)];
    let step = manager(false, &["x"]).filter_manifests(&table, manifests, 5);
    let FilterStep::Read(read) = step else { panic!("a manifest is to be read") };
    let outcome = done(read.resume(vec![entry(ManifestStatus::Added, "y")]));
    assert_eq!(paths(&outcome.manifests), ["a.avro"]);
}

#[test]
fn the_metadata_location_is_needed_for_survivors_only() {
    let mut table = table(FormatVersion::V2);
    table.metadata.metadata_location =
        Err(Error::new(ErrorKind::Unexpected, "no location".to_string()));
    let manifests = vec![manifest("a.avro", ManifestContentType::Data, 0)];
    let step = manager(true, &["x"]).filter_manifests(&table, manifests.clone(), 5);
    let FilterStep::Read(read) = step else { panic!("a manifest is to be read") };
    let error = failed(read.resume(vec![
        entry(ManifestStatus::Added, "x"),
        entry(ManifestStatus::Added, "kept"),
    ]));
    assert_eq!(error.kind(), ErrorKind::Unexpected);
    assert_eq!(error.message(), "no location");

    let step = manager(true, &["x"]).filter_manifests(&table, manifests, 5);
    let FilterStep::Read(read) = step else { panic!("a manifest is to be read") };
    assert!(done(read.resume(vec![entry(ManifestStatus::Added, "x")])).manifests.is_empty());
}

#[test]
fn a_file_that_is_listed_twice_is_removed_twice() {
    let table = table(FormatVersion::V1);
    let manifests = vec![
        manifest("a.avro", ManifestContentType::Data, 0),
        manifest("b.avro", ManifestContentType::Data, 0),
    ];
    let step = manager(true, &["x"]).filter_manifests(&table, manifests, 5);
    let FilterStep::Read(read) = step else { panic!("a manifest is to be read") };
    let step = read.resume(vec![entry(ManifestStatus::Added, "x")]);
    let FilterStep::Read(read) = step else { panic!("a manifest is to be read") };
    let outcome = done(read.resume(vec![entry(ManifestStatus::Existing, "x")]));
    assert_eq!(outcome.removed.changes().len(), 2);
    assert!(outcome.manifests.is_empty());
}

#[test]
fn removing_twice_changes_nothing() {
    let table = table(FormatVersion::V2);
    for fail_missing in [false, true] {
        let manifests = vec![manifest("a.avro", ManifestContentType::Data, 0)];
        let step = manager(true, &["x"]).filter_manifests(&table, manifests, 5);
        let FilterStep::Read(read) = step else { panic!("a manifest is to be read") };
        let step = read.resume(vec![
            entry(ManifestStatus::Added, "x"),
            entry(ManifestStatus::Added, "kept"),
        ]);
        let FilterStep::Write(write) = step else { panic!("a manifest is to be written") };
        let outcome = done(write.resume(manifest("b.avro", ManifestContentType::Data, 0)));

        let step = manager(fail_missing, &["x"]).filter_manifests(&table, outcome.manifests, 6);
        let FilterStep::Read(read) = step else { panic!("a manifest is to be read") };
        let step = read.resume(vec![entry(ManifestStatus::Existing, "kept")]);
        if fail_missing {
            assert_eq!(
                failed(step).message(),
                "Failed to find the following files to delete in the current snapshot: x"
            );
        } else {
            let again = done(step);
            assert_eq!(paths(&again.manifests), ["b.avro"]);
            assert!(again.removed.changes().is_empty());
            assert!(again.written_paths.is_empty());
        }
    }
}
