//! The manifests and summaries of added files, and attempts that follow one another.

use std::collections::{HashMap, HashSet};

use snapshot_commit::commit::{CommitStep, SnapshotPlan};
use snapshot_commit::error::{Error, ErrorKind};
use snapshot_commit::merging::{ManifestCache, MergingSnapshotProducer};
use snapshot_commit::overwrite::{OverwriteFilesAction, OverwriteStep};
use snapshot_commit::row_delta::{RowDeltaAction, RowDeltaStep};
use snapshot_commit::summary::{ChangeKind, SnapshotSummaryCollector};
use snapshot_commit::types::{
    DataContentType, DataFile, FormatVersion, ManifestContentType, ManifestEntry, ManifestFile,
    ManifestStatus, Operation, Snapshot, Table, TableMetadata,
};
use snapshot_commit::writer::{new_manifest_writer, ManifestLayout};

const UUID: u128 = 0xfedcba98_7654_7210_8123_456789abcdef;
const UUID_TEXT: &str = "fedcba98-7654-7210-8123-456789abcdef";

fn table(format_version: FormatVersion) -> Table {
    Table {
        metadata: TableMetadata {
            format_version,
            current_snapshot_id: Some(1),
            snapshots: HashMap::from([(
                1,
                Snapshot { parent_snapshot_id: None, operation: Operation::Append },
            )]),
            metadata_location: Ok("loc".to_string()),
            current_schema_id: 2,
            default_partition_spec_id: 6,
            partition_spec_ids: HashSet::from([6]),
        },
        encrypted: true,
    }
}

fn file(content: DataContentType, path: &str) -> DataFile {
    DataFile {
        content,
        file_path: path.to_string(),
        record_count: 1,
        file_size_in_bytes: 2,
        referenced_data_file: None,
        details: 0,
    }
}

fn data_file(path: &str) -> DataFile {
    file(DataContentType::Data, path)
}

fn manifest(path: &str, content: ManifestContentType) -> ManifestFile {
    ManifestFile {
        manifest_path: path.to_string(),
        content,
        partition_spec_id: 6,
        added_snapshot_id: 1,
        has_added_files: true,
        has_existing_files: false,
        has_deleted_files: false,
    }
}

fn entry(path: &str) -> ManifestEntry {
    ManifestEntry {
        status: ManifestStatus::Added,
        snapshot_id: Some(1),
        sequence_number: Some(1),
        file_sequence_number: Some(1),
        data_file: data_file(path),
    }
}

fn paths(manifests: &[ManifestFile]) -> Vec<&str> {
    manifests.iter().map(|m| m.manifest_path.as_str()).collect()
}

fn reported(plan: &SnapshotPlan, kind: ChangeKind) -> Vec<&str> {
    plan.summary
        .changes
        .changes()
        .iter()
        .filter(|c| c.kind == kind)
        .map(|c| c.file.file_path.as_str())
        .collect()
}

#[test]
fn layouts_follow_version_and_content() {
    for (version, content, layout) in [
        (FormatVersion::V1, ManifestContentType::Data, ManifestLayout::V1),
        (FormatVersion::V1, ManifestContentType::Deletes, ManifestLayout::V1),
        (FormatVersion::V2, ManifestContentType::Data, ManifestLayout::V2Data),
        (FormatVersion::V2, ManifestContentType::Deletes, ManifestLayout::V2Deletes),
        (FormatVersion::V3, ManifestContentType::Data, ManifestLayout::V3Data),
        (FormatVersion::V3, ManifestContentType::Deletes, ManifestLayout::V3Deletes),
    ] {
        let writer =
            new_manifest_writer(&table(version), "out".to_string(), Some(3), content, 4, 5);
        assert_eq!(writer.layout, layout);
        assert_eq!(writer.output_file, "out");
        assert_eq!(writer.snapshot_id, Some(3));
        assert_eq!(writer.schema_id, 4);
        assert_eq!(writer.partition_spec_id, 5);
        assert!(writer.encrypted);
        assert!(writer.entries.is_empty());
    }
}

#[test]
fn added_files_are_listed_in_state_added() {
    let producer = MergingSnapshotProducer::with_commit_uuid(Operation::Append, UUID);
    let files = vec![data_file("a"), data_file("b")];
    for (version, snapshot_id) in [
        (FormatVersion::V1, Some(8)),
        (FormatVersion::V2, None),
        (FormatVersion::V3, None),
    ] {
        let writer = producer
            .write_manifest_for_files(
                &table(version),
                8,
                ManifestContentType::Data,
                &files,
                "added",
            )
            .unwrap();
        assert_eq!(writer.output_file, format!("loc/{}-m-added.avro", UUID_TEXT));
        assert_eq!(writer.snapshot_id, Some(8));
        assert_eq!(writer.schema_id, 2);
        assert_eq!(writer.partition_spec_id, 6);
        assert_eq!(writer.entries.len(), 2);
        for (entry, path) in writer.entries.iter().zip(["a", "b"]) {
            assert_eq!(entry.status, ManifestStatus::Added);
            assert_eq!(entry.snapshot_id, snapshot_id);
            assert_eq!(entry.sequence_number, None);
            assert_eq!(entry.file_sequence_number, None);
            assert_eq!(entry.file_path(), path);
        }
    }
}

#[test]
fn version_1_has_no_delete_files() {
    let producer = MergingSnapshotProducer::with_commit_uuid(Operation::Overwrite, UUID);
    let files = vec![file(DataContentType::PositionDeletes, "d")];
    let error = producer
        .write_manifest_for_files(
            &table(FormatVersion::V1),
            8,
            ManifestContentType::Deletes,
            &files,
            "deletes",
        )
        .unwrap_err();
    assert_eq!(error.kind(), ErrorKind::FeatureUnsupported);
    assert_eq!(error.message(), "Delete files are not supported in format version 1");
    let writer = producer
        .write_manifest_for_files(
            &table(FormatVersion::V2),
            8,
            ManifestContentType::Deletes,
            &files,
            "deletes",
        )
        .unwrap();
    assert_eq!(writer.output_file, format!("loc/{}-m-deletes.avro", UUID_TEXT));
    assert_eq!(writer.layout, ManifestLayout::V2Deletes);
}

#[test]
fn the_failure_to_locate_metadata_is_passed_on() {
    let producer = MergingSnapshotProducer::with_commit_uuid(Operation::Append, UUID);
    let mut table = table(FormatVersion::V2);
    table.metadata.metadata_location =
        Err(Error::new(ErrorKind::Unexpected, "nowhere".to_string()));
    let error = producer
        .write_manifest_for_files(
            &table,
            8,
            ManifestContentType::Data,
            &vec![data_file("a")],
            "added",
        )
        .unwrap_err();
    assert_eq!(error.kind(), ErrorKind::Unexpected);
    assert_eq!(error.message(), "nowhere");
}

#[test]
fn new_producers_have_version_7_uuids() {
    let mut names = Vec::new();
    for _ in 0..2 {
        let producer = MergingSnapshotProducer::new(Operation::Append);
        let writer = producer
            .write_manifest_for_files(
                &table(FormatVersion::V2),
                8,
                ManifestContentType::Data,
                &vec![],
                "added",
            )
            .unwrap();
        let name = writer.output_file.clone();
        assert_eq!(&name[..4], "loc/");
        assert_eq!(&name[18..19], "7");
        assert!("89ab".contains(&name[23..24]));
        assert_eq!(&name[40..], "-m-added.avro");
        names.push(name);
    }
    assert_ne!(names[0], names[1]);
}

#[test]
fn summaries_report_added_files_before_removed_ones() {
    let mut producer = MergingSnapshotProducer::with_commit_uuid(Operation::Overwrite, UUID);
    producer.add_delete_file(file(DataContentType::EqualityDeletes, "d"));
    producer.add_data_file(data_file("a"));
    assert!(producer.has_added_data_files());
    assert!(producer.has_added_delete_files());
    assert!(!producer.has_deleted_data_files());
    assert_eq!(producer.added_delete_files().len(), 1);
    assert_eq!(producer.deleted_data_files().len(), 0);
    let mut removed = SnapshotSummaryCollector::new();
    removed.remove_file(&data_file("x"), 2, 3);
    let summary = producer.build_summary(&table(FormatVersion::V2), removed, Operation::Delete);
    assert_eq!(summary.operation, Operation::Delete);
    assert_eq!(summary.previous_snapshot_id, Some(1));
    let changes: Vec<(ChangeKind, &str, i32, i32)> = summary
        .changes
        .changes()
        .iter()
        .map(|c| (c.kind, c.file.file_path.as_str(), c.schema_id, c.partition_spec_id))
        .collect();
    assert_eq!(
        changes,
        [
            (ChangeKind::Added, "a", 2, 6),
            (ChangeKind::Added, "d", 2, 6),
            (ChangeKind::Removed, "x", 2, 3),
        ]
    );
}

/// Answers the steps of an attempt on a table with one data manifest, which lists the files `x`
/// and `y`, one delete manifest, and one manifest without files. Returns the plan, the paths that
/// were cleaned up and the paths that were written.
fn run<'a>(
    step: CommitStep<'a>,
    cache: &mut ManifestCache,
) -> (Result<SnapshotPlan, Error>, Vec<String>, Vec<String>) {
    let mut step = step;
    let mut cleaned = Vec::new();
    let mut written = Vec::new();
    loop {
        step = match step {
            CommitStep::Load(load) => {
                assert_eq!(load.snapshot_id(), 1);
                let mut empty = manifest("empty.avro", ManifestContentType::Data);
                empty.has_added_files = false;
                load.resume(
                    vec![
                        manifest("data.avro", ManifestContentType::Data),
                        empty,
                        manifest("deletes.avro", ManifestContentType::Deletes),
                    ],
                    cache,
                )
            },
            CommitStep::CleanUp(clean_up) => {
                cleaned.extend(clean_up.paths().iter().cloned());
                clean_up.resume(cache)
            },
            CommitStep::Read(read) => {
                assert_eq!(read.manifest().manifest_path, "data.avro");
                read.resume_with_uuid(vec![entry("x"), entry("y")], UUID, cache)
            },
            CommitStep::Rewrite(rewrite) => {
                let path = rewrite.writer().output_file.clone();
                written.push(path.clone());
                rewrite.resume(manifest(&path, ManifestContentType::Data), cache)
            },
            CommitStep::WriteData(write) => {
                let path = write.writer().output_file.clone();
                written.push(path.clone());
                write.resume(manifest(&path, ManifestContentType::Data), cache)
            },
            CommitStep::WriteDeletes(write) => {
                let path = write.writer().output_file.clone();
                written.push(path.clone());
                write.resume(manifest(&path, ManifestContentType::Deletes), cache)
            },
            CommitStep::Done(plan) => return (Ok(plan), cleaned, written),
            CommitStep::Failed(error) => return (Err(error), cleaned, written),
        };
    }
}

#[test]
fn later_attempts_reuse_what_was_written() {
    let table = table(FormatVersion::V2);
    let mut producer = MergingSnapshotProducer::with_commit_uuid(Operation::Overwrite, UUID);
    producer.add_data_file(data_file("a"));
    producer.add_delete_file(file(DataContentType::PositionDeletes, "d"));
    producer.delete_data_file(data_file("x"));
    let filtered = format!("loc/{}-m-filter-6.avro", UUID_TEXT);
    let added = format!("loc/{}-m-added.avro", UUID_TEXT);
    let deletes = format!("loc/{}-m-deletes.avro", UUID_TEXT);

    let mut cache = ManifestCache::default();
    let step = producer.commit_snapshot(&table, &mut cache, 100);
    let (first, cleaned, written) = run(step, &mut cache);
    let first = first.unwrap();
    assert!(cleaned.is_empty());
    assert_eq!(written, [filtered.as_str(), added.as_str(), deletes.as_str()]);
    assert_eq!(first.snapshot_id, 100);
    assert_eq!(
        paths(&first.manifests),
        [filtered.as_str(), "deletes.avro", added.as_str(), deletes.as_str()]
    );
    assert_eq!(first.summary.operation, Operation::Overwrite);
    assert_eq!(reported(&first, ChangeKind::Added), ["a", "d"]);
    assert_eq!(reported(&first, ChangeKind::Removed), ["x"]);
    assert_eq!(cache.previous_filter_manifest_paths, [filtered.as_str()]);

    let step = producer.commit_snapshot(&table, &mut cache, 200);
    let (second, cleaned, written) = run(step, &mut cache);
    let second = second.unwrap();
    assert_eq!(cleaned, [filtered.as_str()]);
    assert_eq!(written, [filtered.as_str()]);
    assert_eq!(second.snapshot_id, 100);
    assert_eq!(paths(&second.manifests), paths(&first.manifests));
    assert_eq!(cache.snapshot_id, Some(100));
}

#[test]
fn attempts_that_were_given_up_leave_their_snapshot_id() {
    let table = table(FormatVersion::V2);
    let mut producer = MergingSnapshotProducer::with_commit_uuid(Operation::Append, UUID);
    producer.add_data_file(data_file("a"));
    let mut cache = ManifestCache::default();
    cache.previous_filter_manifest_paths.push("stale.avro".to_string());
    let step = producer.commit_snapshot(&table, &mut cache, 100);
    assert!(matches!(step, CommitStep::Load(_)));
    drop(step);
    assert_eq!(cache.snapshot_id, Some(100));
    assert_eq!(cache.previous_filter_manifest_paths, ["stale.avro"]);

    let step = producer.commit_snapshot(&table, &mut cache, 200);
    let (plan, cleaned, _) = run(step, &mut cache);
    assert_eq!(plan.unwrap().snapshot_id, 100);
    assert_eq!(cleaned, ["stale.avro"]);
    assert!(cache.previous_filter_manifest_paths.is_empty());
}

#[test]
fn failed_removals_forget_what_was_cleaned_up() {
    let table = table(FormatVersion::V2);
    let mut producer = MergingSnapshotProducer::with_commit_uuid(Operation::Delete, UUID);
    producer.delete_data_file(data_file("ghost"));
    producer.delete_data_file(data_file("phantom"));
    producer.delete_data_file(data_file("ghost"));
    let mut cache = ManifestCache::default();
    cache.previous_filter_manifest_paths.push("stale.avro".to_string());
    let step = producer.commit_snapshot(&table, &mut cache, 100);
    let (result, cleaned, written) = run(step, &mut cache);
    assert_eq!(
        result.unwrap_err().message(),
        "Failed to find the following files to delete in the current snapshot: ghost, phantom"
    );
    assert_eq!(cleaned, ["stale.avro"]);
    assert!(written.is_empty());
    assert!(cache.previous_filter_manifest_paths.is_empty());
}

#[test]
fn delete_files_on_version_1_fail_after_the_data_files() {
    let table = table(FormatVersion::V1);
    let mut producer = MergingSnapshotProducer::with_commit_uuid(Operation::Overwrite, UUID);
    producer.add_data_file(data_file("a"));
    producer.add_delete_file(file(DataContentType::PositionDeletes, "d"));
    let mut cache = ManifestCache::default();
    let step = producer.commit_snapshot(&table, &mut cache, 100);
    let (result, _, written) = run(step, &mut cache);
    assert_eq!(result.unwrap_err().kind(), ErrorKind::FeatureUnsupported);
    assert_eq!(written, [format!("loc/{}-m-added.avro", UUID_TEXT)]);
    assert_eq!(cache.new_data_manifests.unwrap().len(), 1);
    assert!(cache.new_delete_manifests.is_none());
}

#[test]
fn dynamic_deletes_take_the_place_of_the_own_ones() {
    let table = table(FormatVersion::V2);
    let mut producer = MergingSnapshotProducer::with_commit_uuid(Operation::Overwrite, UUID);
    producer.add_data_file(data_file("a"));
    producer.add_delete_file(file(DataContentType::PositionDeletes, "d"));
    producer.delete_data_file(data_file("ghost"));
    let mut cache = ManifestCache::default();
    let step = producer.commit_snapshot_with_dynamic_deletes(
        &table,
        Operation::Delete,
        vec![data_file("y"), data_file("x")],
        &mut cache,
        100,
    );
    let (plan, _, written) = run(step, &mut cache);
    let plan = plan.unwrap();
    let added = format!("loc/{}-m-added.avro", UUID_TEXT);
    assert_eq!(written, [added.as_str()]);
    assert_eq!(paths(&plan.manifests), ["deletes.avro", added.as_str()]);
    assert_eq!(plan.summary.operation, Operation::Delete);
    assert_eq!(reported(&plan, ChangeKind::Added), ["a"]);
    assert_eq!(reported(&plan, ChangeKind::Removed), ["x", "y"]);
}

#[test]
fn registered_and_dynamic_removals_agree() {
    let table = table(FormatVersion::V2);
    for removed in [vec!["x"], vec!["y", "x"], vec![], vec!["x", "ghost"]] {
        let files: Vec<DataFile> = removed.iter().map(|path| data_file(path)).collect();
        let mut registered = MergingSnapshotProducer::with_commit_uuid(Operation::Overwrite, UUID);
        let mut dynamic = MergingSnapshotProducer::with_commit_uuid(Operation::Overwrite, UUID);
        registered.add_data_file(data_file("a"));
        dynamic.add_data_file(data_file("a"));
        for file in &files {
            registered.delete_data_file(file.clone());
        }
        let mut cache = ManifestCache::default();
        let step = registered.commit_snapshot_with_operation(
            &table,
            Operation::Overwrite,
            &mut cache,
            100,
        );
        let (first, _, first_written) = run(step, &mut cache);
        let mut cache = ManifestCache::default();
        let step = dynamic.commit_snapshot_with_dynamic_deletes(
            &table,
            Operation::Overwrite,
            files,
            &mut cache,
            100,
        );
        let (second, _, second_written) = run(step, &mut cache);
        assert_eq!(first_written, second_written);
        match (first, second) {
            (Ok(first), Ok(second)) => {
                assert_eq!(first.snapshot_id, second.snapshot_id);
                assert_eq!(paths(&first.manifests), paths(&second.manifests));
                assert_eq!(first.summary.operation, second.summary.operation);
                assert_eq!(reported(&first, ChangeKind::Added), ["a"]);
                assert_eq!(reported(&second, ChangeKind::Added), ["a"]);
                assert_eq!(
                    reported(&first, ChangeKind::Removed),
                    reported(&second, ChangeKind::Removed)
                );
            },
            (Err(first), Err(second)) => {
                assert!(removed.contains(&"ghost"));
                assert_eq!(first.kind(), second.kind());
                assert_eq!(first.message(), second.message());
            },
            _ => panic!("one attempt has failed and the other has not"),
        }
    }
}

#[test]
fn tables_without_a_snapshot_have_no_manifests() {
    let mut table = table(FormatVersion::V2);
    table.metadata.current_snapshot_id = None;
    let mut producer = MergingSnapshotProducer::with_commit_uuid(Operation::Append, UUID);
    producer.add_data_file(data_file("a"));
    let mut cache = ManifestCache::default();
    let step = producer.commit_snapshot_with_operation(
        &table,
        Operation::Replace,
        &mut cache,
        100,
    );
    assert!(matches!(step, CommitStep::CleanUp(_)));
    let (plan, _, _) = run(step, &mut cache);
    let plan = plan.unwrap();
    assert_eq!(plan.manifests.len(), 1);
    assert_eq!(plan.summary.operation, Operation::Replace);
    assert_eq!(plan.summary.previous_snapshot_id, None);
}

#[test]
fn overwrites_are_checked_before_anything_is_read() {
    let table = table(FormatVersion::V2);
    let both = OverwriteFilesAction::with_commit_uuid(UUID)
        .overwrite_by_row_filter(())
        .delete_file(data_file("x"));
    assert_eq!(
        both.validate().unwrap_err().message(),
        "Cannot use both overwrite_by_row_filter and delete_file in the same action"
    );
    assert!(matches!(both.commit(&table), OverwriteStep::Failed(_)));
    let empty = OverwriteFilesAction::<()>::with_commit_uuid(UUID);
    assert_eq!(
        empty.validate().unwrap_err().message(),
        "Overwrite requires a row filter, or at least one file to add or delete"
    );
    assert!(matches!(empty.commit(&table), OverwriteStep::Failed(_)));
    let filter = OverwriteFilesAction::with_commit_uuid(UUID).overwrite_by_row_filter(());
    assert!(filter.validate().is_ok());
    assert!(matches!(filter.commit(&table), OverwriteStep::Bind(_)));
}

#[test]
fn row_deltas_are_checked_before_anything_is_read() {
    let table = table(FormatVersion::V2);
    let empty = RowDeltaAction::with_commit_uuid(UUID);
    assert_eq!(
        empty.validate().unwrap_err().message(),
        "RowDelta requires at least one data file or delete file to add"
    );
    let wrong = RowDeltaAction::with_commit_uuid(UUID)
        .add_deletes(file(DataContentType::EqualityDeletes, "d"))
        .add_deletes(data_file("a"))
        .add_deletes(data_file("b"));
    let error = wrong.validate().unwrap_err();
    assert_eq!(error.kind(), ErrorKind::DataInvalid);
    assert_eq!(error.message(), "Cannot add a data file as a delete file: a");
    assert!(matches!(wrong.commit(&table), RowDeltaStep::Failed(_)));
    // Delete files without a reference need no search.
    let fine = RowDeltaAction::with_commit_uuid(UUID)
        .add_deletes(file(DataContentType::EqualityDeletes, "d"));
    let RowDeltaStep::Ready(ready) = fine.commit(&table) else { panic!("nothing is searched") };
    let mut cache = ManifestCache::default();
    let step = ready.begin(&mut cache, 100);
    let (plan, _, _) = run(step, &mut cache);
    assert_eq!(plan.unwrap().summary.operation, Operation::Overwrite);
}
