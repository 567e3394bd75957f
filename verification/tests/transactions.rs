//! Whole operations against a table that is kept in memory.

use std::collections::{HashMap, HashSet};

use snapshot_commit::ancestry::check_ancestry_ends;
use snapshot_commit::commit::{CommitStep, SnapshotPlan};
use snapshot_commit::conflicts::{validate_no_new_deletes_for_data_files, ConflictStep};
use snapshot_commit::error::{Error, ErrorKind};
use snapshot_commit::existence::{validate_data_files_exist, ExistenceStep};
use snapshot_commit::matching::Stage;
use snapshot_commit::merging::{ManifestCache, MergingSnapshotProducer};
use snapshot_commit::overwrite::{OverwriteFilesAction, OverwriteStep};
use snapshot_commit::row_delta::{RowDeltaAction, RowDeltaStep};
use snapshot_commit::summary::ChangeKind;
use snapshot_commit::types::{
    DataContentType, DataFile, FormatVersion, ManifestContentType, ManifestEntry, ManifestFile,
    ManifestStatus, Operation, Snapshot, Table, TableMetadata,
};
use snapshot_commit::writer::{ManifestLayout, ManifestWriter};

/// A row filter: every row, or the rows whose value in a column exceeds a bound.
enum Filter {
    AlwaysTrue,
    GreaterThan(i32, i64),
}

/// The partition and the column bounds of a data file.
struct Columns {
    partition_x: i64,
    lower_bounds: HashMap<i32, i64>,
    upper_bounds: HashMap<i32, i64>,
}

/// The storage behind the tables.
struct Catalog {
    lists: HashMap<i64, Vec<ManifestFile>>,
    manifests: HashMap<String, Vec<ManifestEntry>>,
    summaries: HashMap<i64, HashMap<String, String>>,
    columns: HashMap<u64, Columns>,
    next_snapshot_id: i64,
    written: Vec<String>,
}

fn new_memory_catalog() -> Catalog {
    let columns = HashMap::from([(
        0,
        Columns { partition_x: 100, lower_bounds: HashMap::new(), upper_bounds: HashMap::new() },
    )]);
    Catalog {
        lists: HashMap::new(),
        manifests: HashMap::new(),
        summaries: HashMap::new(),
        columns,
        next_snapshot_id: 1000,
        written: Vec::new(),
    }
}

fn make_v3_minimal_table() -> Table {
    Table {
        metadata: TableMetadata {
            format_version: FormatVersion::V3,
            current_snapshot_id: None,
            snapshots: HashMap::new(),
            metadata_location: Ok("memory:/table/metadata".to_string()),
            current_schema_id: 0,
            default_partition_spec_id: 0,
            partition_spec_ids: HashSet::from([0]),
        },
        encrypted: false,
    }
}

fn make_data_file(path: &str, record_count: u64, file_size_in_bytes: u64) -> DataFile {
    DataFile {
        content: DataContentType::Data,
        file_path: path.to_string(),
        record_count,
        file_size_in_bytes,
        referenced_data_file: None,
        details: 0,
    }
}

fn make_position_delete_file(path: &str, record_count: u64, referenced: &str) -> DataFile {
    DataFile {
        content: DataContentType::PositionDeletes,
        file_path: path.to_string(),
        record_count,
        file_size_in_bytes: 100,
        referenced_data_file: Some(referenced.to_string()),
        details: 0,
    }
}

fn copy_entry(entry: &ManifestEntry, manifest: &ManifestFile) -> ManifestEntry {
    ManifestEntry {
        status: entry.status,
        snapshot_id: entry.snapshot_id.or(Some(manifest.added_snapshot_id)),
        sequence_number: entry.sequence_number,
        file_sequence_number: entry.file_sequence_number,
        data_file: entry.data_file.clone(),
    }
}

impl Catalog {
    fn load(&self, snapshot_id: i64) -> Vec<ManifestFile> {
        self.lists[&snapshot_id].clone()
    }

    fn read(&self, manifest: &ManifestFile) -> Vec<ManifestEntry> {
        self.manifests[&manifest.manifest_path].iter().map(|e| copy_entry(e, manifest)).collect()
    }

    fn write(&mut self, writer: &ManifestWriter) -> ManifestFile {
        let content = match writer.layout {
            ManifestLayout::V2Deletes | ManifestLayout::V3Deletes => ManifestContentType::Deletes,
            _ => ManifestContentType::Data,
        };
        let has = |status: ManifestStatus| writer.entries.iter().any(|e| e.status == status);
        let manifest = ManifestFile {
            manifest_path: writer.output_file.clone(),
            content,
            partition_spec_id: writer.partition_spec_id,
            added_snapshot_id: writer.snapshot_id.unwrap(),
            has_added_files: has(ManifestStatus::Added),
            has_existing_files: has(ManifestStatus::Existing),
            has_deleted_files: has(ManifestStatus::Deleted),
        };
        let entries = writer
            .entries
            .iter()
            .map(|e| ManifestEntry {
                status: e.status,
                snapshot_id: e.snapshot_id,
                sequence_number: e.sequence_number,
                file_sequence_number: e.file_sequence_number,
                data_file: e.data_file.clone(),
            })
            .collect();
        self.manifests.insert(writer.output_file.clone(), entries);
        self.written.push(writer.output_file.clone());
        manifest
    }

    fn next_id(&mut self) -> i64 {
        self.next_snapshot_id += 1;
        self.next_snapshot_id
    }

    fn evaluate(&self, filter: &Filter, stage: Stage, file: &DataFile) -> bool {
        let columns = &self.columns[&file.details];
        match (filter, stage) {
            (Filter::AlwaysTrue, _) => true,
            (Filter::GreaterThan(1, bound), Stage::Partition) => columns.partition_x > *bound,
            (Filter::GreaterThan(_, _), Stage::Partition) => true,
            (Filter::GreaterThan(column, bound), Stage::Strict) => {
                columns.lower_bounds.get(column).is_some_and(|lower| lower > bound)
            },
            (Filter::GreaterThan(column, bound), Stage::Inclusive) => {
                columns.upper_bounds.get(column).is_none_or(|upper| upper > bound)
            },
        }
    }

    /// Runs an attempt to its end.
    fn run(&mut self, step: CommitStep<'_>, cache: &mut ManifestCache) -> Result<SnapshotPlan, Error> {
        let mut step = step;
        loop {
            step = match step {
                CommitStep::Load(load) => {
                    let list = self.load(load.snapshot_id());
                    load.resume(list, cache)
                },
                CommitStep::CleanUp(clean_up) => {
                    for path in clean_up.paths() {
                        self.manifests.remove(path);
                    }
                    clean_up.resume(cache)
                },
                CommitStep::Read(read) => {
                    let entries = self.read(read.manifest());
                    read.resume(entries, cache)
                },
                CommitStep::Rewrite(rewrite) => {
                    let written = self.write(rewrite.writer());
                    rewrite.resume(written, cache)
                },
                CommitStep::WriteData(write) => {
                    let written = self.write(write.writer());
                    write.resume(written, cache)
                },
                CommitStep::WriteDeletes(write) => {
                    let written = self.write(write.writer());
                    write.resume(written, cache)
                },
                CommitStep::Done(plan) => return Ok(plan),
                CommitStep::Failed(error) => return Err(error),
            };
        }
    }

    fn overwrite(
        &mut self,
        table: &Table,
        action: &OverwriteFilesAction<Filter>,
        cache: &mut ManifestCache,
    ) -> Result<SnapshotPlan, Error> {
        let mut filter: Option<&Filter> = None;
        let mut step = action.commit(table);
        loop {
            step = match step {
                OverwriteStep::Bind(bind) => {
                    filter = Some(bind.filter());
                    bind.resume()
                },
                OverwriteStep::Load(load) => {
                    let list = self.load(load.snapshot_id());
                    load.resume(list)
                },
                OverwriteStep::Read(read) => {
                    let entries = self.read(read.manifest());
                    read.resume(entries)
                },
                OverwriteStep::Check(check) => {
                    assert_eq!(check.partition_spec_id(), 0);
                    let holds = self.evaluate(filter.unwrap(), check.stage(), check.file());
                    check.resume(holds)
                },
                OverwriteStep::Ready(ready) => {
                    let id = self.next_id();
                    let step = ready.begin(cache, id);
                    return self.run(step, cache);
                },
                OverwriteStep::Failed(error) => return Err(error),
            };
        }
    }

    fn row_delta(
        &mut self,
        table: &Table,
        action: &RowDeltaAction,
        cache: &mut ManifestCache,
    ) -> Result<SnapshotPlan, Error> {
        let mut step = action.commit(table);
        loop {
            step = match step {
                RowDeltaStep::Load(load) => {
                    let list = self.load(load.snapshot_id());
                    load.resume(list)
                },
                RowDeltaStep::Read(read) => {
                    let entries = self.read(read.manifest());
                    read.resume(entries)
                },
                RowDeltaStep::Ready(ready) => {
                    let id = self.next_id();
                    let step = ready.begin(cache, id);
                    return self.run(step, cache);
                },
                RowDeltaStep::Failed(error) => return Err(error),
            };
        }
    }

    /// Makes the planned snapshot the current one.
    fn apply(&mut self, table: Table, plan: SnapshotPlan) -> Table {
        let mut table = table;
        let previous = match plan.summary.previous_snapshot_id {
            Some(id) => self.summaries[&id].clone(),
            None => HashMap::new(),
        };
        self.summaries.insert(plan.snapshot_id, summarize(&plan, &previous));
        let parent_snapshot_id = table.metadata.current_snapshot_id;
        let snapshot = Snapshot { parent_snapshot_id, operation: plan.summary.operation };
        table.metadata.snapshots.insert(plan.snapshot_id, snapshot);
        table.metadata.current_snapshot_id = Some(plan.snapshot_id);
        self.lists.insert(plan.snapshot_id, plan.manifests);
        table
    }

    fn append_files(&mut self, table: Table, files: Vec<DataFile>) -> Table {
        let mut producer = MergingSnapshotProducer::new(Operation::Append);
        for file in files {
            producer.add_data_file(file);
        }
        let mut cache = ManifestCache::default();
        let id = self.next_id();
        let step = producer.commit_snapshot(&table, &mut cache, id);
        let plan = self.run(step, &mut cache).unwrap();
        self.apply(table, plan)
    }

    fn commit_overwrite(
        &mut self,
        table: Table,
        action: OverwriteFilesAction<Filter>,
    ) -> Result<Table, Error> {
        let plan = self.overwrite(&table, &action, &mut ManifestCache::default())?;
        Ok(self.apply(table, plan))
    }

    fn commit_row_delta(&mut self, table: Table, action: RowDeltaAction) -> Result<Table, Error> {
        let plan = self.row_delta(&table, &action, &mut ManifestCache::default())?;
        Ok(self.apply(table, plan))
    }

    fn check_conflicts(
        &self,
        table: &Table,
        starting: Option<i64>,
        replaced: Vec<DataFile>,
    ) -> Result<(), Error> {
        assert!(check_ancestry_ends(
            &table.metadata,
            starting,
            table.metadata.current_snapshot_id
        ));
        let mut step = validate_no_new_deletes_for_data_files(table, starting, &replaced);
        loop {
            step = match step {
                ConflictStep::Load(load) => {
                    let list = self.load(load.snapshot_id());
                    load.resume(list)
                },
                ConflictStep::Read(read) => {
                    let entries = self.read(read.manifest());
                    read.resume(entries)
                },
                ConflictStep::Passed => return Ok(()),
                ConflictStep::Failed(error) => return Err(error),
            };
        }
    }

    fn check_existence(&self, table: &Table, references: Vec<String>) -> Result<(), Error> {
        let mut step = validate_data_files_exist(table, references);
        loop {
            step = match step {
                ExistenceStep::Load(load) => {
                    let list = self.load(load.snapshot_id());
                    load.resume(list)
                },
                ExistenceStep::Read(read) => {
                    let entries = self.read(read.manifest());
                    read.resume(entries)
                },
                ExistenceStep::Passed => return Ok(()),
                ExistenceStep::Failed(error) => return Err(error),
            };
        }
    }

    fn operation(&self, table: &Table) -> Operation {
        table.metadata.snapshots[&table.metadata.current_snapshot_id.unwrap()].operation
    }

    fn summary(&self, table: &Table, property: &str) -> &str {
        &self.summaries[&table.metadata.current_snapshot_id.unwrap()][property]
    }

    /// The paths of the live data files of the current snapshot.
    fn live_paths(&self, table: &Table) -> Vec<String> {
        let mut paths = Vec::new();
        for manifest in &self.lists[&table.metadata.current_snapshot_id.unwrap()] {
            if manifest.content == ManifestContentType::Data {
                for entry in self.read(manifest) {
                    if entry.is_alive() {
                        paths.push(entry.data_file.file_path.clone());
                    }
                }
            }
        }
        paths.sort();
        paths
    }
}

/// The properties of a snapshot's summary.
fn summarize(plan: &SnapshotPlan, previous: &HashMap<String, String>) -> HashMap<String, String> {
    let count = |kind: ChangeKind, content: DataContentType| {
        plan.summary
            .changes
            .changes()
            .iter()
            .filter(|c| c.kind == kind && c.file.content == content)
            .count() as u64
    };
    let records = |kind: ChangeKind| {
        plan.summary
            .changes
            .changes()
            .iter()
            .filter(|c| c.kind == kind && c.file.content == DataContentType::Data)
            .map(|c| c.file.record_count)
            .sum::<u64>()
    };
    let total = |property: &str| match previous.get(property) {
        Some(value) => value.parse::<u64>().unwrap(),
        None => 0,
    };
    let added = count(ChangeKind::Added, DataContentType::Data);
    let deleted = count(ChangeKind::Removed, DataContentType::Data);
    let position_deletes = count(ChangeKind::Added, DataContentType::PositionDeletes);
    let equality_deletes = count(ChangeKind::Added, DataContentType::EqualityDeletes);
    HashMap::from([
        ("added-data-files".to_string(), added.to_string()),
        ("deleted-data-files".to_string(), deleted.to_string()),
        ("added-delete-files".to_string(), (position_deletes + equality_deletes).to_string()),
        ("added-position-delete-files".to_string(), position_deletes.to_string()),
        (
            "total-data-files".to_string(),
            (total("total-data-files") + added - deleted).to_string(),
        ),
        (
            "total-records".to_string(),
            (total("total-records") + records(ChangeKind::Added) - records(ChangeKind::Removed))
                .to_string(),
        ),
    ])
}

/// Overwrite: delete old files and add new ones.
#[test]
fn test_overwrite_files() {
    let mut catalog = new_memory_catalog();
    let f1 = make_data_file("test/1.parquet", 10, 100);
    let table = catalog.append_files(make_v3_minimal_table(), vec![f1.clone()]);

    let f2 = make_data_file("test/2.parquet", 20, 200);
    let action = OverwriteFilesAction::new().delete_file(f1).add_file(f2);
    let table = catalog.commit_overwrite(table, action).unwrap();

    assert_eq!(catalog.operation(&table), Operation::Overwrite);
    assert_eq!(catalog.summary(&table, "total-data-files"), "1");
    assert_eq!(catalog.summary(&table, "total-records"), "20");
    assert_eq!(catalog.summary(&table, "added-data-files"), "1");
    assert_eq!(catalog.summary(&table, "deleted-data-files"), "1");
    assert_eq!(catalog.live_paths(&table), ["test/2.parquet"]);
}

/// Delete only.
#[test]
fn test_overwrite_delete_only() {
    let mut catalog = new_memory_catalog();
    let f1 = make_data_file("test/1.parquet", 10, 100);
    let table = catalog.append_files(make_v3_minimal_table(), vec![f1.clone()]);

    let action = OverwriteFilesAction::new().delete_file(f1);
    let table = catalog.commit_overwrite(table, action).unwrap();

    assert_eq!(catalog.operation(&table), Operation::Delete);
    assert_eq!(catalog.summary(&table, "total-data-files"), "0");
    assert_eq!(catalog.summary(&table, "total-records"), "0");
    assert_eq!(catalog.summary(&table, "deleted-data-files"), "1");
    assert!(catalog.live_paths(&table).is_empty());
}

/// Add only.
#[test]
fn test_overwrite_add_only() {
    let mut catalog = new_memory_catalog();
    let f1 = make_data_file("test/1.parquet", 10, 100);
    let action = OverwriteFilesAction::new().add_file(f1);
    let table = catalog.commit_overwrite(make_v3_minimal_table(), action).unwrap();

    assert_eq!(catalog.operation(&table), Operation::Append);
}

/// An overwrite that does nothing is refused.
#[test]
fn test_overwrite_empty() {
    let mut catalog = new_memory_catalog();
    let result = catalog.commit_overwrite(make_v3_minimal_table(), OverwriteFilesAction::new());

    assert!(result.is_err());
    assert!(result.unwrap_err().message().contains("row filter, or at least one file"));
}

/// Explicit mode: a file to delete that is not in the table.
#[test]
fn test_overwrite_missing_delete_target() {
    let mut catalog = new_memory_catalog();
    let f1 = make_data_file("test/1.parquet", 10, 100);
    let table = catalog.append_files(make_v3_minimal_table(), vec![f1]);

    let ghost = make_data_file("test/ghost.parquet", 10, 100);
    let f2 = make_data_file("test/2.parquet", 20, 200);
    let action = OverwriteFilesAction::new().delete_file(ghost).add_file(f2);
    let result = catalog.commit_overwrite(table, action);

    assert!(result.is_err());
    assert!(
        result
            .unwrap_err()
            .message()
            .contains("Failed to find the following files to delete")
    );
}

/// A filter that every row matches deletes all existing files.
#[test]
fn test_overwrite_by_row_filter_always_true() {
    let mut catalog = new_memory_catalog();
    let f1 = make_data_file("test/1.parquet", 10, 100);
    let f2 = make_data_file("test/2.parquet", 20, 200);
    let table = catalog.append_files(make_v3_minimal_table(), vec![f1, f2]);

    let f3 = make_data_file("test/3.parquet", 50, 500);
    let action = OverwriteFilesAction::new()
        .overwrite_by_row_filter(Filter::AlwaysTrue)
        .add_file(f3);
    let table = catalog.commit_overwrite(table, action).unwrap();

    assert_eq!(catalog.operation(&table), Operation::Overwrite);
    assert_eq!(catalog.summary(&table, "total-data-files"), "1");
    assert_eq!(catalog.summary(&table, "total-records"), "50");
    assert_eq!(catalog.summary(&table, "deleted-data-files"), "2");
    assert_eq!(catalog.live_paths(&table), ["test/3.parquet"]);
}

/// A row filter on an empty table just adds files.
#[test]
fn test_overwrite_by_row_filter_empty_table() {
    let mut catalog = new_memory_catalog();
    let f1 = make_data_file("test/1.parquet", 10, 100);
    let action = OverwriteFilesAction::new()
        .overwrite_by_row_filter(Filter::AlwaysTrue)
        .add_file(f1);
    let table = catalog.commit_overwrite(make_v3_minimal_table(), action).unwrap();

    assert_eq!(catalog.operation(&table), Operation::Append);
}

/// A filter on a column deletes only the files of which all rows match.
///
/// Filter: x > 50
///
/// file 1: partition x=10, bounds x=[10,10]: no rows match, kept
/// file 2: partition x=60, bounds x=[60,60]: all rows match, deleted
#[test]
fn test_overwrite_by_row_filter_column_expression() {
    let mut catalog = new_memory_catalog();
    for x in [10, 60] {
        catalog.columns.insert(
            x as u64,
            Columns {
                partition_x: x,
                lower_bounds: HashMap::from([(1, x)]),
                upper_bounds: HashMap::from([(1, x)]),
            },
        );
    }
    let f1 = DataFile { details: 10, ..make_data_file("test/1.parquet", 10, 100) };
    let f2 = DataFile { details: 60, ..make_data_file("test/2.parquet", 20, 200) };
    let table = catalog.append_files(make_v3_minimal_table(), vec![f1, f2]);

    let f3 = make_data_file("test/3.parquet", 5, 50);
    let action = OverwriteFilesAction::new()
        .overwrite_by_row_filter(Filter::GreaterThan(1, 50))
        .add_file(f3);
    let table = catalog.commit_overwrite(table, action).unwrap();

    assert_eq!(catalog.operation(&table), Operation::Overwrite);
    // file 1 (kept) + file 3 (added) = 2 files
    assert_eq!(catalog.summary(&table, "total-data-files"), "2");
    // file 1 (10 records) + file 3 (5 records) = 15
    assert_eq!(catalog.summary(&table, "total-records"), "15");
    // only file 2 was deleted
    assert_eq!(catalog.summary(&table, "deleted-data-files"), "1");
    assert_eq!(catalog.live_paths(&table), ["test/1.parquet", "test/3.parquet"]);
}

/// A file of which some, but not all, rows match makes the overwrite fail.
///
/// file 1: partition x=1, y bounds [30,70], filter y > 50
///   - the partition says nothing about y
///   - strict metrics: the lower bound 30 is not above 50
///   - inclusive metrics: the upper bound 70 is
#[test]
fn test_overwrite_by_row_filter_partial_match_error() {
    let mut catalog = new_memory_catalog();
    catalog.columns.insert(
        1,
        Columns {
            partition_x: 1,
            lower_bounds: HashMap::from([(2, 30)]),
            upper_bounds: HashMap::from([(2, 70)]),
        },
    );
    let f1 = DataFile { details: 1, ..make_data_file("test/1.parquet", 10, 100) };
    let table = catalog.append_files(make_v3_minimal_table(), vec![f1]);

    let f2 = make_data_file("test/2.parquet", 5, 50);
    let action = OverwriteFilesAction::new()
        .overwrite_by_row_filter(Filter::GreaterThan(2, 50))
        .add_file(f2);
    let result = catalog.commit_overwrite(table, action);

    assert!(result.is_err());
    let error = result.unwrap_err();
    assert!(
        error.message().contains("some, but not all, rows match filter"),
        "expected partial match error"
    );
    assert_eq!(
        error.message(),
        "Cannot delete file where some, but not all, rows match filter: test/1.parquet"
    );
    assert_eq!(error.kind(), ErrorKind::DataInvalid);
}

/// A second attempt with a row filter searches the current snapshot again.
#[test]
fn test_overwrite_by_row_filter_retry_safe() {
    let mut catalog = new_memory_catalog();
    let f1 = make_data_file("test/1.parquet", 10, 100);
    let table = catalog.append_files(make_v3_minimal_table(), vec![f1]);

    let f2 = make_data_file("test/2.parquet", 20, 200);
    let action = OverwriteFilesAction::new()
        .overwrite_by_row_filter(Filter::AlwaysTrue)
        .add_file(f2);
    let mut cache = ManifestCache::default();

    let plan1 = catalog.overwrite(&table, &action, &mut cache).unwrap();
    let plan2 = catalog.overwrite(&table, &action, &mut cache).unwrap();

    assert!(!plan1.manifests.is_empty());
    assert!(!plan2.manifests.is_empty());
    assert_eq!(plan1.snapshot_id, plan2.snapshot_id);
    assert_eq!(plan1.manifests[0].manifest_path, plan2.manifests[0].manifest_path);
    // One manifest for the append, one for both attempts.
    assert_eq!(catalog.written.len(), 2);
}

/// A row filter and an explicit file in the same action are refused.
#[test]
fn test_overwrite_row_filter_and_delete_file_conflict() {
    let mut catalog = new_memory_catalog();
    let f1 = make_data_file("test/1.parquet", 10, 100);
    let table = catalog.append_files(make_v3_minimal_table(), vec![f1.clone()]);

    let f2 = make_data_file("test/2.parquet", 20, 200);
    let action = OverwriteFilesAction::new()
        .overwrite_by_row_filter(Filter::AlwaysTrue)
        .delete_file(f1)
        .add_file(f2);
    let result = catalog.commit_overwrite(table, action);

    assert!(result.is_err());
    assert!(
        result
            .unwrap_err()
            .message()
            .contains("Cannot use both overwrite_by_row_filter and delete_file"),
    );
}

/// A row filter that matches nothing, without files to add, still makes a snapshot.
#[test]
fn test_overwrite_by_row_filter_no_adds_no_matches() {
    let mut catalog = new_memory_catalog();
    let f1 = make_data_file("test/1.parquet", 10, 100);
    let table = catalog.append_files(make_v3_minimal_table(), vec![f1]);

    let action =
        OverwriteFilesAction::new().overwrite_by_row_filter(Filter::GreaterThan(1, 9999));
    let table = catalog.commit_overwrite(table, action).unwrap();

    assert_eq!(catalog.operation(&table), Operation::Overwrite);
    assert_eq!(catalog.live_paths(&table), ["test/1.parquet"]);
}

/// Data files and position delete files in a single row delta.
#[test]
fn test_row_delta_with_data_and_deletes() {
    let mut catalog = new_memory_catalog();
    let f1 = make_data_file("test/1.parquet", 100, 1000);
    let table = catalog.append_files(make_v3_minimal_table(), vec![f1]);

    let f2 = make_data_file("test/2.parquet", 50, 500);
    let del = make_position_delete_file("test/del-1.parquet", 5, "test/1.parquet");
    let action = RowDeltaAction::new().add_rows(f2).add_deletes(del);
    let table = catalog.commit_row_delta(table, action).unwrap();

    assert_eq!(catalog.operation(&table), Operation::Overwrite);
    // 2 data files in total.
    assert_eq!(catalog.summary(&table, "total-data-files"), "2");
    // 1 delete file added.
    assert_eq!(catalog.summary(&table, "added-delete-files"), "1");
    assert_eq!(catalog.summary(&table, "added-position-delete-files"), "1");
}

/// Delete files only.
#[test]
fn test_row_delta_deletes_only() {
    let mut catalog = new_memory_catalog();
    let f1 = make_data_file("test/1.parquet", 100, 1000);
    let table = catalog.append_files(make_v3_minimal_table(), vec![f1]);

    let del = make_position_delete_file("test/del-1.parquet", 5, "test/1.parquet");
    let action = RowDeltaAction::new().add_deletes(del);
    let table = catalog.commit_row_delta(table, action).unwrap();

    assert_eq!(catalog.operation(&table), Operation::Overwrite);
    assert_eq!(catalog.summary(&table, "added-delete-files"), "1");
}

/// A row delta that does nothing is refused.
#[test]
fn test_row_delta_empty() {
    let mut catalog = new_memory_catalog();
    let result = catalog.commit_row_delta(make_v3_minimal_table(), RowDeltaAction::new());

    assert!(result.is_err());
    assert!(result.unwrap_err().message().contains("at least one data file or delete file"));
}

/// A data file cannot be added as a delete file.
#[test]
fn test_row_delta_rejects_data_file_as_delete() {
    let mut catalog = new_memory_catalog();
    let f1 = make_data_file("test/1.parquet", 100, 1000);
    let action = RowDeltaAction::new().add_deletes(f1);
    let result = catalog.commit_row_delta(make_v3_minimal_table(), action);

    assert!(result.is_err());
    assert!(
        result
            .unwrap_err()
            .message()
            .contains("Cannot add a data file as a delete file")
    );
}

/// A position delete file for a data file that is not in the table.
#[test]
fn test_row_delta_rejects_delete_for_missing_data_file() {
    let mut catalog = new_memory_catalog();
    let f1 = make_data_file("test/1.parquet", 100, 1000);
    let table = catalog.append_files(make_v3_minimal_table(), vec![f1]);

    let del = make_position_delete_file("test/del-1.parquet", 5, "test/ghost.parquet");
    let action = RowDeltaAction::new().add_deletes(del);
    let result = catalog.commit_row_delta(table, action);

    assert!(result.is_err());
    assert!(
        result.unwrap_err().message().contains("reference missing data files"),
        "expected missing data file error"
    );
}

/// The snapshot is the one that the operation has started from.
#[test]
fn test_validate_no_change_since_start() {
    let mut catalog = new_memory_catalog();
    let f1 = make_data_file("test/1.parquet", 10, 100);
    let table = catalog.append_files(make_v3_minimal_table(), vec![f1.clone()]);

    let starting = table.metadata.current_snapshot_id;
    let result = catalog.check_conflicts(&table, starting, vec![f1]);
    assert!(result.is_ok());
}

/// Appends in the meantime add no delete files.
#[test]
fn test_validate_passes_with_concurrent_append() {
    let mut catalog = new_memory_catalog();
    let f1 = make_data_file("test/1.parquet", 10, 100);
    let table = catalog.append_files(make_v3_minimal_table(), vec![f1.clone()]);
    let starting = table.metadata.current_snapshot_id;

    let f2 = make_data_file("test/2.parquet", 10, 100);
    let table = catalog.append_files(table, vec![f2]);

    let result = catalog.check_conflicts(&table, starting, vec![f1]);
    assert!(result.is_ok());
}

/// Nothing is replaced.
#[test]
fn test_validate_empty_replaced_files() {
    let catalog = new_memory_catalog();
    let result = catalog.check_conflicts(&make_v3_minimal_table(), None, vec![]);
    assert!(result.is_ok());
}

/// A row delta in the meantime has added a position delete file for a replaced file.
#[test]
fn test_validate_fails_with_concurrent_position_delete() {
    let mut catalog = new_memory_catalog();
    let f1 = make_data_file("test/1.parquet", 100, 1000);
    let table = catalog.append_files(make_v3_minimal_table(), vec![f1.clone()]);
    let starting = table.metadata.current_snapshot_id;

    let del = make_position_delete_file("test/del-1.parquet", 5, "test/1.parquet");
    let action = RowDeltaAction::new().add_deletes(del);
    let table = catalog.commit_row_delta(table, action).unwrap();

    let result = catalog.check_conflicts(&table, starting, vec![f1]);

    assert!(result.is_err());
    let err = result.unwrap_err();
    assert!(
        err.message().contains("found new position delete for replaced data file"),
        "unexpected error: {}",
        err.message()
    );
    assert_eq!(
        err.message(),
        "Cannot commit, found new position delete for replaced data file: test/1.parquet"
    );
}

/// A row delta in the meantime has added a position delete file for another file.
#[test]
fn test_validate_passes_when_delete_targets_other_file() {
    let mut catalog = new_memory_catalog();
    let f1 = make_data_file("test/1.parquet", 100, 1000);
    let f2 = make_data_file("test/2.parquet", 100, 1000);
    let table = catalog.append_files(make_v3_minimal_table(), vec![f1.clone(), f2]);
    let starting = table.metadata.current_snapshot_id;

    let del = make_position_delete_file("test/del-2.parquet", 5, "test/2.parquet");
    let action = RowDeltaAction::new().add_deletes(del);
    let table = catalog.commit_row_delta(table, action).unwrap();

    let result = catalog.check_conflicts(&table, starting, vec![f1]);
    assert!(result.is_ok());
}

/// All referenced files are in the table.
#[test]
fn test_validate_data_files_exist_passes() {
    let mut catalog = new_memory_catalog();
    let f1 = make_data_file("test/1.parquet", 10, 100);
    let table = catalog.append_files(make_v3_minimal_table(), vec![f1]);

    let result = catalog.check_existence(&table, vec!["test/1.parquet".to_string()]);
    assert!(result.is_ok());
}

/// A referenced file is not in the table.
#[test]
fn test_validate_data_files_exist_fails_for_missing() {
    let mut catalog = new_memory_catalog();
    let f1 = make_data_file("test/1.parquet", 10, 100);
    let table = catalog.append_files(make_v3_minimal_table(), vec![f1]);

    let result = catalog.check_existence(&table, vec!["test/ghost.parquet".to_string()]);
    assert!(result.is_err());
    assert!(result.unwrap_err().message().contains("reference missing data files"));
}

/// Live files before = files that stay + files reported as removed, over several manifests.
#[test]
fn removal_accounts_for_every_file() {
    let mut catalog = new_memory_catalog();
    let mut table = make_v3_minimal_table();
    for n in 0..3 {
        let files = (0..3)
            .map(|k| make_data_file(&format!("test/{}-{}.parquet", n, k), 10, 100))
            .collect();
        table = catalog.append_files(table, files);
    }
    // One file of the first manifest, every file of the second, none of the third.
    let mut action = OverwriteFilesAction::new()
        .delete_file(make_data_file("test/0-1.parquet", 10, 100));
    for k in 0..3 {
        action = action.delete_file(make_data_file(&format!("test/1-{}.parquet", k), 10, 100));
    }
    let table = catalog.commit_overwrite(table, action).unwrap();

    assert_eq!(
        catalog.live_paths(&table),
        [
            "test/0-0.parquet",
            "test/0-2.parquet",
            "test/2-0.parquet",
            "test/2-1.parquet",
            "test/2-2.parquet",
        ]
    );
    assert_eq!(catalog.summary(&table, "deleted-data-files"), "4");
    assert_eq!(catalog.summary(&table, "total-data-files"), "5");
    assert_eq!(catalog.lists[&table.metadata.current_snapshot_id.unwrap()].len(), 2);
}

/// A file that was deleted and is deleted again is reported as missing.
#[test]
fn removed_files_are_gone() {
    let mut catalog = new_memory_catalog();
    let f1 = make_data_file("test/1.parquet", 10, 100);
    let f2 = make_data_file("test/2.parquet", 10, 100);
    let table = catalog.append_files(make_v3_minimal_table(), vec![f1.clone(), f2]);
    let action = OverwriteFilesAction::new().delete_file(f1.clone());
    let table = catalog.commit_overwrite(table, action).unwrap();

    let again = OverwriteFilesAction::new().delete_file(f1);
    let error = catalog.overwrite(&table, &again, &mut ManifestCache::default()).unwrap_err();
    assert_eq!(
        error.message(),
        "Failed to find the following files to delete in the current snapshot: test/1.parquet"
    );
    let result = catalog.check_existence(&table, vec!["test/1.parquet".to_string()]);
    assert!(result.is_err());
}

/// A conflict is found only if it came after the starting snapshot, and only in the delete
/// manifests that the later snapshot has added itself.
#[test]
fn conflicts_before_the_start_do_not_count() {
    let mut catalog = new_memory_catalog();
    let f1 = make_data_file("test/1.parquet", 10, 100);
    let table = catalog.append_files(make_v3_minimal_table(), vec![f1.clone()]);
    let del = make_position_delete_file("test/del-1.parquet", 5, "test/1.parquet");
    let table = catalog.commit_row_delta(table, RowDeltaAction::new().add_deletes(del)).unwrap();
    let starting = table.metadata.current_snapshot_id;

    // Another row delta, for another file: its manifest list still has the older delete manifest.
    let f2 = make_data_file("test/2.parquet", 10, 100);
    let action = RowDeltaAction::new().add_rows(f2);
    let table = catalog.commit_row_delta(table, action).unwrap();

    assert!(catalog.check_conflicts(&table, starting, vec![f1.clone()]).is_ok());
    assert!(catalog.check_conflicts(&table, None, vec![f1]).is_err());
}
