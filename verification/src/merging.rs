//! The files that an operation adds and removes, and what is written for them.

use vstd::prelude::*;

use crate::error::{Error, ErrorKind, ErrorView};
use crate::filter::ManifestFilterManager;
use crate::ids::{hyphenated, is_version_7, new_uuid, uuid_text};
use crate::path_set::with_path;
use crate::summary::{
    changes_of, ChangeKind, SnapshotSummaryCollector, SummaryChange, SummaryPlan, SummaryView,
};
use crate::types::{
    clone_manifests, DataFile, FormatVersion, ManifestContentType, ManifestEntry, ManifestFile,
    ManifestStatus, Operation, Table,
};
use crate::writer::{empty_writer, new_manifest_writer, ManifestWriter, WriterView};

verus! {

/// The paths of the files, each at its first occurrence.
pub open spec fn unique_paths(files: Seq<DataFile>) -> Seq<Seq<char>>
    decreases files.len(),
{
    if files.len() == 0 {
        Seq::empty()
    } else {
        with_path(unique_paths(files.drop_last()), files.last().file_path@)
    }
}

/// The manager that removes the given files, and fails if one of them is not found.
pub(crate) fn filter_for(files: &Vec<DataFile>) -> (manager: ManifestFilterManager)
    ensures
        manager.targets() == unique_paths(files@),
        manager.fails_on_missing(),
{
    let mut manager = ManifestFilterManager::new(true);
    let mut i: usize = 0;
    while i < files.len()
        invariant
            i <= files.len(),
            manager.targets() == unique_paths(files@.take(i as int)),
            manager.fails_on_missing(),
        decreases files.len() - i,
    {
        manager.add_delete(files[i].file_path.clone());
        assert(files@.take(i + 1).drop_last() =~= files@.take(i as int));
        i += 1;
    }
    assert(files@.take(i as int) =~= files@);
    manager
}

/// State that persists across the attempts of one commit.
///
/// The manifests of added files do not depend on the table, so they are written once and used
/// again by later attempts, together with the snapshot id that they carry.
#[derive(Debug)]
pub struct ManifestCache {
    /// The snapshot id of the first attempt.
    pub snapshot_id: Option<i64>,
    /// The manifests that list the added data files.
    pub new_data_manifests: Option<Vec<ManifestFile>>,
    /// The manifests that list the added delete files.
    pub new_delete_manifests: Option<Vec<ManifestFile>>,
    /// The filtered manifests of the previous attempt, which are of no more use.
    pub previous_filter_manifest_paths: Vec<String>,
}

/// The mathematical content of a [`ManifestCache`].
pub struct CacheView {
    pub snapshot_id: Option<i64>,
    pub data_manifests: Option<Seq<ManifestFile>>,
    pub delete_manifests: Option<Seq<ManifestFile>>,
    pub stale_paths: Seq<String>,
}

/// What an optional list holds.
pub open spec fn listed(manifests: Option<Vec<ManifestFile>>) -> Option<Seq<ManifestFile>> {
    match manifests {
        Some(manifests) => Some(manifests@),
        None => None,
    }
}

impl View for ManifestCache {
    type V = CacheView;

    open spec fn view(&self) -> CacheView {
        CacheView {
            snapshot_id: self.snapshot_id,
            data_manifests: listed(self.new_data_manifests),
            delete_manifests: listed(self.new_delete_manifests),
            stale_paths: self.previous_filter_manifest_paths@,
        }
    }
}

/// The cache before the first attempt.
pub open spec fn empty_cache() -> CacheView {
    CacheView {
        snapshot_id: None,
        data_manifests: None,
        delete_manifests: None,
        stale_paths: Seq::empty(),
    }
}

impl Default for ManifestCache {
    fn default() -> (cache: Self)
        ensures
            cache@ == empty_cache(),
    {
        let cache = ManifestCache {
            snapshot_id: None,
            new_data_manifests: None,
            new_delete_manifests: None,
            previous_filter_manifest_paths: Vec::new(),
        };
        assert(cache@.stale_paths =~= Seq::<String>::empty());
        cache
    }
}

/// Copies an optional list of manifests.
pub(crate) fn clone_listed(manifests: &Option<Vec<ManifestFile>>) -> (copy: Option<
    Vec<ManifestFile>,
>)
    ensures
        listed(copy) == listed(*manifests),
{
    match manifests {
        Some(manifests) => Some(clone_manifests(manifests)),
        None => None,
    }
}

/// The entry that lists an added file. Version 1 requires the snapshot id on each entry; later
/// versions inherit it.
pub open spec fn added_entry(
    version: FormatVersion,
    snapshot_id: i64,
    file: DataFile,
) -> ManifestEntry {
    ManifestEntry {
        status: ManifestStatus::Added,
        snapshot_id: if version == FormatVersion::V1 {
            Some(snapshot_id)
        } else {
            None
        },
        sequence_number: None,
        file_sequence_number: None,
        data_file: file,
    }
}

/// The entries that list added files.
pub open spec fn added_entries(
    version: FormatVersion,
    snapshot_id: i64,
    files: Seq<DataFile>,
) -> Seq<ManifestEntry> {
    files.map_values(|file: DataFile| added_entry(version, snapshot_id, file))
}

/// The name of a manifest of added files.
pub open spec fn added_path(location: Seq<char>, uuid: u128, suffix: Seq<char>) -> Seq<char> {
    location + "/"@ + hyphenated(uuid) + "-m-"@ + suffix + ".avro"@
}

/// The failure to add delete files to a table of version 1.
pub open spec fn deletes_unsupported_error() -> ErrorView {
    ErrorView {
        kind: ErrorKind::FeatureUnsupported,
        message: "Delete files are not supported in format version 1"@,
    }
}

/// The manifest to write for added files.
pub open spec fn added_manifest(
    uuid: u128,
    table: Table,
    snapshot_id: i64,
    content: ManifestContentType,
    files: Seq<DataFile>,
    suffix: Seq<char>,
) -> Result<WriterView, ErrorView> {
    let version = table.metadata.format_version;
    if content == ManifestContentType::Deletes && version == FormatVersion::V1 {
        Err(deletes_unsupported_error())
    } else {
        match table.metadata.metadata_location {
            Ok(location) => Ok(
                WriterView {
                    entries: added_entries(version, snapshot_id, files),
                    ..empty_writer(
                        table,
                        added_path(location@, uuid, suffix),
                        Some(snapshot_id),
                        content,
                        table.metadata.current_schema_id,
                        table.metadata.default_partition_spec_id,
                    )
                },
            ),
            Err(error) => Err(error@),
        }
    }
}

/// What a result holds.
pub open spec fn written(result: Result<ManifestWriter, Error>) -> Result<WriterView, ErrorView> {
    match result {
        Ok(writer) => Ok(writer@),
        Err(error) => Err(error@),
    }
}

/// The files that an operation adds and removes, and how it is to be reported.
#[derive(Debug)]
pub struct MergingSnapshotProducer {
    operation: Operation,
    added_data_files: Vec<DataFile>,
    deleted_data_files: Vec<DataFile>,
    added_delete_files: Vec<DataFile>,
    commit_uuid: u128,
}

/// The mathematical content of a [`MergingSnapshotProducer`].
pub struct ProducerView {
    pub operation: Operation,
    pub added_data_files: Seq<DataFile>,
    pub deleted_data_files: Seq<DataFile>,
    pub added_delete_files: Seq<DataFile>,
    pub commit_uuid: u128,
}

impl View for MergingSnapshotProducer {
    type V = ProducerView;

    closed spec fn view(&self) -> ProducerView {
        ProducerView {
            operation: self.operation,
            added_data_files: self.added_data_files@,
            deleted_data_files: self.deleted_data_files@,
            added_delete_files: self.added_delete_files@,
            commit_uuid: self.commit_uuid,
        }
    }
}

/// A producer without files.
pub open spec fn empty_producer(operation: Operation, commit_uuid: u128) -> ProducerView {
    ProducerView {
        operation,
        added_data_files: Seq::empty(),
        deleted_data_files: Seq::empty(),
        added_delete_files: Seq::empty(),
        commit_uuid,
    }
}

/// The summary of a snapshot: the added files, with or without the delete files among them, and
/// then the removed files.
pub open spec fn summary_of(
    producer: ProducerView,
    table: Table,
    removed: Seq<SummaryChange>,
    operation: Operation,
    with_delete_files: bool,
) -> SummaryView {
    let schema_id = table.metadata.current_schema_id;
    let spec_id = table.metadata.default_partition_spec_id;
    let delete_files = if with_delete_files {
        producer.added_delete_files
    } else {
        Seq::empty()
    };
    SummaryView {
        operation,
        changes: changes_of(
            ChangeKind::Added,
            producer.added_data_files + delete_files,
            schema_id,
            spec_id,
        ) + removed,
        previous_snapshot_id: table.metadata.current(),
    }
}

impl MergingSnapshotProducer {
    /// Creates a producer without files, under a new commit UUID.
    pub fn new(operation: Operation) -> (producer: Self)
        ensures
            producer@ == empty_producer(operation, producer@.commit_uuid),
            is_version_7(producer@.commit_uuid),
    {
        Self::with_commit_uuid(operation, new_uuid())
    }

    /// Creates a producer without files, under the given commit UUID.
    pub fn with_commit_uuid(operation: Operation, commit_uuid: u128) -> (producer: Self)
        ensures
            producer@ == empty_producer(operation, commit_uuid),
    {
        let producer = MergingSnapshotProducer {
            operation,
            added_data_files: Vec::new(),
            deleted_data_files: Vec::new(),
            added_delete_files: Vec::new(),
            commit_uuid,
        };
        assert(producer@.added_data_files =~= Seq::<DataFile>::empty());
        producer
    }

    /// Adds a data file to the snapshot.
    pub fn add_data_file(&mut self, file: DataFile)
        ensures
            final(self)@ == (ProducerView {
                added_data_files: old(self)@.added_data_files.push(file),
                ..old(self)@
            }),
    {
        self.added_data_files.push(file);
    }

    /// Adds a delete file to the snapshot.
    pub fn add_delete_file(&mut self, file: DataFile)
        ensures
            final(self)@ == (ProducerView {
                added_delete_files: old(self)@.added_delete_files.push(file),
                ..old(self)@
            }),
    {
        self.added_delete_files.push(file);
    }

    /// Removes a data file from the table.
    pub fn delete_data_file(&mut self, file: DataFile)
        ensures
            final(self)@ == (ProducerView {
                deleted_data_files: old(self)@.deleted_data_files.push(file),
                ..old(self)@
            }),
    {
        self.deleted_data_files.push(file);
    }

    /// The operation to report.
    pub fn operation(&self) -> (operation: Operation)
        ensures
            operation == self@.operation,
    {
        self.operation
    }

    /// The data files that are added.
    pub fn added_data_files(&self) -> (files: &Vec<DataFile>)
        ensures
            files@ == self@.added_data_files,
    {
        &self.added_data_files
    }

    /// Whether a data file is added.
    pub fn has_added_data_files(&self) -> (result: bool)
        ensures
            result == (self@.added_data_files.len() > 0),
    {
        self.added_data_files.len() > 0
    }

    /// Whether a data file is removed.
    pub fn has_deleted_data_files(&self) -> (result: bool)
        ensures
            result == (self@.deleted_data_files.len() > 0),
    {
        self.deleted_data_files.len() > 0
    }

    /// The data files that are removed.
    pub fn deleted_data_files(&self) -> (files: &Vec<DataFile>)
        ensures
            files@ == self@.deleted_data_files,
    {
        &self.deleted_data_files
    }

    /// Whether a delete file is added.
    pub fn has_added_delete_files(&self) -> (result: bool)
        ensures
            result == (self@.added_delete_files.len() > 0),
    {
        self.added_delete_files.len() > 0
    }

    /// The delete files that are added.
    pub fn added_delete_files(&self) -> (files: &Vec<DataFile>)
        ensures
            files@ == self@.added_delete_files,
    {
        &self.added_delete_files
    }

    /// Prepares the manifest that lists the given added files.
    pub fn write_manifest_for_files(
        &self,
        table: &Table,
        snapshot_id: i64,
        content: ManifestContentType,
        files: &Vec<DataFile>,
        path_suffix: &str,
    ) -> (result: Result<ManifestWriter, Error>)
        ensures
            written(result) == added_manifest(
                self@.commit_uuid,
                *table,
                snapshot_id,
                content,
                files@,
                path_suffix@,
            ),
    {
        let format_version = table.metadata.format_version;
        if content == ManifestContentType::Deletes && format_version == FormatVersion::V1 {
            return Err(
                Error::new(
                    ErrorKind::FeatureUnsupported,
                    "Delete files are not supported in format version 1".to_owned(),
                ),
            );
        }
        let mut path = match &table.metadata.metadata_location {
            Ok(location) => location.clone(),
            Err(error) => {
                return Err(error.clone());
            },
        };
        path.append("/");
        path.append(uuid_text(self.commit_uuid).as_str());
        path.append("-m-");
        path.append(path_suffix);
        path.append(".avro");
        let mut writer = new_manifest_writer(
            table,
            path,
            Some(snapshot_id),
            content,
            table.metadata.current_schema_id,
            table.metadata.default_partition_spec_id,
        );
        let ghost empty = writer@;
        let mut i: usize = 0;
        assert(writer@.entries =~= added_entries(format_version, snapshot_id, files@.take(0)));
        while i < files.len()
            invariant
                i <= files.len(),
                writer@ == (WriterView {
                    entries: added_entries(format_version, snapshot_id, files@.take(i as int)),
                    ..empty
                }),
            decreases files.len() - i,
        {
            let entry_snapshot_id = if format_version == FormatVersion::V1 {
                Some(snapshot_id)
            } else {
                None
            };
            writer.add_entry(
                ManifestEntry {
                    status: ManifestStatus::Added,
                    snapshot_id: entry_snapshot_id,
                    sequence_number: None,
                    file_sequence_number: None,
                    data_file: files[i].clone(),
                },
            );
            assert(writer@.entries =~= added_entries(
                format_version,
                snapshot_id,
                files@.take(i + 1),
            ));
            i += 1;
        }
        assert(files@.take(i as int) =~= files@);
        Ok(writer)
    }

    /// Prepares the summary of a snapshot from the added files and from the removals.
    pub fn build_summary(
        &self,
        table: &Table,
        removed: SnapshotSummaryCollector,
        operation: Operation,
    ) -> (summary: SummaryPlan)
        ensures
            summary@ == summary_of(self@, *table, removed@, operation, true),
    {
        self.summarize(table, removed, operation, true)
    }

    /// Prepares the summary of a snapshot, with or without the added delete files.
    pub(crate) fn summarize(
        &self,
        table: &Table,
        removed: SnapshotSummaryCollector,
        operation: Operation,
        with_delete_files: bool,
    ) -> (summary: SummaryPlan)
        ensures
            summary@ == summary_of(self@, *table, removed@, operation, with_delete_files),
    {
        let mut changes = SnapshotSummaryCollector::new();
        collect_added(&mut changes, &self.added_data_files, table);
        if with_delete_files {
            collect_added(&mut changes, &self.added_delete_files, table);
        }
        changes.merge(removed);
        let summary = SummaryPlan {
            operation,
            changes,
            previous_snapshot_id: table.metadata.current_snapshot(),
        };
        assert(summary@.changes =~= summary_of(
            self@,
            *table,
            removed@,
            operation,
            with_delete_files,
        ).changes);
        summary
    }
}

/// Reports the files as added.
fn collect_added(changes: &mut SnapshotSummaryCollector, files: &Vec<DataFile>, table: &Table)
    ensures
        final(changes)@ == old(changes)@ + changes_of(
            ChangeKind::Added,
            files@,
            table.metadata.current_schema_id,
            table.metadata.default_partition_spec_id,
        ),
{
    let schema_id: i32 = table.metadata.current_schema_id;
    let partition_spec_id: i32 = table.metadata.default_partition_spec_id;
    let ghost before = changes@;
    let mut i: usize = 0;
    assert(changes@ =~= before + changes_of(
        ChangeKind::Added,
        files@.take(0),
        schema_id,
        partition_spec_id,
    ));
    while i < files.len()
        invariant
            i <= files.len(),
            changes@ == before + changes_of(
                ChangeKind::Added,
                files@.take(i as int),
                schema_id,
                partition_spec_id,
            ),
        decreases files.len() - i,
    {
        changes.add_file(&files[i], schema_id, partition_spec_id);
        assert(changes@ =~= before + changes_of(
            ChangeKind::Added,
            files@.take(i + 1),
            schema_id,
            partition_spec_id,
        ));
        i += 1;
    }
    assert(files@.take(i as int) =~= files@);
}

} // verus!
