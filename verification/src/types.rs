//! The records of a table that a commit reads and writes.

use std::collections::{HashMap, HashSet};

use vstd::prelude::*;

use crate::error::Error;

verus! {

broadcast use vstd::std_specs::hash::group_hash_axioms;

/// The version of the table format.
#[derive(Clone, Copy, Debug, PartialEq, Eq, Structural)]
pub enum FormatVersion {
    V1,
    V2,
    V3,
}

/// What a snapshot did to the table.
#[derive(Clone, Copy, Debug, PartialEq, Eq, Structural)]
pub enum Operation {
    /// Only data files were added.
    Append,
    /// Files were replaced without a change of the table's rows.
    Replace,
    /// Files were added and removed, changing the table's rows.
    Overwrite,
    /// Only data files were removed.
    Delete,
}

/// What the entries of a manifest are.
#[derive(Clone, Copy, Debug, PartialEq, Eq, Structural)]
pub enum ManifestContentType {
    /// Data files.
    Data,
    /// Delete files.
    Deletes,
}

/// The state of a file in a manifest.
#[derive(Clone, Copy, Debug, PartialEq, Eq, Structural)]
pub enum ManifestStatus {
    /// The file was in the table before the manifest was written.
    Existing,
    /// The file was added by the snapshot that wrote the manifest.
    Added,
    /// The file was removed by the snapshot that wrote the manifest.
    Deleted,
}

/// What a file holds.
#[derive(Clone, Copy, Debug, PartialEq, Eq, Structural)]
pub enum DataContentType {
    /// Rows.
    Data,
    /// Positions of deleted rows.
    PositionDeletes,
    /// Values of deleted rows.
    EqualityDeletes,
}

/// A data file or delete file of the table.
#[derive(Debug)]
pub struct DataFile {
    /// What the file holds.
    pub content: DataContentType,
    /// Where the file is stored.
    pub file_path: String,
    /// The number of records in the file.
    pub record_count: u64,
    /// The size of the file.
    pub file_size_in_bytes: u64,
    /// For a delete file that applies to one data file, the path of that file.
    pub referenced_data_file: Option<String>,
    /// The caller's key for the attributes that are carried along unread, such as the partition
    /// and the column metrics.
    pub details: u64,
}

impl DataFile {
    /// What the file holds.
    pub fn content_type(&self) -> (content: DataContentType)
        ensures
            content == self.content,
    {
        self.content
    }
}

impl Clone for DataFile {
    fn clone(&self) -> (copy: Self)
        ensures
            copy == *self,
    {
        let referenced_data_file = match &self.referenced_data_file {
            Some(path) => Some(path.clone()),
            None => None,
        };
        DataFile {
            content: self.content,
            file_path: self.file_path.clone(),
            record_count: self.record_count,
            file_size_in_bytes: self.file_size_in_bytes,
            referenced_data_file,
            details: self.details,
        }
    }
}

/// A line of a manifest: a file and its state.
#[derive(Debug)]
pub struct ManifestEntry {
    /// The state of the file.
    pub status: ManifestStatus,
    /// The snapshot that added the file, if the entry does not inherit it from the manifest.
    pub snapshot_id: Option<i64>,
    /// The sequence number of the rows, if it is not inherited.
    pub sequence_number: Option<i64>,
    /// The sequence number of the file, if it is not inherited.
    pub file_sequence_number: Option<i64>,
    /// The file.
    pub data_file: DataFile,
}

impl ManifestEntry {
    /// Whether the file is in the table.
    pub open spec fn alive(self) -> bool {
        self.status != ManifestStatus::Deleted
    }

    /// Where the file is stored.
    pub open spec fn path(self) -> Seq<char> {
        self.data_file.file_path@
    }

    /// Whether the file is in the table.
    pub fn is_alive(&self) -> (alive: bool)
        ensures
            alive == self.alive(),
    {
        match self.status {
            ManifestStatus::Existing | ManifestStatus::Added => true,
            ManifestStatus::Deleted => false,
        }
    }

    /// Where the file is stored.
    pub fn file_path(&self) -> (path: &str)
        ensures
            path@ == self.path(),
    {
        self.data_file.file_path.as_str()
    }
}

/// A manifest as it is listed in a snapshot.
#[derive(Debug)]
pub struct ManifestFile {
    /// Where the manifest is stored.
    pub manifest_path: String,
    /// What its entries are.
    pub content: ManifestContentType,
    /// The partition spec of its entries.
    pub partition_spec_id: i32,
    /// The snapshot that added the manifest.
    pub added_snapshot_id: i64,
    /// Whether it may list files in state `Added`.
    pub has_added_files: bool,
    /// Whether it may list files in state `Existing`.
    pub has_existing_files: bool,
    /// Whether it may list files in state `Deleted`.
    pub has_deleted_files: bool,
}

impl ManifestFile {
    /// Whether the manifest may list any file.
    pub open spec fn lists_files(self) -> bool {
        self.has_added_files || self.has_existing_files || self.has_deleted_files
    }
}

impl Clone for ManifestFile {
    fn clone(&self) -> (copy: Self)
        ensures
            copy == *self,
    {
        ManifestFile {
            manifest_path: self.manifest_path.clone(),
            content: self.content,
            partition_spec_id: self.partition_spec_id,
            added_snapshot_id: self.added_snapshot_id,
            has_added_files: self.has_added_files,
            has_existing_files: self.has_existing_files,
            has_deleted_files: self.has_deleted_files,
        }
    }
}

/// Copies a list of manifests.
pub(crate) fn clone_manifests(manifests: &Vec<ManifestFile>) -> (copy: Vec<ManifestFile>)
    ensures
        copy@ == manifests@,
{
    let mut copy: Vec<ManifestFile> = Vec::new();
    let mut i: usize = 0;
    while i < manifests.len()
        invariant
            i <= manifests.len(),
            copy@ == manifests@.take(i as int),
        decreases manifests.len() - i,
    {
        copy.push(manifests[i].clone());
        assert(copy@ =~= manifests@.take(i + 1));
        i += 1;
    }
    assert(copy@ =~= manifests@);
    copy
}

/// A version of the table.
#[derive(Clone, Copy, Debug)]
pub struct Snapshot {
    /// The snapshot that this one was made from.
    pub parent_snapshot_id: Option<i64>,
    /// What the snapshot did to the table.
    pub operation: Operation,
}

/// The metadata of a table.
#[derive(Debug)]
pub struct TableMetadata {
    /// The version of the table format.
    pub format_version: FormatVersion,
    /// The current version of the table, if it has one.
    pub current_snapshot_id: Option<i64>,
    /// The known versions of the table, by id.
    pub snapshots: HashMap<i64, Snapshot>,
    /// The directory for metadata files, or the failure to determine it.
    pub metadata_location: Result<String, Error>,
    /// The current schema.
    pub current_schema_id: i32,
    /// The partition spec for new files.
    pub default_partition_spec_id: i32,
    /// All partition specs of the table.
    pub partition_spec_ids: HashSet<i32>,
}

impl TableMetadata {
    /// The id of the current snapshot, if the table has one.
    pub open spec fn current(self) -> Option<i64> {
        match self.current_snapshot_id {
            Some(id) => if self.snapshots@.contains_key(id) {
                Some(id)
            } else {
                None
            },
            None => None,
        }
    }

    /// The snapshot with the given id.
    pub fn snapshot_by_id(&self, id: i64) -> (snapshot: Option<Snapshot>)
        ensures
            snapshot == (if self.snapshots@.contains_key(id) {
                Some(self.snapshots@[id])
            } else {
                None::<Snapshot>
            }),
    {
        match self.snapshots.get(&id) {
            Some(snapshot) => Some(*snapshot),
            None => None,
        }
    }

    /// The id of the current snapshot, if the table has one.
    pub fn current_snapshot(&self) -> (id: Option<i64>)
        ensures
            id == self.current(),
    {
        match self.current_snapshot_id {
            Some(id) => match self.snapshot_by_id(id) {
                Some(_) => Some(id),
                None => None,
            },
            None => None,
        }
    }

    /// Whether the table has a partition spec with the given id.
    pub fn has_partition_spec(&self, id: i32) -> (known: bool)
        ensures
            known == self.partition_spec_ids@.contains(id),
    {
        self.partition_spec_ids.contains(&id)
    }
}

/// A table.
#[derive(Debug)]
pub struct Table {
    /// The metadata of the table.
    pub metadata: TableMetadata,
    /// Whether its files are encrypted.
    pub encrypted: bool,
}

} // verus!
