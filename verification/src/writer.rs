//! Manifests that are to be written.

use vstd::prelude::*;

use crate::types::{FormatVersion, ManifestContentType, ManifestEntry, Table};

verus! {

/// The encoding of a manifest: a format version and, where versions tell them apart, the kind of
/// its entries.
#[derive(Clone, Copy, Debug, PartialEq, Eq, Structural)]
pub enum ManifestLayout {
    V1,
    V2Data,
    V2Deletes,
    V3Data,
    V3Deletes,
}

/// The layout of a manifest with the given content. Version 1 has a single layout.
pub open spec fn layout_of(version: FormatVersion, content: ManifestContentType) -> ManifestLayout {
    match (version, content) {
        (FormatVersion::V1, _) => ManifestLayout::V1,
        (FormatVersion::V2, ManifestContentType::Data) => ManifestLayout::V2Data,
        (FormatVersion::V2, ManifestContentType::Deletes) => ManifestLayout::V2Deletes,
        (FormatVersion::V3, ManifestContentType::Data) => ManifestLayout::V3Data,
        (FormatVersion::V3, ManifestContentType::Deletes) => ManifestLayout::V3Deletes,
    }
}

/// A manifest that is to be written: where, how, and with which entries.
#[derive(Debug)]
pub struct ManifestWriter {
    /// Where the manifest is to be stored.
    pub output_file: String,
    /// Whether the output is to be encrypted with the table's keys.
    pub encrypted: bool,
    /// The snapshot that the manifest is written for.
    pub snapshot_id: Option<i64>,
    /// The encoding.
    pub layout: ManifestLayout,
    /// The schema of the files.
    pub schema_id: i32,
    /// The partition spec of the files.
    pub partition_spec_id: i32,
    /// The entries, in order.
    pub entries: Vec<ManifestEntry>,
}

/// The mathematical content of a [`ManifestWriter`].
pub struct WriterView {
    pub output_file: Seq<char>,
    pub encrypted: bool,
    pub snapshot_id: Option<i64>,
    pub layout: ManifestLayout,
    pub schema_id: i32,
    pub partition_spec_id: i32,
    pub entries: Seq<ManifestEntry>,
}

impl View for ManifestWriter {
    type V = WriterView;

    open spec fn view(&self) -> WriterView {
        WriterView {
            output_file: self.output_file@,
            encrypted: self.encrypted,
            snapshot_id: self.snapshot_id,
            layout: self.layout,
            schema_id: self.schema_id,
            partition_spec_id: self.partition_spec_id,
            entries: self.entries@,
        }
    }
}

impl ManifestWriter {
    /// Appends an entry.
    pub fn add_entry(&mut self, entry: ManifestEntry)
        ensures
            final(self)@ == (WriterView { entries: old(self)@.entries.push(entry), ..old(self)@ }),
    {
        self.entries.push(entry);
    }
}

/// The writer of a manifest that has no entries yet.
pub open spec fn empty_writer(
    table: Table,
    output_file: Seq<char>,
    snapshot_id: Option<i64>,
    content: ManifestContentType,
    schema_id: i32,
    partition_spec_id: i32,
) -> WriterView {
    WriterView {
        output_file,
        encrypted: table.encrypted,
        snapshot_id,
        layout: layout_of(table.metadata.format_version, content),
        schema_id,
        partition_spec_id,
        entries: Seq::empty(),
    }
}

/// Creates a manifest writer, which encrypts its output if the table is encrypted.
pub fn new_manifest_writer(
    table: &Table,
    output_file: String,
    snapshot_id: Option<i64>,
    content: ManifestContentType,
    schema_id: i32,
    partition_spec_id: i32,
) -> (writer: ManifestWriter)
    ensures
        writer@ == empty_writer(
            *table,
            output_file@,
            snapshot_id,
            content,
            schema_id,
            partition_spec_id,
        ),
{
    let layout = match table.metadata.format_version {
        FormatVersion::V1 => ManifestLayout::V1,
        FormatVersion::V2 => match content {
            ManifestContentType::Data => ManifestLayout::V2Data,
            ManifestContentType::Deletes => ManifestLayout::V2Deletes,
        },
        FormatVersion::V3 => match content {
            ManifestContentType::Data => ManifestLayout::V3Data,
            ManifestContentType::Deletes => ManifestLayout::V3Deletes,
        },
    };
    ManifestWriter {
        output_file,
        encrypted: table.encrypted,
        snapshot_id,
        layout,
        schema_id,
        partition_spec_id,
        entries: Vec::new(),
    }
}

} // verus!
