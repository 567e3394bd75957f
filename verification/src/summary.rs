//! What a snapshot changes, as it is reported in the snapshot's summary.

use vstd::prelude::*;

use crate::types::{DataFile, Operation};

verus! {

/// Whether a file came into the table or left it.
#[derive(Clone, Copy, Debug, PartialEq, Eq, Structural)]
pub enum ChangeKind {
    Added,
    Removed,
}

/// A file that came into the table or left it.
#[derive(Debug)]
pub struct SummaryChange {
    /// Whether the file came or left.
    pub kind: ChangeKind,
    /// The file.
    pub file: DataFile,
    /// The schema to report it under.
    pub schema_id: i32,
    /// The partition spec to report it under.
    pub partition_spec_id: i32,
}

/// The changes that report each of the files in order.
pub open spec fn changes_of(
    kind: ChangeKind,
    files: Seq<DataFile>,
    schema_id: i32,
    partition_spec_id: i32,
) -> Seq<SummaryChange> {
    files.map_values(|file: DataFile| SummaryChange { kind, file, schema_id, partition_spec_id })
}

/// Collects the changes of a snapshot, in the order in which they are to be reported.
#[derive(Debug)]
pub struct SnapshotSummaryCollector {
    changes: Vec<SummaryChange>,
}

impl View for SnapshotSummaryCollector {
    type V = Seq<SummaryChange>;

    closed spec fn view(&self) -> Seq<SummaryChange> {
        self.changes@
    }
}

impl SnapshotSummaryCollector {
    /// A collector without changes.
    pub fn new() -> (collector: Self)
        ensures
            collector@ == Seq::<SummaryChange>::empty(),
    {
        SnapshotSummaryCollector { changes: Vec::new() }
    }

    /// Records that a file was added.
    pub fn add_file(&mut self, file: &DataFile, schema_id: i32, partition_spec_id: i32)
        ensures
            final(self)@ == old(self)@.push(
                (SummaryChange {
                    kind: ChangeKind::Added,
                    file: *file,
                    schema_id,
                    partition_spec_id,
                }),
            ),
    {
        self.changes.push(
            SummaryChange {
                kind: ChangeKind::Added,
                file: file.clone(),
                schema_id,
                partition_spec_id,
            },
        );
    }

    /// Records that a file was removed.
    pub fn remove_file(&mut self, file: &DataFile, schema_id: i32, partition_spec_id: i32)
        ensures
            final(self)@ == old(self)@.push(
                (SummaryChange {
                    kind: ChangeKind::Removed,
                    file: *file,
                    schema_id,
                    partition_spec_id,
                }),
            ),
    {
        self.changes.push(
            SummaryChange {
                kind: ChangeKind::Removed,
                file: file.clone(),
                schema_id,
                partition_spec_id,
            },
        );
    }

    /// Records the changes of another collector behind those of this one.
    pub fn merge(&mut self, other: SnapshotSummaryCollector)
        ensures
            final(self)@ == old(self)@ + other@,
    {
        let SnapshotSummaryCollector { mut changes } = other;
        self.changes.append(&mut changes);
    }

    /// The recorded changes, in order.
    pub fn changes(&self) -> (changes: &Vec<SummaryChange>)
        ensures
            changes@ == self@,
    {
        &self.changes
    }
}

/// A summary that is to be computed: from the changes of the snapshot and from the summary of the
/// snapshot before it.
#[derive(Debug)]
pub struct SummaryPlan {
    /// The operation to report.
    pub operation: Operation,
    /// The changes to report.
    pub changes: SnapshotSummaryCollector,
    /// The snapshot whose totals are carried forward.
    pub previous_snapshot_id: Option<i64>,
}

/// The mathematical content of a [`SummaryPlan`].
pub struct SummaryView {
    pub operation: Operation,
    pub changes: Seq<SummaryChange>,
    pub previous_snapshot_id: Option<i64>,
}

impl View for SummaryPlan {
    type V = SummaryView;

    open spec fn view(&self) -> SummaryView {
        SummaryView {
            operation: self.operation,
            changes: self.changes@,
            previous_snapshot_id: self.previous_snapshot_id,
        }
    }
}

} // verus!
