//! Overwriting of data files.
//!
//! [`OverwriteFilesAction`] replaces data files with new ones, changing the rows of the table, in
//! one of two modes:
//!
//! - Explicit files ([`OverwriteFilesAction::delete_file`]): the given files are removed. Changes
//!   that other writers have made in the meantime are not detected.
//! - Row filter ([`OverwriteFilesAction::overwrite_by_row_filter`]): the files that match a filter
//!   are removed. They are determined anew in each attempt to commit, so the mode is safe against
//!   changes by other writers.

use vstd::prelude::*;

use crate::commit::{begun, CommitStep};
use crate::error::{refusal, Error, ErrorKind, ErrorView};
use crate::ids::is_version_7;
use crate::laws::matching::MatchReply;
use crate::laws::overwriting::{overwrite_begun, overwrite_resumed, OverwriteReply};
use crate::matching::{
    match_list, match_start, start_matching, MatchCheck, MatchLoad, MatchRead, MatchStep,
    MatchStepView, Stage,
};
use crate::merging::{
    empty_producer, unique_paths, ManifestCache, MergingSnapshotProducer, ProducerView,
};
use crate::types::{DataFile, ManifestEntry, ManifestFile, Operation, Table};

verus! {

/// The operation that an overwrite amounts to.
pub open spec fn overwrite_operation(has_adds: bool, has_deletes: bool) -> Operation {
    if has_adds && !has_deletes {
        Operation::Append
    } else if !has_adds && has_deletes {
        Operation::Delete
    } else {
        Operation::Overwrite
    }
}

/// The operation that an overwrite amounts to.
fn choose_operation(has_adds: bool, has_deletes: bool) -> (operation: Operation)
    ensures
        operation == overwrite_operation(has_adds, has_deletes),
{
    match (has_adds, has_deletes) {
        (true, true) => Operation::Overwrite,
        (false, true) => Operation::Delete,
        (true, false) => Operation::Append,
        (false, false) => Operation::Overwrite,
    }
}

/// An action that overwrites data files. `P` is the language of its row filters.
pub struct OverwriteFilesAction<P> {
    producer: MergingSnapshotProducer,
    row_filter: Option<P>,
}

/// The mathematical content of an [`OverwriteFilesAction`].
pub struct OverwriteView<P> {
    pub producer: ProducerView,
    pub row_filter: Option<P>,
}

impl<P> View for OverwriteFilesAction<P> {
    type V = OverwriteView<P>;

    closed spec fn view(&self) -> OverwriteView<P> {
        OverwriteView { producer: self.producer@, row_filter: self.row_filter }
    }
}

/// The failure of an overwrite in both modes.
pub open spec fn both_modes_error() -> ErrorView {
    ErrorView {
        kind: ErrorKind::DataInvalid,
        message: "Cannot use both overwrite_by_row_filter and delete_file in the same action"@,
    }
}

/// The failure of an overwrite that does nothing.
pub open spec fn empty_overwrite_error() -> ErrorView {
    ErrorView {
        kind: ErrorKind::DataInvalid,
        message: "Overwrite requires a row filter, or at least one file to add or delete"@,
    }
}

impl<P> OverwriteView<P> {
    /// Whether a data file is added.
    pub open spec fn has_adds(self) -> bool {
        self.producer.added_data_files.len() > 0
    }

    /// Whether a data file is removed explicitly.
    pub open spec fn has_deletes(self) -> bool {
        self.producer.deleted_data_files.len() > 0
    }

    /// What is wrong with the action, if anything is.
    pub open spec fn fault(self) -> Option<ErrorView> {
        if self.row_filter is Some && self.has_deletes() {
            Some(both_modes_error())
        } else if self.row_filter is None && !self.has_adds() && !self.has_deletes() {
            Some(empty_overwrite_error())
        } else {
            None
        }
    }

    /// Where an attempt to commit stands at its start.
    pub open spec fn start(self, table: Table) -> OverwriteStepView<P> {
        match self.fault() {
            Some(error) => OverwriteStepView::Failed(error),
            None => match self.row_filter {
                Some(_) => OverwriteStepView::Bind { action: self, table },
                None => OverwriteStepView::Ready {
                    action: self,
                    table,
                    operation: overwrite_operation(self.has_adds(), self.has_deletes()),
                    delete_files: None,
                },
            },
        }
    }

    /// Where an attempt to commit stands after a step of the search for matching files.
    pub open spec fn with_match(self, table: Table, search: MatchStepView) -> OverwriteStepView<P> {
        match search {
            MatchStepView::Matched(files) => OverwriteStepView::Ready {
                action: self,
                table,
                operation: overwrite_operation(self.has_adds(), files.len() > 0),
                delete_files: Some(files),
            },
            MatchStepView::Failed(error) => OverwriteStepView::Failed(error),
            _ => OverwriteStepView::Search { action: self, table, search },
        }
    }
}

/// Where an attempt to commit an overwrite stands.
pub enum OverwriteStepView<P> {
    /// The row filter is to be bound to the table.
    Bind { action: OverwriteView<P>, table: Table },
    /// The files that match the row filter are being searched.
    Search { action: OverwriteView<P>, table: Table, search: MatchStepView },
    /// The snapshot can be produced.
    Ready {
        action: OverwriteView<P>,
        table: Table,
        operation: Operation,
        delete_files: Option<Seq<DataFile>>,
    },
    /// The attempt failed.
    Failed(ErrorView),
}

impl<P> OverwriteFilesAction<P> {
    /// Creates an action that neither adds nor removes files.
    pub fn new() -> (action: Self)
        ensures
            action@.row_filter is None,
            action@.producer == empty_producer(
                Operation::Overwrite,
                action@.producer.commit_uuid,
            ),
            is_version_7(action@.producer.commit_uuid),
    {
        OverwriteFilesAction {
            producer: MergingSnapshotProducer::new(Operation::Overwrite),
            row_filter: None,
        }
    }

    /// Creates an action that neither adds nor removes files, under the given commit UUID.
    pub fn with_commit_uuid(commit_uuid: u128) -> (action: Self)
        ensures
            action@.row_filter is None,
            action@.producer == empty_producer(Operation::Overwrite, commit_uuid),
    {
        OverwriteFilesAction {
            producer: MergingSnapshotProducer::with_commit_uuid(Operation::Overwrite, commit_uuid),
            row_filter: None,
        }
    }

    /// Removes the files of which all rows match the given filter.
    pub fn overwrite_by_row_filter(self, filter: P) -> (action: Self)
        ensures
            action@ == (OverwriteView { row_filter: Some(filter), ..self@ }),
    {
        let OverwriteFilesAction { producer, row_filter: _ } = self;
        OverwriteFilesAction { producer, row_filter: Some(filter) }
    }

    /// Removes a data file from the table.
    pub fn delete_file(self, file: DataFile) -> (action: Self)
        ensures
            action@ == (OverwriteView {
                producer: ProducerView {
                    deleted_data_files: self@.producer.deleted_data_files.push(file),
                    ..self@.producer
                },
                ..self@
            }),
    {
        let mut action = self;
        action.producer.delete_data_file(file);
        action
    }

    /// Adds a data file to the table.
    pub fn add_file(self, file: DataFile) -> (action: Self)
        ensures
            action@ == (OverwriteView {
                producer: ProducerView {
                    added_data_files: self@.producer.added_data_files.push(file),
                    ..self@.producer
                },
                ..self@
            }),
    {
        let mut action = self;
        action.producer.add_data_file(file);
        action
    }

    /// Checks that the action uses one mode only, and does anything.
    pub fn validate(&self) -> (result: Result<(), Error>)
        ensures
            refusal(result) == self@.fault(),
    {
        if self.row_filter.is_some() && self.producer.has_deleted_data_files() {
            return Err(
                Error::new(
                    ErrorKind::DataInvalid,
                    "Cannot use both overwrite_by_row_filter and delete_file in the same action".to_owned(),
                ),
            );
        }
        if self.row_filter.is_none() && !self.producer.has_added_data_files()
            && !self.producer.has_deleted_data_files() {
            return Err(
                Error::new(
                    ErrorKind::DataInvalid,
                    "Overwrite requires a row filter, or at least one file to add or delete".to_owned(),
                ),
            );
        }
        Ok(())
    }

    /// Starts the search for the data files in the current snapshot of which all rows match a
    /// filter that is bound to the table.
    pub fn collect_files_matching_filter(table: &Table) -> (step: MatchStep)
        ensures
            step@ == match_start(*table),
    {
        start_matching(table)
    }

    /// Starts an attempt to commit the action.
    pub fn commit<'a>(&'a self, table: &'a Table) -> (step: OverwriteStep<'a, P>)
        ensures
            step@ == self@.start(*table),
    {
        match self.validate() {
            Err(error) => {
                return OverwriteStep::Failed(error);
            },
            Ok(()) => {},
        }
        match &self.row_filter {
            Some(filter) => OverwriteStep::Bind(OverwriteBind { action: self, table, filter }),
            None => {
                let operation = choose_operation(
                    self.producer.has_added_data_files(),
                    self.producer.has_deleted_data_files(),
                );
                OverwriteStep::Ready(
                    OverwriteReady { action: self, table, operation, delete_files: None },
                )
            },
        }
    }

    /// Goes on after a step of the search for matching files.
    fn with_match<'a>(&'a self, table: &'a Table, search: MatchStep) -> (step: OverwriteStep<'a, P>)
        ensures
            step@ == self@.with_match(*table, search@),
    {
        match search {
            MatchStep::Load(search) => OverwriteStep::Load(
                OverwriteLoad { action: self, table, search },
            ),
            MatchStep::Read(search) => OverwriteStep::Read(
                OverwriteRead { action: self, table, search },
            ),
            MatchStep::Check(search) => OverwriteStep::Check(
                OverwriteCheck { action: self, table, search },
            ),
            MatchStep::Matched(files) => {
                let operation = choose_operation(
                    self.producer.has_added_data_files(),
                    files.len() > 0,
                );
                OverwriteStep::Ready(
                    OverwriteReady { action: self, table, operation, delete_files: Some(files) },
                )
            },
            MatchStep::Failed(error) => OverwriteStep::Failed(error),
        }
    }
}

/// An attempt that waits for the row filter to be bound to the table.
pub struct OverwriteBind<'a, P> {
    action: &'a OverwriteFilesAction<P>,
    table: &'a Table,
    filter: &'a P,
}

impl<'a, P> OverwriteBind<'a, P> {
    #[verifier::type_invariant]
    spec fn consistent(self) -> bool {
        self.action.row_filter == Some(*self.filter)
    }

    /// The action.
    pub closed spec fn action(self) -> OverwriteView<P> {
        self.action@
    }

    /// The table.
    pub closed spec fn table(self) -> Table {
        *self.table
    }

    /// The filter to bind.
    pub fn filter(&self) -> (filter: &'a P)
        ensures
            self.action().row_filter == Some(*filter),
    {
        proof {
            use_type_invariant(self);
        }
        self.filter
    }

    /// Goes on once the filter is bound.
    pub fn resume(self) -> (step: OverwriteStep<'a, P>)
        ensures
            step@ == self.action().with_match(self.table(), match_start(self.table())),
            step@ == overwrite_resumed(OverwriteStep::Bind(self)@, OverwriteReply::Bound),
    {
        let search = OverwriteFilesAction::<P>::collect_files_matching_filter(self.table);
        self.action.with_match(self.table, search)
    }
}

/// An attempt that waits for the manifest list of the current snapshot.
pub struct OverwriteLoad<'a, P> {
    action: &'a OverwriteFilesAction<P>,
    table: &'a Table,
    search: MatchLoad,
}

impl<'a, P> OverwriteLoad<'a, P> {
    /// The action.
    pub closed spec fn action(self) -> OverwriteView<P> {
        self.action@
    }

    /// The table.
    pub closed spec fn table(self) -> Table {
        *self.table
    }

    /// The search for matching files.
    pub closed spec fn search(self) -> MatchLoad {
        self.search
    }

    /// The snapshot whose manifest list is to be loaded.
    pub fn snapshot_id(&self) -> (id: i64)
        ensures
            id == self.search().snapshot(),
    {
        self.search.snapshot_id()
    }

    /// Takes the manifest list.
    pub fn resume(self, manifest_list: Vec<ManifestFile>) -> (step: OverwriteStep<'a, P>)
        ensures
            step@ == self.action().with_match(self.table(), match_list(manifest_list@)),
            step@ == overwrite_resumed(
                OverwriteStep::Load(self)@,
                OverwriteReply::Search(MatchReply::Listed(manifest_list@)),
            ),
    {
        let OverwriteLoad { action, table, search } = self;
        action.with_match(table, search.resume(manifest_list))
    }
}

/// An attempt that waits for the entries of a data manifest.
pub struct OverwriteRead<'a, P> {
    action: &'a OverwriteFilesAction<P>,
    table: &'a Table,
    search: MatchRead,
}

impl<'a, P> OverwriteRead<'a, P> {
    /// The action.
    pub closed spec fn action(self) -> OverwriteView<P> {
        self.action@
    }

    /// The table.
    pub closed spec fn table(self) -> Table {
        *self.table
    }

    /// The search for matching files.
    pub closed spec fn search(self) -> MatchRead {
        self.search
    }

    /// The manifest to read.
    pub fn manifest(&self) -> (manifest: &ManifestFile)
        ensures
            *manifest == self.search().state().manifests[self.search().state().reads.len() as int],
    {
        self.search.manifest()
    }

    /// Takes the entries of the manifest.
    pub fn resume(self, entries: Vec<ManifestEntry>) -> (step: OverwriteStep<'a, P>)
        ensures
            step@ == self.action().with_match(
                self.table(),
                self.search().state().with_entries(entries@).next(),
            ),
            step@ == overwrite_resumed(
                OverwriteStep::Read(self)@,
                OverwriteReply::Search(MatchReply::Entries(entries@)),
            ),
    {
        let OverwriteRead { action, table, search } = self;
        action.with_match(table, search.resume(entries))
    }
}

/// An attempt that waits for the answer to a question about a file.
pub struct OverwriteCheck<'a, P> {
    action: &'a OverwriteFilesAction<P>,
    table: &'a Table,
    search: MatchCheck,
}

impl<'a, P> OverwriteCheck<'a, P> {
    /// The action.
    pub closed spec fn action(self) -> OverwriteView<P> {
        self.action@
    }

    /// The table.
    pub closed spec fn table(self) -> Table {
        *self.table
    }

    /// The search for matching files.
    pub closed spec fn search(self) -> MatchCheck {
        self.search
    }

    /// The file.
    pub fn file(&self) -> (file: &DataFile)
        ensures
            *file == self.search().state().files()[self.search().state().verdicts.len() as int],
    {
        self.search.file()
    }

    /// The partition spec of the manifest that lists the file, by which the file's partition is to
    /// be judged.
    pub fn partition_spec_id(&self) -> (id: i32)
        ensures
            ({
                let state = self.search().state();
                &&& 0 < state.reads.len() <= state.manifests.len()
                &&& id == state.manifests[state.reads.len() - 1].partition_spec_id
                &&& state.under_judgement().contains(state.files()[state.verdicts.len() as int])
            }),
    {
        self.search.partition_spec_id()
    }

    /// The question.
    pub fn stage(&self) -> (stage: Stage)
        ensures
            stage == self.search().asked(),
    {
        self.search.stage()
    }

    /// Takes the answer.
    pub fn resume(self, holds: bool) -> (step: OverwriteStep<'a, P>)
        ensures
            step@ == self.action().with_match(
                self.table(),
                self.search().state().after_check(self.search().asked(), holds),
            ),
            step@ == overwrite_resumed(
                OverwriteStep::Check(self)@,
                OverwriteReply::Search(MatchReply::Answer(holds)),
            ),
    {
        let OverwriteCheck { action, table, search } = self;
        action.with_match(table, search.resume(holds))
    }
}

/// An attempt whose snapshot can be produced.
pub struct OverwriteReady<'a, P> {
    action: &'a OverwriteFilesAction<P>,
    table: &'a Table,
    operation: Operation,
    delete_files: Option<Vec<DataFile>>,
}

impl<'a, P> OverwriteReady<'a, P> {
    /// The action.
    pub closed spec fn action(self) -> OverwriteView<P> {
        self.action@
    }

    /// The table.
    pub closed spec fn table(self) -> Table {
        *self.table
    }

    /// The operation to report.
    pub closed spec fn chosen(self) -> Operation {
        self.operation
    }

    /// The files that match the row filter, in that mode.
    pub closed spec fn delete_files(self) -> Option<Seq<DataFile>> {
        match self.delete_files {
            Some(files) => Some(files@),
            None => None,
        }
    }

    /// Starts to produce the snapshot. The given snapshot id is used if no earlier attempt has
    /// chosen one.
    pub fn begin(self, cache: &mut ManifestCache, generated_snapshot_id: i64) -> (step: CommitStep<
        'a,
    >)
        ensures
            (step@, final(cache)@) == begun(
                self.action().producer,
                self.table(),
                self.chosen(),
                match self.delete_files() {
                    Some(files) => unique_paths(files),
                    None => unique_paths(self.action().producer.deleted_data_files),
                },
                self.delete_files() is None,
                old(cache)@,
                generated_snapshot_id,
            ),
            (step@, final(cache)@) == overwrite_begun(
                OverwriteStep::Ready(self)@,
                old(cache)@,
                generated_snapshot_id,
            ),
    {
        let OverwriteReady { action, table, operation, delete_files } = self;
        match delete_files {
            Some(files) => action.producer.commit_snapshot_with_dynamic_deletes(
                table,
                operation,
                files,
                cache,
                generated_snapshot_id,
            ),
            None => action.producer.commit_snapshot_with_operation(
                table,
                operation,
                cache,
                generated_snapshot_id,
            ),
        }
    }
}

/// Where an attempt to commit an overwrite stands.
pub enum OverwriteStep<'a, P> {
    /// The row filter is to be bound to the table.
    Bind(OverwriteBind<'a, P>),
    /// The manifest list of the current snapshot is to be loaded.
    Load(OverwriteLoad<'a, P>),
    /// A data manifest is to be read.
    Read(OverwriteRead<'a, P>),
    /// A question about a file is to be answered.
    Check(OverwriteCheck<'a, P>),
    /// The snapshot can be produced.
    Ready(OverwriteReady<'a, P>),
    /// The attempt failed.
    Failed(Error),
}

impl<'a, P> View for OverwriteStep<'a, P> {
    type V = OverwriteStepView<P>;

    open spec fn view(&self) -> OverwriteStepView<P> {
        match self {
            OverwriteStep::Bind(bind) => OverwriteStepView::Bind {
                action: bind.action(),
                table: bind.table(),
            },
            OverwriteStep::Load(load) => OverwriteStepView::Search {
                action: load.action(),
                table: load.table(),
                search: MatchStepView::Load(load.search().snapshot()),
            },
            OverwriteStep::Read(read) => OverwriteStepView::Search {
                action: read.action(),
                table: read.table(),
                search: MatchStepView::Read(read.search().state()),
            },
            OverwriteStep::Check(check) => OverwriteStepView::Search {
                action: check.action(),
                table: check.table(),
                search: MatchStepView::Check(check.search().state(), check.search().asked()),
            },
            OverwriteStep::Ready(ready) => OverwriteStepView::Ready {
                action: ready.action(),
                table: ready.table(),
                operation: ready.chosen(),
                delete_files: ready.delete_files(),
            },
            OverwriteStep::Failed(error) => OverwriteStepView::Failed(error@),
        }
    }
}

} // verus!
