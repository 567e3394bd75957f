//! Changes to single rows.
//!
//! [`RowDeltaAction`] adds data files and delete files to a table in one operation. The snapshot
//! reports the operation `Overwrite`.

use vstd::prelude::*;

use crate::commit::{begun, CommitStep};
use crate::error::{refusal, Error, ErrorKind, ErrorView};
use crate::existence::{
    data_manifests, existence_check, existence_next, validate_data_files_exist, ExistenceLoad,
    ExistenceRead, ExistenceStep, ExistenceStepView,
};
use crate::ids::is_version_7;
use crate::laws::checks::ReadReply;
use crate::laws::row_delta::{delta_begun, delta_resumed};
use crate::merging::{empty_producer, ManifestCache, MergingSnapshotProducer, ProducerView};
use crate::seqs::{lemma_filter_empty, lemma_filter_push, lemma_take_push};
use crate::text::{concat, texts};
use crate::types::{DataContentType, DataFile, ManifestEntry, ManifestFile, Operation, Table};

verus! {

/// The data files among the given files.
pub open spec fn data_files_among(files: Seq<DataFile>) -> Seq<DataFile> {
    files.filter(|f: DataFile| f.content == DataContentType::Data)
}

/// The paths of the data files that the given files refer to, in order.
pub open spec fn references_of(files: Seq<DataFile>) -> Seq<Seq<char>> {
    files.filter(|f: DataFile| f.referenced_data_file is Some).map_values(
        |f: DataFile| f.referenced_data_file->0@,
    )
}

/// The failure of a row delta that does nothing.
pub open spec fn empty_delta_error() -> ErrorView {
    ErrorView {
        kind: ErrorKind::DataInvalid,
        message: "RowDelta requires at least one data file or delete file to add"@,
    }
}

/// The failure to add a data file as a delete file.
pub open spec fn not_a_delete_file_error(path: Seq<char>) -> ErrorView {
    ErrorView {
        kind: ErrorKind::DataInvalid,
        message: "Cannot add a data file as a delete file: "@ + path,
    }
}

/// What is wrong with a row delta, if anything is.
pub open spec fn delta_fault(producer: ProducerView) -> Option<ErrorView> {
    let data_files = data_files_among(producer.added_delete_files);
    if producer.added_data_files.len() == 0 && producer.added_delete_files.len() == 0 {
        Some(empty_delta_error())
    } else if data_files.len() > 0 {
        Some(not_a_delete_file_error(data_files[0].file_path@))
    } else {
        None
    }
}

/// Where an attempt to commit a row delta stands.
pub enum RowDeltaStepView {
    /// The data files that the delete files refer to are being searched.
    Search { producer: ProducerView, table: Table, search: ExistenceStepView },
    /// The snapshot can be produced.
    Ready { producer: ProducerView, table: Table },
    /// The attempt failed.
    Failed(ErrorView),
}

/// Where an attempt to commit a row delta stands after a step of the search for data files.
pub open spec fn delta_with_search(
    producer: ProducerView,
    table: Table,
    search: ExistenceStepView,
) -> RowDeltaStepView {
    match search {
        ExistenceStepView::Passed => RowDeltaStepView::Ready { producer, table },
        ExistenceStepView::Failed(error) => RowDeltaStepView::Failed(error),
        _ => RowDeltaStepView::Search { producer, table, search },
    }
}

/// Where an attempt to commit a row delta stands at its start.
pub open spec fn delta_start(producer: ProducerView, table: Table) -> RowDeltaStepView {
    match delta_fault(producer) {
        Some(error) => RowDeltaStepView::Failed(error),
        None => delta_with_search(
            producer,
            table,
            existence_check(table, references_of(producer.added_delete_files)),
        ),
    }
}

/// An action that adds data files and delete files.
#[derive(Debug)]
pub struct RowDeltaAction {
    producer: MergingSnapshotProducer,
}

impl View for RowDeltaAction {
    type V = ProducerView;

    closed spec fn view(&self) -> ProducerView {
        self.producer@
    }
}

impl RowDeltaAction {
    /// Row deltas report the operation `Overwrite` and remove no data files.
    #[verifier::type_invariant]
    spec fn consistent(self) -> bool {
        &&& self@.operation == Operation::Overwrite
        &&& self@.deleted_data_files.len() == 0
    }

    /// Creates an action that adds no files.
    pub fn new() -> (action: Self)
        ensures
            action@ == empty_producer(Operation::Overwrite, action@.commit_uuid),
            is_version_7(action@.commit_uuid),
    {
        RowDeltaAction { producer: MergingSnapshotProducer::new(Operation::Overwrite) }
    }

    /// Creates an action that adds no files, under the given commit UUID.
    pub fn with_commit_uuid(commit_uuid: u128) -> (action: Self)
        ensures
            action@ == empty_producer(Operation::Overwrite, commit_uuid),
    {
        RowDeltaAction {
            producer: MergingSnapshotProducer::with_commit_uuid(Operation::Overwrite, commit_uuid),
        }
    }

    /// Adds a data file to the table.
    pub fn add_rows(self, file: DataFile) -> (action: Self)
        ensures
            action@ == (ProducerView {
                added_data_files: self@.added_data_files.push(file),
                ..self@
            }),
    {
        proof {
            use_type_invariant(&self);
        }
        let RowDeltaAction { mut producer } = self;
        producer.add_data_file(file);
        RowDeltaAction { producer }
    }

    /// Adds a delete file to the table.
    pub fn add_deletes(self, file: DataFile) -> (action: Self)
        ensures
            action@ == (ProducerView {
                added_delete_files: self@.added_delete_files.push(file),
                ..self@
            }),
    {
        proof {
            use_type_invariant(&self);
        }
        let RowDeltaAction { mut producer } = self;
        producer.add_delete_file(file);
        RowDeltaAction { producer }
    }

    /// Checks that the action adds a file, and that no data file is added as a delete file.
    pub fn validate(&self) -> (result: Result<(), Error>)
        ensures
            refusal(result) == delta_fault(self@),
    {
        if !self.producer.has_added_data_files() && !self.producer.has_added_delete_files() {
            return Err(
                Error::new(
                    ErrorKind::DataInvalid,
                    "RowDelta requires at least one data file or delete file to add".to_owned(),
                ),
            );
        }
        let files = self.producer.added_delete_files();
        let ghost pred = |f: DataFile| f.content == DataContentType::Data;
        let mut i: usize = 0;
        proof {
            assert(files@.take(0) =~= Seq::<DataFile>::empty());
            lemma_filter_empty(pred);
        }
        while i < files.len()
            invariant
                i <= files.len(),
                files@ == self@.added_delete_files,
                self@.added_data_files.len() > 0 || self@.added_delete_files.len() > 0,
                pred == (|f: DataFile| f.content == DataContentType::Data),
                files@.take(i as int).filter(pred).len() == 0,
            decreases files.len() - i,
        {
            let file = &files[i];
            proof {
                lemma_take_push(files@, i as int);
                lemma_filter_push(files@.take(i as int), *file, pred);
            }
            if file.content_type() == DataContentType::Data {
                proof {
                    let rest = files@.skip(i + 1);
                    assert(files@ =~= files@.take(i + 1) + rest);
                    Seq::filter_distributes_over_add(files@.take(i + 1), rest, pred);
                    assert(files@.take(i + 1).filter(pred)[0] == *file);
                    assert(data_files_among(files@)[0] == *file);
                }
                return Err(
                    Error::new(
                        ErrorKind::DataInvalid,
                        concat(
                            "Cannot add a data file as a delete file: ",
                            file.file_path.as_str(),
                        ),
                    ),
                );
            }
            i += 1;
        }
        assert(files@.take(i as int) =~= files@);
        Ok(())
    }

    /// The paths of the data files that the delete files refer to.
    fn referenced_paths(&self) -> (paths: Vec<String>)
        ensures
            texts(paths@) == references_of(self@.added_delete_files),
    {
        let files = self.producer.added_delete_files();
        let ghost pred = |f: DataFile| f.referenced_data_file is Some;
        let mut paths: Vec<String> = Vec::new();
        let mut i: usize = 0;
        proof {
            assert(files@.take(0) =~= Seq::<DataFile>::empty());
            lemma_filter_empty(pred);
            assert(texts(paths@) =~= references_of(files@.take(0)));
        }
        while i < files.len()
            invariant
                i <= files.len(),
                pred == (|f: DataFile| f.referenced_data_file is Some),
                texts(paths@) == references_of(files@.take(i as int)),
            decreases files.len() - i,
        {
            let file = &files[i];
            let ghost before = paths@;
            proof {
                lemma_take_push(files@, i as int);
                lemma_filter_push(files@.take(i as int), *file, pred);
            }
            match &file.referenced_data_file {
                Some(path) => {
                    paths.push(path.clone());
                    assert(texts(paths@) =~= texts(before).push(path@));
                    assert(references_of(files@.take(i + 1)) =~= references_of(
                        files@.take(i as int),
                    ).push(path@));
                },
                None => {},
            }
            i += 1;
        }
        assert(files@.take(i as int) =~= files@);
        paths
    }

    /// Starts an attempt to commit the action.
    pub fn commit<'a>(&'a self, table: &'a Table) -> (step: RowDeltaStep<'a>)
        ensures
            step@ == delta_start(self@, *table),
    {
        match self.validate() {
            Err(error) => {
                return RowDeltaStep::Failed(error);
            },
            Ok(()) => {},
        }
        let search = validate_data_files_exist(table, self.referenced_paths());
        self.with_search(table, search)
    }

    /// Goes on after a step of the search for data files.
    fn with_search<'a>(&'a self, table: &'a Table, search: ExistenceStep) -> (step: RowDeltaStep<
        'a,
    >)
        ensures
            step@ == delta_with_search(self@, *table, search@),
    {
        match search {
            ExistenceStep::Load(search) => RowDeltaStep::Load(
                RowDeltaLoad { action: self, table, search },
            ),
            ExistenceStep::Read(search) => RowDeltaStep::Read(
                RowDeltaRead { action: self, table, search },
            ),
            ExistenceStep::Passed => RowDeltaStep::Ready(RowDeltaReady { action: self, table }),
            ExistenceStep::Failed(error) => RowDeltaStep::Failed(error),
        }
    }
}

/// An attempt that waits for the manifest list of the current snapshot.
pub struct RowDeltaLoad<'a> {
    action: &'a RowDeltaAction,
    table: &'a Table,
    search: ExistenceLoad,
}

impl<'a> RowDeltaLoad<'a> {
    /// The files to add.
    pub closed spec fn producer(self) -> ProducerView {
        self.action@
    }

    /// The table.
    pub closed spec fn table(self) -> Table {
        *self.table
    }

    /// The search for data files.
    pub closed spec fn search(self) -> ExistenceLoad {
        self.search
    }

    /// The snapshot whose manifest list is to be loaded.
    pub fn snapshot_id(&self) -> (id: i64)
        ensures
            id == self.search().snapshot(),
    {
        self.search.snapshot_id()
    }

    /// Takes the manifest list.
    pub fn resume(self, manifest_list: Vec<ManifestFile>) -> (step: RowDeltaStep<'a>)
        ensures
            step@ == delta_with_search(
                self.producer(),
                self.table(),
                existence_next(
                    self.search().references(),
                    data_manifests(manifest_list@),
                    Seq::empty(),
                ),
            ),
            step@ == delta_resumed(RowDeltaStep::Load(self)@, ReadReply::Listed(manifest_list@)),
    {
        let RowDeltaLoad { action, table, search } = self;
        action.with_search(table, search.resume(manifest_list))
    }
}

/// An attempt that waits for the entries of a data manifest.
pub struct RowDeltaRead<'a> {
    action: &'a RowDeltaAction,
    table: &'a Table,
    search: ExistenceRead,
}

impl<'a> RowDeltaRead<'a> {
    /// The files to add.
    pub closed spec fn producer(self) -> ProducerView {
        self.action@
    }

    /// The table.
    pub closed spec fn table(self) -> Table {
        *self.table
    }

    /// The search for data files.
    pub closed spec fn search(self) -> ExistenceRead {
        self.search
    }

    /// The manifest to read.
    pub fn manifest(&self) -> (manifest: &ManifestFile)
        ensures
            *manifest == self.search().manifests()[self.search().reads().len() as int],
    {
        self.search.manifest()
    }

    /// Takes the entries of the manifest.
    pub fn resume(self, entries: Vec<ManifestEntry>) -> (step: RowDeltaStep<'a>)
        ensures
            step@ == delta_with_search(
                self.producer(),
                self.table(),
                existence_next(
                    self.search().references(),
                    self.search().manifests(),
                    self.search().reads().push(entries@),
                ),
            ),
            step@ == delta_resumed(RowDeltaStep::Read(self)@, ReadReply::Entries(entries@)),
    {
        let RowDeltaRead { action, table, search } = self;
        action.with_search(table, search.resume(entries))
    }
}

/// An attempt whose snapshot can be produced.
pub struct RowDeltaReady<'a> {
    action: &'a RowDeltaAction,
    table: &'a Table,
}

impl<'a> RowDeltaReady<'a> {
    /// The files to add.
    pub closed spec fn producer(self) -> ProducerView {
        self.action@
    }

    /// The table.
    pub closed spec fn table(self) -> Table {
        *self.table
    }

    /// Starts to produce the snapshot, which reports the operation `Overwrite`. The given snapshot
    /// id is used if no earlier attempt has chosen one.
    pub fn begin(self, cache: &mut ManifestCache, generated_snapshot_id: i64) -> (step: CommitStep<
        'a,
    >)
        ensures
            (step@, final(cache)@) == begun(
                self.producer(),
                self.table(),
                Operation::Overwrite,
                Seq::empty(),
                true,
                old(cache)@,
                generated_snapshot_id,
            ),
            (step@, final(cache)@) == delta_begun(
                RowDeltaStep::Ready(self)@,
                old(cache)@,
                generated_snapshot_id,
            ),
    {
        proof {
            use_type_invariant(self.action);
        }
        self.action.producer.commit_snapshot(self.table, cache, generated_snapshot_id)
    }
}

/// Where an attempt to commit a row delta stands.
pub enum RowDeltaStep<'a> {
    /// The manifest list of the current snapshot is to be loaded.
    Load(RowDeltaLoad<'a>),
    /// A data manifest is to be read.
    Read(RowDeltaRead<'a>),
    /// The snapshot can be produced.
    Ready(RowDeltaReady<'a>),
    /// The attempt failed.
    Failed(Error),
}

impl<'a> View for RowDeltaStep<'a> {
    type V = RowDeltaStepView;

    open spec fn view(&self) -> RowDeltaStepView {
        match self {
            RowDeltaStep::Load(load) => RowDeltaStepView::Search {
                producer: load.producer(),
                table: load.table(),
                search: ExistenceStepView::Load {
                    references: load.search().references(),
                    snapshot_id: load.search().snapshot(),
                },
            },
            RowDeltaStep::Read(read) => RowDeltaStepView::Search {
                producer: read.producer(),
                table: read.table(),
                search: ExistenceStepView::Read {
                    references: read.search().references(),
                    manifests: read.search().manifests(),
                    reads: read.search().reads(),
                },
            },
            RowDeltaStep::Ready(ready) => RowDeltaStepView::Ready {
                producer: ready.producer(),
                table: ready.table(),
            },
            RowDeltaStep::Failed(error) => RowDeltaStepView::Failed(error@),
        }
    }
}

} // verus!
