//! The check for delete files that another writer has added.
//!
//! When several writers change a table at the same time, an operation that replaces data files
//! has to make sure before it commits that no other writer has added delete files for them since
//! it has read the table.
//!
//! The check is a sequence of [`ConflictStep`]s. Each step names what is to be read next and is
//! resumed with it, until the check has passed or failed.

use std::collections::HashSet;

use vstd::hash_set::StringHashSet;
use vstd::prelude::*;

use crate::ancestry::{
    ancestry_ends, find_snapshots_with_deletes, find_with_ancestors, snapshots_with_deletes,
    with_ancestors,
};
use crate::error::{Error, ErrorKind, ErrorView};
use crate::laws::checks::{conflict_resumed, ReadReply};
use crate::seqs::{lemma_filter_empty, lemma_filter_push, lemma_push_contains, lemma_take_push};
use crate::text::concat;
use crate::types::{
    DataFile, ManifestContentType, ManifestEntry, ManifestFile, ManifestStatus, Table,
    TableMetadata,
};

verus! {

broadcast use vstd::std_specs::hash::group_hash_axioms;

/// The paths of the files.
pub open spec fn paths_of(files: Seq<DataFile>) -> Seq<Seq<char>> {
    files.map_values(|file: DataFile| file.file_path@)
}

/// The manifests of a list that the given snapshot has added and that list delete files.
pub open spec fn delete_manifests_of(list: Seq<ManifestFile>, snapshot_id: i64) -> Seq<
    ManifestFile,
> {
    list.filter(
        |m: ManifestFile|
            m.content == ManifestContentType::Deletes && m.added_snapshot_id == snapshot_id,
    )
}

/// Whether an entry is carried over from one of the given snapshots: it is in state `Existing`,
/// and one of them has added its file.
pub open spec fn carried_over(earlier: Set<i64>, entry: ManifestEntry) -> bool {
    entry.status == ManifestStatus::Existing && match entry.snapshot_id {
        Some(id) => earlier.contains(id),
        None => false,
    }
}

/// Whether an entry lists a live delete file for one of the replaced files that is not carried
/// over from one of the given snapshots.
pub open spec fn conflicts(
    replaced: Seq<Seq<char>>,
    earlier: Set<i64>,
    entry: ManifestEntry,
) -> bool {
    entry.alive() && !carried_over(earlier, entry) && match entry.data_file.referenced_data_file {
        Some(path) => replaced.contains(path@),
        None => false,
    }
}

/// The entries that list live delete files for replaced files that are not carried over from one
/// of the given snapshots.
pub open spec fn conflicting(
    replaced: Seq<Seq<char>>,
    earlier: Set<i64>,
    entries: Seq<ManifestEntry>,
) -> Seq<ManifestEntry> {
    entries.filter(|e: ManifestEntry| conflicts(replaced, earlier, e))
}

/// The failure of a check that found a new delete file for a replaced data file.
pub open spec fn new_delete_error(path: Seq<char>) -> ErrorView {
    ErrorView {
        kind: ErrorKind::DataInvalid,
        message: "Cannot commit, found new position delete for replaced data file: "@ + path,
    }
}

/// What was read for one of the snapshots to check.
pub struct Visit {
    /// The manifest list of the snapshot.
    pub manifests: Seq<ManifestFile>,
    /// The entries of its own delete manifests, as far as they were read.
    pub reads: Seq<Seq<ManifestEntry>>,
}

/// What a check for new delete files is asked to do.
pub struct ConflictTask {
    /// The paths of the replaced files.
    pub replaced: Seq<Seq<char>>,
    /// The starting snapshot and its ancestors.
    pub earlier: Set<i64>,
    /// The snapshots to check.
    pub snapshot_ids: Seq<i64>,
}

/// Where a check for new delete files stands.
pub enum ConflictStepView {
    /// The manifest list of the next snapshot is to be loaded.
    Load { task: ConflictTask, visits: Seq<Visit> },
    /// The next delete manifest of the last visited snapshot is to be read.
    Read { task: ConflictTask, visits: Seq<Visit> },
    /// There is no conflict.
    Passed,
    /// There is a conflict.
    Failed(ErrorView),
}

impl ConflictTask {
    /// The manifests to read for the `k`-th snapshot.
    pub open spec fn pending(self, visits: Seq<Visit>, k: int) -> Seq<ManifestFile> {
        delete_manifests_of(visits[k].manifests, self.snapshot_ids[k])
    }

    /// Whether all manifests of the `k`-th snapshot were read.
    pub open spec fn complete(self, visits: Seq<Visit>, k: int) -> bool {
        visits[k].reads.len() == self.pending(visits, k).len()
    }

    /// Whether none of the entries that were read is a conflict.
    pub open spec fn clear(self, visits: Seq<Visit>) -> bool {
        forall|k: int, i: int|
            0 <= k < visits.len() && 0 <= i < visits[k].reads.len() ==> conflicting(
                self.replaced,
                self.earlier,
                #[trigger] visits[k].reads[i],
            ).len() == 0
    }

    /// Whether every snapshot was checked and none has a conflict.
    pub open spec fn cleared(self, visits: Seq<Visit>) -> bool {
        &&& visits.len() == self.snapshot_ids.len()
        &&& forall|k: int| 0 <= k < visits.len() ==> #[trigger] self.complete(visits, k)
        &&& self.clear(visits)
    }

    /// Where the check stands after the given visits.
    pub open spec fn next(self, visits: Seq<Visit>) -> ConflictStepView {
        if visits.len() > 0 && !self.complete(visits, visits.len() - 1) {
            ConflictStepView::Read { task: self, visits }
        } else if visits.len() < self.snapshot_ids.len() {
            ConflictStepView::Load { task: self, visits }
        } else {
            ConflictStepView::Passed
        }
    }

    /// The visits after the manifest list of the next snapshot was loaded.
    pub open spec fn with_list(self, visits: Seq<Visit>, list: Seq<ManifestFile>) -> Seq<Visit> {
        visits.push(Visit { manifests: list, reads: Seq::empty() })
    }

    /// The visits after the next delete manifest was read.
    pub open spec fn with_entries(
        self,
        visits: Seq<Visit>,
        entries: Seq<ManifestEntry>,
    ) -> Seq<Visit> {
        let last = visits.last();
        visits.drop_last().push(
            Visit { manifests: last.manifests, reads: last.reads.push(entries) },
        )
    }

    /// Where the check stands after the next delete manifest was read.
    pub open spec fn after_read(
        self,
        visits: Seq<Visit>,
        entries: Seq<ManifestEntry>,
    ) -> ConflictStepView {
        let found = conflicting(self.replaced, self.earlier, entries);
        if found.len() > 0 {
            ConflictStepView::Failed(
                new_delete_error(found[0].data_file.referenced_data_file->0@),
            )
        } else {
            self.next(self.with_entries(visits, entries))
        }
    }
}

/// What a check for delete files that were added for the given data files since the starting
/// snapshot is asked to do.
pub open spec fn conflict_task(
    metadata: TableMetadata,
    starting: Option<i64>,
    files: Seq<DataFile>,
) -> ConflictTask {
    ConflictTask {
        replaced: paths_of(files),
        earlier: with_ancestors(metadata, starting),
        snapshot_ids: snapshots_with_deletes(metadata, starting, metadata.current_snapshot_id),
    }
}

/// The check for delete files that were added for the given data files since the starting
/// snapshot.
pub open spec fn conflict_check(
    metadata: TableMetadata,
    starting: Option<i64>,
    files: Seq<DataFile>,
) -> ConflictStepView {
    if files.len() == 0 || metadata.current_snapshot_id == starting {
        ConflictStepView::Passed
    } else {
        conflict_task(metadata, starting, files).next(Seq::empty())
    }
}

/// Starts the check that no delete files have been added for the given data files since the
/// starting snapshot.
///
/// The snapshots since then that may have added delete files are visited, and the delete
/// manifests that each of them has added are read. A delete file that was there at the start, and
/// that such a manifest only carries over, is no new one. Only delete files that name the data
/// file they apply to are found.
pub fn validate_no_new_deletes_for_data_files(
    table: &Table,
    starting_snapshot_id: Option<i64>,
    replaced_data_files: &Vec<DataFile>,
) -> (step: ConflictStep)
    requires
        replaced_data_files@.len() > 0 && table.metadata.current_snapshot_id
            != starting_snapshot_id ==> ancestry_ends(
            table.metadata,
            starting_snapshot_id,
            table.metadata.current_snapshot_id,
        ),
    ensures
        step@ == conflict_check(table.metadata, starting_snapshot_id, replaced_data_files@),
{
    if replaced_data_files.len() == 0 {
        return ConflictStep::Passed;
    }
    let current_snapshot_id = table.metadata.current_snapshot_id;
    if current_snapshot_id == starting_snapshot_id {
        return ConflictStep::Passed;
    }
    let snapshot_ids = find_snapshots_with_deletes(
        &table.metadata,
        starting_snapshot_id,
        current_snapshot_id,
    );
    let earlier = find_with_ancestors(&table.metadata, starting_snapshot_id);
    let ghost paths = paths_of(replaced_data_files@);
    let mut replaced = StringHashSet::new();
    let mut i: usize = 0;
    while i < replaced_data_files.len()
        invariant
            i <= replaced_data_files.len(),
            paths == paths_of(replaced_data_files@),
            forall|path: Seq<char>| #[trigger]
                replaced@.contains(path) <==> paths.take(i as int).contains(path),
        decreases replaced_data_files.len() - i,
    {
        let ghost before = replaced@;
        replaced.insert(replaced_data_files[i].file_path.clone());
        proof {
            lemma_take_push(paths, i as int);
            assert forall|path: Seq<char>| #[trigger]
                replaced@.contains(path) <==> paths.take(i + 1).contains(path) by {
                lemma_push_contains(paths.take(i as int), paths[i as int], path);
            }
        }
        i += 1;
    }
    assert(paths.take(i as int) =~= paths);
    let run = ConflictRun {
        replaced,
        earlier,
        snapshot_ids,
        visited: 0,
        pending: Vec::new(),
        read: 0,
        paths: Ghost(paths),
        visits: Ghost(Seq::empty()),
    };
    run.advance()
}

/// The state of a check for new delete files.
struct ConflictRun {
    replaced: StringHashSet,
    earlier: HashSet<i64>,
    snapshot_ids: Vec<i64>,
    visited: usize,
    pending: Vec<ManifestFile>,
    read: usize,
    paths: Ghost<Seq<Seq<char>>>,
    visits: Ghost<Seq<Visit>>,
}

impl ConflictRun {
    spec fn task(self) -> ConflictTask {
        ConflictTask {
            replaced: self.paths@,
            earlier: self.earlier@,
            snapshot_ids: self.snapshot_ids@,
        }
    }

    spec fn inv(self) -> bool {
        let task = self.task();
        let visits = self.visits@;
        &&& forall|path: Seq<char>| #[trigger]
            self.replaced@.contains(path) <==> self.paths@.contains(path)
        &&& self.visited == visits.len()
        &&& self.visited <= self.snapshot_ids@.len()
        &&& self.read <= self.pending@.len()
        &&& if visits.len() == 0 {
            self.pending@.len() == 0
        } else {
            &&& self.pending@ == task.pending(visits, visits.len() - 1)
            &&& self.read == visits.last().reads.len()
        }
        &&& forall|k: int| 0 <= k < visits.len() - 1 ==> #[trigger] task.complete(visits, k)
        &&& task.clear(visits)
    }

    /// Goes on to the next thing to read.
    fn advance(self) -> (step: ConflictStep)
        requires
            self.inv(),
        ensures
            step@ == self.task().next(self.visits@),
            step is Passed ==> self.task().cleared(self.visits@),
    {
        if self.read < self.pending.len() {
            ConflictStep::Read(ConflictRead { run: self })
        } else if self.visited < self.snapshot_ids.len() {
            ConflictStep::Load(ConflictLoad { run: self })
        } else {
            ConflictStep::Passed
        }
    }
}

/// A check that waits for the manifest list of a snapshot.
pub struct ConflictLoad {
    run: ConflictRun,
}

impl ConflictLoad {
    #[verifier::type_invariant]
    spec fn consistent(self) -> bool {
        &&& self.run.inv()
        &&& self.run.read == self.run.pending@.len()
        &&& self.run.visited < self.run.snapshot_ids@.len()
    }

    /// What the check is asked to do.
    pub closed spec fn task(self) -> ConflictTask {
        self.run.task()
    }

    /// What was read so far.
    pub closed spec fn visits(self) -> Seq<Visit> {
        self.run.visits@
    }

    /// The snapshot whose manifest list is to be loaded.
    pub fn snapshot_id(&self) -> (id: i64)
        ensures
            id == self.task().snapshot_ids[self.visits().len() as int],
    {
        proof {
            use_type_invariant(self);
        }
        self.run.snapshot_ids[self.run.visited]
    }

    /// Takes the manifest list.
    pub fn resume(self, manifest_list: Vec<ManifestFile>) -> (step: ConflictStep)
        ensures
            step@ == self.task().next(self.task().with_list(self.visits(), manifest_list@)),
            step@ == conflict_resumed(
                ConflictStep::Load(self)@,
                ReadReply::Listed(manifest_list@),
            ),
            step is Passed ==> self.task().cleared(
                self.task().with_list(self.visits(), manifest_list@),
            ),
    {
        proof {
            use_type_invariant(&self);
        }
        let ConflictLoad { run } = self;
        let mut run = run;
        let ghost task = run.task();
        let ghost before = run.visits@;
        let snapshot_id: i64 = run.snapshot_ids[run.visited];
        run.pending = keep_delete_manifests(&manifest_list, snapshot_id);
        run.read = 0;
        assert(run.visited < run.snapshot_ids.len());
        run.visited += 1;
        run.visits = Ghost(task.with_list(before, manifest_list@));
        proof {
            let visits = run.visits@;
            assert forall|k: int| 0 <= k < visits.len() - 1 implies #[trigger] task.complete(
                visits,
                k,
            ) by {
                assert(visits[k] == before[k]);
                assert(task.complete(before, k));
            }
            assert(task.clear(visits)) by {
                assert forall|k: int, i: int|
                    0 <= k < visits.len() && 0 <= i < visits[k].reads.len() implies conflicting(
                    task.replaced,
                    task.earlier,
                    #[trigger] visits[k].reads[i],
                ).len() == 0 by {
                    if k < before.len() {
                        assert(visits[k] == before[k]);
                        assert(conflicting(task.replaced, task.earlier, before[k].reads[i]).len() == 0);
                    }
                }
            }
        }
        run.advance()
    }
}

/// Copies the manifests that the given snapshot has added and that list delete files.
fn keep_delete_manifests(list: &Vec<ManifestFile>, snapshot_id: i64) -> (kept: Vec<ManifestFile>)
    ensures
        kept@ == delete_manifests_of(list@, snapshot_id),
{
    let ghost pred = |m: ManifestFile|
        m.content == ManifestContentType::Deletes && m.added_snapshot_id == snapshot_id;
    let mut kept: Vec<ManifestFile> = Vec::new();
    let mut i: usize = 0;
    proof {
        assert(list@.take(0) =~= Seq::<ManifestFile>::empty());
        lemma_filter_empty(pred);
    }
    while i < list.len()
        invariant
            i <= list.len(),
            pred == (|m: ManifestFile|
                m.content == ManifestContentType::Deletes && m.added_snapshot_id == snapshot_id),
            kept@ == list@.take(i as int).filter(pred),
        decreases list.len() - i,
    {
        let manifest = &list[i];
        proof {
            lemma_take_push(list@, i as int);
            lemma_filter_push(list@.take(i as int), *manifest, pred);
        }
        if manifest.content == ManifestContentType::Deletes && manifest.added_snapshot_id
            == snapshot_id {
            kept.push(manifest.clone());
        }
        i += 1;
    }
    assert(list@.take(i as int) =~= list@);
    kept
}

/// Whether an entry is carried over from one of the given snapshots.
fn is_carried_over(earlier: &HashSet<i64>, entry: &ManifestEntry) -> (result: bool)
    ensures
        result == carried_over(earlier@, *entry),
{
    match entry.snapshot_id {
        Some(id) => entry.status == ManifestStatus::Existing && earlier.contains(&id),
        None => false,
    }
}

/// A check that waits for the entries of a delete manifest.
pub struct ConflictRead {
    run: ConflictRun,
}

impl ConflictRead {
    #[verifier::type_invariant]
    spec fn consistent(self) -> bool {
        self.run.inv() && self.run.read < self.run.pending@.len()
    }

    /// What the check is asked to do.
    pub closed spec fn task(self) -> ConflictTask {
        self.run.task()
    }

    /// What was read so far.
    pub closed spec fn visits(self) -> Seq<Visit> {
        self.run.visits@
    }

    /// The manifest to read.
    pub fn manifest(&self) -> (manifest: &ManifestFile)
        ensures
            *manifest == self.task().pending(
                self.visits(),
                self.visits().len() - 1,
            )[self.visits().last().reads.len() as int],
    {
        proof {
            use_type_invariant(self);
        }
        &self.run.pending[self.run.read]
    }

    /// Takes the entries of the manifest.
    pub fn resume(self, entries: Vec<ManifestEntry>) -> (step: ConflictStep)
        ensures
            step@ == self.task().after_read(self.visits(), entries@),
            step@ == conflict_resumed(ConflictStep::Read(self)@, ReadReply::Entries(entries@)),
            step is Passed ==> self.task().cleared(
                self.task().with_entries(self.visits(), entries@),
            ),
    {
        proof {
            use_type_invariant(&self);
        }
        let ConflictRead { run } = self;
        let mut run = run;
        let ghost task = run.task();
        let ghost before = run.visits@;
        let ghost pred = |e: ManifestEntry| conflicts(task.replaced, task.earlier, e);
        let mut i: usize = 0;
        proof {
            assert(entries@.take(0) =~= Seq::<ManifestEntry>::empty());
            lemma_filter_empty(pred);
        }
        while i < entries.len()
            invariant
                i <= entries.len(),
                run.inv(),
                run.task() == task,
                task == self.task(),
                pred == (|e: ManifestEntry| conflicts(task.replaced, task.earlier, e)),
                entries@.take(i as int).filter(pred).len() == 0,
            decreases entries.len() - i,
        {
            let entry = &entries[i];
            proof {
                lemma_take_push(entries@, i as int);
                lemma_filter_push(entries@.take(i as int), *entry, pred);
            }
            if entry.is_alive() && !is_carried_over(&run.earlier, entry) {
                match &entry.data_file.referenced_data_file {
                    Some(referenced) => {
                        if run.replaced.contains(referenced.as_str()) {
                            proof {
                                let rest = entries@.skip(i + 1);
                                assert(entries@ =~= entries@.take(i + 1) + rest);
                                Seq::filter_distributes_over_add(
                                    entries@.take(i + 1),
                                    rest,
                                    pred,
                                );
                                assert(entries@.take(i + 1).filter(pred)[0] == *entry);
                                assert(conflicting(task.replaced, task.earlier, entries@)[0] == *entry);
                            }
                            return ConflictStep::Failed(
                                Error::new(
                                    ErrorKind::DataInvalid,
                                    concat(
                                        "Cannot commit, found new position delete for replaced data file: ",
                                        referenced.as_str(),
                                    ),
                                ),
                            );
                        }
                    },
                    None => {},
                }
            }
            i += 1;
        }
        assert(entries@.take(i as int) =~= entries@);
        assert(run.read < run.pending.len());
        run.read += 1;
        run.visits = Ghost(task.with_entries(before, entries@));
        proof {
            let visits = run.visits@;
            assert forall|k: int| 0 <= k < visits.len() - 1 implies #[trigger] task.complete(
                visits,
                k,
            ) by {
                assert(visits[k] == before[k]);
                assert(task.complete(before, k));
            }
            assert(task.clear(visits)) by {
                assert forall|k: int, i: int|
                    0 <= k < visits.len() && 0 <= i < visits[k].reads.len() implies conflicting(
                    task.replaced,
                    task.earlier,
                    #[trigger] visits[k].reads[i],
                ).len() == 0 by {
                    if k < before.len() - 1 {
                        assert(visits[k] == before[k]);
                        assert(conflicting(task.replaced, task.earlier, before[k].reads[i]).len() == 0);
                    } else if i < before.last().reads.len() {
                        assert(visits[k].reads[i] == before[k].reads[i]);
                        assert(conflicting(task.replaced, task.earlier, before[k].reads[i]).len() == 0);
                    }
                }
            }
        }
        run.advance()
    }
}

/// Where a check for new delete files stands.
pub enum ConflictStep {
    /// The manifest list of a snapshot is to be loaded.
    Load(ConflictLoad),
    /// A delete manifest is to be read.
    Read(ConflictRead),
    /// There is no conflict.
    Passed,
    /// There is a conflict.
    Failed(Error),
}

impl View for ConflictStep {
    type V = ConflictStepView;

    open spec fn view(&self) -> ConflictStepView {
        match self {
            ConflictStep::Load(load) => ConflictStepView::Load {
                task: load.task(),
                visits: load.visits(),
            },
            ConflictStep::Read(read) => ConflictStepView::Read {
                task: read.task(),
                visits: read.visits(),
            },
            ConflictStep::Passed => ConflictStepView::Passed,
            ConflictStep::Failed(error) => ConflictStepView::Failed(error@),
        }
    }
}

} // verus!
