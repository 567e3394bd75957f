//! Attempts to commit a snapshot that adds and removes files.
//!
//! An attempt is a sequence of [`CommitStep`]s. Each step names one thing that the caller has to
//! do with the table's storage and is resumed with its result, until the step is the plan of the
//! new snapshot or a failure. A failure of the storage ends the attempt: the step is dropped.
//!
//! The [`ManifestCache`] is handed to every step that uses it. Attempts that follow one another
//! share it.

use vstd::prelude::*;

use crate::error::{Error, ErrorView};
use crate::filter::{
    FilterOutcome, FilterRead, FilterReply, FilterStep, FilterStepView, FilterTask, FilterWrite,
    ManifestFilterManager, OutcomeView,
};
use crate::ids::is_version_7;
use crate::laws::attempts::{resumed, StorageReply};
use crate::merging::{
    added_manifest, clone_listed, filter_for, listed, summary_of, unique_paths, CacheView,
    ManifestCache, MergingSnapshotProducer, ProducerView,
};
use crate::seqs::{lemma_filter_empty, lemma_filter_push, lemma_take_push};
use crate::summary::{SnapshotSummaryCollector, SummaryChange, SummaryPlan, SummaryView};
use crate::types::{DataFile, ManifestContentType, ManifestEntry, ManifestFile, Operation, Table};
use crate::writer::{ManifestWriter, WriterView};

verus! {

/// The manifests of a list that may list files.
pub open spec fn with_files(manifests: Seq<ManifestFile>) -> Seq<ManifestFile> {
    manifests.filter(|m: ManifestFile| m.lists_files())
}

/// What an attempt is asked to do.
pub struct CommitTask {
    /// The files to add and remove.
    pub producer: ProducerView,
    /// The table.
    pub table: Table,
    /// The operation to report.
    pub operation: Operation,
    /// The id of the new snapshot.
    pub snapshot_id: i64,
    /// Whether the producer's delete files are added.
    pub with_delete_files: bool,
    /// The manifests of the added data files that an earlier attempt has written.
    pub cached: Option<Seq<ManifestFile>>,
}

/// The plan of a new snapshot.
pub struct PlanView {
    pub snapshot_id: i64,
    pub manifests: Seq<ManifestFile>,
    pub summary: SummaryView,
}

/// Where an attempt stands.
pub enum CommitStepView {
    /// The manifest list of the current snapshot is to be loaded.
    Load { task: CommitTask, targets: Seq<Seq<char>> },
    /// Files that an earlier attempt has left behind are to be deleted.
    CleanUp {
        task: CommitTask,
        targets: Seq<Seq<char>>,
        manifests: Seq<ManifestFile>,
        paths: Seq<String>,
    },
    /// A manifest is to be read.
    Read { task: CommitTask, filter: FilterTask, replies: Seq<FilterReply> },
    /// A manifest is to be written in place of one that was read.
    Rewrite {
        task: CommitTask,
        filter: FilterTask,
        replies: Seq<FilterReply>,
        entries: Seq<ManifestEntry>,
        writer: WriterView,
    },
    /// The manifest of the added data files is to be written.
    WriteData {
        task: CommitTask,
        manifests: Seq<ManifestFile>,
        removed: Seq<SummaryChange>,
        writer: WriterView,
    },
    /// The manifest of the added delete files is to be written.
    WriteDeletes {
        task: CommitTask,
        manifests: Seq<ManifestFile>,
        removed: Seq<SummaryChange>,
        writer: WriterView,
    },
    /// The snapshot is planned.
    Done(PlanView),
    /// The attempt failed.
    Failed(ErrorView),
}

impl CommitTask {
    /// The removal of the targets from the given manifests.
    pub open spec fn removal(
        self,
        targets: Seq<Seq<char>>,
        manifests: Seq<ManifestFile>,
    ) -> FilterTask {
        FilterTask {
            targets,
            fail_missing: true,
            manifests,
            table: self.table,
            snapshot_id: self.snapshot_id,
        }
    }

    /// Where the attempt stands, and what the cache holds, once the manifests of the current
    /// snapshot are known: the files of the previous attempt are to be deleted, and are forgotten.
    pub open spec fn with_manifests(
        self,
        targets: Seq<Seq<char>>,
        manifests: Seq<ManifestFile>,
        cache: CacheView,
    ) -> (CommitStepView, CacheView) {
        (
            CommitStepView::CleanUp { task: self, targets, manifests, paths: cache.stale_paths },
            CacheView { stale_paths: Seq::empty(), ..cache },
        )
    }

    /// Where the attempt stands at its start.
    pub open spec fn start(
        self,
        targets: Seq<Seq<char>>,
        cache: CacheView,
    ) -> (CommitStepView, CacheView) {
        match self.table.metadata.current() {
            Some(_) => (CommitStepView::Load { task: self, targets }, cache),
            None => self.with_manifests(targets, Seq::empty(), cache),
        }
    }

    /// Where the attempt stands after a step of the removal. The manifests that a completed
    /// removal has written are noted, for the next attempt to delete.
    pub open spec fn with_filter(
        self,
        step: FilterStepView,
        cache: CacheView,
    ) -> (CommitStepView, CacheView) {
        match step {
            FilterStepView::Read { task, replies } => (
                CommitStepView::Read { task: self, filter: task, replies },
                cache,
            ),
            FilterStepView::Write { task, replies, entries, writer } => (
                CommitStepView::Rewrite { task: self, filter: task, replies, entries, writer },
                cache,
            ),
            FilterStepView::Done(outcome) => self.with_filtered(
                outcome,
                CacheView { stale_paths: outcome.written_paths, ..cache },
            ),
            FilterStepView::Failed(error) => (CommitStepView::Failed(error), cache),
        }
    }

    /// Where the attempt stands once the files are removed: the manifests of the added data files
    /// follow, from the cache or newly written.
    pub open spec fn with_filtered(
        self,
        outcome: OutcomeView,
        cache: CacheView,
    ) -> (CommitStepView, CacheView) {
        if self.producer.added_data_files.len() == 0 {
            self.with_data(outcome.manifests, outcome.removed, cache)
        } else {
            match self.cached {
                Some(cached) => self.with_data(outcome.manifests + cached, outcome.removed, cache),
                None => match added_manifest(
                    self.producer.commit_uuid,
                    self.table,
                    self.snapshot_id,
                    ManifestContentType::Data,
                    self.producer.added_data_files,
                    "added"@,
                ) {
                    Ok(writer) => (
                        CommitStepView::WriteData {
                            task: self,
                            manifests: outcome.manifests,
                            removed: outcome.removed,
                            writer,
                        },
                        cache,
                    ),
                    Err(error) => (CommitStepView::Failed(error), cache),
                },
            }
        }
    }

    /// Where the attempt stands once the manifest of the added data files is written.
    pub open spec fn after_data(
        self,
        manifests: Seq<ManifestFile>,
        removed: Seq<SummaryChange>,
        written: ManifestFile,
        cache: CacheView,
    ) -> (CommitStepView, CacheView) {
        self.with_data(
            manifests.push(written),
            removed,
            CacheView { data_manifests: Some(seq![written]), ..cache },
        )
    }

    /// Where the attempt stands once the data files are dealt with: the manifests of the added
    /// delete files follow, from the cache or newly written.
    pub open spec fn with_data(
        self,
        manifests: Seq<ManifestFile>,
        removed: Seq<SummaryChange>,
        cache: CacheView,
    ) -> (CommitStepView, CacheView) {
        if !self.with_delete_files || self.producer.added_delete_files.len() == 0 {
            (self.end(manifests, removed), cache)
        } else {
            match cache.delete_manifests {
                Some(cached) => (self.end(manifests + cached, removed), cache),
                None => match added_manifest(
                    self.producer.commit_uuid,
                    self.table,
                    self.snapshot_id,
                    ManifestContentType::Deletes,
                    self.producer.added_delete_files,
                    "deletes"@,
                ) {
                    Ok(writer) => (
                        CommitStepView::WriteDeletes { task: self, manifests, removed, writer },
                        cache,
                    ),
                    Err(error) => (CommitStepView::Failed(error), cache),
                },
            }
        }
    }

    /// Where the attempt stands once the manifest of the added delete files is written.
    pub open spec fn after_deletes(
        self,
        manifests: Seq<ManifestFile>,
        removed: Seq<SummaryChange>,
        written: ManifestFile,
        cache: CacheView,
    ) -> (CommitStepView, CacheView) {
        (
            self.end(manifests.push(written), removed),
            CacheView { delete_manifests: Some(seq![written]), ..cache },
        )
    }

    /// The end of the attempt: the plan of the snapshot.
    pub open spec fn end(
        self,
        manifests: Seq<ManifestFile>,
        removed: Seq<SummaryChange>,
    ) -> CommitStepView {
        CommitStepView::Done(
            PlanView {
                snapshot_id: self.snapshot_id,
                manifests,
                summary: summary_of(
                    self.producer,
                    self.table,
                    removed,
                    self.operation,
                    self.with_delete_files,
                ),
            },
        )
    }
}

/// The id of the new snapshot: that of the first attempt, if there was one.
pub open spec fn chosen_snapshot_id(cache: CacheView, generated: i64) -> i64 {
    match cache.snapshot_id {
        Some(id) => id,
        None => generated,
    }
}

/// The task of an attempt.
pub open spec fn commit_task(
    producer: ProducerView,
    table: Table,
    operation: Operation,
    with_delete_files: bool,
    cache: CacheView,
    generated: i64,
) -> CommitTask {
    CommitTask {
        producer,
        table,
        operation,
        snapshot_id: chosen_snapshot_id(cache, generated),
        with_delete_files,
        cached: cache.data_manifests,
    }
}

/// The start of an attempt. The id of the new snapshot is kept for later attempts.
pub open spec fn begun(
    producer: ProducerView,
    table: Table,
    operation: Operation,
    targets: Seq<Seq<char>>,
    with_delete_files: bool,
    cache: CacheView,
    generated: i64,
) -> (CommitStepView, CacheView) {
    let task = commit_task(producer, table, operation, with_delete_files, cache, generated);
    task.start(targets, CacheView { snapshot_id: Some(task.snapshot_id), ..cache })
}

/// The plan of a new snapshot.
#[derive(Debug)]
pub struct SnapshotPlan {
    /// The id of the snapshot.
    pub snapshot_id: i64,
    /// Its manifests.
    pub manifests: Vec<ManifestFile>,
    /// Its summary.
    pub summary: SummaryPlan,
}

impl View for SnapshotPlan {
    type V = PlanView;

    open spec fn view(&self) -> PlanView {
        PlanView {
            snapshot_id: self.snapshot_id,
            manifests: self.manifests@,
            summary: self.summary@,
        }
    }
}

/// What does not change during an attempt.
struct CommitRun<'a> {
    producer: &'a MergingSnapshotProducer,
    table: &'a Table,
    operation: Operation,
    snapshot_id: i64,
    with_delete_files: bool,
    cached: Option<Vec<ManifestFile>>,
}

impl<'a> CommitRun<'a> {
    spec fn task(self) -> CommitTask {
        CommitTask {
            producer: self.producer@,
            table: *self.table,
            operation: self.operation,
            snapshot_id: self.snapshot_id,
            with_delete_files: self.with_delete_files,
            cached: listed(self.cached),
        }
    }

    /// Goes on with the manifests of the current snapshot.
    fn with_manifests(
        self,
        filter: ManifestFilterManager,
        manifests: Vec<ManifestFile>,
        cache: &mut ManifestCache,
    ) -> (step: CommitStep<'a>)
        requires
            filter.fails_on_missing(),
        ensures
            (step@, final(cache)@) == self.task().with_manifests(
                filter.targets(),
                manifests@,
                old(cache)@,
            ),
    {
        let mut paths: Vec<String> = Vec::new();
        std::mem::swap(&mut paths, &mut cache.previous_filter_manifest_paths);
        assert(cache@.stale_paths =~= Seq::<String>::empty());
        CommitStep::CleanUp(CommitCleanUp { run: self, filter, manifests, paths })
    }

    /// Goes on after a step of the removal.
    fn with_filter(self, step: FilterStep<'a>, cache: &mut ManifestCache) -> (next: CommitStep<'a>)
        ensures
            (next@, final(cache)@) == self.task().with_filter(step@, old(cache)@),
    {
        match step {
            FilterStep::Read(filter) => CommitStep::Read(CommitRead { run: self, filter }),
            FilterStep::Write(filter) => CommitStep::Rewrite(CommitRewrite { run: self, filter }),
            FilterStep::Done(outcome) => {
                let ghost completed = outcome@;
                let FilterOutcome { manifests, removed, written_paths } = outcome;
                cache.previous_filter_manifest_paths = written_paths;
                self.with_filtered(manifests, removed, Ghost(completed), cache)
            },
            FilterStep::Failed(error) => CommitStep::Failed(error),
        }
    }

    /// Goes on once the files are removed.
    fn with_filtered(
        self,
        manifests: Vec<ManifestFile>,
        removed: SnapshotSummaryCollector,
        Ghost(outcome): Ghost<OutcomeView>,
        cache: &mut ManifestCache,
    ) -> (step: CommitStep<'a>)
        requires
            outcome.manifests == manifests@,
            outcome.removed == removed@,
        ensures
            (step@, final(cache)@) == self.task().with_filtered(outcome, old(cache)@),
    {
        if !self.producer.has_added_data_files() {
            return self.with_data(manifests, removed, cache);
        }
        match clone_listed(&self.cached) {
            Some(cached) => {
                let mut manifests = manifests;
                let mut cached = cached;
                manifests.append(&mut cached);
                self.with_data(manifests, removed, cache)
            },
            None => match self.producer.write_manifest_for_files(
                self.table,
                self.snapshot_id,
                ManifestContentType::Data,
                self.producer.added_data_files(),
                "added",
            ) {
                Ok(writer) => CommitStep::WriteData(
                    CommitWriteData { run: self, manifests, removed, writer },
                ),
                Err(error) => CommitStep::Failed(error),
            },
        }
    }

    /// Goes on once the data files are dealt with.
    fn with_data(
        self,
        manifests: Vec<ManifestFile>,
        removed: SnapshotSummaryCollector,
        cache: &mut ManifestCache,
    ) -> (step: CommitStep<'a>)
        ensures
            (step@, final(cache)@) == self.task().with_data(manifests@, removed@, old(cache)@),
    {
        if !self.with_delete_files || !self.producer.has_added_delete_files() {
            return self.end(manifests, removed);
        }
        match clone_listed(&cache.new_delete_manifests) {
            Some(cached) => {
                let mut manifests = manifests;
                let mut cached = cached;
                manifests.append(&mut cached);
                self.end(manifests, removed)
            },
            None => match self.producer.write_manifest_for_files(
                self.table,
                self.snapshot_id,
                ManifestContentType::Deletes,
                self.producer.added_delete_files(),
                "deletes",
            ) {
                Ok(writer) => CommitStep::WriteDeletes(
                    CommitWriteDeletes { run: self, manifests, removed, writer },
                ),
                Err(error) => CommitStep::Failed(error),
            },
        }
    }

    /// Ends the attempt.
    fn end(
        self,
        manifests: Vec<ManifestFile>,
        removed: SnapshotSummaryCollector,
    ) -> (step: CommitStep<'a>)
        ensures
            step@ == self.task().end(manifests@, removed@),
    {
        let summary = if self.with_delete_files {
            self.producer.build_summary(self.table, removed, self.operation)
        } else {
            self.producer.summarize(self.table, removed, self.operation, false)
        };
        CommitStep::Done(SnapshotPlan { snapshot_id: self.snapshot_id, manifests, summary })
    }
}

/// An attempt that waits for the manifest list of the current snapshot.
pub struct CommitLoad<'a> {
    run: CommitRun<'a>,
    filter: ManifestFilterManager,
    current: i64,
}

impl<'a> CommitLoad<'a> {
    #[verifier::type_invariant]
    spec fn consistent(self) -> bool {
        &&& self.filter.fails_on_missing()
        &&& self.run.table.metadata.current() == Some(self.current)
    }

    /// What the attempt is asked to do.
    pub closed spec fn task(self) -> CommitTask {
        self.run.task()
    }

    /// The paths of the files to remove.
    pub closed spec fn targets(self) -> Seq<Seq<char>> {
        self.filter.targets()
    }

    /// The snapshot whose manifest list is to be loaded.
    pub fn snapshot_id(&self) -> (id: i64)
        ensures
            self.task().table.metadata.current() == Some(id),
    {
        proof {
            use_type_invariant(self);
        }
        self.current
    }

    /// Takes the manifest list. Manifests that list no files are left out.
    pub fn resume(self, manifest_list: Vec<ManifestFile>, cache: &mut ManifestCache) -> (step:
        CommitStep<'a>)
        ensures
            (step@, final(cache)@) == self.task().with_manifests(
                self.targets(),
                with_files(manifest_list@),
                old(cache)@,
            ),
            (step@, final(cache)@) == resumed(
                CommitStep::Load(self)@,
                StorageReply::Listed(manifest_list@),
                old(cache)@,
            ),
    {
        proof {
            use_type_invariant(&self);
        }
        let CommitLoad { run, filter, current: _ } = self;
        let manifests = keep_with_files(&manifest_list);
        run.with_manifests(filter, manifests, cache)
    }
}

/// Copies the manifests that may list files.
fn keep_with_files(list: &Vec<ManifestFile>) -> (kept: Vec<ManifestFile>)
    ensures
        kept@ == with_files(list@),
{
    let ghost pred = |m: ManifestFile| m.lists_files();
    let mut kept: Vec<ManifestFile> = Vec::new();
    let mut i: usize = 0;
    proof {
        assert(list@.take(0) =~= Seq::<ManifestFile>::empty());
        lemma_filter_empty(pred);
    }
    while i < list.len()
        invariant
            i <= list.len(),
            pred == (|m: ManifestFile| m.lists_files()),
            kept@ == list@.take(i as int).filter(pred),
        decreases list.len() - i,
    {
        let manifest = &list[i];
        proof {
            lemma_take_push(list@, i as int);
            lemma_filter_push(list@.take(i as int), *manifest, pred);
        }
        if manifest.has_added_files || manifest.has_existing_files || manifest.has_deleted_files {
            kept.push(manifest.clone());
        }
        i += 1;
    }
    assert(list@.take(i as int) =~= list@);
    kept
}

/// An attempt that waits for files of an earlier attempt to be deleted.
pub struct CommitCleanUp<'a> {
    run: CommitRun<'a>,
    filter: ManifestFilterManager,
    manifests: Vec<ManifestFile>,
    paths: Vec<String>,
}

impl<'a> CommitCleanUp<'a> {
    #[verifier::type_invariant]
    spec fn consistent(self) -> bool {
        self.filter.fails_on_missing()
    }

    /// What the attempt is asked to do.
    pub closed spec fn task(self) -> CommitTask {
        self.run.task()
    }

    /// The paths of the files to remove.
    pub closed spec fn targets(self) -> Seq<Seq<char>> {
        self.filter.targets()
    }

    /// The manifests of the current snapshot.
    pub closed spec fn manifests(self) -> Seq<ManifestFile> {
        self.manifests@
    }

    /// The paths of the files to delete.
    pub closed spec fn stale_paths(self) -> Seq<String> {
        self.paths@
    }

    /// The paths of the files to delete.
    pub fn paths(&self) -> (paths: &Vec<String>)
        ensures
            paths@ == self.stale_paths(),
    {
        &self.paths
    }

    /// Goes on after the deletions, whether or not they succeeded.
    pub fn resume(self, cache: &mut ManifestCache) -> (step: CommitStep<'a>)
        ensures
            (step@, final(cache)@) == self.task().with_filter(
                self.task().removal(self.targets(), self.manifests()).start(),
                old(cache)@,
            ),
            (step@, final(cache)@) == resumed(
                CommitStep::CleanUp(self)@,
                StorageReply::CleanedUp,
                old(cache)@,
            ),
    {
        proof {
            use_type_invariant(&self);
        }
        let CommitCleanUp { run, filter, manifests, paths: _ } = self;
        let step = filter.filter_manifests(run.table, manifests, run.snapshot_id);
        run.with_filter(step, cache)
    }
}

/// An attempt that waits for the entries of a manifest.
pub struct CommitRead<'a> {
    run: CommitRun<'a>,
    filter: FilterRead<'a>,
}

impl<'a> CommitRead<'a> {
    /// What the attempt is asked to do.
    pub closed spec fn task(self) -> CommitTask {
        self.run.task()
    }

    /// The removal that is under way.
    pub closed spec fn filter(self) -> FilterTask {
        self.filter.task()
    }

    /// What became of the manifests so far.
    pub closed spec fn replies(self) -> Seq<FilterReply> {
        self.filter.replies()
    }

    /// The manifest to read.
    pub fn manifest(&self) -> (manifest: &ManifestFile)
        ensures
            *manifest == self.filter().manifests[self.replies().len() as int],
    {
        self.filter.manifest()
    }

    /// Takes the entries of the manifest, and a UUID for the case that a manifest has to be
    /// written in its place.
    pub fn resume_with_uuid(
        self,
        entries: Vec<ManifestEntry>,
        uuid: u128,
        cache: &mut ManifestCache,
    ) -> (step: CommitStep<'a>)
        ensures
            (step@, final(cache)@) == self.task().with_filter(
                self.filter().after_read(self.replies(), entries@, uuid),
                old(cache)@,
            ),
            (step@, final(cache)@) == resumed(
                CommitStep::Read(self)@,
                StorageReply::Entries(entries@, uuid),
                old(cache)@,
            ),
    {
        let CommitRead { run, filter } = self;
        let step = filter.resume_with_uuid(entries, uuid);
        run.with_filter(step, cache)
    }

    /// Takes the entries of the manifest. A manifest that has to be written in its place is named
    /// by a new UUID.
    pub fn resume(self, entries: Vec<ManifestEntry>, cache: &mut ManifestCache) -> (step:
        CommitStep<'a>)
        ensures
            if step is Rewrite {
                exists|uuid: u128|
                    is_version_7(uuid) && (step@, final(cache)@) == self.task().with_filter(
                        #[trigger] self.filter().after_read(self.replies(), entries@, uuid),
                        old(cache)@,
                    )
            } else {
                forall|uuid: u128|
                    (step@, final(cache)@) == self.task().with_filter(
                        #[trigger] self.filter().after_read(self.replies(), entries@, uuid),
                        old(cache)@,
                    )
            },
    {
        let CommitRead { run, filter } = self;
        let step = filter.resume(entries);
        run.with_filter(step, cache)
    }
}

/// An attempt that waits for a manifest to be written in place of one that was read.
pub struct CommitRewrite<'a> {
    run: CommitRun<'a>,
    filter: FilterWrite<'a>,
}

impl<'a> CommitRewrite<'a> {
    /// What the attempt is asked to do.
    pub closed spec fn task(self) -> CommitTask {
        self.run.task()
    }

    /// The removal that is under way.
    pub closed spec fn filter(self) -> FilterTask {
        self.filter.task()
    }

    /// What became of the manifests so far.
    pub closed spec fn replies(self) -> Seq<FilterReply> {
        self.filter.replies()
    }

    /// The entries of the manifest that is being replaced.
    pub closed spec fn entries(self) -> Seq<ManifestEntry> {
        self.filter.entries()
    }

    /// What is to be written.
    pub closed spec fn writing(self) -> WriterView {
        self.filter.writing()
    }

    /// What is to be written.
    pub fn writer(&self) -> (writer: &ManifestWriter)
        ensures
            writer@ == self.writing(),
    {
        self.filter.writer()
    }

    /// Takes the manifest that was written.
    pub fn resume(self, written: ManifestFile, cache: &mut ManifestCache) -> (step: CommitStep<'a>)
        ensures
            (step@, final(cache)@) == self.task().with_filter(
                self.filter().after_write(self.replies(), self.entries(), written),
                old(cache)@,
            ),
            (step@, final(cache)@) == resumed(
                CommitStep::Rewrite(self)@,
                StorageReply::Written(written),
                old(cache)@,
            ),
    {
        let CommitRewrite { run, filter } = self;
        let step = filter.resume(written);
        run.with_filter(step, cache)
    }
}

/// An attempt that waits for the manifest of the added data files to be written.
pub struct CommitWriteData<'a> {
    run: CommitRun<'a>,
    manifests: Vec<ManifestFile>,
    removed: SnapshotSummaryCollector,
    writer: ManifestWriter,
}

impl<'a> CommitWriteData<'a> {
    /// What the attempt is asked to do.
    pub closed spec fn task(self) -> CommitTask {
        self.run.task()
    }

    /// The manifests of the snapshot so far.
    pub closed spec fn manifests(self) -> Seq<ManifestFile> {
        self.manifests@
    }

    /// The removals to report.
    pub closed spec fn removed(self) -> Seq<SummaryChange> {
        self.removed@
    }

    /// What is to be written.
    pub closed spec fn writing(self) -> WriterView {
        self.writer@
    }

    /// What is to be written.
    pub fn writer(&self) -> (writer: &ManifestWriter)
        ensures
            writer@ == self.writing(),
    {
        &self.writer
    }

    /// Takes the manifest that was written, and keeps it for later attempts.
    pub fn resume(self, written: ManifestFile, cache: &mut ManifestCache) -> (step: CommitStep<'a>)
        ensures
            (step@, final(cache)@) == self.task().after_data(
                self.manifests(),
                self.removed(),
                written,
                old(cache)@,
            ),
            (step@, final(cache)@) == resumed(
                CommitStep::WriteData(self)@,
                StorageReply::Written(written),
                old(cache)@,
            ),
    {
        let CommitWriteData { run, mut manifests, removed, writer: _ } = self;
        let mut kept: Vec<ManifestFile> = Vec::new();
        kept.push(written.clone());
        assert(kept@ =~= seq![written]);
        cache.new_data_manifests = Some(kept);
        manifests.push(written);
        run.with_data(manifests, removed, cache)
    }
}

/// An attempt that waits for the manifest of the added delete files to be written.
pub struct CommitWriteDeletes<'a> {
    run: CommitRun<'a>,
    manifests: Vec<ManifestFile>,
    removed: SnapshotSummaryCollector,
    writer: ManifestWriter,
}

impl<'a> CommitWriteDeletes<'a> {
    /// What the attempt is asked to do.
    pub closed spec fn task(self) -> CommitTask {
        self.run.task()
    }

    /// The manifests of the snapshot so far.
    pub closed spec fn manifests(self) -> Seq<ManifestFile> {
        self.manifests@
    }

    /// The removals to report.
    pub closed spec fn removed(self) -> Seq<SummaryChange> {
        self.removed@
    }

    /// What is to be written.
    pub closed spec fn writing(self) -> WriterView {
        self.writer@
    }

    /// What is to be written.
    pub fn writer(&self) -> (writer: &ManifestWriter)
        ensures
            writer@ == self.writing(),
    {
        &self.writer
    }

    /// Takes the manifest that was written, and keeps it for later attempts.
    pub fn resume(self, written: ManifestFile, cache: &mut ManifestCache) -> (step: CommitStep<'a>)
        ensures
            (step@, final(cache)@) == self.task().after_deletes(
                self.manifests(),
                self.removed(),
                written,
                old(cache)@,
            ),
            (step@, final(cache)@) == resumed(
                CommitStep::WriteDeletes(self)@,
                StorageReply::Written(written),
                old(cache)@,
            ),
    {
        let CommitWriteDeletes { run, mut manifests, removed, writer: _ } = self;
        let mut kept: Vec<ManifestFile> = Vec::new();
        kept.push(written.clone());
        assert(kept@ =~= seq![written]);
        cache.new_delete_manifests = Some(kept);
        manifests.push(written);
        run.end(manifests, removed)
    }
}

/// Where an attempt stands.
pub enum CommitStep<'a> {
    /// The manifest list of the current snapshot is to be loaded.
    Load(CommitLoad<'a>),
    /// Files that an earlier attempt has left behind are to be deleted.
    CleanUp(CommitCleanUp<'a>),
    /// A manifest is to be read.
    Read(CommitRead<'a>),
    /// A manifest is to be written in place of one that was read.
    Rewrite(CommitRewrite<'a>),
    /// The manifest of the added data files is to be written.
    WriteData(CommitWriteData<'a>),
    /// The manifest of the added delete files is to be written.
    WriteDeletes(CommitWriteDeletes<'a>),
    /// The snapshot is planned.
    Done(SnapshotPlan),
    /// The attempt failed.
    Failed(Error),
}

impl<'a> View for CommitStep<'a> {
    type V = CommitStepView;

    open spec fn view(&self) -> CommitStepView {
        match self {
            CommitStep::Load(load) => CommitStepView::Load {
                task: load.task(),
                targets: load.targets(),
            },
            CommitStep::CleanUp(clean_up) => CommitStepView::CleanUp {
                task: clean_up.task(),
                targets: clean_up.targets(),
                manifests: clean_up.manifests(),
                paths: clean_up.stale_paths(),
            },
            CommitStep::Read(read) => CommitStepView::Read {
                task: read.task(),
                filter: read.filter(),
                replies: read.replies(),
            },
            CommitStep::Rewrite(rewrite) => CommitStepView::Rewrite {
                task: rewrite.task(),
                filter: rewrite.filter(),
                replies: rewrite.replies(),
                entries: rewrite.entries(),
                writer: rewrite.writing(),
            },
            CommitStep::WriteData(write) => CommitStepView::WriteData {
                task: write.task(),
                manifests: write.manifests(),
                removed: write.removed(),
                writer: write.writing(),
            },
            CommitStep::WriteDeletes(write) => CommitStepView::WriteDeletes {
                task: write.task(),
                manifests: write.manifests(),
                removed: write.removed(),
                writer: write.writing(),
            },
            CommitStep::Done(plan) => CommitStepView::Done(plan@),
            CommitStep::Failed(error) => CommitStepView::Failed(error@),
        }
    }
}

impl MergingSnapshotProducer {
    /// Starts an attempt to commit a snapshot that reports the producer's own operation.
    ///
    /// The given snapshot id is used if no earlier attempt has chosen one.
    pub fn commit_snapshot<'a>(
        &'a self,
        table: &'a Table,
        cache: &mut ManifestCache,
        generated_snapshot_id: i64,
    ) -> (step: CommitStep<'a>)
        ensures
            (step@, final(cache)@) == begun(
                self@,
                *table,
                self@.operation,
                unique_paths(self@.deleted_data_files),
                true,
                old(cache)@,
                generated_snapshot_id,
            ),
    {
        self.commit_snapshot_with_operation(table, self.operation(), cache, generated_snapshot_id)
    }

    /// Starts an attempt to commit a snapshot that reports the given operation.
    ///
    /// The given snapshot id is used if no earlier attempt has chosen one.
    pub fn commit_snapshot_with_operation<'a>(
        &'a self,
        table: &'a Table,
        operation: Operation,
        cache: &mut ManifestCache,
        generated_snapshot_id: i64,
    ) -> (step: CommitStep<'a>)
        ensures
            (step@, final(cache)@) == begun(
                self@,
                *table,
                operation,
                unique_paths(self@.deleted_data_files),
                true,
                old(cache)@,
                generated_snapshot_id,
            ),
    {
        let filter = filter_for(self.deleted_data_files());
        self.begin(table, operation, filter, true, cache, generated_snapshot_id)
    }

    /// Starts an attempt to commit a snapshot that removes the given files in place of the
    /// producer's own, and adds the producer's data files only.
    ///
    /// The caller determines the files anew for each attempt. The given snapshot id is used if no
    /// earlier attempt has chosen one.
    pub fn commit_snapshot_with_dynamic_deletes<'a>(
        &'a self,
        table: &'a Table,
        operation: Operation,
        delete_files: Vec<DataFile>,
        cache: &mut ManifestCache,
        generated_snapshot_id: i64,
    ) -> (step: CommitStep<'a>)
        ensures
            (step@, final(cache)@) == begun(
                self@,
                *table,
                operation,
                unique_paths(delete_files@),
                false,
                old(cache)@,
                generated_snapshot_id,
            ),
    {
        let filter = filter_for(&delete_files);
        self.begin(table, operation, filter, false, cache, generated_snapshot_id)
    }

    /// Starts an attempt.
    fn begin<'a>(
        &'a self,
        table: &'a Table,
        operation: Operation,
        filter: ManifestFilterManager,
        with_delete_files: bool,
        cache: &mut ManifestCache,
        generated_snapshot_id: i64,
    ) -> (step: CommitStep<'a>)
        requires
            filter.fails_on_missing(),
        ensures
            (step@, final(cache)@) == begun(
                self@,
                *table,
                operation,
                filter.targets(),
                with_delete_files,
                old(cache)@,
                generated_snapshot_id,
            ),
    {
        let snapshot_id: i64 = match cache.snapshot_id {
            Some(id) => id,
            None => generated_snapshot_id,
        };
        cache.snapshot_id = Some(snapshot_id);
        let cached = clone_listed(&cache.new_data_manifests);
        let run = CommitRun {
            producer: self,
            table,
            operation,
            snapshot_id,
            with_delete_files,
            cached,
        };
        match table.metadata.current_snapshot() {
            Some(current) => CommitStep::Load(CommitLoad { run, filter, current }),
            None => {
                let manifests: Vec<ManifestFile> = Vec::new();
                assert(manifests@ =~= Seq::<ManifestFile>::empty());
                run.with_manifests(filter, manifests, cache)
            },
        }
    }
}

} // verus!
