//! Removal of data files from the manifests of a snapshot.

use vstd::hash_set::StringHashSet;
use vstd::prelude::*;

use crate::error::{Error, ErrorKind, ErrorView};
use crate::ids::{hyphenated, is_version_7, new_uuid, uuid_text};
use crate::path_set::{with_path, PathSet};
use crate::seqs::{lemma_filter_empty, lemma_filter_push, lemma_take_push};
use crate::summary::{changes_of, ChangeKind, SnapshotSummaryCollector, SummaryChange};
use crate::text::{concat, decimal, decimal_of, join, joined, texts};
use crate::types::{
    DataFile, ManifestContentType, ManifestEntry, ManifestFile, ManifestStatus, Table,
};
use crate::writer::{empty_writer, new_manifest_writer, ManifestWriter, WriterView};

verus! {

/// Whether an entry lists a live file that is to be removed.
pub open spec fn targeted(targets: Seq<Seq<char>>, entry: ManifestEntry) -> bool {
    entry.alive() && targets.contains(entry.path())
}

/// Whether an entry lists a live file that is to stay.
pub open spec fn retained(targets: Seq<Seq<char>>, entry: ManifestEntry) -> bool {
    entry.alive() && !targets.contains(entry.path())
}

/// Whether any of the entries lists a live file that is to be removed.
pub open spec fn touched(targets: Seq<Seq<char>>, entries: Seq<ManifestEntry>) -> bool {
    exists|i: int| 0 <= i < entries.len() && #[trigger] targeted(targets, entries[i])
}

/// An entry of a manifest as it is carried over into a new manifest: in state `Existing`, with
/// the ids that it had or inherited.
pub open spec fn as_existing(entry: ManifestEntry, manifest: ManifestFile) -> ManifestEntry {
    ManifestEntry {
        status: ManifestStatus::Existing,
        snapshot_id: Some(
            match entry.snapshot_id {
                Some(id) => id,
                None => manifest.added_snapshot_id,
            },
        ),
        sequence_number: Some(
            match entry.sequence_number {
                Some(number) => number,
                None => 0,
            },
        ),
        file_sequence_number: Some(
            match entry.file_sequence_number {
                Some(number) => number,
                None => 0,
            },
        ),
        data_file: entry.data_file,
    }
}

/// The entries of a manifest that are carried over: those of the live files that stay.
pub open spec fn survivors(
    targets: Seq<Seq<char>>,
    manifest: ManifestFile,
    entries: Seq<ManifestEntry>,
) -> Seq<ManifestEntry> {
    entries.filter(|e: ManifestEntry| retained(targets, e)).map_values(
        |e: ManifestEntry| as_existing(e, manifest),
    )
}

/// The files that the removal takes out of a manifest.
pub open spec fn removed_files(
    targets: Seq<Seq<char>>,
    entries: Seq<ManifestEntry>,
) -> Seq<DataFile> {
    entries.filter(|e: ManifestEntry| targeted(targets, e)).map_values(
        |e: ManifestEntry| e.data_file,
    )
}

pub(crate) proof fn lemma_survivors_push(
    targets: Seq<Seq<char>>,
    manifest: ManifestFile,
    entries: Seq<ManifestEntry>,
    entry: ManifestEntry,
)
    ensures
        survivors(targets, manifest, entries.push(entry)) == (if retained(targets, entry) {
            survivors(targets, manifest, entries).push(as_existing(entry, manifest))
        } else {
            survivors(targets, manifest, entries)
        }),
{
    lemma_filter_push(entries, entry, |e: ManifestEntry| retained(targets, e));
    if retained(targets, entry) {
        assert(survivors(targets, manifest, entries.push(entry)) =~= survivors(
            targets,
            manifest,
            entries,
        ).push(as_existing(entry, manifest)));
    }
}

pub(crate) proof fn lemma_removed_push(
    targets: Seq<Seq<char>>,
    entries: Seq<ManifestEntry>,
    entry: ManifestEntry,
)
    ensures
        removed_files(targets, entries.push(entry)) == (if targeted(targets, entry) {
            removed_files(targets, entries).push(entry.data_file)
        } else {
            removed_files(targets, entries)
        }),
{
    lemma_filter_push(entries, entry, |e: ManifestEntry| targeted(targets, e));
    if targeted(targets, entry) {
        assert(removed_files(targets, entries.push(entry)) =~= removed_files(
            targets,
            entries,
        ).push(entry.data_file));
    }
}

pub(crate) proof fn lemma_untouched(targets: Seq<Seq<char>>, entries: Seq<ManifestEntry>)
    requires
        !touched(targets, entries),
    ensures
        removed_files(targets, entries) == Seq::<DataFile>::empty(),
    decreases entries.len(),
{
    if entries.len() == 0 {
        assert(entries =~= Seq::empty());
        lemma_filter_empty(|e: ManifestEntry| targeted(targets, e));
    } else {
        let before = entries.drop_last();
        assert(entries =~= before.push(entries.last()));
        assert forall|i: int| 0 <= i < before.len() implies !#[trigger] targeted(
            targets,
            before[i],
        ) by {
            assert(!targeted(targets, entries[i]));
        }
        lemma_untouched(targets, before);
        assert(!targeted(targets, entries[entries.len() - 1]));
        lemma_removed_push(targets, before, entries.last());
    }
    assert(removed_files(targets, entries) =~= Seq::<DataFile>::empty());
}

pub(crate) proof fn lemma_no_entries(targets: Seq<Seq<char>>, manifest: ManifestFile)
    ensures
        survivors(targets, manifest, Seq::empty()) == Seq::<ManifestEntry>::empty(),
        removed_files(targets, Seq::empty()) == Seq::<DataFile>::empty(),
{
    lemma_filter_empty(|e: ManifestEntry| retained(targets, e));
    lemma_filter_empty(|e: ManifestEntry| targeted(targets, e));
    assert(survivors(targets, manifest, Seq::empty()) =~= Seq::<ManifestEntry>::empty());
    assert(removed_files(targets, Seq::empty()) =~= Seq::<DataFile>::empty());
}

/// The name of a manifest that replaces a filtered one.
pub open spec fn filtered_path(
    location: Seq<char>,
    uuid: u128,
    partition_spec_id: i32,
) -> Seq<char> {
    location + "/"@ + hyphenated(uuid) + "-m-filter-"@ + decimal(partition_spec_id as int)
        + ".avro"@
}

/// The failure of a manifest whose partition spec the table does not know.
pub open spec fn unknown_spec_error(partition_spec_id: i32) -> ErrorView {
    ErrorView {
        kind: ErrorKind::DataInvalid,
        message: "Manifest references unknown partition spec "@ + decimal(
            partition_spec_id as int,
        ),
    }
}

/// The failure to find files that are to be removed.
pub open spec fn missing_targets_error(missing: Seq<Seq<char>>) -> ErrorView {
    ErrorView {
        kind: ErrorKind::DataInvalid,
        message: "Failed to find the following files to delete in the current snapshot: "@
            + joined(missing, ", "@),
    }
}

/// What became of one manifest during the removal.
pub enum FilterReply {
    /// It lists delete files and was not read.
    Unread,
    /// It was read, and no manifest was written in its place.
    Read(Seq<ManifestEntry>),
    /// It was read, and the given manifest was written in its place.
    Rewritten(Seq<ManifestEntry>, ManifestFile),
}

impl FilterReply {
    /// The entries that were read.
    pub open spec fn entries(self) -> Seq<ManifestEntry> {
        match self {
            FilterReply::Unread => Seq::empty(),
            FilterReply::Read(entries) => entries,
            FilterReply::Rewritten(entries, _) => entries,
        }
    }
}

/// What a removal is asked to do.
pub struct FilterTask {
    /// The paths of the files to remove, without repetition.
    pub targets: Seq<Seq<char>>,
    /// Whether a path that is not found makes the removal fail.
    pub fail_missing: bool,
    /// The manifests to remove the files from.
    pub manifests: Seq<ManifestFile>,
    /// The table.
    pub table: Table,
    /// The snapshot that the removal is a part of.
    pub snapshot_id: i64,
}

/// What a removal leaves behind.
pub struct OutcomeView {
    pub manifests: Seq<ManifestFile>,
    pub removed: Seq<SummaryChange>,
    pub written_paths: Seq<String>,
}

/// Where a removal stands.
pub enum FilterStepView {
    /// The next manifest is to be read.
    Read { task: FilterTask, replies: Seq<FilterReply> },
    /// A manifest is to be written in place of the one that was read.
    Write {
        task: FilterTask,
        replies: Seq<FilterReply>,
        entries: Seq<ManifestEntry>,
        writer: WriterView,
    },
    /// The removal is complete.
    Done(OutcomeView),
    /// The removal failed.
    Failed(ErrorView),
}

impl FilterTask {
    /// The manifests that stand in place of one manifest.
    pub open spec fn replacement(self, manifest: ManifestFile, reply: FilterReply) -> Seq<
        ManifestFile,
    > {
        match reply {
            FilterReply::Unread => seq![manifest],
            FilterReply::Read(entries) => if touched(self.targets, entries) {
                Seq::empty()
            } else {
                seq![manifest]
            },
            FilterReply::Rewritten(_, written) => seq![written],
        }
    }

    /// The manifests that stand in place of those that have been dealt with.
    pub open spec fn kept(self, replies: Seq<FilterReply>) -> Seq<ManifestFile>
        decreases replies.len(),
    {
        if replies.len() == 0 {
            Seq::empty()
        } else {
            self.kept(replies.drop_last()) + self.replacement(
                self.manifests[replies.len() - 1],
                replies.last(),
            )
        }
    }

    /// The removals to report, in the order in which the files were found.
    pub open spec fn removed(self, replies: Seq<FilterReply>) -> Seq<SummaryChange>
        decreases replies.len(),
    {
        if replies.len() == 0 {
            Seq::empty()
        } else {
            self.removed(replies.drop_last()) + changes_of(
                ChangeKind::Removed,
                removed_files(self.targets, replies.last().entries()),
                self.table.metadata.current_schema_id,
                self.manifests[replies.len() - 1].partition_spec_id,
            )
        }
    }

    /// The paths of the manifests that were written.
    pub open spec fn written_paths(self, replies: Seq<FilterReply>) -> Seq<String>
        decreases replies.len(),
    {
        if replies.len() == 0 {
            Seq::empty()
        } else {
            match replies.last() {
                FilterReply::Rewritten(_, written) => self.written_paths(replies.drop_last()).push(
                    written.manifest_path,
                ),
                _ => self.written_paths(replies.drop_last()),
            }
        }
    }

    /// Whether a file to remove was found under the given path.
    pub open spec fn found(self, replies: Seq<FilterReply>, path: Seq<char>) -> bool {
        exists|i: int, j: int|
            0 <= i < replies.len() && 0 <= j < replies[i].entries().len()
                && #[trigger] targeted(self.targets, replies[i].entries()[j])
                && replies[i].entries()[j].path() == path
    }

    /// The paths of the files to remove that were not found.
    pub open spec fn missing(self, replies: Seq<FilterReply>) -> Seq<Seq<char>> {
        self.targets.filter(|path: Seq<char>| !self.found(replies, path))
    }

    /// The replies up to the next manifest that has to be read: manifests of delete files are
    /// passed over.
    pub open spec fn settled(self, replies: Seq<FilterReply>) -> Seq<FilterReply>
        decreases self.manifests.len() - replies.len(),
    {
        if replies.len() < self.manifests.len() && self.manifests[replies.len() as int].content
            != ManifestContentType::Data {
            self.settled(replies.push(FilterReply::Unread))
        } else {
            replies
        }
    }

    /// The end of the removal, once every manifest has been dealt with.
    pub open spec fn end(self, replies: Seq<FilterReply>) -> FilterStepView {
        if self.fail_missing && self.missing(replies).len() > 0 {
            FilterStepView::Failed(missing_targets_error(self.missing(replies)))
        } else {
            FilterStepView::Done(
                OutcomeView {
                    manifests: self.kept(replies),
                    removed: self.removed(replies),
                    written_paths: self.written_paths(replies),
                },
            )
        }
    }

    /// Where the removal stands after the given replies.
    pub open spec fn next(self, replies: Seq<FilterReply>) -> FilterStepView {
        let settled = self.settled(replies);
        if settled.len() < self.manifests.len() {
            FilterStepView::Read { task: self, replies: settled }
        } else {
            self.end(settled)
        }
    }

    /// Where the removal stands at its start. Without files to remove nothing is read.
    pub open spec fn start(self) -> FilterStepView {
        if self.targets.len() == 0 {
            FilterStepView::Done(
                OutcomeView {
                    manifests: self.manifests,
                    removed: Seq::empty(),
                    written_paths: Seq::empty(),
                },
            )
        } else {
            self.next(Seq::empty())
        }
    }

    /// The writer of the manifest that replaces the given one.
    pub open spec fn rewrite(
        self,
        manifest: ManifestFile,
        entries: Seq<ManifestEntry>,
        location: Seq<char>,
        uuid: u128,
    ) -> WriterView {
        WriterView {
            entries: survivors(self.targets, manifest, entries),
            ..empty_writer(
                self.table,
                filtered_path(location, uuid, manifest.partition_spec_id),
                Some(self.snapshot_id),
                ManifestContentType::Data,
                self.table.metadata.current_schema_id,
                manifest.partition_spec_id,
            )
        }
    }

    /// Where the removal stands after the next manifest was read, if the given UUID names the
    /// manifest that replaces it.
    pub open spec fn after_read(
        self,
        replies: Seq<FilterReply>,
        entries: Seq<ManifestEntry>,
        uuid: u128,
    ) -> FilterStepView {
        let manifest = self.manifests[replies.len() as int];
        if !touched(self.targets, entries) {
            self.next(replies.push(FilterReply::Read(entries)))
        } else if !self.table.metadata.partition_spec_ids@.contains(manifest.partition_spec_id) {
            FilterStepView::Failed(unknown_spec_error(manifest.partition_spec_id))
        } else if survivors(self.targets, manifest, entries).len() == 0 {
            self.next(replies.push(FilterReply::Read(entries)))
        } else {
            match self.table.metadata.metadata_location {
                Ok(location) => FilterStepView::Write {
                    task: self,
                    replies,
                    entries,
                    writer: self.rewrite(manifest, entries, location@, uuid),
                },
                Err(error) => FilterStepView::Failed(error@),
            }
        }
    }

    /// Where the removal stands after a manifest was written.
    pub open spec fn after_write(
        self,
        replies: Seq<FilterReply>,
        entries: Seq<ManifestEntry>,
        written: ManifestFile,
    ) -> FilterStepView {
        self.next(replies.push(FilterReply::Rewritten(entries, written)))
    }
}

/// Removes data files from manifests.
///
/// Manifests that list a file to remove are rewritten: the entries of removed files are dropped,
/// and the entries of the live files that stay are carried over in state `Existing`.
pub struct ManifestFilterManager {
    deleted_file_paths: PathSet,
    fail_missing_delete_paths: bool,
}

impl ManifestFilterManager {
    /// The paths of the files to remove, in the order in which they were first added.
    pub closed spec fn targets(self) -> Seq<Seq<char>> {
        self.deleted_file_paths@
    }

    /// Whether a path that is not found makes the removal fail.
    pub closed spec fn fails_on_missing(self) -> bool {
        self.fail_missing_delete_paths
    }

    /// Creates a manager without files to remove.
    pub fn new(fail_missing_delete_paths: bool) -> (manager: Self)
        ensures
            manager.targets() == Seq::<Seq<char>>::empty(),
            manager.fails_on_missing() == fail_missing_delete_paths,
    {
        ManifestFilterManager { deleted_file_paths: PathSet::new(), fail_missing_delete_paths }
    }

    /// Adds the path of a file to remove.
    pub fn add_delete(&mut self, path: String)
        ensures
            final(self).targets() == with_path(old(self).targets(), path@),
            final(self).targets().no_duplicates(),
            final(self).fails_on_missing() == old(self).fails_on_missing(),
    {
        self.deleted_file_paths.insert(path);
    }

    /// The removal of this manager's files from the given manifests.
    pub open spec fn task(
        self,
        table: Table,
        manifests: Seq<ManifestFile>,
        snapshot_id: i64,
    ) -> FilterTask {
        FilterTask {
            targets: self.targets(),
            fail_missing: self.fails_on_missing(),
            manifests,
            table,
            snapshot_id,
        }
    }

    /// Starts the removal of this manager's files from the given manifests.
    pub fn filter_manifests(
        self,
        table: &Table,
        manifests: Vec<ManifestFile>,
        snapshot_id: i64,
    ) -> (step: FilterStep<'_>)
        ensures
            step@ == self.task(*table, manifests@, snapshot_id).start(),
    {
        if self.deleted_file_paths.len() == 0 {
            return FilterStep::Done(
                FilterOutcome {
                    manifests,
                    removed: SnapshotSummaryCollector::new(),
                    written_paths: Vec::new(),
                },
            );
        }
        let run = FilterRun {
            manager: self,
            table,
            snapshot_id,
            manifests,
            next: 0,
            kept: Vec::new(),
            removed: SnapshotSummaryCollector::new(),
            written_paths: Vec::new(),
            found: StringHashSet::new(),
            replies: Ghost(Seq::empty()),
        };
        run.advance()
    }
}

/// What a removal leaves behind.
#[derive(Debug)]
pub struct FilterOutcome {
    /// The manifests that take the place of the old ones.
    pub manifests: Vec<ManifestFile>,
    /// The removals to report.
    pub removed: SnapshotSummaryCollector,
    /// The paths of the manifests that were written for the removal.
    pub written_paths: Vec<String>,
}

impl View for FilterOutcome {
    type V = OutcomeView;

    open spec fn view(&self) -> OutcomeView {
        OutcomeView {
            manifests: self.manifests@,
            removed: self.removed@,
            written_paths: self.written_paths@,
        }
    }
}

/// The state of a removal between two requests to the storage.
struct FilterRun<'a> {
    manager: ManifestFilterManager,
    table: &'a Table,
    snapshot_id: i64,
    manifests: Vec<ManifestFile>,
    next: usize,
    kept: Vec<ManifestFile>,
    removed: SnapshotSummaryCollector,
    written_paths: Vec<String>,
    found: StringHashSet,
    replies: Ghost<Seq<FilterReply>>,
}

impl<'a> FilterRun<'a> {
    spec fn task(self) -> FilterTask {
        self.manager.task(*self.table, self.manifests@, self.snapshot_id)
    }

    spec fn inv(self) -> bool {
        let task = self.task();
        &&& self.next == self.replies@.len()
        &&& self.next <= self.manifests@.len()
        &&& self.kept@ == task.kept(self.replies@)
        &&& self.removed@ == task.removed(self.replies@)
        &&& self.written_paths@ == task.written_paths(self.replies@)
        &&& forall|path: Seq<char>| #[trigger]
            self.found@.contains(path) <==> task.found(self.replies@, path)
    }

    /// The run waits for the entries of a manifest.
    spec fn awaits_entries(self) -> bool {
        &&& self.inv()
        &&& self.next < self.manifests@.len()
        &&& self.manifests@[self.next as int].content == ManifestContentType::Data
    }

    /// The run has taken in the entries of a manifest, but has not replaced the manifest yet.
    spec fn awaits_replacement(self, entries: Seq<ManifestEntry>) -> bool {
        let task = self.task();
        let read = self.replies@.push(FilterReply::Read(entries));
        &&& self.next == self.replies@.len()
        &&& self.next < self.manifests@.len()
        &&& self.kept@ == task.kept(self.replies@)
        &&& self.removed@ == task.removed(read)
        &&& self.written_paths@ == task.written_paths(self.replies@)
        &&& forall|path: Seq<char>| #[trigger]
            self.found@.contains(path) <==> task.found(read, path)
    }

    /// Whether the entries list a file to remove.
    fn touches(&self, entries: &Vec<ManifestEntry>) -> (result: bool)
        ensures
            result == touched(self.task().targets, entries@),
    {
        let ghost targets = self.task().targets;
        let mut i: usize = 0;
        while i < entries.len()
            invariant
                i <= entries.len(),
                targets == self.task().targets,
                forall|k: int| 0 <= k < i ==> !#[trigger] targeted(targets, entries@[k]),
            decreases entries.len() - i,
        {
            let entry = &entries[i];
            if entry.is_alive() && self.manager.deleted_file_paths.contains(entry.file_path()) {
                assert(targeted(targets, entries@[i as int]));
                return true;
            }
            i += 1;
        }
        false
    }

    /// Takes in the entries of the manifest that was read.
    fn sift(self, entries: Vec<ManifestEntry>) -> (sifted: Sifted<'a>)
        requires
            self.awaits_entries(),
        ensures
            match sifted {
                Sifted::Settled(step) => !(step is Write) && forall|uuid: u128| #[trigger]
                    self.task().after_read(self.replies@, entries@, uuid) == step@,
                Sifted::Rewrite(rewrite) => rewrite.continues(self, entries@),
            },
    {
        let ghost task = self.task();
        let ghost replies = self.replies@;
        let ghost manifest = task.manifests[replies.len() as int];
        if !self.touches(&entries) {
            let mut run = self;
            run.kept.push(run.manifests[run.next].clone());
            assert(run.next < run.manifests.len());
            run.next += 1;
            run.replies = Ghost(replies.push(FilterReply::Read(entries@)));
            proof {
                task.lemma_reply(replies, FilterReply::Read(entries@));
                lemma_untouched(task.targets, entries@);
                assert(run.kept@ =~= task.kept(run.replies@));
                assert(run.removed@ =~= task.removed(run.replies@));
                assert forall|path: Seq<char>| #[trigger]
                    run.found@.contains(path) <==> task.found(run.replies@, path) by {
                    assert(task.found(replies.push(FilterReply::Read(entries@)), path)
                        <==> task.found(replies, path));
                }
            }
            return Sifted::Settled(run.advance());
        }
        let partition_spec_id: i32 = self.manifests[self.next].partition_spec_id;
        if !self.table.metadata.has_partition_spec(partition_spec_id) {
            return Sifted::Settled(
                FilterStep::Failed(
                    Error::new(
                        ErrorKind::DataInvalid,
                        concat(
                            "Manifest references unknown partition spec ",
                            decimal_of(partition_spec_id).as_str(),
                        ),
                    ),
                ),
            );
        }
        let (mut run, surviving) = self.split(&entries);
        if surviving.len() == 0 {
            assert(run.next < run.manifests.len());
            run.next += 1;
            run.replies = Ghost(replies.push(FilterReply::Read(entries@)));
            proof {
                task.lemma_reply(replies, FilterReply::Read(entries@));
                assert(run.kept@ =~= task.kept(run.replies@));
            }
            return Sifted::Settled(run.advance());
        }
        match &run.table.metadata.metadata_location {
            Ok(location) => {
                let location = location.clone();
                Sifted::Rewrite(Rewrite { run, location, surviving })
            },
            Err(error) => Sifted::Settled(FilterStep::Failed(error.clone())),
        }
    }

    /// Parts the entries of the manifest that was read: the files to remove are recorded, the
    /// entries of the files that stay are returned.
    fn split(self, entries: &Vec<ManifestEntry>) -> (parts: (FilterRun<'a>, Vec<ManifestEntry>))
        requires
            self.awaits_entries(),
        ensures
            parts.0.task() == self.task(),
            parts.0.replies@ == self.replies@,
            parts.0.awaits_replacement(entries@),
            parts.1@ == survivors(
                self.task().targets,
                self.manifests@[self.next as int],
                entries@,
            ),
    {
        let ghost task = self.task();
        let ghost replies = self.replies@;
        let ghost manifest = self.manifests@[self.next as int];
        let schema_id: i32 = self.table.metadata.current_schema_id;
        let added_snapshot_id: i64 = self.manifests[self.next].added_snapshot_id;
        let partition_spec_id: i32 = self.manifests[self.next].partition_spec_id;
        let mut run = self;
        let mut surviving: Vec<ManifestEntry> = Vec::new();
        let mut i: usize = 0;
        proof {
            assert(entries@.take(0) =~= Seq::<ManifestEntry>::empty());
            lemma_no_entries(task.targets, manifest);
            task.lemma_reply(replies, FilterReply::Read(Seq::empty()));
            assert(run.removed@ =~= task.removed(
                replies.push(FilterReply::Read(entries@.take(0))),
            ));
            assert forall|path: Seq<char>| #[trigger]
                run.found@.contains(path) <==> task.found(
                    replies.push(FilterReply::Read(entries@.take(0))),
                    path,
                ) by {
                assert(task.found(replies.push(FilterReply::Read(Seq::empty())), path)
                    <==> task.found(replies, path));
            }
        }
        while i < entries.len()
            invariant
                i <= entries.len(),
                run.task() == task,
                run.replies@ == replies,
                run.awaits_replacement(entries@.take(i as int)),
                manifest == run.manifests@[run.next as int],
                schema_id == run.table.metadata.current_schema_id,
                added_snapshot_id == manifest.added_snapshot_id,
                partition_spec_id == manifest.partition_spec_id,
                surviving@ == survivors(task.targets, manifest, entries@.take(i as int)),
            decreases entries.len() - i,
        {
            let entry = &entries[i];
            let ghost done = entries@.take(i as int);
            let ghost found_before = run.found@;
            let ghost removed_before = run.removed@;
            proof {
                lemma_take_push(entries@, i as int);
                lemma_survivors_push(task.targets, manifest, done, *entry);
                lemma_removed_push(task.targets, done, *entry);
                task.lemma_reply(replies, FilterReply::Read(done));
                task.lemma_reply(replies, FilterReply::Read(done.push(*entry)));
            }
            if entry.is_alive() {
                if run.manager.deleted_file_paths.contains(entry.file_path()) {
                    run.found.insert(entry.data_file.file_path.clone());
                    run.removed.remove_file(&entry.data_file, schema_id, partition_spec_id);
                } else {
                    surviving.push(
                        ManifestEntry {
                            status: ManifestStatus::Existing,
                            snapshot_id: Some(entry.snapshot_id.unwrap_or(added_snapshot_id)),
                            sequence_number: Some(entry.sequence_number.unwrap_or(0)),
                            file_sequence_number: Some(entry.file_sequence_number.unwrap_or(0)),
                            data_file: entry.data_file.clone(),
                        },
                    );
                }
            }
            proof {
                task.lemma_entry(replies, done, *entry);
                assert(run.removed@ =~= task.removed(
                    replies.push(FilterReply::Read(done.push(*entry))),
                ));
                assert forall|path: Seq<char>| #[trigger]
                    run.found@.contains(path) <==> task.found(
                        replies.push(FilterReply::Read(done.push(*entry))),
                        path,
                    ) by {
                    assert(found_before.contains(path) <==> task.found(
                        replies.push(FilterReply::Read(done)),
                        path,
                    ));
                }
            }
            i += 1;
        }
        assert(entries@.take(i as int) =~= entries@);
        (run, surviving)
    }

    /// Passes over manifests of delete files, up to the next manifest to read or to the end.
    fn advance(self) -> (step: FilterStep<'a>)
        requires
            self.inv(),
        ensures
            step@ == self.task().next(self.replies@),
    {
        let mut run = self;
        let ghost task = self.task();
        while run.next < run.manifests.len() && matches!(
            run.manifests[run.next].content,
            ManifestContentType::Deletes
        )
            invariant
                run.inv(),
                run.task() == task,
                task.settled(run.replies@) == task.settled(self.replies@),
            decreases run.manifests@.len() - run.next,
        {
            let ghost before = run.replies@;
            run.kept.push(run.manifests[run.next].clone());
            run.next += 1;
            run.replies = Ghost(run.replies@.push(FilterReply::Unread));
            proof {
                task.lemma_reply(before, FilterReply::Unread);
                assert(run.kept@ =~= task.kept(run.replies@));
                assert forall|path: Seq<char>| #[trigger]
                    run.found@.contains(path) <==> task.found(run.replies@, path) by {
                    assert(task.found(before.push(FilterReply::Unread), path) <==> task.found(
                        before,
                        path,
                    ));
                }
            }
        }
        if run.next < run.manifests.len() {
            FilterStep::Read(FilterRead { run })
        } else {
            run.finish()
        }
    }

    /// Ends the removal, once every manifest has been dealt with.
    fn finish(self) -> (step: FilterStep<'a>)
        requires
            self.inv(),
            self.next == self.manifests@.len(),
        ensures
            step@ == self.task().end(self.replies@),
    {
        if self.manager.fail_missing_delete_paths {
            let missing = self.missing();
            if missing.len() > 0 {
                return FilterStep::Failed(
                    Error::new(
                        ErrorKind::DataInvalid,
                        concat(
                            "Failed to find the following files to delete in the current snapshot: ",
                            join(&missing, ", ").as_str(),
                        ),
                    ),
                );
            }
        }
        FilterStep::Done(
            FilterOutcome {
                manifests: self.kept,
                removed: self.removed,
                written_paths: self.written_paths,
            },
        )
    }

    /// The paths to remove that were not found.
    fn missing(&self) -> (missing: Vec<String>)
        requires
            self.inv(),
        ensures
            texts(missing@) == self.task().missing(self.replies@),
    {
        let ghost task = self.task();
        let ghost absent = |path: Seq<char>| !task.found(self.replies@, path);
        let targets = &self.manager.deleted_file_paths;
        let mut missing: Vec<String> = Vec::new();
        let mut i: usize = 0;
        proof {
            lemma_filter_empty(absent);
            assert(targets@.take(0) =~= Seq::<Seq<char>>::empty());
            assert(texts(missing@) =~= Seq::<Seq<char>>::empty());
        }
        while i < targets.len()
            invariant
                self.inv(),
                task == self.task(),
                targets@ == task.targets,
                i <= targets@.len(),
                absent == (|path: Seq<char>| !task.found(self.replies@, path)),
                texts(missing@) == targets@.take(i as int).filter(absent),
            decreases targets@.len() - i,
        {
            let path = targets.get(i);
            proof {
                lemma_take_push(targets@, i as int);
                lemma_filter_push(targets@.take(i as int), path@, absent);
            }
            if !self.found.contains(path.as_str()) {
                let ghost before = missing@;
                missing.push(path.clone());
                assert(texts(missing@) =~= texts(before).push(path@));
            }
            i += 1;
        }
        assert(targets@.take(i as int) =~= targets@);
        missing
    }
}

/// What a manifest that was read leads to.
enum Sifted<'a> {
    /// The manifest is dealt with.
    Settled(FilterStep<'a>),
    /// A manifest has to be written in its place.
    Rewrite(Rewrite<'a>),
}

/// A manifest that has to be written and has no name yet.
struct Rewrite<'a> {
    run: FilterRun<'a>,
    location: String,
    surviving: Vec<ManifestEntry>,
}

impl<'a> Rewrite<'a> {
    /// The rewrite follows when the given entries are read in the given state.
    spec fn continues(self, run: FilterRun<'a>, entries: Seq<ManifestEntry>) -> bool {
        let task = run.task();
        let replies = run.replies@;
        let manifest = task.manifests[replies.len() as int];
        &&& self.run.task() == task
        &&& self.run.replies@ == replies
        &&& self.run.awaits_replacement(entries)
        &&& self.surviving@ == survivors(task.targets, manifest, entries)
        &&& forall|uuid: u128| #[trigger]
            task.after_read(replies, entries, uuid) == (FilterStepView::Write {
                task,
                replies,
                entries,
                writer: task.rewrite(manifest, entries, self.location@, uuid),
            })
    }

    /// Names the manifest.
    fn name(
        self,
        uuid: u128,
        Ghost(before): Ghost<FilterRun<'a>>,
        Ghost(entries): Ghost<Seq<ManifestEntry>>,
    ) -> (step: FilterStep<'a>)
        requires
            self.continues(before, entries),
        ensures
            step@ == before.task().after_read(before.replies@, entries, uuid),
    {
        let Rewrite { run, location, surviving } = self;
        let partition_spec_id: i32 = run.manifests[run.next].partition_spec_id;
        let mut path = location;
        path.append("/");
        path.append(uuid_text(uuid).as_str());
        path.append("-m-filter-");
        path.append(decimal_of(partition_spec_id).as_str());
        path.append(".avro");
        let mut writer = new_manifest_writer(
            run.table,
            path,
            Some(run.snapshot_id),
            ManifestContentType::Data,
            run.table.metadata.current_schema_id,
            partition_spec_id,
        );
        let mut surviving = surviving;
        writer.entries.append(&mut surviving);
        assert(writer.entries@ =~= survivors(
            run.task().targets,
            run.manifests@[run.next as int],
            entries,
        ));
        FilterStep::Write(FilterWrite { run, writer, entries: Ghost(entries) })
    }
}

impl FilterTask {
    /// How one more entry of a manifest changes what the replies amount to.
    pub(crate) proof fn lemma_entry(
        self,
        replies: Seq<FilterReply>,
        done: Seq<ManifestEntry>,
        entry: ManifestEntry,
    )
        ensures
            self.removed(replies.push(FilterReply::Read(done.push(entry)))) == (if targeted(
                self.targets,
                entry,
            ) {
                self.removed(replies.push(FilterReply::Read(done))).push(
                    SummaryChange {
                        kind: ChangeKind::Removed,
                        file: entry.data_file,
                        schema_id: self.table.metadata.current_schema_id,
                        partition_spec_id: self.manifests[replies.len() as int].partition_spec_id,
                    },
                )
            } else {
                self.removed(replies.push(FilterReply::Read(done)))
            }),
            forall|path: Seq<char>| #[trigger]
                self.found(replies.push(FilterReply::Read(done.push(entry))), path) <==> self.found(
                    replies.push(FilterReply::Read(done)),
                    path,
                ) || (targeted(self.targets, entry) && entry.path() == path),
    {
        let shorter = FilterReply::Read(done);
        let longer = FilterReply::Read(done.push(entry));
        let schema_id = self.table.metadata.current_schema_id;
        let spec_id = self.manifests[replies.len() as int].partition_spec_id;
        self.lemma_reply(replies, shorter);
        self.lemma_reply(replies, longer);
        lemma_removed_push(self.targets, done, entry);
        if targeted(self.targets, entry) {
            assert(self.removed(replies.push(longer)) =~= self.removed(replies.push(shorter)).push(
                SummaryChange {
                    kind: ChangeKind::Removed,
                    file: entry.data_file,
                    schema_id,
                    partition_spec_id: spec_id,
                },
            ));
        }
        assert forall|path: Seq<char>| #[trigger]
            self.found(replies.push(longer), path) <==> self.found(replies.push(shorter), path) || (
            targeted(self.targets, entry) && entry.path() == path) by {
            let more = done.push(entry);
            if exists|j: int|
                0 <= j < more.len() && #[trigger] targeted(self.targets, more[j])
                    && more[j].path() == path {
                let j = choose|j: int|
                    0 <= j < more.len() && #[trigger] targeted(self.targets, more[j])
                        && more[j].path() == path;
                if j < done.len() {
                    assert(done[j] == more[j]);
                    assert(targeted(self.targets, done[j]));
                }
            }
            if exists|j: int|
                0 <= j < done.len() && #[trigger] targeted(self.targets, done[j])
                    && done[j].path() == path {
                let j = choose|j: int|
                    0 <= j < done.len() && #[trigger] targeted(self.targets, done[j])
                        && done[j].path() == path;
                assert(targeted(self.targets, more[j]));
            }
            assert(more[done.len() as int] == entry);
        }
    }

    /// How one more reply changes what the replies amount to.
    pub(crate) proof fn lemma_reply(self, replies: Seq<FilterReply>, reply: FilterReply)
        ensures
            self.kept(replies.push(reply)) == self.kept(replies) + self.replacement(
                self.manifests[replies.len() as int],
                reply,
            ),
            self.removed(replies.push(reply)) == self.removed(replies) + changes_of(
                ChangeKind::Removed,
                removed_files(self.targets, reply.entries()),
                self.table.metadata.current_schema_id,
                self.manifests[replies.len() as int].partition_spec_id,
            ),
            reply is Unread ==> self.removed(replies.push(reply)) == self.removed(replies),
            self.written_paths(replies.push(reply)) == (match reply {
                FilterReply::Rewritten(_, written) => self.written_paths(replies).push(
                    written.manifest_path,
                ),
                _ => self.written_paths(replies),
            }),
            forall|path: Seq<char>| #[trigger]
                self.found(replies.push(reply), path) <==> self.found(replies, path) || exists|j: int|
                    0 <= j < reply.entries().len() && #[trigger] targeted(
                        self.targets,
                        reply.entries()[j],
                    ) && reply.entries()[j].path() == path,
    {
        let after = replies.push(reply);
        assert(after.drop_last() =~= replies);
        lemma_no_entries(self.targets, self.manifests[0]);
        assert(changes_of(
            ChangeKind::Removed,
            Seq::empty(),
            self.table.metadata.current_schema_id,
            self.manifests[replies.len() as int].partition_spec_id,
        ) =~= Seq::<SummaryChange>::empty());
        if reply is Unread {
            assert(self.removed(after) =~= self.removed(replies));
        }
        assert forall|path: Seq<char>| #[trigger]
            self.found(after, path) <==> self.found(replies, path) || exists|j: int|
                0 <= j < reply.entries().len() && #[trigger] targeted(
                    self.targets,
                    reply.entries()[j],
                ) && reply.entries()[j].path() == path by {
            if self.found(after, path) {
                let (i, j) = choose|i: int, j: int|
                    0 <= i < after.len() && 0 <= j < after[i].entries().len()
                        && #[trigger] targeted(self.targets, after[i].entries()[j])
                        && after[i].entries()[j].path() == path;
                if i < replies.len() {
                    assert(replies[i] == after[i]);
                } else {
                    assert(after[i] == reply);
                }
            }
            if self.found(replies, path) {
                let (i, j) = choose|i: int, j: int|
                    0 <= i < replies.len() && 0 <= j < replies[i].entries().len()
                        && #[trigger] targeted(self.targets, replies[i].entries()[j])
                        && replies[i].entries()[j].path() == path;
                assert(targeted(self.targets, after[i].entries()[j]));
            }
            if exists|j: int|
                0 <= j < reply.entries().len() && #[trigger] targeted(
                    self.targets,
                    reply.entries()[j],
                ) && reply.entries()[j].path() == path {
                let j = choose|j: int|
                    0 <= j < reply.entries().len() && #[trigger] targeted(
                        self.targets,
                        reply.entries()[j],
                    ) && reply.entries()[j].path() == path;
                assert(after[replies.len() as int] == reply);
                assert(targeted(self.targets, after[replies.len() as int].entries()[j]));
            }
        }
    }
}

/// A removal that waits for the entries of a manifest.
pub struct FilterRead<'a> {
    run: FilterRun<'a>,
}

impl<'a> FilterRead<'a> {
    #[verifier::type_invariant]
    spec fn consistent(self) -> bool {
        self.run.awaits_entries()
    }

    /// What the removal is asked to do.
    pub closed spec fn task(self) -> FilterTask {
        self.run.task()
    }

    /// What became of the manifests so far.
    pub closed spec fn replies(self) -> Seq<FilterReply> {
        self.run.replies@
    }

    /// The manifest to read.
    pub fn manifest(&self) -> (manifest: &ManifestFile)
        ensures
            *manifest == self.task().manifests[self.replies().len() as int],
    {
        proof {
            use_type_invariant(self);
        }
        &self.run.manifests[self.run.next]
    }

    /// Takes the entries of the manifest, and a UUID for the case that a manifest has to be
    /// written in its place.
    pub fn resume_with_uuid(self, entries: Vec<ManifestEntry>, uuid: u128) -> (step: FilterStep<'a>)
        ensures
            step@ == self.task().after_read(self.replies(), entries@, uuid),
    {
        proof {
            use_type_invariant(&self);
        }
        let FilterRead { run } = self;
        let ghost before = run;
        let ghost read = entries@;
        match run.sift(entries) {
            Sifted::Settled(step) => step,
            Sifted::Rewrite(rewrite) => rewrite.name(uuid, Ghost(before), Ghost(read)),
        }
    }

    /// Takes the entries of the manifest. A manifest that has to be written in its place is named
    /// by a new UUID.
    pub fn resume(self, entries: Vec<ManifestEntry>) -> (step: FilterStep<'a>)
        ensures
            if step is Write {
                exists|uuid: u128|
                    is_version_7(uuid) && step@ == #[trigger] self.task().after_read(
                        self.replies(),
                        entries@,
                        uuid,
                    )
            } else {
                forall|uuid: u128|
                    step@ == #[trigger] self.task().after_read(self.replies(), entries@, uuid)
            },
    {
        proof {
            use_type_invariant(&self);
        }
        let FilterRead { run } = self;
        let ghost before = run;
        let ghost read = entries@;
        match run.sift(entries) {
            Sifted::Settled(step) => step,
            Sifted::Rewrite(rewrite) => {
                let uuid: u128 = new_uuid();
                rewrite.name(uuid, Ghost(before), Ghost(read))
            },
        }
    }
}

/// A removal that waits for a manifest to be written.
pub struct FilterWrite<'a> {
    run: FilterRun<'a>,
    writer: ManifestWriter,
    entries: Ghost<Seq<ManifestEntry>>,
}

impl<'a> FilterWrite<'a> {
    #[verifier::type_invariant]
    spec fn consistent(self) -> bool {
        self.run.awaits_replacement(self.entries@)
    }

    /// What the removal is asked to do.
    pub closed spec fn task(self) -> FilterTask {
        self.run.task()
    }

    /// What became of the manifests so far.
    pub closed spec fn replies(self) -> Seq<FilterReply> {
        self.run.replies@
    }

    /// The entries of the manifest that is being replaced.
    pub closed spec fn entries(self) -> Seq<ManifestEntry> {
        self.entries@
    }

    /// What is to be written.
    pub closed spec fn writing(self) -> WriterView {
        self.writer@
    }

    /// What is to be written.
    pub fn writer(&self) -> (writer: &ManifestWriter)
        ensures
            writer@ == self.writing(),
    {
        &self.writer
    }

    /// Takes the manifest that was written.
    pub fn resume(self, written: ManifestFile) -> (step: FilterStep<'a>)
        ensures
            step@ == self.task().after_write(self.replies(), self.entries(), written),
    {
        proof {
            use_type_invariant(&self);
        }
        let FilterWrite { run, writer: _, entries: Ghost(entries) } = self;
        let mut run = run;
        let ghost task = run.task();
        let ghost replies = run.replies@;
        run.written_paths.push(written.manifest_path.clone());
        run.kept.push(written);
        assert(run.next < run.manifests.len());
        run.next += 1;
        run.replies = Ghost(replies.push(FilterReply::Rewritten(entries, written)));
        proof {
            task.lemma_reply(replies, FilterReply::Read(entries));
            task.lemma_reply(replies, FilterReply::Rewritten(entries, written));
            assert(run.kept@ =~= task.kept(run.replies@));
            assert forall|path: Seq<char>| #[trigger]
                run.found@.contains(path) <==> task.found(run.replies@, path) by {
                assert(task.found(replies.push(FilterReply::Read(entries)), path) <==> task.found(
                    replies.push(FilterReply::Rewritten(entries, written)),
                    path,
                ));
            }
        }
        run.advance()
    }
}

/// Where a removal stands.
pub enum FilterStep<'a> {
    /// The next manifest is to be read.
    Read(FilterRead<'a>),
    /// A manifest is to be written in place of the one that was read.
    Write(FilterWrite<'a>),
    /// The removal is complete.
    Done(FilterOutcome),
    /// The removal failed.
    Failed(Error),
}

impl<'a> View for FilterStep<'a> {
    type V = FilterStepView;

    open spec fn view(&self) -> FilterStepView {
        match self {
            FilterStep::Read(read) => FilterStepView::Read {
                task: read.task(),
                replies: read.replies(),
            },
            FilterStep::Write(write) => FilterStepView::Write {
                task: write.task(),
                replies: write.replies(),
                entries: write.entries(),
                writer: write.writing(),
            },
            FilterStep::Done(outcome) => FilterStepView::Done(outcome@),
            FilterStep::Failed(error) => FilterStepView::Failed(error@),
        }
    }
}

} // verus!
