//! The search for the data files whose rows all match a filter.
//!
//! Whether rows of a file match is known from the file's partition and column metrics, in up to
//! three [`Stage`]s. The search is a sequence of [`MatchStep`]s. Each step names what is to be
//! read or evaluated next and is resumed with the result, until the files are found or the search
//! has failed.

use vstd::prelude::*;

use crate::error::{Error, ErrorKind, ErrorView};
use crate::existence::{data_manifests, keep_data_manifests};
use crate::laws::matching::{match_resumed, MatchReply};
use crate::seqs::{lemma_filter_empty, lemma_filter_push, lemma_take_push};
use crate::text::concat;
use crate::types::{DataFile, ManifestEntry, ManifestFile, Table};

verus! {

/// A question about a data file.
#[derive(Clone, Copy, Debug, PartialEq, Eq, Structural)]
pub enum Stage {
    /// May the file's partition, under the partition spec of the manifest that lists the file,
    /// hold matching rows?
    Partition,
    /// Do the column metrics show that all rows match?
    Strict,
    /// Do the column metrics leave it possible that some rows match?
    Inclusive,
}

/// What was found out about a data file.
pub enum Verdict {
    /// Its partition holds no matching rows.
    Pruned,
    /// All of its rows match.
    AllRows,
    /// None of its rows match.
    NoRows,
}

/// The live files that a manifest lists.
pub open spec fn live_files(entries: Seq<ManifestEntry>) -> Seq<DataFile> {
    entries.filter(|e: ManifestEntry| e.alive()).map_values(|e: ManifestEntry| e.data_file)
}

/// The live files that the manifests list, in order.
pub open spec fn candidates(reads: Seq<Seq<ManifestEntry>>) -> Seq<DataFile>
    decreases reads.len(),
{
    if reads.len() == 0 {
        Seq::empty()
    } else {
        candidates(reads.drop_last()) + live_files(reads.last())
    }
}

/// The files of which all rows match.
pub open spec fn matched(files: Seq<DataFile>, verdicts: Seq<Verdict>) -> Seq<DataFile>
    decreases verdicts.len(),
{
    if verdicts.len() == 0 {
        Seq::empty()
    } else {
        let before = matched(files, verdicts.drop_last());
        match verdicts.last() {
            Verdict::AllRows => before.push(files[verdicts.len() - 1]),
            _ => before,
        }
    }
}

/// The failure on a file of which some, but not all, rows match.
pub open spec fn partial_match_error(path: Seq<char>) -> ErrorView {
    ErrorView {
        kind: ErrorKind::DataInvalid,
        message: "Cannot delete file where some, but not all, rows match filter: "@ + path,
    }
}

/// How far a search has come.
pub struct MatchView {
    /// The data manifests of the snapshot.
    pub manifests: Seq<ManifestFile>,
    /// The entries of the manifests that were read.
    pub reads: Seq<Seq<ManifestEntry>>,
    /// What was found out about the live files.
    pub verdicts: Seq<Verdict>,
}

/// Where a search stands.
pub enum MatchStepView {
    /// The manifest list of the given snapshot is to be loaded.
    Load(i64),
    /// The next data manifest is to be read.
    Read(MatchView),
    /// A question about the next live file is to be answered.
    Check(MatchView, Stage),
    /// All rows of the given files match, and no rows of any other file.
    Matched(Seq<DataFile>),
    /// The search failed.
    Failed(ErrorView),
}

impl MatchView {
    /// The live files of the manifests that were read.
    pub open spec fn files(self) -> Seq<DataFile> {
        candidates(self.reads)
    }

    /// The live files of the manifest that was read last. The files of earlier manifests have been
    /// judged.
    pub open spec fn under_judgement(self) -> Seq<DataFile> {
        if self.reads.len() == 0 {
            Seq::empty()
        } else {
            live_files(self.reads.last())
        }
    }

    /// The same state with one more verdict.
    pub open spec fn with_verdict(self, verdict: Verdict) -> MatchView {
        MatchView { verdicts: self.verdicts.push(verdict), ..self }
    }

    /// The same state with the entries of one more manifest.
    pub open spec fn with_entries(self, entries: Seq<ManifestEntry>) -> MatchView {
        MatchView { reads: self.reads.push(entries), ..self }
    }

    /// Where the search stands. The files of a manifest are judged before the next is read.
    pub open spec fn next(self) -> MatchStepView {
        if self.verdicts.len() < self.files().len() {
            MatchStepView::Check(self, Stage::Partition)
        } else if self.reads.len() < self.manifests.len() {
            MatchStepView::Read(self)
        } else {
            MatchStepView::Matched(matched(self.files(), self.verdicts))
        }
    }

    /// Where the search stands after a question about the next live file was answered.
    pub open spec fn after_check(self, stage: Stage, holds: bool) -> MatchStepView {
        match (stage, holds) {
            (Stage::Partition, false) => self.with_verdict(Verdict::Pruned).next(),
            (Stage::Partition, true) => MatchStepView::Check(self, Stage::Strict),
            (Stage::Strict, true) => self.with_verdict(Verdict::AllRows).next(),
            (Stage::Strict, false) => MatchStepView::Check(self, Stage::Inclusive),
            (Stage::Inclusive, true) => MatchStepView::Failed(
                partial_match_error(self.files()[self.verdicts.len() as int].file_path@),
            ),
            (Stage::Inclusive, false) => self.with_verdict(Verdict::NoRows).next(),
        }
    }
}

/// The start of the search after the manifest list was loaded.
pub open spec fn match_list(list: Seq<ManifestFile>) -> MatchStepView {
    MatchView {
        manifests: data_manifests(list),
        reads: Seq::empty(),
        verdicts: Seq::empty(),
    }.next()
}

/// The search in the current snapshot of a table.
pub open spec fn match_start(table: Table) -> MatchStepView {
    match table.metadata.current() {
        Some(snapshot_id) => MatchStepView::Load(snapshot_id),
        None => MatchStepView::Matched(Seq::empty()),
    }
}

/// Starts the search in the current snapshot of a table. A table without a snapshot has no files.
pub(crate) fn start_matching(table: &Table) -> (step: MatchStep)
    ensures
        step@ == match_start(*table),
{
    match table.metadata.current_snapshot() {
        Some(snapshot_id) => MatchStep::Load(MatchLoad { snapshot_id }),
        None => {
            let files: Vec<DataFile> = Vec::new();
            assert(files@ =~= Seq::<DataFile>::empty());
            MatchStep::Matched(files)
        },
    }
}

/// A search that waits for the manifest list of the current snapshot.
pub struct MatchLoad {
    snapshot_id: i64,
}

impl MatchLoad {
    /// The snapshot whose manifest list is to be loaded.
    pub closed spec fn snapshot(self) -> i64 {
        self.snapshot_id
    }

    /// The snapshot whose manifest list is to be loaded.
    pub fn snapshot_id(&self) -> (id: i64)
        ensures
            id == self.snapshot(),
    {
        self.snapshot_id
    }

    /// Takes the manifest list.
    pub fn resume(self, manifest_list: Vec<ManifestFile>) -> (step: MatchStep)
        ensures
            step@ == match_list(manifest_list@),
            step@ == match_resumed(MatchStep::Load(self)@, MatchReply::Listed(manifest_list@)),
    {
        let manifests = keep_data_manifests(&manifest_list);
        let run = MatchRun {
            manifests,
            next: 0,
            queue: Vec::new(),
            at: 0,
            matched: Vec::new(),
            reads: Ghost(Seq::empty()),
            verdicts: Ghost(Seq::empty()),
        };
        assert(run.matched@ =~= Seq::<DataFile>::empty());
        assert(run.queue@.skip(0) =~= run.state().files().skip(0));
        run.advance()
    }
}

/// The state of a search.
struct MatchRun {
    manifests: Vec<ManifestFile>,
    next: usize,
    queue: Vec<DataFile>,
    at: usize,
    matched: Vec<DataFile>,
    reads: Ghost<Seq<Seq<ManifestEntry>>>,
    verdicts: Ghost<Seq<Verdict>>,
}

impl MatchRun {
    spec fn state(self) -> MatchView {
        MatchView { manifests: self.manifests@, reads: self.reads@, verdicts: self.verdicts@ }
    }

    spec fn inv(self) -> bool {
        let files = self.state().files();
        &&& self.next == self.reads@.len()
        &&& self.next <= self.manifests@.len()
        &&& self.at <= self.queue@.len()
        &&& self.queue@ == self.state().under_judgement()
        &&& self.verdicts@.len() <= files.len()
        &&& self.queue@.skip(self.at as int) == files.skip(self.verdicts@.len() as int)
        &&& self.matched@ == matched(files, self.verdicts@)
    }

    /// The run waits for the answer to a question.
    spec fn awaits_answer(self) -> bool {
        self.inv() && self.at < self.queue@.len()
    }

    /// Goes on to the next file, to the next manifest or to the end of the search.
    fn advance(self) -> (step: MatchStep)
        requires
            self.inv(),
        ensures
            step@ == self.state().next(),
    {
        proof {
            let files = self.state().files();
            assert(self.queue@.skip(self.at as int).len() == self.queue@.len() - self.at);
            assert(files.skip(self.verdicts@.len() as int).len() == files.len()
                - self.verdicts@.len());
        }
        if self.at < self.queue.len() {
            MatchStep::Check(MatchCheck { run: self, stage: Stage::Partition })
        } else if self.next < self.manifests.len() {
            MatchStep::Read(MatchRead { run: self })
        } else {
            MatchStep::Matched(self.matched)
        }
    }

    /// Goes on after the verdict on the next file.
    fn judge(self, matches: bool, Ghost(verdict): Ghost<Verdict>) -> (step: MatchStep)
        requires
            self.awaits_answer(),
            matches == (verdict is AllRows),
        ensures
            step@ == self.state().with_verdict(verdict).next(),
    {
        let mut run = self;
        let ghost files = run.state().files();
        let ghost before = run.verdicts@;
        proof {
            lemma_next_file(run);
        }
        if matches {
            run.matched.push(run.queue[run.at].clone());
        }
        run.verdicts = Ghost(before.push(verdict));
        assert(run.at < run.queue.len());
        run.at += 1;
        proof {
            assert(run.verdicts@.drop_last() =~= before);
            assert(run.queue@.skip(run.at as int) =~= files.skip(run.verdicts@.len() as int)) by {
                let old_queue = self.queue@.skip(self.at as int);
                let old_files = files.skip(before.len() as int);
                assert(run.queue@.skip(run.at as int) =~= old_queue.skip(1));
                assert(files.skip(run.verdicts@.len() as int) =~= old_files.skip(1));
            }
        }
        run.advance()
    }
}

/// The head of the queue is the next file to judge.
proof fn lemma_next_file(run: MatchRun)
    requires
        run.awaits_answer(),
    ensures
        run.verdicts@.len() < run.state().files().len(),
        run.queue@[run.at as int] == run.state().files()[run.verdicts@.len() as int],
{
    let files = run.state().files();
    let rest = run.queue@.skip(run.at as int);
    assert(rest.len() == run.queue@.len() - run.at);
    assert(files.skip(run.verdicts@.len() as int).len() == files.len() - run.verdicts@.len());
    assert(rest[0] == run.queue@[run.at as int]);
    assert(files.skip(run.verdicts@.len() as int)[0] == files[run.verdicts@.len() as int]);
}

/// More files do not change what was found among the first ones.
pub(crate) proof fn lemma_matched_prefix(files: Seq<DataFile>, more: Seq<DataFile>, verdicts: Seq<Verdict>)
    requires
        verdicts.len() <= files.len(),
    ensures
        matched(files + more, verdicts) == matched(files, verdicts),
    decreases verdicts.len(),
{
    if verdicts.len() > 0 {
        lemma_matched_prefix(files, more, verdicts.drop_last());
    }
}

/// A search that waits for the entries of a data manifest.
pub struct MatchRead {
    run: MatchRun,
}

impl MatchRead {
    #[verifier::type_invariant]
    spec fn consistent(self) -> bool {
        &&& self.run.inv()
        &&& self.run.at == self.run.queue@.len()
        &&& self.run.next < self.run.manifests@.len()
    }

    /// How far the search has come.
    pub closed spec fn state(self) -> MatchView {
        self.run.state()
    }

    /// The manifest to read.
    pub fn manifest(&self) -> (manifest: &ManifestFile)
        ensures
            *manifest == self.state().manifests[self.state().reads.len() as int],
    {
        proof {
            use_type_invariant(self);
        }
        &self.run.manifests[self.run.next]
    }

    /// Takes the entries of the manifest.
    pub fn resume(self, entries: Vec<ManifestEntry>) -> (step: MatchStep)
        ensures
            step@ == self.state().with_entries(entries@).next(),
            step@ == match_resumed(MatchStep::Read(self)@, MatchReply::Entries(entries@)),
    {
        proof {
            use_type_invariant(&self);
        }
        let MatchRead { run } = self;
        let mut run = run;
        let ghost before = run.state();
        run.queue = keep_live_files(&entries);
        run.at = 0;
        assert(run.next < run.manifests.len());
        run.next += 1;
        run.reads = Ghost(before.reads.push(entries@));
        proof {
            let files = run.state().files();
            let live = live_files(entries@);
            assert(run.reads@.drop_last() =~= before.reads);
            assert(files == before.files() + live);
            assert(before.files().skip(before.verdicts.len() as int).len() == before.files().len()
                - before.verdicts.len());
            assert(self.run.queue@.skip(self.run.at as int).len() == 0);
            lemma_matched_prefix(before.files(), live, before.verdicts);
            assert(run.queue@.skip(0) =~= files.skip(run.verdicts@.len() as int));
        }
        run.advance()
    }
}

/// Copies the live files that a manifest lists.
fn keep_live_files(entries: &Vec<ManifestEntry>) -> (files: Vec<DataFile>)
    ensures
        files@ == live_files(entries@),
{
    let ghost pred = |e: ManifestEntry| e.alive();
    let mut files: Vec<DataFile> = Vec::new();
    let mut i: usize = 0;
    proof {
        assert(entries@.take(0) =~= Seq::<ManifestEntry>::empty());
        lemma_filter_empty(pred);
        assert(files@ =~= live_files(entries@.take(0)));
    }
    while i < entries.len()
        invariant
            i <= entries.len(),
            pred == (|e: ManifestEntry| e.alive()),
            files@ == live_files(entries@.take(i as int)),
        decreases entries.len() - i,
    {
        let entry = &entries[i];
        proof {
            lemma_take_push(entries@, i as int);
            lemma_filter_push(entries@.take(i as int), *entry, pred);
        }
        if entry.is_alive() {
            files.push(entry.data_file.clone());
        }
        assert(files@ =~= live_files(entries@.take(i + 1)));
        i += 1;
    }
    assert(entries@.take(i as int) =~= entries@);
    files
}

/// A search that waits for the answer to a question about a file.
pub struct MatchCheck {
    run: MatchRun,
    stage: Stage,
}

impl MatchCheck {
    #[verifier::type_invariant]
    spec fn consistent(self) -> bool {
        self.run.awaits_answer()
    }

    /// How far the search has come.
    pub closed spec fn state(self) -> MatchView {
        self.run.state()
    }

    /// The question.
    pub closed spec fn asked(self) -> Stage {
        self.stage
    }

    /// The file.
    pub fn file(&self) -> (file: &DataFile)
        ensures
            *file == self.state().files()[self.state().verdicts.len() as int],
    {
        proof {
            use_type_invariant(self);
            lemma_next_file(self.run);
        }
        &self.run.queue[self.run.at]
    }

    /// The partition spec of the manifest that lists the file, by which the file's partition is to
    /// be judged.
    pub fn partition_spec_id(&self) -> (id: i32)
        ensures
            0 < self.state().reads.len() <= self.state().manifests.len(),
            id == self.state().manifests[self.state().reads.len() - 1].partition_spec_id,
            self.state().under_judgement().contains(
                self.state().files()[self.state().verdicts.len() as int],
            ),
    {
        proof {
            use_type_invariant(self);
            lemma_next_file(self.run);
            assert(self.run.queue@.contains(self.run.queue@[self.run.at as int]));
        }
        self.run.manifests[self.run.next - 1].partition_spec_id
    }

    /// The question.
    pub fn stage(&self) -> (stage: Stage)
        ensures
            stage == self.asked(),
    {
        self.stage
    }

    /// Takes the answer. A file of which all rows match is selected; a file of which some, but
    /// not all, rows match makes the search fail; other files are skipped.
    pub fn resume(self, holds: bool) -> (step: MatchStep)
        ensures
            step@ == self.state().after_check(self.asked(), holds),
            step@ == match_resumed(MatchStep::Check(self)@, MatchReply::Answer(holds)),
    {
        proof {
            use_type_invariant(&self);
        }
        let MatchCheck { run, stage } = self;
        match stage {
            Stage::Partition => if holds {
                MatchStep::Check(MatchCheck { run, stage: Stage::Strict })
            } else {
                run.judge(false, Ghost(Verdict::Pruned))
            },
            Stage::Strict => if holds {
                run.judge(true, Ghost(Verdict::AllRows))
            } else {
                MatchStep::Check(MatchCheck { run, stage: Stage::Inclusive })
            },
            Stage::Inclusive => if holds {
                proof {
                    lemma_next_file(run);
                }
                MatchStep::Failed(
                    Error::new(
                        ErrorKind::DataInvalid,
                        concat(
                            "Cannot delete file where some, but not all, rows match filter: ",
                            run.queue[run.at].file_path.as_str(),
                        ),
                    ),
                )
            } else {
                run.judge(false, Ghost(Verdict::NoRows))
            },
        }
    }
}

/// Where a search stands.
pub enum MatchStep {
    /// The manifest list of the current snapshot is to be loaded.
    Load(MatchLoad),
    /// A data manifest is to be read.
    Read(MatchRead),
    /// A question about a file is to be answered.
    Check(MatchCheck),
    /// All rows of the given files match, and no rows of any other file.
    Matched(Vec<DataFile>),
    /// The search failed.
    Failed(Error),
}

impl View for MatchStep {
    type V = MatchStepView;

    open spec fn view(&self) -> MatchStepView {
        match self {
            MatchStep::Load(load) => MatchStepView::Load(load.snapshot()),
            MatchStep::Read(read) => MatchStepView::Read(read.state()),
            MatchStep::Check(check) => MatchStepView::Check(check.state(), check.asked()),
            MatchStep::Matched(files) => MatchStepView::Matched(files@),
            MatchStep::Failed(error) => MatchStepView::Failed(error@),
        }
    }
}

} // verus!
