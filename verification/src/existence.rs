//! The check that the data files which delete files refer to are in the table.
//!
//! Another writer may have removed a data file since a delete file for it was written. The check
//! is a sequence of [`ExistenceStep`]s. Each step names what is to be read next and is resumed
//! with it, until the check has passed or failed.

use vstd::hash_set::StringHashSet;
use vstd::prelude::*;

use crate::error::{Error, ErrorKind, ErrorView};
use crate::laws::checks::ReadReply;
use crate::laws::row_delta::existence_resumed;
use crate::seqs::{lemma_filter_empty, lemma_filter_push, lemma_take_push};
use crate::text::{concat, join, joined, texts};
use crate::types::{ManifestContentType, ManifestEntry, ManifestFile, Table};

verus! {

/// The manifests of a list that list data files.
pub open spec fn data_manifests(list: Seq<ManifestFile>) -> Seq<ManifestFile> {
    list.filter(|m: ManifestFile| m.content == ManifestContentType::Data)
}

/// Copies the manifests that list data files.
pub(crate) fn keep_data_manifests(list: &Vec<ManifestFile>) -> (kept: Vec<ManifestFile>)
    ensures
        kept@ == data_manifests(list@),
{
    let ghost pred = |m: ManifestFile| m.content == ManifestContentType::Data;
    let mut kept: Vec<ManifestFile> = Vec::new();
    let mut i: usize = 0;
    proof {
        assert(list@.take(0) =~= Seq::<ManifestFile>::empty());
        lemma_filter_empty(pred);
    }
    while i < list.len()
        invariant
            i <= list.len(),
            pred == (|m: ManifestFile| m.content == ManifestContentType::Data),
            kept@ == list@.take(i as int).filter(pred),
        decreases list.len() - i,
    {
        let manifest = &list[i];
        proof {
            lemma_take_push(list@, i as int);
            lemma_filter_push(list@.take(i as int), *manifest, pred);
        }
        if manifest.content == ManifestContentType::Data {
            kept.push(manifest.clone());
        }
        i += 1;
    }
    assert(list@.take(i as int) =~= list@);
    kept
}

/// Whether the entries list a live file with the given path.
pub open spec fn lists_live(entries: Seq<ManifestEntry>, path: Seq<char>) -> bool {
    exists|j: int|
        0 <= j < entries.len() && (#[trigger] entries[j]).alive() && entries[j].path() == path
}

/// Whether any of the manifests that were read lists a live file with the given path.
pub open spec fn is_live(reads: Seq<Seq<ManifestEntry>>, path: Seq<char>) -> bool {
    exists|i: int| 0 <= i < reads.len() && #[trigger] lists_live(reads[i], path)
}

/// The referenced paths that no live file has.
pub open spec fn missing_references(
    references: Seq<Seq<char>>,
    reads: Seq<Seq<ManifestEntry>>,
) -> Seq<Seq<char>> {
    references.filter(|path: Seq<char>| !is_live(reads, path))
}

/// The failure of a check on a table without a snapshot.
pub open spec fn no_snapshot_error(references: Seq<Seq<char>>) -> ErrorView {
    ErrorView {
        kind: ErrorKind::DataInvalid,
        message:
            "Cannot add delete files: table has no snapshot, but delete files reference: "@
            + joined(references, ", "@),
    }
}

/// The failure of a check that did not find all data files.
pub open spec fn missing_files_error(missing: Seq<Seq<char>>) -> ErrorView {
    ErrorView {
        kind: ErrorKind::DataInvalid,
        message: "Cannot add delete files that reference missing data files: "@ + joined(
            missing,
            ", "@,
        ),
    }
}

/// Where a check for data files stands.
pub enum ExistenceStepView {
    /// The manifest list of the given snapshot is to be loaded.
    Load { references: Seq<Seq<char>>, snapshot_id: i64 },
    /// The next of the data manifests is to be read.
    Read {
        references: Seq<Seq<char>>,
        manifests: Seq<ManifestFile>,
        reads: Seq<Seq<ManifestEntry>>,
    },
    /// All data files are in the table.
    Passed,
    /// Some are not.
    Failed(ErrorView),
}

/// Where a check stands after some of the data manifests were read.
pub open spec fn existence_next(
    references: Seq<Seq<char>>,
    manifests: Seq<ManifestFile>,
    reads: Seq<Seq<ManifestEntry>>,
) -> ExistenceStepView {
    let missing = missing_references(references, reads);
    if reads.len() < manifests.len() {
        ExistenceStepView::Read { references, manifests, reads }
    } else if missing.len() > 0 {
        ExistenceStepView::Failed(missing_files_error(missing))
    } else {
        ExistenceStepView::Passed
    }
}

/// The check that the referenced data files are in the table.
pub open spec fn existence_check(table: Table, references: Seq<Seq<char>>) -> ExistenceStepView {
    if references.len() == 0 {
        ExistenceStepView::Passed
    } else {
        match table.metadata.current() {
            Some(snapshot_id) => ExistenceStepView::Load { references, snapshot_id },
            None => ExistenceStepView::Failed(no_snapshot_error(references)),
        }
    }
}

/// Starts the check that the data files with the given paths are in the current snapshot.
pub fn validate_data_files_exist(
    table: &Table,
    referenced_data_file_paths: Vec<String>,
) -> (step: ExistenceStep)
    ensures
        step@ == existence_check(*table, texts(referenced_data_file_paths@)),
{
    if referenced_data_file_paths.len() == 0 {
        return ExistenceStep::Passed;
    }
    match table.metadata.current_snapshot() {
        Some(snapshot_id) => ExistenceStep::Load(
            ExistenceLoad { references: referenced_data_file_paths, snapshot_id },
        ),
        None => ExistenceStep::Failed(
            Error::new(
                ErrorKind::DataInvalid,
                concat(
                    "Cannot add delete files: table has no snapshot, but delete files reference: ",
                    join(&referenced_data_file_paths, ", ").as_str(),
                ),
            ),
        ),
    }
}

/// A check that waits for the manifest list of the current snapshot.
pub struct ExistenceLoad {
    references: Vec<String>,
    snapshot_id: i64,
}

impl ExistenceLoad {
    /// The referenced paths.
    pub closed spec fn references(self) -> Seq<Seq<char>> {
        texts(self.references@)
    }

    /// The snapshot whose manifest list is to be loaded.
    pub closed spec fn snapshot(self) -> i64 {
        self.snapshot_id
    }

    /// The snapshot whose manifest list is to be loaded.
    pub fn snapshot_id(&self) -> (id: i64)
        ensures
            id == self.snapshot(),
    {
        self.snapshot_id
    }

    /// Takes the manifest list.
    pub fn resume(self, manifest_list: Vec<ManifestFile>) -> (step: ExistenceStep)
        ensures
            step@ == existence_next(
                self.references(),
                data_manifests(manifest_list@),
                Seq::empty(),
            ),
            step@ == existence_resumed(
                ExistenceStep::Load(self)@,
                ReadReply::Listed(manifest_list@),
            ),
    {
        let manifests = keep_data_manifests(&manifest_list);
        let run = ExistenceRun {
            references: self.references,
            manifests,
            next: 0,
            live_paths: StringHashSet::new(),
            reads: Ghost(Seq::empty()),
        };
        run.advance()
    }
}

/// The state of a check for data files.
struct ExistenceRun {
    references: Vec<String>,
    manifests: Vec<ManifestFile>,
    next: usize,
    live_paths: StringHashSet,
    reads: Ghost<Seq<Seq<ManifestEntry>>>,
}

impl ExistenceRun {
    spec fn inv(self) -> bool {
        &&& self.next == self.reads@.len()
        &&& self.next <= self.manifests@.len()
        &&& forall|path: Seq<char>| #[trigger]
            self.live_paths@.contains(path) <==> is_live(self.reads@, path)
    }

    /// Goes on to the next manifest, or to the end of the check.
    fn advance(self) -> (step: ExistenceStep)
        requires
            self.inv(),
        ensures
            step@ == existence_next(texts(self.references@), self.manifests@, self.reads@),
    {
        if self.next < self.manifests.len() {
            return ExistenceStep::Read(ExistenceRead { run: self });
        }
        let missing = self.missing();
        if missing.len() > 0 {
            return ExistenceStep::Failed(
                Error::new(
                    ErrorKind::DataInvalid,
                    concat(
                        "Cannot add delete files that reference missing data files: ",
                        join(&missing, ", ").as_str(),
                    ),
                ),
            );
        }
        ExistenceStep::Passed
    }

    /// The referenced paths that no live file has.
    fn missing(&self) -> (missing: Vec<String>)
        requires
            self.inv(),
        ensures
            texts(missing@) == missing_references(texts(self.references@), self.reads@),
    {
        let ghost references = texts(self.references@);
        let ghost absent = |path: Seq<char>| !is_live(self.reads@, path);
        let mut missing: Vec<String> = Vec::new();
        let mut i: usize = 0;
        proof {
            lemma_filter_empty(absent);
            assert(references.take(0) =~= Seq::<Seq<char>>::empty());
            assert(texts(missing@) =~= Seq::<Seq<char>>::empty());
        }
        while i < self.references.len()
            invariant
                self.inv(),
                references == texts(self.references@),
                i <= self.references@.len(),
                absent == (|path: Seq<char>| !is_live(self.reads@, path)),
                texts(missing@) == references.take(i as int).filter(absent),
            decreases self.references@.len() - i,
        {
            let path = &self.references[i];
            proof {
                lemma_take_push(references, i as int);
                lemma_filter_push(references.take(i as int), path@, absent);
            }
            if !self.live_paths.contains(path.as_str()) {
                let ghost before = missing@;
                missing.push(path.clone());
                assert(texts(missing@) =~= texts(before).push(path@));
            }
            i += 1;
        }
        assert(references.take(i as int) =~= references);
        missing
    }
}

/// A check that waits for the entries of a data manifest.
pub struct ExistenceRead {
    run: ExistenceRun,
}

impl ExistenceRead {
    #[verifier::type_invariant]
    spec fn consistent(self) -> bool {
        self.run.inv() && self.run.next < self.run.manifests@.len()
    }

    /// The referenced paths.
    pub closed spec fn references(self) -> Seq<Seq<char>> {
        texts(self.run.references@)
    }

    /// The data manifests.
    pub closed spec fn manifests(self) -> Seq<ManifestFile> {
        self.run.manifests@
    }

    /// The entries of the manifests that were read.
    pub closed spec fn reads(self) -> Seq<Seq<ManifestEntry>> {
        self.run.reads@
    }

    /// The manifest to read.
    pub fn manifest(&self) -> (manifest: &ManifestFile)
        ensures
            *manifest == self.manifests()[self.reads().len() as int],
    {
        proof {
            use_type_invariant(self);
        }
        &self.run.manifests[self.run.next]
    }

    /// Takes the entries of the manifest.
    pub fn resume(self, entries: Vec<ManifestEntry>) -> (step: ExistenceStep)
        ensures
            step@ == existence_next(
                self.references(),
                self.manifests(),
                self.reads().push(entries@),
            ),
            step@ == existence_resumed(ExistenceStep::Read(self)@, ReadReply::Entries(entries@)),
    {
        proof {
            use_type_invariant(&self);
        }
        let ExistenceRead { run } = self;
        let mut run = run;
        let ghost before = run.reads@;
        let mut i: usize = 0;
        while i < entries.len()
            invariant
                i <= entries.len(),
                run.reads@ == before,
                run.reads@ == self.reads(),
                run.references@ == self.run.references@,
                run.manifests@ == self.run.manifests@,
                run.next == self.run.next,
                forall|path: Seq<char>| #[trigger]
                    run.live_paths@.contains(path) <==> is_live(before, path) || lists_live(
                        entries@.take(i as int),
                        path,
                    ),
            decreases entries.len() - i,
        {
            let entry = &entries[i];
            let ghost live = run.live_paths@;
            if entry.is_alive() {
                run.live_paths.insert(entry.data_file.file_path.clone());
            }
            proof {
                lemma_take_push(entries@, i as int);
                assert forall|path: Seq<char>| #[trigger]
                    run.live_paths@.contains(path) <==> is_live(before, path) || lists_live(
                        entries@.take(i + 1),
                        path,
                    ) by {
                    assert(live.contains(path) <==> is_live(before, path) || lists_live(
                        entries@.take(i as int),
                        path,
                    ));
                    lemma_lists_live_push(entries@.take(i as int), *entry, path);
                }
            }
            i += 1;
        }
        assert(entries@.take(i as int) =~= entries@);
        assert(run.next < run.manifests.len());
        run.next += 1;
        run.reads = Ghost(before.push(entries@));
        proof {
            assert forall|path: Seq<char>| #[trigger]
                run.live_paths@.contains(path) <==> is_live(run.reads@, path) by {
                lemma_is_live_push(before, entries@, path);
            }
        }
        run.advance()
    }
}

proof fn lemma_lists_live_push(
    entries: Seq<ManifestEntry>,
    entry: ManifestEntry,
    path: Seq<char>,
)
    ensures
        lists_live(entries.push(entry), path) <==> lists_live(entries, path) || (entry.alive()
            && entry.path() == path),
{
    let longer = entries.push(entry);
    if lists_live(entries, path) {
        let j = choose|j: int|
            0 <= j < entries.len() && (#[trigger] entries[j]).alive() && entries[j].path() == path;
        assert(longer[j].alive());
    }
    assert(longer[entries.len() as int] == entry);
    if lists_live(longer, path) {
        let j = choose|j: int|
            0 <= j < longer.len() && (#[trigger] longer[j]).alive() && longer[j].path() == path;
        if j < entries.len() {
            assert(entries[j].alive());
        }
    }
}

proof fn lemma_is_live_push(
    reads: Seq<Seq<ManifestEntry>>,
    entries: Seq<ManifestEntry>,
    path: Seq<char>,
)
    ensures
        is_live(reads.push(entries), path) <==> is_live(reads, path) || lists_live(entries, path),
{
    let longer = reads.push(entries);
    if is_live(reads, path) {
        let i = choose|i: int| 0 <= i < reads.len() && #[trigger] lists_live(reads[i], path);
        assert(lists_live(longer[i], path));
    }
    if lists_live(entries, path) {
        assert(lists_live(longer[reads.len() as int], path));
    }
    if is_live(longer, path) {
        let i = choose|i: int| 0 <= i < longer.len() && #[trigger] lists_live(longer[i], path);
        if i < reads.len() {
            assert(lists_live(reads[i], path));
        }
    }
}

/// Where a check for data files stands.
pub enum ExistenceStep {
    /// The manifest list of the current snapshot is to be loaded.
    Load(ExistenceLoad),
    /// A data manifest is to be read.
    Read(ExistenceRead),
    /// All data files are in the table.
    Passed,
    /// Some are not.
    Failed(Error),
}

impl View for ExistenceStep {
    type V = ExistenceStepView;

    open spec fn view(&self) -> ExistenceStepView {
        match self {
            ExistenceStep::Load(load) => ExistenceStepView::Load {
                references: load.references(),
                snapshot_id: load.snapshot(),
            },
            ExistenceStep::Read(read) => ExistenceStepView::Read {
                references: read.references(),
                manifests: read.manifests(),
                reads: read.reads(),
            },
            ExistenceStep::Passed => ExistenceStepView::Passed,
            ExistenceStep::Failed(error) => ExistenceStepView::Failed(error@),
        }
    }
}

} // verus!
