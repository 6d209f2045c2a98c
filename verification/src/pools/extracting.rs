//! Extracting the pages of an archive.
use vstd::prelude::*;

use crate::names::Names;

verus! {

/// The pages of an archive that are still to be extracted.
pub struct PendingExtraction {
    ext_map: Names,
}

impl View for PendingExtraction {
    type V = Map<Seq<char>, usize>;

    closed spec fn view(&self) -> Map<Seq<char>, usize> {
        self.ext_map@
    }
}

impl PendingExtraction {
    /// Nothing to extract.
    pub fn new() -> (r: Self)
        ensures
            r@ == Map::<Seq<char>, usize>::empty(),
    {
        PendingExtraction { ext_map: Names::new() }
    }

    /// One more page to extract.
    pub fn insert(&mut self, path: String, job: usize)
        ensures
            final(self)@ == old(self)@.insert(path@, job),
    {
        self.ext_map.insert(path, job);
    }

    /// Takes a page that is extracted now.
    pub fn remove(&mut self, path: &String) -> (r: Option<usize>)
        ensures
            final(self)@ == old(self)@.remove(path@),
            r == if old(self)@.dom().contains(path@) {
                Some(old(self)@[path@])
            } else {
                None::<usize>
            },
    {
        self.ext_map.remove(path)
    }
}

/// What comes out of an archive while it is read.
#[derive(Debug)]
pub enum ArchiveContents {
    /// A file begins. It has a path and, if that is known, a size.
    StartOfEntry(String, i64),
    DataChunk(Vec<u8>),
    EndOfEntry,
    Failed(String),
}

/// What that is.
pub enum ContentsView {
    StartOfEntry(Seq<char>, i64),
    DataChunk(Seq<u8>),
    EndOfEntry,
    Failed(Seq<char>),
}

impl View for ArchiveContents {
    type V = ContentsView;

    open spec fn view(&self) -> ContentsView {
        match self {
            ArchiveContents::StartOfEntry(p, n) => ContentsView::StartOfEntry(p@, *n),
            ArchiveContents::DataChunk(d) => ContentsView::DataChunk(d@),
            ArchiveContents::EndOfEntry => ContentsView::EndOfEntry,
            ArchiveContents::Failed(e) => ContentsView::Failed(e@),
        }
    }
}

/// What to do after something came out of an archive.
#[derive(Debug)]
pub enum ReaderStep {
    Continue,
    /// Write what was read to the file of a page.
    Send(usize, Vec<u8>),
    Fail(String),
}

/// What that is.
pub enum StepView {
    Continue,
    Send(usize, Seq<u8>),
    Fail(Seq<char>),
}

impl View for ReaderStep {
    type V = StepView;

    open spec fn view(&self) -> StepView {
        match self {
            ReaderStep::Continue => StepView::Continue,
            ReaderStep::Send(j, d) => StepView::Send(*j, d@),
            ReaderStep::Fail(e) => StepView::Fail(e@),
        }
    }
}

/// An archive that is being read.
pub struct ArchiveReader {
    jobs: PendingExtraction,
    relpath: String,
    data: Vec<u8>,
    in_file: bool,
}

/// What is known of an archive that is being read.
pub struct ReaderState {
    /// The pages that are still to be extracted.
    pub jobs: Map<Seq<char>, usize>,
    /// The path of the file that is being read.
    pub relpath: Seq<char>,
    /// What was read of it.
    pub data: Seq<u8>,
    /// Whether a file is being read.
    pub in_file: bool,
}

impl View for ArchiveReader {
    type V = ReaderState;

    closed spec fn view(&self) -> ReaderState {
        ReaderState {
            jobs: self.jobs@,
            relpath: self.relpath@,
            data: self.data@,
            in_file: self.in_file,
        }
    }
}

/// The state before anything was read.
pub open spec fn unread_state(jobs: Map<Seq<char>, usize>) -> ReaderState {
    ReaderState { jobs, relpath: seq![], data: seq![], in_file: false }
}

impl ReaderState {
    /// The state after something came out of the archive, and what is done then.
    pub open spec fn after(self, c: ContentsView) -> (ReaderState, StepView) {
        match c {
            ContentsView::StartOfEntry(path, size) => (
                ReaderState {
                    relpath: path,
                    in_file: true,
                    data: if size > 0 {
                        seq![]
                    } else {
                        self.data
                    },
                    ..self
                },
                StepView::Continue,
            ),
            ContentsView::DataChunk(d) => (
                ReaderState { data: self.data + d, ..self },
                StepView::Continue,
            ),
            ContentsView::EndOfEntry => (
                ReaderState {
                    jobs: self.jobs.remove(self.relpath),
                    data: seq![],
                    in_file: false,
                    ..self
                },
                if self.jobs.dom().contains(self.relpath) {
                    StepView::Send(self.jobs[self.relpath], self.data)
                } else {
                    StepView::Continue
                },
            ),
            ContentsView::Failed(e) => (self, StepView::Fail(e)),
        }
    }
}

impl ArchiveReader {
    /// Before anything was read.
    pub fn new(jobs: PendingExtraction) -> (r: Self)
        ensures
            r@ == unread_state(jobs@),
    {
        let r = ArchiveReader { jobs, relpath: String::new(), data: Vec::new(), in_file: false };
        assert(r@.relpath =~= seq![]);
        assert(r@.data =~= seq![]);
        r
    }

    /// Whether a page may be extracted before its turn now. That is not so in the middle of a
    /// file.
    pub fn may_jump(&self) -> (r: bool)
        ensures
            r == !self@.in_file,
    {
        !self.in_file
    }

    /// Takes a page that is extracted before its turn, unless that was done already.
    pub fn jump(&mut self, path: &String) -> (r: Option<usize>)
        ensures
            final(self)@ == (ReaderState { jobs: old(self)@.jobs.remove(path@), ..old(self)@ }),
            r == if old(self)@.jobs.dom().contains(path@) {
                Some(old(self)@.jobs[path@])
            } else {
                None::<usize>
            },
    {
        self.jobs.remove(path)
    }

    /// Something came out of the archive.
    pub fn read(&mut self, c: ArchiveContents) -> (r: ReaderStep)
        ensures
            (final(self)@, r@) == old(self)@.after(c@),
    {
        match c {
            ArchiveContents::StartOfEntry(path, size) => {
                self.relpath = path;
                self.in_file = true;
                if size > 0 {
                    self.data = Vec::new();
                    assert(self.data@ =~= seq![]);
                }
                ReaderStep::Continue
            },
            ArchiveContents::DataChunk(d) => {
                let mut d = d;
                self.data.append(&mut d);
                ReaderStep::Continue
            },
            ArchiveContents::EndOfEntry => {
                let mut current: Vec<u8> = Vec::new();
                assert(current@ =~= seq![]);
                std::mem::swap(&mut current, &mut self.data);
                self.in_file = false;
                match self.jobs.remove(&self.relpath) {
                    Some(job) => ReaderStep::Send(job, current),
                    None => ReaderStep::Continue,
                }
            },
            ArchiveContents::Failed(e) => ReaderStep::Fail(e),
        }
    }
}

/// The state after several things came out of the archive.
pub open spec fn after_all(s: ReaderState, contents: Seq<ContentsView>) -> ReaderState
    decreases contents.len(),
{
    if contents.len() == 0 {
        s
    } else {
        after_all(s, contents.drop_last()).after(contents.last()).0
    }
}

/// What is written to the files of pages while several things come out of the archive.
pub open spec fn written(s: ReaderState, contents: Seq<ContentsView>) -> Seq<(usize, Seq<u8>)>
    decreases contents.len(),
{
    if contents.len() == 0 {
        seq![]
    } else {
        let rest = written(s, contents.drop_last());
        match after_all(s, contents.drop_last()).after(contents.last()).1 {
            StepView::Send(job, data) => rest.push((job, data)),
            _ => rest,
        }
    }
}

/// Several chunks together.
pub open spec fn joined_chunks(chunks: Seq<Seq<u8>>) -> Seq<u8>
    decreases chunks.len(),
{
    if chunks.len() == 0 {
        seq![]
    } else {
        joined_chunks(chunks.drop_last()) + chunks.last()
    }
}

proof fn lemma_chunks(s: ReaderState, start: Seq<ContentsView>, chunks: Seq<Seq<u8>>)
    ensures
        ({
            let all = start + chunks.map_values(|c: Seq<u8>| ContentsView::DataChunk(c));
            &&& after_all(s, all) == (ReaderState {
                data: after_all(s, start).data + joined_chunks(chunks),
                ..after_all(s, start)
            })
            &&& written(s, all) == written(s, start)
        }),
    decreases chunks.len(),
{
    let views = chunks.map_values(|c: Seq<u8>| ContentsView::DataChunk(c));
    let all = start + views;
    if chunks.len() == 0 {
        assert(all =~= start);
        assert(after_all(s, start).data + joined_chunks(chunks) =~= after_all(s, start).data);
    } else {
        let fewer = chunks.drop_last().map_values(|c: Seq<u8>| ContentsView::DataChunk(c));
        lemma_chunks(s, start, chunks.drop_last());
        assert(all.drop_last() =~= start + fewer);
        assert(all.last() == ContentsView::DataChunk(chunks.last()));
        let d = after_all(s, start).data;
        assert((d + joined_chunks(chunks.drop_last())) + chunks.last() =~= d + joined_chunks(
            chunks,
        ));
    }
}

/// A page gets the whole of its file, whatever pieces it comes out in.
pub proof fn law_file_arrives_whole(
    s: ReaderState,
    path: Seq<char>,
    size: i64,
    chunks: Seq<Seq<u8>>,
)
    requires
        !s.in_file,
        s.data.len() == 0,
        s.jobs.dom().contains(path),
    ensures
        written(
            s,
            seq![ContentsView::StartOfEntry(path, size)] + chunks.map_values(
                |c: Seq<u8>| ContentsView::DataChunk(c),
            ) + seq![ContentsView::EndOfEntry],
        ) == seq![(s.jobs[path], joined_chunks(chunks))],
{
    let start = seq![ContentsView::StartOfEntry(path, size)];
    let views = chunks.map_values(|c: Seq<u8>| ContentsView::DataChunk(c));
    let all = start + views + seq![ContentsView::EndOfEntry];
    reveal_with_fuel(after_all, 2);
    reveal_with_fuel(written, 2);
    assert(start.drop_last() =~= seq![]);
    lemma_chunks(s, start, chunks);
    assert(all.drop_last() =~= start + views);
    assert(after_all(s, start).data =~= seq![]);
    assert(seq![] + joined_chunks(chunks) =~= joined_chunks(chunks));
    assert(written(s, all) =~= seq![(s.jobs[path], joined_chunks(chunks))]);
}

/// Whether no two pages are written to the same file.
pub open spec fn distinct_jobs(jobs: Map<Seq<char>, usize>) -> bool {
    forall|a: Seq<char>, b: Seq<char>|
        #![trigger jobs[a], jobs[b]]
        jobs.dom().contains(a) && jobs.dom().contains(b) && jobs[a] == jobs[b] ==> a == b
}

proof fn lemma_jobs_left(s: ReaderState, contents: Seq<ContentsView>)
    requires
        distinct_jobs(s.jobs),
    ensures
        distinct_jobs(after_all(s, contents).jobs),
        after_all(s, contents).jobs.submap_of(s.jobs),
        forall|i: int, k: Seq<char>|
            0 <= i < written(s, contents).len() && after_all(s, contents).jobs.dom().contains(k)
                ==> (#[trigger] written(s, contents)[i]).0 != #[trigger] after_all(
                s,
                contents,
            ).jobs[k],
        forall|i: int, j: int|
            0 <= i < j < written(s, contents).len() ==> (#[trigger] written(s, contents)[i]).0 != (
            #[trigger] written(s, contents)[j]).0,
    decreases contents.len(),
{
    if contents.len() > 0 {
        let before = after_all(s, contents.drop_last());
        lemma_jobs_left(s, contents.drop_last());
        let rest = written(s, contents.drop_last());
        let all = written(s, contents);
        let after = after_all(s, contents);
        match contents.last() {
            ContentsView::EndOfEntry => {
                let p = before.relpath;
                assert(after.jobs == before.jobs.remove(p));
                if before.jobs.dom().contains(p) {
                    assert(all == rest.push((before.jobs[p], before.data)));
                    assert forall|i: int, k: Seq<char>|
                        0 <= i < all.len() && after.jobs.dom().contains(k) implies (
                    #[trigger] all[i]).0 != #[trigger] after.jobs[k] by {
                        assert(after.jobs[k] == before.jobs[k]);
                        if i < rest.len() {
                            assert(all[i] == rest[i]);
                        }
                    }
                    assert forall|i: int, j: int| 0 <= i < j < all.len() implies (
                    #[trigger] all[i]).0 != (#[trigger] all[j]).0 by {
                        assert(all[i] == rest[i]);
                        if j < rest.len() {
                            assert(all[j] == rest[j]);
                        } else {
                            assert(rest[i].0 != before.jobs[p]);
                        }
                    }
                } else {
                    assert(after.jobs =~= before.jobs);
                }
            },
            _ => {},
        }
    }
}

/// No page is written twice.
pub proof fn law_written_once(
    s: ReaderState,
    contents: Seq<ContentsView>,
    i: int,
    j: int,
)
    requires
        distinct_jobs(s.jobs),
        0 <= i < j < written(s, contents).len(),
    ensures
        written(s, contents)[i].0 != written(s, contents)[j].0,
{
    lemma_jobs_left(s, contents);
}

/// A page that was extracted before its turn is not written again.
pub proof fn law_jumped_page_is_done(
    s: ReaderState,
    path: Seq<char>,
    contents: Seq<ContentsView>,
    i: int,
)
    requires
        distinct_jobs(s.jobs),
        s.jobs.dom().contains(path),
        0 <= i < written(ReaderState { jobs: s.jobs.remove(path), ..s }, contents).len(),
    ensures
        written(ReaderState { jobs: s.jobs.remove(path), ..s }, contents)[i].0 != s.jobs[path],
    decreases contents.len(),
{
    let t = ReaderState { jobs: s.jobs.remove(path), ..s };
    assert(distinct_jobs(t.jobs)) by {
        assert forall|a: Seq<char>, b: Seq<char>|
            #![trigger t.jobs[a], t.jobs[b]]
            t.jobs.dom().contains(a) && t.jobs.dom().contains(b) && t.jobs[a] == t.jobs[b] implies a
            == b by {
            assert(s.jobs[a] == s.jobs[b]);
        }
    }
    if contents.len() > 0 {
        let rest = written(t, contents.drop_last());
        if i < rest.len() {
            law_jumped_page_is_done(s, path, contents.drop_last(), i);
        } else {
            lemma_jobs_left(t, contents.drop_last());
            let before = after_all(t, contents.drop_last());
            let p = before.relpath;
            assert(before.jobs.dom().contains(p));
            assert(t.jobs.dom().contains(p));
            assert(before.jobs[p] == s.jobs[p]);
            assert(p != path);
            assert(s.jobs[p] != s.jobs[path]);
        }
    }
}

/// A file that is known to have something in it begins anew, whatever was read before it.
pub proof fn law_files_begin_anew(
    s: ReaderState,
    path: Seq<char>,
    size: i64,
    chunks: Seq<Seq<u8>>,
)
    requires
        size > 0,
        s.jobs.dom().contains(path),
    ensures
        written(
            s,
            seq![ContentsView::StartOfEntry(path, size)] + chunks.map_values(
                |c: Seq<u8>| ContentsView::DataChunk(c),
            ) + seq![ContentsView::EndOfEntry],
        ) == seq![(s.jobs[path], joined_chunks(chunks))],
{
    let start = seq![ContentsView::StartOfEntry(path, size)];
    let views = chunks.map_values(|c: Seq<u8>| ContentsView::DataChunk(c));
    let all = start + views + seq![ContentsView::EndOfEntry];
    reveal_with_fuel(after_all, 2);
    reveal_with_fuel(written, 2);
    assert(start.drop_last() =~= seq![]);
    lemma_chunks(s, start, chunks);
    assert(all.drop_last() =~= start + views);
    assert(after_all(s, start).data =~= seq![]);
    assert(seq![] + joined_chunks(chunks) =~= joined_chunks(chunks));
    assert(written(s, all) =~= seq![(s.jobs[path], joined_chunks(chunks))]);
}

/// What is no page is read over: nothing is written for it, and the pages that are left stay to be
/// extracted.
pub proof fn law_other_files_are_read_over(
    s: ReaderState,
    path: Seq<char>,
    size: i64,
    chunks: Seq<Seq<u8>>,
)
    requires
        !s.jobs.dom().contains(path),
    ensures
        ({
            let all = seq![ContentsView::StartOfEntry(path, size)] + chunks.map_values(
                |c: Seq<u8>| ContentsView::DataChunk(c),
            ) + seq![ContentsView::EndOfEntry];
            &&& written(s, all).len() == 0
            &&& after_all(s, all).jobs == s.jobs
            &&& after_all(s, all).data.len() == 0
            &&& !after_all(s, all).in_file
        }),
{
    let start = seq![ContentsView::StartOfEntry(path, size)];
    let views = chunks.map_values(|c: Seq<u8>| ContentsView::DataChunk(c));
    let all = start + views + seq![ContentsView::EndOfEntry];
    reveal_with_fuel(after_all, 2);
    reveal_with_fuel(written, 2);
    assert(start.drop_last() =~= seq![]);
    lemma_chunks(s, start, chunks);
    assert(all.drop_last() =~= start + views);
    assert(after_all(s, all).jobs =~= s.jobs);
}

/// Before anything was read there is nothing but pages to extract.
pub proof fn law_nothing_is_read_at_first(jobs: Map<Seq<char>, usize>)
    ensures
        unread_state(jobs).jobs == jobs,
        !unread_state(jobs).in_file,
        unread_state(jobs).data.len() == 0,
{
}

} // verus!
