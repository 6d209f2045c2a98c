//! Archives that are opened before and after others, and closed when they are not needed.
use vstd::prelude::*;

use crate::com::direction::Direction;
use crate::manager::archive::Archive;
use crate::manager::current::CurrentIndices;
use crate::manager::files::{is_supported_page_extension, page_path};
use crate::manager::indices::{
    law_number_round_trip, law_order, law_position_round_trip, law_prepended_archive,
    lemma_appended_range, lemma_prepended_archive_range, lemma_prepended_range, Indices,
    PageIndices, AI, PI,
};
use crate::manager::manager::{page_counts, valid_if_any, Manager, ManagerWork, Settings};

verus! {

/// Whether a position, if it is one, is that of the same page of an archive with another number.
pub open spec fn shifted_if_any(a: Option<PageIndices>, b: Option<PageIndices>, by: int) -> bool {
    match (a, b) {
        (Some(x), Some(y)) => x.shifted(y, by),
        (None, None) => true,
        _ => false,
    }
}

fn increment_if_any(i: &mut Option<PageIndices>)
    requires
        *old(i) matches Some(x) ==> x.archive_index() < usize::MAX,
    ensures
        shifted_if_any(*old(i), *final(i), 1),
{
    if let Some(x) = i {
        x.increment_archive();
    }
}

fn decrement_if_any(i: &mut Option<PageIndices>)
    requires
        *old(i) matches Some(x) ==> x.archive_index() > 0,
    ensures
        shifted_if_any(*old(i), *final(i), -1),
{
    if let Some(x) = i {
        x.decrement_archive();
    }
}

impl Manager {
    /// Whether all positions are those of the same pages of archives with other numbers, and
    /// nothing else but the archives has changed.
    pub open spec fn renumbered(self, other: Manager, by: int) -> bool {
        &&& self.current.shifted(other.current, by)
        &&& shifted_if_any(self.finalize, other.finalize, by)
        &&& shifted_if_any(self.downscale, other.downscale, by)
        &&& shifted_if_any(self.load, other.load, by)
        &&& shifted_if_any(self.upscale, other.upscale, by)
        &&& shifted_if_any(self.scan, other.scan, by)
        &&& other == (Manager {
            archives: other.archives,
            current: other.current,
            finalize: other.finalize,
            downscale: other.downscale,
            load: other.load,
            upscale: other.upscale,
            scan: other.scan,
            ..self
        })
    }

    /// Whether some number is less than those of all archives of positions.
    pub open spec fn archives_above(self, n: int) -> bool {
        &&& self.current.first().archive_index() > n
        &&& self.current.last().archive_index() > n
        &&& self.finalize matches Some(i) ==> i.archive_index() > n
        &&& self.downscale matches Some(i) ==> i.archive_index() > n
        &&& self.load matches Some(i) ==> i.archive_index() > n
        &&& self.upscale matches Some(i) ==> i.archive_index() > n
        &&& self.scan matches Some(i) ==> i.archive_index() > n
    }

    /// An archive was added at the front.
    fn increment_archive_indices(&mut self, Ghost(len): Ghost<int>)
        requires
            old(self).current.first().archive_index() < len,
            old(self).current.last().archive_index() < len,
            old(self).finalize matches Some(i) ==> i.archive_index() < len,
            old(self).downscale matches Some(i) ==> i.archive_index() < len,
            old(self).load matches Some(i) ==> i.archive_index() < len,
            old(self).upscale matches Some(i) ==> i.archive_index() < len,
            old(self).scan matches Some(i) ==> i.archive_index() < len,
            len <= usize::MAX,
        ensures
            old(self).renumbered(*final(self), 1),
            final(self).archives == old(self).archives,
    {
        self.current.increment_archive();
        increment_if_any(&mut self.finalize);
        increment_if_any(&mut self.downscale);
        increment_if_any(&mut self.load);
        increment_if_any(&mut self.scan);
        increment_if_any(&mut self.upscale);
    }

    /// An archive was removed from the front.
    fn decrement_archive_indices(&mut self)
        requires
            old(self).archives_above(0),
        ensures
            old(self).renumbered(*final(self), -1),
            final(self).archives == old(self).archives,
    {
        self.current.decrement_archive();
        decrement_if_any(&mut self.finalize);
        decrement_if_any(&mut self.downscale);
        decrement_if_any(&mut self.load);
        decrement_if_any(&mut self.scan);
        decrement_if_any(&mut self.upscale);
    }

    /// Positions are where they were when an archive is put after all others.
    proof fn lemma_appended(self, m: Manager, s: Settings, a: Archive, w: ManagerWork)
        requires
            self.wf(s),
            m.archives@ == self.archives@.push(a),
            m == (Manager { archives: m.archives, ..self }),
            !(w is Current),
            valid_if_any(self.position_for(w), self.counts()),
            self.in_range(s, w),
        ensures
            m.current.valid(m.counts()),
            valid_if_any(m.position_for(w), m.counts()),
            m.in_range(s, w),
    {
        let count = a.pages@.len() as usize;
        let old = self.counts();
        let new = m.counts();
        assert(new =~= old.push(count));
        let c = self.current.first();
        lemma_appended_range(old, count, c, self.current.last(), 0, 0);
        if let Some(i) = self.position_for(w) {
            lemma_appended_range(old, count, c, i, s.behind(), self.ahead(s, w));
        }
    }

    /// Positions keep their distance when an archive is put before all others.
    proof fn lemma_prepended(self, m: Manager, s: Settings, a: Archive, w: ManagerWork)
        requires
            self.wf(s),
            m.archives@ == seq![a] + self.archives@,
            self.renumbered(m, 1),
            !(w is Current),
            valid_if_any(self.position_for(w), self.counts()),
            self.in_range(s, w),
        ensures
            m.current.valid(m.counts()),
            valid_if_any(m.position_for(w), m.counts()),
            m.in_range(s, w),
    {
        let count = a.pages@.len() as usize;
        let old = self.counts();
        let new = m.counts();
        assert(new =~= seq![count] + old);
        let c = self.current.first();
        let d = m.current.first();
        law_prepended_archive(old, count, c, d);
        law_prepended_archive(old, count, self.current.last(), m.current.last());
        if let Some(i) = self.position_for(w) {
            let j = m.position_for(w)->0;
            if self.modes.manga {
                lemma_prepended_range(old, count, c, d, i, j, s.behind(), self.ahead(s, w));
            } else {
                lemma_prepended_archive_range(
                    old,
                    count,
                    c,
                    d,
                    i,
                    j,
                    s.behind(),
                    self.ahead(s, w),
                );
            }
        }
    }

    /// Puts an archive after or before all others.
    pub fn add_archive(&mut self, s: &Settings, a: Archive, d: Direction)
        requires
            old(self).wf(*s),
            a.wf(),
            !(d is Absolute),
            old(self).archives@.len() < usize::MAX,
        ensures
            final(self).wf(*s),
            d is Forwards ==> final(self).archives@ == old(self).archives@.push(a) && *final(self)
                == old(self).with_archives(final(self).archives),
            d is Backwards ==> final(self).archives@ == seq![a] + old(self).archives@ && old(
                self,
            ).renumbered(*final(self), 1),
    {
        let ghost before = *self;
        match d {
            Direction::Forwards => {
                self.archives.push(a);
                proof {
                    assert(before.counts().len() < usize::MAX);
                    before.lemma_appended(*self, *s, a, ManagerWork::Finalize);
                    before.lemma_appended(*self, *s, a, ManagerWork::Downscale);
                    before.lemma_appended(*self, *s, a, ManagerWork::Load);
                    before.lemma_appended(*self, *s, a, ManagerWork::Upscale);
                    before.lemma_appended(*self, *s, a, ManagerWork::Scan);
                }
            },
            _ => {
                self.archives.insert(0, a);
                assert(self.archives@ =~= seq![a] + before.archives@);
                let ghost len = before.archives@.len() as int;
                assert(before.counts().len() == len);
                self.increment_archive_indices(Ghost(len));
                proof {
                    before.lemma_prepended(*self, *s, a, ManagerWork::Finalize);
                    before.lemma_prepended(*self, *s, a, ManagerWork::Downscale);
                    before.lemma_prepended(*self, *s, a, ManagerWork::Load);
                    before.lemma_prepended(*self, *s, a, ManagerWork::Upscale);
                    before.lemma_prepended(*self, *s, a, ManagerWork::Scan);
                    assert forall|i: int| 0 <= i < self.archives@.len() implies (
                    #[trigger] self.archives@[i]).wf() by {
                        if i > 0 {
                            assert(self.archives@[i] == before.archives@[i - 1]);
                        }
                    }
                }
            },
        }
    }

    /// The numbers of the first and of the last archive that are kept open.
    pub open spec fn kept_archives(self, s: Settings) -> (int, int) {
        let c = self.current.first();
        (
            c.moved_clamped(self.counts(), Direction::Backwards, s.behind()).archive_index(),
            c.moved_clamped(
                self.counts(),
                Direction::Forwards,
                self.ahead(s, self.widest_work()),
            ).archive_index(),
        )
    }
}

impl Manager {
    /// The archives of the current page are among those that are kept open.
    proof fn lemma_kept_archives(self, s: Settings)
        requires
            self.archives_wf(),
            self.current.valid(self.counts()),
            self.counts().len() <= usize::MAX,
        ensures
            0 <= self.kept_archives(s).0 <= self.current.first().archive_index()
                <= self.kept_archives(s).1 < self.archives@.len(),
    {
        let c = self.current.first();
        let counts = self.counts();
        let ahead = self.ahead(s, self.widest_work());
        law_number_round_trip(counts, c);
        law_position_round_trip(counts, c.earlier_number(counts, s.behind()));
        law_position_round_trip(counts, c.later_number(counts, ahead));
        let first = c.moved_clamped(counts, Direction::Backwards, s.behind());
        let last = c.moved_clamped(counts, Direction::Forwards, ahead);
        law_order(counts, c, first);
        law_order(counts, last, c);
    }

    /// Closes some archives at the front.
    fn close_front(&mut self, n: usize) -> (closed: Vec<Archive>)
        requires
            n <= old(self).archives@.len(),
            old(self).archives_above(n - 1),
        ensures
            closed@ == old(self).archives@.take(n as int),
            final(self).archives@ == old(self).archives@.skip(n as int),
            old(self).renumbered(*final(self), -(n as int)),
    {
        let ghost before = *self;
        let ghost all = self.archives@;
        let mut closed: Vec<Archive> = Vec::new();
        let mut k: usize = 0;
        assert(all.skip(0) =~= all);
        assert(all.take(0) =~= closed@);
        while k < n
            invariant
                k <= n <= all.len(),
                before.archives_above(n - 1),
                before.renumbered(*self, -(k as int)),
                self.archives@ == all.skip(k as int),
                closed@ == all.take(k as int),
            decreases n - k,
        {
            let a = self.archives.remove(0);
            closed.push(a);
            proof {
                assert(all.skip(k as int).remove(0) =~= all.skip(k + 1));
                assert(all.take(k as int).push(all[k as int]) =~= all.take(k + 1));
            }
            self.decrement_archive_indices();
            k += 1;
        }
        closed
    }

    /// Closes archives at the back until some are left.
    fn close_back(&mut self, keep: usize, closed: &mut Vec<Archive>)
        requires
            keep <= old(self).archives@.len(),
        ensures
            final(self).archives@ == old(self).archives@.take(keep as int),
            *final(self) == old(self).with_archives(final(self).archives),
            final(closed)@ == old(closed)@ + old(self).archives@.skip(keep as int).reverse(),
    {
        let ghost before = *self;
        let ghost rest = self.archives@;
        let ghost front = closed@;
        assert(rest.take(rest.len() as int) =~= rest);
        assert(front =~= front + rest.skip(rest.len() as int).reverse());
        while self.archives.len() > keep
            invariant
                keep <= self.archives@.len() <= rest.len(),
                self.archives@ == rest.take(self.archives@.len() as int),
                *self == before.with_archives(self.archives),
                closed@ == front + rest.skip(self.archives@.len() as int).reverse(),
            decreases self.archives.len(),
        {
            let ghost n = self.archives@.len() as int;
            let a = self.archives.pop().unwrap();
            closed.push(a);
            proof {
                assert(rest.skip(n - 1).reverse() =~= rest.skip(n).reverse().push(rest[n - 1]));
                assert(closed@ =~= front + rest.skip(n - 1).reverse());
                assert(self.archives@ =~= rest.take(n - 1));
            }
        }
    }

    /// Closes the archives that no page is wanted of: those before the ones that are kept open, in
    /// their order, then those after them, the last one first.
    #[verifier::spinoff_prover]
    pub fn cleanup_unused_archives(&mut self, s: &Settings) -> (closed: Vec<Archive>)
        requires
            old(self).wf(*s),
            *old(self) == old(self).reset(),
            old(self).current.last() == old(self).current.first(),
        ensures
            final(self).wf(*s),
            *final(self) == final(self).reset(),
            old(self).renumbered(*final(self), -old(self).kept_archives(*s).0),
            final(self).archives@ == old(self).archives@.subrange(
                old(self).kept_archives(*s).0,
                old(self).kept_archives(*s).1 + 1,
            ),
            closed@ == old(self).archives@.take(old(self).kept_archives(*s).0) + old(
                self,
            ).archives@.skip(old(self).kept_archives(*s).1 + 1).reverse(),
    {
        let ghost before = *self;
        let counts = page_counts(&self.archives);
        let (behind, ahead) = self.widest_range(s);
        let c = self.current.get();
        let start: usize = c.move_clamped(Direction::Backwards, behind, counts.as_slice()).a().0;
        let end: usize = c.move_clamped(Direction::Forwards, ahead, counts.as_slice()).a().0;
        let len: usize = self.archives.len();
        proof {
            assert(self.counts().len() == len);
            self.lemma_kept_archives(*s);
        }
        let mut closed = self.close_front(start);
        let ghost middle = *self;
        let keep: usize = end - start + 1;
        self.close_back(keep, &mut closed);
        proof {
            let all = before.archives@;
            assert(self.archives@ =~= all.subrange(start as int, end + 1));
            assert(all.skip(start as int).skip(keep as int) =~= all.skip(end + 1));
            assert(self.counts().len() <= usize::MAX);
            let i = before.current.first();
            let j = self.current.first();
            assert(self.counts()[j.archive_index()] == before.counts()[i.archive_index()]);
            self.lemma_reset(*s);
            assert(self.finalize == Some(j));
            assert(*self == self.reset());
        }
        closed
    }

    /// Finishes a move: closes archives and adjusts the current pages to the mode.
    pub fn finish_move(&mut self, s: &Settings) -> (closed: Vec<Archive>)
        requires
            old(self).wf(*s),
            *old(self) == old(self).reset(),
            old(self).current.last() == old(self).current.first(),
        ensures
            final(self).wf(*s),
            closed@ == old(self).archives@.take(old(self).kept_archives(*s).0) + old(
                self,
            ).archives@.skip(old(self).kept_archives(*s).1 + 1).reverse(),
            final(self).archives@ == old(self).archives@.subrange(
                old(self).kept_archives(*s).0,
                old(self).kept_archives(*s).1 + 1,
            ),
            exists|m: Manager| #[trigger]
                old(self).renumbered(m, -old(self).kept_archives(*s).0) && m.archives@ == final(self).archives@ && *final(self) == (Manager { current: m.adjusted(), ..m }),
    {
        let closed = self.cleanup_unused_archives(s);
        let ghost m = *self;
        self.adjust_current_for_dual_page();
        closed
    }

    /// Replaces all archives by another one, at one of its pages.
    pub fn replace_archives(&mut self, s: &Settings, a: Archive, p: Option<usize>) -> (closed: Vec<
        Archive,
    >)
        requires
            old(self).wf(*s),
            a.wf(),
            match p {
                Some(p) => p < a.pages@.len(),
                None => a.pages@.len() == 0,
            },
        ensures
            final(self).wf(*s),
            closed@ == old(self).archives@,
            final(self).archives@ == seq![a],
            exists|m: Manager|
                {
                    &&& #[trigger] m.archives@ == seq![a]
                    &&& m == (Manager { archives: m.archives, current: m.current, ..*old(self) })
                    &&& m.current == CurrentIndices::Single(
                        PageIndices {
                            indices: match p {
                                Some(p) => Indices::Normal(AI(0), PI(p)),
                                None => Indices::Empty(AI(0)),
                            },
                        },
                    )
                    &&& *final(self) == (Manager { current: m.adjusted(), ..m }).reset()
                },
    {
        let mut closed: Vec<Archive> = Vec::new();
        closed.append(&mut self.archives);
        let count: usize = a.page_count();
        self.archives.push(a);
        let counts = page_counts(&self.archives);
        assert(self.archives@ =~= seq![a]);
        assert(counts@[0] == count);
        self.current = CurrentIndices::Single(PageIndices::new(0, p, counts.as_slice()));
        let ghost m = *self;
        self.adjust_current_for_dual_page();
        proof {
            assert(m.archives@ == seq![a]);
            self.lemma_reset(*s);
        }
        self.reset_indices();
        closed
    }
}

/// What to open files that the user chose as.
#[derive(Clone, Copy, Debug, PartialEq, Eq, Structural)]
pub enum OpenFiles {
    FileSet,
    Archive,
    /// Several archives, which is not supported.
    Unsupported,
}

/// What to open files that the user chose as: pages as a set, anything else alone.
pub fn open_files(files: &Vec<String>, pixbuf: &Vec<String>) -> (r: OpenFiles)
    ensures
        r == if files@.len() == 0 || page_path(files@[0]@, pixbuf@) {
            OpenFiles::FileSet
        } else if files@.len() == 1 {
            OpenFiles::Archive
        } else {
            OpenFiles::Unsupported
        },
{
    if files.len() == 0 || is_supported_page_extension(files[0].as_str(), pixbuf) {
        OpenFiles::FileSet
    } else if files.len() == 1 {
        OpenFiles::Archive
    } else {
        OpenFiles::Unsupported
    }
}

impl OpenFiles {
    /// What to tell the user where files cannot be opened.
    pub fn error(self) -> (r: Option<&'static str>)
        ensures
            match r {
                Some(e) => self is Unsupported && e@
                    == "Opening multiple archives is unsupported"@,
                None => !(self is Unsupported),
            },
    {
        match self {
            OpenFiles::Unsupported => Some("Opening multiple archives is unsupported"),
            OpenFiles::FileSet | OpenFiles::Archive => None,
        }
    }
}

/// When archives get other numbers, everything stays at the page that it was at: the current pages
/// and those that work was done for last.
pub proof fn law_renumbering_keeps_pages(m: Manager, n: Manager, by: int)
    requires
        m.renumbered(n, by),
    ensures
        n.current.first().archive_index() == m.current.first().archive_index() + by,
        n.current.first().page_index() == m.current.first().page_index(),
        n.current.last().archive_index() == m.current.last().archive_index() + by,
        n.current.last().page_index() == m.current.last().page_index(),
        match (m.scan, n.scan) {
            (Some(a), Some(b)) => b.archive_index() == a.archive_index() + by && b.page_index()
                == a.page_index(),
            (None, None) => true,
            _ => false,
        },
        match (m.load, n.load) {
            (Some(a), Some(b)) => b.archive_index() == a.archive_index() + by && b.page_index()
                == a.page_index(),
            (None, None) => true,
            _ => false,
        },
        match (m.upscale, n.upscale) {
            (Some(a), Some(b)) => b.archive_index() == a.archive_index() + by && b.page_index()
                == a.page_index(),
            (None, None) => true,
            _ => false,
        },
        match (m.downscale, n.downscale) {
            (Some(a), Some(b)) => b.archive_index() == a.archive_index() + by && b.page_index()
                == a.page_index(),
            (None, None) => true,
            _ => false,
        },
        match (m.finalize, n.finalize) {
            (Some(a), Some(b)) => b.archive_index() == a.archive_index() + by && b.page_index()
                == a.page_index(),
            (None, None) => true,
            _ => false,
        },
        n.modes == m.modes,
{
}

} // verus!
