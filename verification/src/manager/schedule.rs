//! Which work is done next, and for which page.
use vstd::prelude::*;

use crate::com::direction::Direction;
use crate::manager::indices::{
    law_number_round_trip, law_position_round_trip, lemma_absolute_number,
    lemma_places_before_monotone, position_at, positions_down, positions_up, total_places, wrapped, PageIndices,
};
use crate::manager::manager::{page_counts, page_of, Manager, ManagerWork, Settings};
use crate::manager::work::{Work, WorkParams};

verus! {

impl Manager {
    /// Some work, by whether there is also work for the current page.
    pub open spec fn work_of(self, w: ManagerWork, current_work: bool) -> Work {
        let params = WorkParams {
            park_before_scale: current_work,
            jump_downscaling_queue: false,
            extract_early: false,
            target_res: self.target(),
        };
        match w {
            ManagerWork::Current => Work::Finalize(
                self.modes.upscaling,
                WorkParams {
                    park_before_scale: false,
                    jump_downscaling_queue: true,
                    extract_early: true,
                    target_res: self.target(),
                },
            ),
            ManagerWork::Finalize => Work::Finalize(self.modes.upscaling, params),
            ManagerWork::Downscale => Work::Downscale(self.modes.upscaling, params),
            ManagerWork::Load => Work::Load(self.modes.upscaling, params),
            ManagerWork::Upscale => Work::Upscale,
            ManagerWork::Scan => Work::Scan,
        }
    }

    /// The position that some work is done for, and the work.
    pub fn get_work_for_type(&self, w: ManagerWork, current_work: bool) -> (r: (
        Option<PageIndices>,
        Work,
    ))
        ensures
            r.0 == self.position_for(w),
            r.1 == self.work_of(w, current_work),
    {
        let params = WorkParams {
            park_before_scale: current_work,
            jump_downscaling_queue: false,
            extract_early: false,
            target_res: self.target_res(),
        };
        match w {
            ManagerWork::Current => (
                Some(self.current.get()),
                Work::Finalize(
                    self.modes.upscaling,
                    WorkParams {
                        park_before_scale: false,
                        jump_downscaling_queue: true,
                        extract_early: true,
                        target_res: self.target_res(),
                    },
                ),
            ),
            ManagerWork::Finalize => (self.finalize, Work::Finalize(self.modes.upscaling, params)),
            ManagerWork::Downscale => (
                self.downscale,
                Work::Downscale(self.modes.upscaling, params),
            ),
            ManagerWork::Load => (self.load, Work::Load(self.modes.upscaling, params)),
            ManagerWork::Upscale => (self.upscale, Work::Upscale),
            ManagerWork::Scan => (self.scan, Work::Scan),
        }
    }

    /// Whether there is something to do at a position.
    pub open spec fn work_at(self, i: PageIndices, work: Work) -> bool {
        page_of(i) matches Some(p) && self.archives@[i.archive_index()].spec_has_work(p, work)
    }

    fn has_work_at(&self, i: &PageIndices, work: &Work) -> (r: bool)
        requires
            i.valid(self.counts()),
        ensures
            r == self.work_at(*i, *work),
    {
        match i.p() {
            Some(p) => self.archives[i.a().0].has_work(p, work),
            None => false,
        }
    }

    /// Whether there is some work to do.
    pub open spec fn spec_has_work(self, w: ManagerWork) -> bool {
        self.position_for(w) matches Some(i) && self.work_at(i, self.work_of(w, false))
    }

    /// Whether there is some work to do.
    pub fn has_work(&self, w: ManagerWork) -> (r: bool)
        requires
            self.positions_valid(),
        ensures
            r == self.spec_has_work(w),
    {
        let (i, work) = self.get_work_for_type(w, false);
        match i {
            Some(i) => self.has_work_at(&i, &work),
            None => false,
        }
    }

    /// How many pages behind and ahead of the current one some work is done for.
    pub fn get_range(&self, s: &Settings, w: ManagerWork) -> (r: (usize, usize))
        requires
            !(w is Current),
        ensures
            r.0 == s.behind(),
            r.1 == self.ahead(*s, w),
            s.preload_behind <= isize::MAX ==> r.0 == s.preload_behind,
            s.preload_behind > isize::MAX ==> r.0 == isize::MAX + 1,
            r.1 <= isize::MAX,
            r.1 >= self.preload_ahead || r.1 == isize::MAX,
            w is Upscale ==> r.1 >= s.prescale || r.1 == isize::MAX,
            w is Upscale ==> r.1 <= s.prescale || r.1 <= self.preload_ahead,
            !(w is Upscale) ==> r.1 <= self.preload_ahead,
    {
        let limit: usize = isize::MAX as usize;
        let behind: usize = if s.preload_behind <= limit {
            s.preload_behind
        } else {
            limit + 1
        };
        let upscale: bool = match w {
            ManagerWork::Upscale => true,
            _ => false,
        };
        let pages: usize = if upscale && s.prescale > self.preload_ahead {
            s.prescale
        } else {
            self.preload_ahead
        };
        let ahead: usize = if pages <= limit {
            pages
        } else {
            limit
        };
        (behind, ahead)
    }

    /// The positions that are looked at for some work, from the one that it was done for.
    pub open spec fn candidates(self, s: Settings, w: ManagerWork, i: PageIndices) -> Seq<
        PageIndices,
    > {
        wrapped(
            self.counts(),
            self.current.first().number(self.counts()),
            self.range_start(s),
            self.range_end(s, w),
            i.number(self.counts()),
        )
    }

    /// The first of several positions where there is something to do.
    pub open spec fn first_with_work(self, v: Seq<PageIndices>, work: Work) -> Option<PageIndices>
        decreases v.len(),
    {
        if v.len() == 0 {
            None
        } else if self.work_at(v[0], work) {
            Some(v[0])
        } else {
            self.first_with_work(v.skip(1), work)
        }
    }

    /// The position that some work is done for next.
    pub open spec fn next_position(self, s: Settings, w: ManagerWork) -> Option<PageIndices> {
        match self.position_for(w) {
            None => None,
            Some(i) => if self.work_at(i, self.work_of(w, false)) {
                Some(i)
            } else {
                self.first_with_work(self.candidates(s, w, i), self.work_of(w, false))
            },
        }
    }

    /// The position that some work is done for next.
    fn find_position(&self, s: &Settings, w: ManagerWork) -> (r: Option<PageIndices>)
        requires
            self.wf(*s),
            !(w is Current),
        ensures
            r == self.next_position(*s, w),
            r matches Some(i) ==> i.valid(self.counts()) && self.range_start(*s) <= i.number(
                self.counts(),
            ) <= self.range_end(*s, w),
    {
        let (i, work) = self.get_work_for_type(w, false);
        let i = match i {
            Some(i) => i,
            None => return None,
        };
        if self.has_work_at(&i, &work) {
            return Some(i);
        }
        let (behind, ahead) = self.get_range(s, w);
        let c = self.current.get();
        let counts = page_counts(&self.archives);
        let v: Vec<PageIndices> = if self.modes.manga {
            c.wrapping_range(behind, ahead, &i, counts.as_slice())
        } else {
            c.wrapping_range_in_archive(behind, ahead, &i, counts.as_slice())
        };
        let ghost all = self.candidates(*s, w, i);
        assert(v@ == all);
        let n: usize = counts.len();
        proof {
            assert(self.counts().len() == n);
            self.lemma_candidates(*s, w, i);
        }
        let mut k: usize = 0;
        assert(all.skip(0) =~= all);
        while k < v.len()
            invariant
                k <= v@.len(),
                v@ == all,
                forall|j: int|
                    0 <= j < all.len() ==> (#[trigger] all[j]).valid(self.counts())
                        && self.range_start(*s) <= all[j].number(self.counts()) <= self.range_end(
                        *s,
                        w,
                    ),
                self.next_position(*s, w) == self.first_with_work(all.skip(k as int), work),
            decreases v.len() - k,
        {
            assert(all[k as int].valid(self.counts()));
            if self.has_work_at(&v[k], &work) {
                return Some(v[k]);
            }
            k += 1;
            assert(all.skip(k - 1).skip(1) =~= all.skip(k as int));
        }
        None
    }

    /// The range for some work goes from the current position on both sides.
    pub proof fn lemma_range(self, s: Settings, w: ManagerWork)
        requires
            self.archives_wf(),
            self.current.valid(self.counts()),
            self.counts().len() <= usize::MAX,
        ensures
            self.range_start(s) <= self.current.first().number(self.counts()) <= self.range_end(
                s,
                w,
            ),
            self.range_end(s, w) < total_places(self.counts()),
    {
        let c = self.current.first();
        let counts = self.counts();
        law_number_round_trip(counts, c);
        if !self.modes.manga {
            lemma_absolute_number(
                counts,
                c,
                if c.page_index() >= s.behind() {
                    (c.page_index() - s.behind()) as nat
                } else {
                    0
                },
            );
            lemma_absolute_number(counts, c, (c.page_index() + self.ahead(s, w)) as nat);
            law_number_round_trip(
                counts,
                c.moved_in_archive(counts, Direction::Forwards, self.ahead(s, w)),
            );
        }
    }

    /// All positions that are looked at for some work are there, and in the range for it.
    proof fn lemma_candidates(self, s: Settings, w: ManagerWork, i: PageIndices)
        requires
            self.wf(s),
            self.counts().len() <= usize::MAX,
            i.valid(self.counts()),
            self.range_start(s) <= i.number(self.counts()) <= self.range_end(s, w),
        ensures
            forall|j: int|
                0 <= j < self.candidates(s, w, i).len() ==> (#[trigger] self.candidates(
                    s,
                    w,
                    i,
                )[j]).valid(self.counts()) && self.range_start(s) <= self.candidates(
                    s,
                    w,
                    i,
                )[j].number(self.counts()) <= self.range_end(s, w),
    {
        self.lemma_range(s, w);
        let counts = self.counts();
        let (start, end) = (self.range_start(s), self.range_end(s, w));
        let center = self.current.first().number(counts);
        let all = self.candidates(s, w, i);
        let up = positions_up(counts, i.number(counts), end);
        let down = positions_down(counts, center, start);
        assert forall|j: int| 0 <= j < all.len() implies (#[trigger] all[j]).valid(counts) && start
            <= all[j].number(counts) <= end by {
            if j < up.len() {
                let n = (i.number(counts) + j) as nat;
                assert(all[j] == position_at(counts, n));
                law_position_round_trip(counts, n);
            } else {
                let n = (center - 1 - (j - up.len())) as nat;
                assert(all[j] == down[j - up.len()]);
                assert(all[j] == position_at(counts, n));
                law_position_round_trip(counts, n);
            }
        }
    }

    /// Finds the positions that work is done for next.
    pub fn find_next_work(&mut self, s: &Settings)
        requires
            old(self).wf(*s),
        ensures
            final(self).wf(*s),
            *final(self) == (Manager {
                finalize: old(self).next_position(*s, ManagerWork::Finalize),
                downscale: old(self).next_position(*s, ManagerWork::Downscale),
                load: old(self).next_position(*s, ManagerWork::Load),
                upscale: old(self).next_position(*s, ManagerWork::Upscale),
                scan: old(self).next_position(*s, ManagerWork::Scan),
                ..*old(self)
            }),
    {
        let finalize = self.find_position(s, ManagerWork::Finalize);
        let downscale = self.find_position(s, ManagerWork::Downscale);
        let load = self.find_position(s, ManagerWork::Load);
        let upscale = self.find_position(s, ManagerWork::Upscale);
        let scan = self.find_position(s, ManagerWork::Scan);
        self.finalize = finalize;
        self.downscale = downscale;
        self.load = load;
        self.upscale = upscale;
        self.scan = scan;
    }
}

/// Pages are upscaled as far ahead as the settings ask for, and no less far than they are loaded.
/// Everything else is done as far ahead as pages are loaded. No distance is beyond the greatest that
/// can be counted.
pub proof fn law_distance_ahead(m: Manager, s: Settings, w: ManagerWork)
    ensures
        m.ahead(s, w) <= isize::MAX,
        m.preload_ahead <= isize::MAX ==> m.ahead(s, w) >= m.preload_ahead,
        m.preload_ahead > isize::MAX ==> m.ahead(s, w) == isize::MAX,
        !(w is Upscale) && m.preload_ahead <= isize::MAX ==> m.ahead(s, w) == m.preload_ahead,
        w is Upscale && s.prescale <= isize::MAX ==> m.ahead(s, w) >= s.prescale,
        w is Upscale && s.prescale > isize::MAX ==> m.ahead(s, w) == isize::MAX,
        w is Upscale && s.prescale <= isize::MAX && m.preload_ahead <= isize::MAX ==> m.ahead(s, w)
            == s.prescale || m.ahead(s, w) == m.preload_ahead,
        s.preload_behind <= isize::MAX ==> s.behind() == s.preload_behind,
        s.preload_behind > isize::MAX ==> s.behind() == isize::MAX + 1,
{
}

/// Outside of manga mode work is done for the pages of the current archive that are no further from
/// the current page than the settings say, and for no others. In manga mode the same is said of the
/// places of the whole queue.
pub proof fn law_pages_that_are_worked_on(m: Manager, s: Settings, w: ManagerWork, i: PageIndices)
    requires
        m.archives_wf(),
        m.current.valid(m.counts()),
        m.counts().len() <= usize::MAX,
        i.valid(m.counts()),
        m.preload_ahead <= isize::MAX,
        s.preload_behind <= isize::MAX,
        s.prescale <= isize::MAX,
    ensures
        ({
            let c = m.current.first();
            let farthest = if w is Upscale && s.prescale >= m.preload_ahead {
                s.prescale
            } else {
                m.preload_ahead
            };
            let inside = m.range_start(s) <= i.number(m.counts()) <= m.range_end(s, w);
            if m.modes.manga {
                inside <==> c.number(m.counts()) - s.preload_behind <= i.number(m.counts())
                    <= c.number(m.counts()) + farthest
            } else {
                inside <==> i.archive_index() == c.archive_index() && c.page_index()
                    - s.preload_behind <= i.page_index() <= c.page_index() + farthest
            }
        }),
{
    let c = m.current.first();
    let counts = m.counts();
    law_number_round_trip(counts, c);
    law_number_round_trip(counts, i);
    if !m.modes.manga {
        let a = c.archive_index();
        let b = i.archive_index();
        lemma_absolute_number(
            counts,
            c,
            if c.page_index() >= s.behind() {
                (c.page_index() - s.behind()) as nat
            } else {
                0
            },
        );
        lemma_absolute_number(counts, c, (c.page_index() + m.ahead(s, w)) as nat);
        if a < b {
            lemma_places_before_monotone(counts, a, b);
        } else if b < a {
            lemma_places_before_monotone(counts, b, a);
        }
    }
}

/// Work is done for what lies ahead before it is done for what lies behind, and in both directions
/// for nearer pages first: nothing that comes before the position that is found has work left.
pub proof fn law_nearer_pages_first(m: Manager, s: Settings, w: ManagerWork, k: nat)
    requires
        m.wf(s),
        m.counts().len() <= usize::MAX,
        !(w is Current),
        m.position_for(w) is Some,
        m.next_position(s, w) is Some,
        ({
            let from = m.position_for(w)->0.number(m.counts());
            let found = m.next_position(s, w)->0.number(m.counts());
            let center = m.current.first().number(m.counts());
            ||| from <= k < found
            ||| found < from && from <= k <= m.range_end(s, w)
            ||| found < from && found < k < center
        }),
    ensures
        !m.work_at(position_at(m.counts(), k), m.work_of(w, false)),
{
    let work = m.work_of(w, false);
    let i = m.position_for(w)->0;
    let found = m.next_position(s, w)->0;
    let all = m.candidates(s, w, i);
    let counts = m.counts();
    let center = m.current.first().number(counts);
    let up = positions_up(counts, i.number(counts), m.range_end(s, w));
    m.lemma_range(s, w);
    law_number_round_trip(counts, i);
    if m.work_at(i, work) {
        assert(found == i);
    } else {
        let j = m.lemma_first_found(all, work);
        m.lemma_candidates(s, w, i);
        if j < up.len() {
            let n = (i.number(counts) + j) as nat;
            assert(all[j] == position_at(counts, n));
            law_position_round_trip(counts, n);
            assert(all[k - i.number(counts)] == position_at(counts, k));
        } else {
            let n = (center - 1 - (j - up.len())) as nat;
            assert(all[j] == position_at(counts, n));
            law_position_round_trip(counts, n);
            if i.number(counts) <= k <= m.range_end(s, w) {
                assert(all[k - i.number(counts)] == position_at(counts, k));
            } else {
                let l = up.len() + (center - 1 - k);
                assert(all[l] == position_at(counts, k));
            }
        }
    }
}

/// Only the work for the current page is done before that for others, and it never waits. The rest
/// waits before it scales as long as there is work for the current page. Pages are upscaled and
/// fitted as the modes say.
pub proof fn law_current_page_goes_first(m: Manager, w: ManagerWork, current_work: bool)
    ensures
        m.work_of(w, current_work) is Scan <==> w is Scan,
        m.work_of(w, current_work) is Upscale <==> w is Upscale,
        m.work_of(w, current_work) is Load <==> w is Load,
        m.work_of(w, current_work) is Downscale <==> w is Downscale,
        match m.work_of(w, current_work) {
            Work::Finalize(u, p) | Work::Downscale(u, p) | Work::Load(u, p) => {
                &&& u == m.modes.upscaling
                &&& p.extract_early == (w is Current)
                &&& p.jump_downscaling_queue == (w is Current)
                &&& p.park_before_scale == (current_work && !(w is Current))
                &&& p.target_res.res == m.target_res
                &&& p.target_res.fit == m.modes.fit
                &&& p.target_res.half_width == (m.modes.display is DualPage || m.modes.display
                    is DualPageReversed)
            },
            _ => true,
        },
{
}

/// Wherever a position is found for some work, there is something to do, and nothing is left to do
/// in the range where none is found.
pub proof fn law_work_is_found(m: Manager, s: Settings, w: ManagerWork, k: nat)
    requires
        m.wf(s),
        m.counts().len() <= usize::MAX,
        !(w is Current),
        m.position_for(w) is Some,
        m.range_start(s) <= k <= m.range_end(s, w),
        k < m.current.first().number(m.counts()) || m.position_for(w)->0.number(m.counts()) <= k,
    ensures
        m.next_position(s, w) matches Some(i) ==> m.work_at(i, m.work_of(w, false)),
        m.next_position(s, w) is None ==> !m.work_at(
            position_at(m.counts(), k),
            m.work_of(w, false),
        ),
{
    let work = m.work_of(w, false);
    let i = m.position_for(w)->0;
    let all = m.candidates(s, w, i);
    let counts = m.counts();
    let center = m.current.first().number(counts);
    m.lemma_range(s, w);
    m.lemma_first_with_work(all, work);
    if m.next_position(s, w) is None {
        let up = positions_up(counts, i.number(counts), m.range_end(s, w));
        if k < center {
            let j = up.len() + (center - 1 - k);
            assert(all[j] == position_at(counts, k));
        } else {
            let j = k - i.number(counts);
            assert(all[j] == position_at(counts, k));
        }
    }
}

impl Manager {
    proof fn lemma_first_found(self, v: Seq<PageIndices>, work: Work) -> (j: int)
        requires
            self.first_with_work(v, work) is Some,
        ensures
            0 <= j < v.len(),
            v[j] == self.first_with_work(v, work)->0,
            forall|l: int| 0 <= l < j ==> !self.work_at(#[trigger] v[l], work),
        decreases v.len(),
    {
        if self.work_at(v[0], work) {
            0
        } else {
            let t = v.skip(1);
            let j = self.lemma_first_found(t, work);
            assert forall|l: int| 0 <= l < j + 1 implies !self.work_at(#[trigger] v[l], work) by {
                if l > 0 {
                    assert(v[l] == t[l - 1]);
                }
            }
            j + 1
        }
    }

    proof fn lemma_first_with_work(self, v: Seq<PageIndices>, work: Work)
        ensures
            self.first_with_work(v, work) matches Some(i) ==> self.work_at(i, work),
            self.first_with_work(v, work) is None ==> forall|j: int|
                0 <= j < v.len() ==> !self.work_at(#[trigger] v[j], work),
        decreases v.len(),
    {
        if v.len() > 0 {
            self.lemma_first_with_work(v.skip(1), work);
            assert forall|j: int| 0 <= j < v.len() && self.first_with_work(v, work) is None implies !self.work_at(
                #[trigger] v[j],
                work,
            ) by {
                if j > 0 {
                    assert(v[j] == v.skip(1)[j - 1]);
                }
            }
        }
    }
}

} // verus!
