//! What is done to the current page and to the pages around it when something has changed.
use vstd::prelude::*;

use crate::com::content::OffscreenContent;
use crate::com::direction::Direction;
use crate::com::mode::DisplayMode;
use crate::com::one_or_two::OneOrTwo;
use crate::manager::archive::Archive;
use crate::manager::contents::{dim, preload_change, scroll_dim, PreloadRangeChange};
use crate::manager::current::CurrentIndices;
use crate::manager::indices::{
    law_display_pages_follow, law_number_round_trip, law_position_round_trip, position_at,
    positions_up, total_places, PageIndices,
};
use crate::manager::manager::{
    counts_of, lemma_view_layout, page_counts, page_of, Manager, ManagerWork, Settings,
};
use crate::manager::page::page::{Page, PageState};
use crate::manager::page::scanned::Cancels;
use crate::manager::work::Completion;

verus! {

/// Whether a page is as it was, or was let go of.
pub open spec fn page_after(before: Page, after: Page, let_go: bool) -> bool {
    if let_go {
        after.same_file(before) && before.unloaded_as(after.state)
    } else {
        after == before
    }
}

/// Whether archives are as they were but for pages that were let go of.
pub open spec fn archives_after(
    before: Seq<Archive>,
    after: Seq<Archive>,
    let_go: Seq<PageIndices>,
) -> bool {
    &&& after.len() == before.len()
    &&& forall|a: int|
        #![trigger after[a]]
        0 <= a < after.len() ==> {
            &&& after[a].name == before[a].name
            &&& after[a].path == before[a].path
            &&& after[a].kind == before[a].kind
            &&& after[a].id == before[a].id
            &&& after[a].pages@.len() == before[a].pages@.len()
            &&& forall|p: int|
                #![trigger after[a].pages@[p]]
                0 <= p < after[a].pages@.len() ==> page_after(
                    before[a].pages@[p],
                    after[a].pages@[p],
                    holds(let_go, a, p),
                )
        }
}

/// Whether a page is among positions.
pub open spec fn holds(v: Seq<PageIndices>, a: int, p: int) -> bool {
    exists|k: int|
        0 <= k < v.len() && (#[trigger] v[k]).archive_index() == a && page_of(v[k]) is Some
            && v[k].page_index() == p
}

/// What is going on for the page at a position, if it was scanned.
pub open spec fn ongoing_at(archives: Seq<Archive>, i: PageIndices) -> Option<Cancels> {
    match page_of(i) {
        Some(p) => match archives[i.archive_index()].pages@[p.0 as int].state {
            PageState::Scanned(x) => Some(x.ongoing()),
            _ => None,
        },
        None => None,
    }
}

/// What is going on for the pages at positions that were scanned.
pub open spec fn ongoing_for(archives: Seq<Archive>, v: Seq<PageIndices>) -> Seq<
    (PageIndices, Cancels),
>
    decreases v.len(),
{
    if v.len() == 0 {
        seq![]
    } else {
        let before = ongoing_for(archives, v.drop_last());
        match ongoing_at(archives, v.last()) {
            Some(c) => before.push((v.last(), c)),
            None => before,
        }
    }
}

impl Manager {
    /// The same but for the archives.
    pub open spec fn with_archives(self, archives: Vec<Archive>) -> Manager {
        Manager { archives, ..self }
    }

    /// The state with all work beginning at the current page.
    pub open spec fn reset(self) -> Manager {
        let c = Some(self.current.first());
        Manager {
            finalize: c,
            downscale: c,
            load: c,
            upscale: if self.modes.upscaling {
                c
            } else {
                None
            },
            scan: c,
            ..self
        }
    }

    /// Lets all work begin at the current page.
    pub fn reset_indices(&mut self)
        ensures
            *final(self) == old(self).reset(),
    {
        let c = self.current.get();
        self.finalize = Some(c);
        self.downscale = Some(c);
        self.load = Some(c);
        self.upscale = if self.modes.upscaling {
            Some(c)
        } else {
            None
        };
        self.scan = Some(c);
    }

    /// Positions are within their ranges when all work begins at the current page.
    pub proof fn lemma_reset(self, s: Settings)
        requires
            s.wf(),
            self.archives_wf(),
            self.current.valid(self.counts()),
            self.preload_wf(s),
            self.counts().len() <= usize::MAX,
        ensures
            self.reset().wf(s),
    {
        let r = self.reset();
        r.lemma_range(s, ManagerWork::Finalize);
        r.lemma_range(s, ManagerWork::Downscale);
        r.lemma_range(s, ManagerWork::Load);
        r.lemma_range(s, ManagerWork::Upscale);
        r.lemma_range(s, ManagerWork::Scan);
    }

    /// The current pages in the current mode. In dual page mode a page becomes a pair where both
    /// can be laid out.
    pub open spec fn adjusted(self) -> CurrentIndices {
        if self.modes.display.is_dual_page() {
            match self.current {
                CurrentIndices::Single(c) => {
                    let n = c.display_page(
                        self.counts(),
                        self.modes.manga,
                        Direction::Forwards,
                        1,
                    );
                    if self.shown_at(c).res() is Some && n is Some && self.shown_at(
                        n->0,
                    ).res() is Some {
                        CurrentIndices::Dual(OneOrTwo::Two(c, n->0))
                    } else {
                        CurrentIndices::Dual(OneOrTwo::One(c))
                    }
                },
                CurrentIndices::Dual(_) => self.current,
            }
        } else {
            CurrentIndices::Single(self.current.first())
        }
    }

    fn lays_out(&self, i: &PageIndices) -> (r: bool)
        requires
            self.archives_wf(),
            i.valid(self.counts()),
        ensures
            r == self.shown_at(*i).res() is Some,
    {
        let d = self.get_displayable(i);
        proof {
            lemma_view_layout(d);
        }
        d.layout().res().is_some()
    }

    /// Adjusts the current pages to the current mode.
    pub fn adjust_current_for_dual_page(&mut self)
        requires
            old(self).archives_wf(),
            old(self).current.valid(old(self).counts()),
        ensures
            *final(self) == (Manager { current: old(self).adjusted(), ..*old(self) }),
            final(self).current.valid(final(self).counts()),
            final(self).current.first() == old(self).current.first(),
    {
        let new: CurrentIndices = if self.modes.display.dual_page() {
            let c: PageIndices = match &self.current {
                CurrentIndices::Single(c) => *c,
                CurrentIndices::Dual(_) => return,
            };
            let counts = page_counts(&self.archives);
            let mut new = CurrentIndices::Dual(OneOrTwo::One(c));
            if self.lays_out(&c) {
                if let Some(n) = c.next_display_page(
                    self.modes.manga,
                    Direction::Forwards,
                    counts.as_slice(),
                ) {
                    if self.lays_out(&n) {
                        new = CurrentIndices::Dual(OneOrTwo::Two(c, n));
                    }
                }
            }
            new
        } else {
            CurrentIndices::Single(self.current.get())
        };
        self.current = new;
    }

    /// Whether the page after one that is shown alone in dual page mode was just scanned.
    pub open spec fn may_pair(self, comp: Completion, i: PageIndices) -> bool {
        &&& comp is Scanned
        &&& self.current matches CurrentIndices::Dual(OneOrTwo::One(c))
        &&& c.moved(self.counts(), Direction::Forwards, 1) == Some(i)
    }

    /// Some work was completed at a position. A page that is shown alone may become one of a pair.
    pub fn handle_completion(&mut self, s: &Settings, comp: Completion, i: PageIndices)
        requires
            old(self).wf(*s),
        ensures
            final(self).wf(*s),
            *final(self) == (Manager {
                current: if old(self).may_pair(comp, i) {
                    (Manager {
                        current: CurrentIndices::Single(old(self).current.first()),
                        ..*old(self)
                    }).adjusted()
                } else {
                    old(self).current
                },
                ..*old(self)
            }),
    {
        match comp {
            Completion::Scanned => {},
            _ => return,
        }
        let c: PageIndices = match &self.current {
            CurrentIndices::Dual(OneOrTwo::One(c)) => *c,
            _ => return,
        };
        let counts = page_counts(&self.archives);
        match c.try_move_pages(Direction::Forwards, 1, counts.as_slice()) {
            Some(n) => if !(n == i) {
                return;
            },
            None => return,
        }
        self.current = CurrentIndices::Single(c);
        self.adjust_current_for_dual_page();
    }

    /// Lets go of a page, and says what to stop.
    pub fn unload(&mut self, i: &PageIndices) -> (r: Option<Cancels>)
        requires
            old(self).archives_wf(),
            i.valid(old(self).counts()),
        ensures
            final(self).archives_wf(),
            archives_after(old(self).archives@, final(self).archives@, seq![*i]),
            *final(self) == old(self).with_archives(final(self).archives),
            final(self).counts() == old(self).counts(),
            r == ongoing_at(old(self).archives@, *i),
    {
        let ghost before = self.archives@;
        let ghost v = seq![*i];
        let a: usize = i.a().0;
        match i.p() {
            Some(p) => {
                let r = self.archives[a].unload(p);
                proof {
                    let after = self.archives@;
                    assert(v[0] == *i);
                    assert forall|b: int|
                        #![trigger after[b]]
                        0 <= b < after.len() implies after[b].wf() && after[b].name == before[b].name
                        && after[b].path == before[b].path && after[b].kind == before[b].kind
                        && after[b].id == before[b].id && after[b].pages@.len()
                        == before[b].pages@.len() && (forall|q: int|
                        #![trigger after[b].pages@[q]]
                        0 <= q < after[b].pages@.len() ==> page_after(
                            before[b].pages@[q],
                            after[b].pages@[q],
                            holds(v, b, q),
                        )) by {
                        assert(before[b].wf());
                        assert forall|q: int|
                            #![trigger after[b].pages@[q]]
                            0 <= q < after[b].pages@.len() implies page_after(
                            before[b].pages@[q],
                            after[b].pages@[q],
                            holds(v, b, q),
                        ) by {
                            if b == a && q == p.0 {
                                assert(v[0].archive_index() == b);
                                assert(holds(v, b, q));
                            } else {
                                assert(!holds(v, b, q));
                            }
                        }
                    }
                    assert(counts_of(after) =~= counts_of(before));
                }
                r
            },
            None => {
                proof {
                    assert forall|b: int, q: int| !holds(v, b, q) by {
                        assert(page_of(v[0]) is None);
                    }
                }
                None
            },
        }
    }

    /// Lets go of several pages, and says what to stop for each.
    pub fn unload_all(&mut self, v: &Vec<PageIndices>) -> (r: Vec<(PageIndices, Cancels)>)
        requires
            old(self).archives_wf(),
            forall|k: int| 0 <= k < v@.len() ==> (#[trigger] v@[k]).valid(old(self).counts()),
            v@.no_duplicates(),
        ensures
            final(self).archives_wf(),
            archives_after(old(self).archives@, final(self).archives@, v@),
            *final(self) == old(self).with_archives(final(self).archives),
            final(self).counts() == old(self).counts(),
            r@ == ongoing_for(old(self).archives@, v@),
    {
        let ghost before = self.archives@;
        let ghost counts = self.counts();
        let ghost start = *self;
        let mut r: Vec<(PageIndices, Cancels)> = Vec::new();
        let mut k: usize = 0;
        proof {
            let none = v@.take(0);
            assert forall|a: int, p: int| !holds(none, a, p) by {}
        }
        while k < v.len()
            invariant
                k <= v@.len(),
                self.archives_wf(),
                before == start.archives@,
                *self == start.with_archives(self.archives),
                counts == self.counts(),
                forall|k: int| 0 <= k < v@.len() ==> (#[trigger] v@[k]).valid(counts),
                v@.no_duplicates(),
                archives_after(before, self.archives@, v@.take(k as int)),
                r@ == ongoing_for(before, v@.take(k as int)),
            decreases v.len() - k,
        {
            let ghost middle = self.archives@;
            assert(v@[k as int].valid(counts));
            proof {
                let i = v@[k as int];
                let a = i.archive_index();
                if let Some(p) = page_of(i) {
                    let t = v@.take(k as int);
                    if holds(t, a, p.0 as int) {
                        let j = choose|j: int|
                            0 <= j < t.len() && (#[trigger] t[j]).archive_index() == a && page_of(
                                t[j],
                            ) is Some && t[j].page_index() == p.0;
                        assert(t[j] == v@[j]);
                        assert(v@[j] == i);
                    }
                    assert(page_after(
                        before[a].pages@[p.0 as int],
                        middle[a].pages@[p.0 as int],
                        false,
                    ));
                }
                assert(ongoing_at(middle, i) == ongoing_at(before, i));
                assert(v@.take(k + 1).drop_last() =~= v@.take(k as int));
            }
            let c = self.unload(&v[k]);
            if let Some(c) = c {
                r.push((v[k], c));
            }
            proof {
                lemma_archives_after(
                    before,
                    middle,
                    self.archives@,
                    v@.take(k as int),
                    v@[k as int],
                );
                assert(v@.take(k as int).push(v@[k as int]) =~= v@.take(k + 1));
            }
            k += 1;
        }
        assert(v@.take(k as int) =~= v@);
        r
    }
}

/// Letting go of a page twice is as letting go of it once.
proof fn lemma_unload_twice(p: Page, q: Page, r: Page)
    requires
        p.unloaded_as(q.state),
        q.unloaded_as(r.state),
    ensures
        p.unloaded_as(r.state),
{
}

proof fn lemma_archives_after(
    before: Seq<Archive>,
    middle: Seq<Archive>,
    after: Seq<Archive>,
    v: Seq<PageIndices>,
    i: PageIndices,
)
    requires
        archives_after(before, middle, v),
        archives_after(middle, after, seq![i]),
    ensures
        archives_after(before, after, v.push(i)),
{
    let w = v.push(i);
    assert forall|a: int| #![trigger after[a]] 0 <= a < after.len() implies after[a].name
        == before[a].name && after[a].path == before[a].path && after[a].kind == before[a].kind
        && after[a].id == before[a].id && after[a].pages@.len() == before[a].pages@.len() && (
    forall|p: int|
        #![trigger after[a].pages@[p]]
        0 <= p < after[a].pages@.len() ==> page_after(
            before[a].pages@[p],
            after[a].pages@[p],
            holds(w, a, p),
        )) by {
        let m = middle[a];
        assert forall|p: int| #![trigger after[a].pages@[p]] 0 <= p < after[a].pages@.len() implies page_after(
            before[a].pages@[p],
            after[a].pages@[p],
            holds(w, a, p),
        ) by {
            let q = m.pages@[p];
            assert(page_after(before[a].pages@[p], q, holds(v, a, p)));
            assert(page_after(q, after[a].pages@[p], holds(seq![i], a, p)));
            if holds(v, a, p) {
                let k = choose|k: int|
                    0 <= k < v.len() && (#[trigger] v[k]).archive_index() == a && page_of(v[k]) is Some
                        && v[k].page_index() == p;
                assert(w[k] == v[k]);
                assert(holds(w, a, p));
            }
            if holds(seq![i], a, p) {
                assert(seq![i][0] == i);
                assert(w[v.len() as int] == i);
                assert(holds(w, a, p));
            }
            if holds(w, a, p) {
                let k = choose|k: int|
                    0 <= k < w.len() && (#[trigger] w[k]).archive_index() == a && page_of(w[k]) is Some
                        && w[k].page_index() == p;
                if k < v.len() {
                    assert(v[k] == w[k]);
                    assert(holds(v, a, p));
                } else {
                    assert(seq![i][0] == w[k]);
                    assert(holds(seq![i], a, p));
                }
            }
            if holds(v, a, p) && holds(seq![i], a, p) {
                lemma_unload_twice(before[a].pages@[p], q, after[a].pages@[p]);
            }
        }
    }
}

/// How many pages to keep loaded at least before and after the current one.
pub open spec fn kept_when_idle(mode: DisplayMode) -> (nat, nat) {
    if mode.is_dual_page() {
        (2, 3)
    } else {
        (1, 1)
    }
}

impl Manager {
    /// The page some places before the current one, in whatever archive.
    pub open spec fn place_behind(self, k: nat) -> Option<PageIndices> {
        self.current.first().earlier(self.counts(), k)
    }

    /// The page some places after the current one, in whatever archive.
    pub open spec fn place_ahead(self, k: nat) -> Option<PageIndices> {
        self.current.first().later(self.counts(), k)
    }

    /// The pages among some before the current one that are let go of when idle.
    pub open spec fn idle_behind(self, k: nat) -> Seq<PageIndices>
        decreases k,
    {
        if k == 0 {
            seq![]
        } else {
            let nearer = self.idle_behind((k - 1) as nat);
            match self.place_behind(k) {
                Some(i) => if k > kept_when_idle(self.modes.display).0 {
                    nearer.push(i)
                } else {
                    nearer
                },
                None => nearer,
            }
        }
    }

    /// How many pixels of the space that a strip is shown in are left to fill after some pages.
    pub open spec fn idle_space(self, s: Settings, k: nat) -> nat
        decreases k,
    {
        if k == 0 {
            if self.modes.display.is_strip() {
                (scroll_dim(self.modes.display, self.target_res) + s.scroll_amount) as nat
            } else {
                0
            }
        } else {
            let left = self.idle_space(s, (k - 1) as nat);
            match self.shown_at(self.place_ahead(k)->0).res() {
                Some(r) => {
                    let size = scroll_dim(self.modes.display, r.fitted(self.target()));
                    if left > size {
                        (left - size) as nat
                    } else {
                        0
                    }
                },
                None => 0,
            }
        }
    }

    /// The pages among some after the current one that are let go of when idle: those that are not
    /// needed to fill the space that a strip is shown in.
    pub open spec fn idle_ahead(self, s: Settings, k: nat) -> Seq<PageIndices>
        decreases k,
    {
        if k == 0 {
            seq![]
        } else {
            let nearer = self.idle_ahead(s, (k - 1) as nat);
            match self.place_ahead(k) {
                Some(i) => if k > kept_when_idle(self.modes.display).1 && (self.idle_space(
                    s,
                    (k - 1) as nat,
                ) == 0 || self.shown_at(i).res() is None) {
                    nearer.push(i)
                } else {
                    nearer
                },
                None => nearer,
            }
        }
    }

    /// The pages that are let go of when idle.
    pub open spec fn idle_pages(self, s: Settings) -> Seq<PageIndices> {
        self.idle_behind(s.preload_behind as nat) + self.idle_ahead(s, self.preload_ahead as nat)
    }
}

impl Manager {
    proof fn lemma_idle_behind(self, k: nat)
        requires
            self.current.valid(self.counts()),
            self.counts().len() <= usize::MAX,
        ensures
            self.idle_behind(k).no_duplicates(),
            forall|j: int|
                0 <= j < self.idle_behind(k).len() ==> (#[trigger] self.idle_behind(k)[j]).valid(
                    self.counts(),
                ) && self.current.first().number(self.counts()) - k <= self.idle_behind(
                    k,
                )[j].number(self.counts()) < self.current.first().number(self.counts()),
        decreases k,
    {
        if k > 0 {
            self.lemma_idle_behind((k - 1) as nat);
            if self.place_behind(k) is Some {
                law_number_round_trip(self.counts(), self.current.first());
                law_position_round_trip(
                    self.counts(),
                    (self.current.first().number(self.counts()) - k) as nat,
                );
            }
        }
    }

    proof fn lemma_idle_ahead(self, s: Settings, k: nat)
        requires
            self.current.valid(self.counts()),
            self.counts().len() <= usize::MAX,
        ensures
            self.idle_ahead(s, k).no_duplicates(),
            forall|j: int|
                0 <= j < self.idle_ahead(s, k).len() ==> (#[trigger] self.idle_ahead(
                    s,
                    k,
                )[j]).valid(self.counts()) && self.current.first().number(self.counts())
                    < self.idle_ahead(s, k)[j].number(self.counts())
                    <= self.current.first().number(self.counts()) + k,
        decreases k,
    {
        if k > 0 {
            self.lemma_idle_ahead(s, (k - 1) as nat);
            if self.place_ahead(k) is Some {
                law_position_round_trip(
                    self.counts(),
                    self.current.first().number(self.counts()) + k,
                );
            }
        }
    }

    proof fn lemma_idle_behind_ends(self, k: nat, m: nat)
        requires
            self.place_behind(k) is None,
            0 < k <= m + 1,
        ensures
            self.idle_behind(m) == self.idle_behind((k - 1) as nat),
        decreases m,
    {
        if m >= k {
            self.lemma_idle_behind_ends(k, (m - 1) as nat);
        }
    }

    proof fn lemma_idle_ahead_ends(self, s: Settings, k: nat, m: nat)
        requires
            self.place_ahead(k) is None,
            0 < k <= m + 1,
        ensures
            self.idle_ahead(s, m) == self.idle_ahead(s, (k - 1) as nat),
        decreases m,
    {
        if m >= k {
            self.lemma_idle_ahead_ends(s, k, (m - 1) as nat);
        }
    }

    /// The page some places further on follows the one before it.
    proof fn lemma_places_follow(self, k: nat)
        requires
            self.current.valid(self.counts()),
            self.counts().len() <= usize::MAX,
            k > 0,
        ensures
            self.place_behind(k) matches Some(i) ==> i.valid(self.counts()) && i.earlier(
                self.counts(),
                1,
            ) == self.place_behind(k + 1),
            self.place_ahead(k) matches Some(i) ==> i.valid(self.counts()) && i.later(
                self.counts(),
                1,
            ) == self.place_ahead(k + 1),
    {
        let c = self.current.first();
        if self.place_behind(k) is Some {
            law_display_pages_follow(self.counts(), c, true, Direction::Backwards, k);
        }
        if self.place_ahead(k) is Some {
            law_display_pages_follow(self.counts(), c, true, Direction::Forwards, k);
        }
    }

    fn find_idle_behind(&self, s: &Settings) -> (v: Vec<PageIndices>)
        requires
            self.archives_wf(),
            self.current.valid(self.counts()),
        ensures
            v@ == self.idle_behind(s.preload_behind as nat),
    {
        let counts = page_counts(&self.archives);
        let n: usize = counts.len();
        assert(self.counts().len() == n);
        let keep: usize = if self.modes.display.dual_page() {
            2
        } else {
            1
        };
        let mut v: Vec<PageIndices> = Vec::new();
        let mut next = self.current.get().try_move_pages(
            Direction::Backwards,
            1,
            counts.as_slice(),
        );
        let mut k: usize = 0;
        while k < s.preload_behind
            invariant
                k <= s.preload_behind,
                counts@ == self.counts(),
                self.counts().len() <= usize::MAX,
                self.current.valid(self.counts()),
                keep == kept_when_idle(self.modes.display).0,
                next == self.place_behind((k + 1) as nat),
                next matches Some(i) ==> i.valid(self.counts()),
                v@ == self.idle_behind(k as nat),
            decreases s.preload_behind - k,
        {
            let i = match next {
                Some(i) => i,
                None => {
                    proof {
                        self.lemma_idle_behind_ends((k + 1) as nat, s.preload_behind as nat);
                    }
                    return v;
                },
            };
            k += 1;
            proof {
                self.lemma_places_follow(k as nat);
            }
            if k > keep {
                v.push(i);
            }
            next = i.try_move_pages(Direction::Backwards, 1, counts.as_slice());
        }
        v
    }

    fn find_idle_ahead(&self, s: &Settings) -> (v: Vec<PageIndices>)
        requires
            self.archives_wf(),
            self.current.valid(self.counts()),
        ensures
            v@ == self.idle_ahead(*s, self.preload_ahead as nat),
    {
        let counts = page_counts(&self.archives);
        let n: usize = counts.len();
        assert(self.counts().len() == n);
        let target = self.target_res();
        let mode = self.modes.display;
        let keep: usize = if mode.dual_page() {
            3
        } else {
            1
        };
        let mut remaining: u64 = if mode.strip() {
            dim(mode, self.target_res) as u64 + s.scroll_amount as u64
        } else {
            0
        };
        let mut v: Vec<PageIndices> = Vec::new();
        let mut next = self.current.get().try_move_pages(Direction::Forwards, 1, counts.as_slice());
        let mut k: usize = 0;
        while k < self.preload_ahead
            invariant
                k <= self.preload_ahead,
                self.archives_wf(),
                mode == self.modes.display,
                target == self.target(),
                counts@ == self.counts(),
                self.counts().len() <= usize::MAX,
                self.current.valid(self.counts()),
                keep == kept_when_idle(self.modes.display).1,
                next == self.place_ahead((k + 1) as nat),
                next matches Some(i) ==> i.valid(self.counts()),
                remaining == self.idle_space(*s, k as nat),
                v@ == self.idle_ahead(*s, k as nat),
            decreases self.preload_ahead - k,
        {
            let i = match next {
                Some(i) => i,
                None => {
                    proof {
                        self.lemma_idle_ahead_ends(
                            *s,
                            (k + 1) as nat,
                            self.preload_ahead as nat,
                        );
                    }
                    return v;
                },
            };
            k += 1;
            proof {
                self.lemma_places_follow(k as nat);
            }
            let shown = self.get_displayable(&i);
            proof {
                lemma_view_layout(shown);
            }
            let size: Option<u64> = match shown.layout().res() {
                Some(r) => Some(dim(mode, r.fit_inside(target)) as u64),
                None => None,
            };
            if remaining == 0 || size.is_none() {
                remaining = 0;
                if k > keep {
                    v.push(i);
                }
            } else {
                let used: u64 = size.unwrap();
                remaining = if remaining > used {
                    remaining - used
                } else {
                    0
                };
            }
            next = i.try_move_pages(Direction::Forwards, 1, counts.as_slice());
        }
        v
    }

    /// Lets go of pages when there has been nothing to do for a while, and says what to stop for
    /// each. The pages that are shown, and the nearest ones, stay.
    pub fn idle_unload(&mut self, s: &Settings) -> (r: Vec<(PageIndices, Cancels)>)
        requires
            old(self).wf(*s),
        ensures
            final(self).wf(*s),
            archives_after(
                old(self).archives@,
                final(self).archives@,
                old(self).idle_pages(*s),
            ),
            *final(self) == old(self).with_archives(final(self).archives),
            r@ == ongoing_for(old(self).archives@, old(self).idle_pages(*s)),
    {
        let mut v = self.find_idle_behind(s);
        let mut ahead = self.find_idle_ahead(s);
        let n: usize = self.archives.len();
        proof {
            assert(self.counts().len() == n);
            self.lemma_idle_behind(s.preload_behind as nat);
            self.lemma_idle_ahead(*s, self.preload_ahead as nat);
            let b = self.idle_behind(s.preload_behind as nat);
            let a = self.idle_ahead(*s, self.preload_ahead as nat);
            let all = b + a;
            assert forall|i: int, j: int| 0 <= i < all.len() && 0 <= j < all.len() && i != j implies all[i]
                != all[j] by {
                if i < b.len() && j >= b.len() {
                    assert(all[i] == b[i] && all[j] == a[j - b.len()]);
                } else if j < b.len() && i >= b.len() {
                    assert(all[j] == b[j] && all[i] == a[i - b.len()]);
                } else if i < b.len() {
                    assert(all[i] == b[i] && all[j] == b[j]);
                } else {
                    assert(all[i] == a[i - b.len()] && all[j] == a[j - b.len()]);
                }
            }
        }
        v.append(&mut ahead);
        self.unload_all(&v)
    }

    /// The pages that are no longer loaded ahead when that is done for fewer pages.
    pub open spec fn beyond(self, ahead: nat, fewer: nat) -> Seq<PageIndices> {
        let from = self.current.first().number(self.counts()) + ahead - fewer + 1;
        let to = self.current.first().later_number(self.counts(), ahead);
        if from <= to {
            positions_up(self.counts(), from as nat, to)
        } else {
            seq![]
        }
    }

    /// Loads more pages ahead.
    pub fn grow_preload(&mut self, s: &Settings, n: usize)
        requires
            old(self).wf(*s),
            old(self).preload_ahead + n <= usize::MAX,
            s.max_strip_preload_ahead matches Some(m) ==> old(self).preload_ahead + n <= m,
        ensures
            final(self).wf(*s),
            *final(self) == (Manager {
                preload_ahead: (old(self).preload_ahead + n) as usize,
                ..*old(self)
            }).reset(),
    {
        self.preload_ahead = self.preload_ahead + n;
        let archives: usize = self.archives.len();
        proof {
            assert(self.counts().len() == archives);
            self.lemma_reset(*s);
        }
        self.reset_indices();
    }
}

impl Manager {
    fn pages_beyond(&self, n: usize) -> (v: Vec<PageIndices>)
        requires
            self.archives_wf(),
            self.current.valid(self.counts()),
            0 < n <= self.preload_ahead,
        ensures
            v@ == self.beyond(self.preload_ahead as nat, n as nat),
            v@.no_duplicates(),
            forall|k: int| 0 <= k < v@.len() ==> (#[trigger] v@[k]).valid(self.counts()),
    {
        let counts = page_counts(&self.archives);
        let len: usize = counts.len();
        let ghost c = self.current.first().number(self.counts());
        let start: usize = self.preload_ahead - n + 1;
        let mut v: Vec<PageIndices> = Vec::new();
        let mut next = self.current.get().try_move_pages(
            Direction::Forwards,
            start,
            counts.as_slice(),
        );
        proof {
            assert(self.counts().len() == len);
            law_number_round_trip(self.counts(), self.current.first());
        }
        let mut k: usize = 0;
        while k < n
            invariant
                k <= n,
                0 < n <= self.preload_ahead,
                start == self.preload_ahead - n + 1,
                counts@ == self.counts(),
                self.counts().len() <= usize::MAX,
                c == self.current.first().number(self.counts()),
                c < total_places(self.counts()),
                next == self.place_ahead((start + k) as nat),
                next matches Some(i) ==> i.valid(self.counts()),
                v@.len() == k,
                k > 0 ==> c + start + k - 1 < total_places(self.counts()),
                forall|j: int|
                    0 <= j < k ==> (#[trigger] v@[j]).valid(self.counts()) && v@[j].number(
                        self.counts(),
                    ) == c + start + j && v@[j] == position_at(
                        self.counts(),
                        (c + start + j) as nat,
                    ),
            ensures
                k <= n,
                v@.len() == k,
                k == n || c + start + k >= total_places(self.counts()),
                k > 0 ==> c + start + k - 1 < total_places(self.counts()),
                forall|j: int|
                    0 <= j < k ==> (#[trigger] v@[j]).valid(self.counts()) && v@[j].number(
                        self.counts(),
                    ) == c + start + j && v@[j] == position_at(
                        self.counts(),
                        (c + start + j) as nat,
                    ),
            decreases n - k,
        {
            let i = match next {
                Some(i) => i,
                None => break,
            };
            proof {
                law_position_round_trip(self.counts(), (c + start + k) as nat);
            }
            v.push(i);
            k += 1;
            next = i.try_move_pages(Direction::Forwards, 1, counts.as_slice());
        }
        assert(v@ =~= self.beyond(self.preload_ahead as nat, n as nat));
        v
    }

    /// Loads fewer pages ahead, lets go of those beyond, and says what to stop for each.
    pub fn shrink_preload(&mut self, s: &Settings, n: usize) -> (r: Vec<(PageIndices, Cancels)>)
        requires
            old(self).wf(*s),
            0 < n,
            s.preload_ahead + n <= old(self).preload_ahead,
        ensures
            final(self).wf(*s),
            archives_after(
                old(self).archives@,
                final(self).archives@,
                old(self).beyond(old(self).preload_ahead as nat, n as nat),
            ),
            *final(self) == (Manager {
                preload_ahead: (old(self).preload_ahead - n) as usize,
                archives: final(self).archives,
                ..*old(self)
            }).reset(),
            r@ == ongoing_for(
                old(self).archives@,
                old(self).beyond(old(self).preload_ahead as nat, n as nat),
            ),
    {
        let v = self.pages_beyond(n);
        let r = self.unload_all(&v);
        self.preload_ahead = self.preload_ahead - n;
        let archives: usize = self.archives.len();
        proof {
            assert(self.counts().len() == archives);
            self.lemma_reset(*s);
        }
        self.reset_indices();
        r
    }
}

/// Changing the number of pages to load ahead as a strip asks for keeps it in its range.
pub proof fn law_preload_stays_in_range(
    s: Settings,
    preload_ahead: usize,
    pages: nat,
    filled: bool,
    next: OffscreenContent,
)
    requires
        s.wf(),
        s.preload_ahead <= preload_ahead,
        s.max_strip_preload_ahead matches Some(m) ==> preload_ahead <= m,
    ensures
        match preload_change(s, preload_ahead, pages, filled, next) {
            PreloadRangeChange::NoChange => true,
            PreloadRangeChange::More(n) => 0 < n && s.max_strip_preload_ahead is Some
                && preload_ahead + n <= s.max_strip_preload_ahead->0,
            PreloadRangeChange::Fewer(n) => 0 < n && s.preload_ahead + n <= preload_ahead,
        },
{
}

/// What is to be stopped is what is going on for the pages that are let go of, and nothing else.
pub proof fn law_what_is_stopped_for_pages(
    archives: Seq<Archive>,
    v: Seq<PageIndices>,
    i: PageIndices,
    c: Cancels,
)
    ensures
        ongoing_for(archives, v).contains((i, c)) <==> v.contains(i) && ongoing_at(archives, i)
            == Some(c),
    decreases v.len(),
{
    if v.len() > 0 {
        law_what_is_stopped_for_pages(archives, v.drop_last(), i, c);
        let rest = v.drop_last();
        let last = v.last();
        let before = ongoing_for(archives, rest);
        let after = ongoing_for(archives, v);
        let it = (i, c);
        assert(v =~= rest.push(last));
        if before.contains(it) {
            assert(after[before.index_of(it)] == it);
        }
        if rest.contains(i) {
            assert(v[rest.index_of(i)] == i);
        }
        if v.contains(i) && !rest.contains(i) {
            let k = v.index_of(i);
            if k < rest.len() {
                assert(rest[k] == i);
            }
            assert(i == last);
        }
        if last == i {
            assert(v[v.len() - 1] == i);
        }
        if ongoing_at(archives, last) == Some(c) && last == i {
            assert(after[before.len() as int] == it);
        }
        if after.contains(it) && !before.contains(it) {
            let k = after.index_of(it);
            if k < before.len() {
                assert(before[k] == it);
            }
        }
    }
}

/// Only a page that was scanned has something going on, and that is what its image has.
pub proof fn law_what_goes_on_for_pages(archives: Seq<Archive>, i: PageIndices)
    ensures
        ongoing_at(archives, i) is Some <==> (page_of(i) matches Some(p)
            && archives[i.archive_index()].pages@[p.0 as int].state is Scanned),
        page_of(i) matches Some(p) ==> (archives[i.archive_index()].pages@[p.0 as int].state
            matches PageState::Scanned(x) ==> ongoing_at(archives, i) == Some(x.ongoing())),
{
}

/// Pages that are not let go of stay as they are, and no page gets another file.
pub proof fn law_other_pages_stay(
    before: Seq<Archive>,
    after: Seq<Archive>,
    let_go: Seq<PageIndices>,
    a: int,
    p: int,
)
    requires
        archives_after(before, after, let_go),
        0 <= a < before.len(),
        0 <= p < before[a].pages@.len(),
    ensures
        after.len() == before.len(),
        after[a].path == before[a].path,
        after[a].name == before[a].name,
        after[a].kind == before[a].kind,
        after[a].pages@.len() == before[a].pages@.len(),
        after[a].pages@[p].name == before[a].pages@[p].name,
        after[a].pages@[p].origin == before[a].pages@[p].origin,
        after[a].pages@[p].rel_path == before[a].pages@[p].rel_path,
        (forall|k: int|
            0 <= k < let_go.len() ==> !((#[trigger] let_go[k]).archive_index() == a
                && let_go[k].page_index() == p)) ==> after[a].pages@[p] == before[a].pages@[p],
{
    let x = after[a].pages@[p];
    assert(page_after(before[a].pages@[p], x, holds(let_go, a, p)));
}

/// Two pages may be shown together once the one behind a page that is shown alone was scanned.
pub proof fn law_when_pages_may_pair(m: Manager, comp: Completion, i: PageIndices)
    requires
        m.may_pair(comp, i),
    ensures
        comp is Scanned,
        m.current matches CurrentIndices::Dual(OneOrTwo::One(c)) && c.moved(
            m.counts(),
            Direction::Forwards,
            1,
        ) == Some(i),
{
}

} // verus!
