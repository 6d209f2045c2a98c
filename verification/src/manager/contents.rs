//! What the window shows of the pages.
use vstd::prelude::*;

use crate::com::content::{GuiContent, GuiState, LayoutCount, OffscreenContent};
use crate::com::direction::Direction;
use crate::com::displayable::{Displayable, MaybeLayoutRes};
use crate::com::mode::DisplayMode;
use crate::com::one_or_two::OneOrTwo;
use crate::com::res::Res;
use crate::gui::window::displayable_together;
use crate::manager::current::CurrentIndices;
use crate::manager::indices::{law_display_pages_follow, total_places, PageIndices};
use crate::manager::manager::{lemma_view_layout, page_counts, page_of, Manager, Settings};

verus! {

/// How many more or fewer pages to load ahead to fill the space that a strip is shown in.
#[derive(Clone, Copy, Debug, PartialEq, Eq, Structural)]
pub enum PreloadRangeChange {
    NoChange,
    More(usize),
    Fewer(usize),
}

/// The size of something in the direction that pages follow one another.
pub open spec fn scroll_dim(mode: DisplayMode, r: Res) -> u32 {
    if mode is HorizontalStrip {
        r.w
    } else {
        r.h
    }
}

/// The size of something in the direction that pages follow one another.
pub fn dim(mode: DisplayMode, r: Res) -> (n: u32)
    ensures
        n == scroll_dim(mode, r),
{
    if mode.vertical_pagination() {
        r.h
    } else {
        r.w
    }
}

/// How the number of pages to load ahead changes, when some pages are shown after the current one
/// in a strip and do or do not fill the space.
pub open spec fn preload_change(
    s: Settings,
    preload_ahead: usize,
    pages: nat,
    filled: bool,
    next: OffscreenContent,
) -> PreloadRangeChange {
    let left = if preload_ahead > pages {
        preload_ahead - pages
    } else {
        0
    };
    match s.max_strip_preload_ahead {
        None => PreloadRangeChange::NoChange,
        Some(max) => {
            let spare = preload_ahead - s.preload_ahead;
            if filled && left > 0 && spare > 0 {
                PreloadRangeChange::Fewer(
                    (if spare < left {
                        spare
                    } else {
                        left
                    }) as usize,
                )
            } else if pages > preload_ahead && max > preload_ahead {
                PreloadRangeChange::More(
                    (if pages < max {
                        pages - preload_ahead
                    } else {
                        max - preload_ahead
                    }) as usize,
                )
            } else if pages == preload_ahead && !filled && (next is LayoutCompatible
                || next is Unknown) && preload_ahead < max {
                PreloadRangeChange::More(1)
            } else {
                PreloadRangeChange::NoChange
            }
        },
    }
}

/// How the number of pages to load ahead changes.
pub fn change_preload(
    s: &Settings,
    preload_ahead: usize,
    pages: usize,
    filled: bool,
    next: OffscreenContent,
) -> (r: PreloadRangeChange)
    requires
        s.preload_ahead <= preload_ahead,
        s.max_strip_preload_ahead matches Some(m) ==> preload_ahead <= m,
    ensures
        r == preload_change(*s, preload_ahead, pages as nat, filled, next),
{
    let max: usize = match s.max_strip_preload_ahead {
        Some(m) => m,
        None => return PreloadRangeChange::NoChange,
    };
    let mut change = PreloadRangeChange::NoChange;
    let left: usize = if preload_ahead > pages {
        preload_ahead - pages
    } else {
        0
    };
    if pages > preload_ahead {
        let wanted: usize = pages - preload_ahead;
        let allowed: usize = max - preload_ahead;
        let more: usize = if wanted < allowed {
            wanted
        } else {
            allowed
        };
        if more > 0 {
            change = PreloadRangeChange::More(more);
        }
    } else if !filled && left == 0 {
        match next {
            OffscreenContent::Nothing | OffscreenContent::LayoutIncompatible => {},
            OffscreenContent::LayoutCompatible(_) | OffscreenContent::Unknown => {
                if preload_ahead < max {
                    change = PreloadRangeChange::More(1);
                }
            },
        }
    }
    if filled && left > 0 {
        let spare: usize = preload_ahead - s.preload_ahead;
        let fewer: usize = if spare < left {
            spare
        } else {
            left
        };
        if fewer > 0 {
            change = PreloadRangeChange::Fewer(fewer);
        }
    }
    change
}

/// How many more pages there can be in a run than those that are in it.
spec fn steps_left(
    first: PageIndices,
    counts: Seq<usize>,
    manga: bool,
    d: Direction,
    k: nat,
) -> int {
    match (manga, d) {
        (true, Direction::Forwards) => total_places(counts) - first.number(counts) - k,
        (true, _) => first.number(counts) - k,
        (false, Direction::Forwards) => counts[first.archive_index()] - first.page_index() - k,
        (false, _) => first.page_index() - k,
    }
}

impl Manager {
    /// The page some places after or before the current one.
    pub open spec fn strip_page(self, d: Direction, k: nat) -> Option<PageIndices> {
        self.current.first().display_page(self.counts(), self.modes.manga, d, k)
    }

    /// Whether there is such a page and it can be laid out.
    pub open spec fn has_strip_page(self, d: Direction, k: nat) -> bool {
        self.strip_page(d, k) matches Some(i) && self.shown_at(i).res() is Some
    }

    /// The size of the page some places after or before the current one in the direction that
    /// pages follow one another.
    pub open spec fn strip_size(self, d: Direction, k: nat) -> u32 {
        scroll_dim(
            self.modes.display,
            self.shown_at(self.strip_page(d, k)->0).res()->0.fitted(self.target()),
        )
    }

    /// The size of some pages after or before the current one together.
    pub open spec fn strip_extent(self, d: Direction, k: nat) -> nat
        decreases k,
    {
        if k == 0 {
            0
        } else {
            self.strip_extent(d, (k - 1) as nat) + self.strip_size(d, k) as nat
        }
    }

    /// Whether some number of pages after or before the current one are shown together with it:
    /// as many as can be laid out, but no more than fill the space.
    pub open spec fn is_run(self, d: Direction, space: nat, n: nat) -> bool {
        &&& forall|k: nat|
            1 <= k <= n ==> #[trigger] self.has_strip_page(d, k) && self.strip_extent(
                d,
                (k - 1) as nat,
            ) < space
        &&& self.strip_extent(d, n) >= space || !self.has_strip_page(d, n + 1)
    }

    /// The page at a place in a strip, counted from the current one.
    pub open spec fn strip_place(self, k: int) -> PageIndices {
        if k < 0 {
            self.strip_page(Direction::Backwards, (-k) as nat)->0
        } else if k > 0 {
            self.strip_page(Direction::Forwards, k as nat)->0
        } else {
            self.current.first()
        }
    }

    /// What lies beyond a page.
    pub open spec fn offscreen(
        self,
        p: PageIndices,
        d: Direction,
        allow_multiple: bool,
        remaining: nat,
        check_two: bool,
    ) -> OffscreenContent {
        match p.display_page(self.counts(), self.modes.manga, d, 1) {
            None => if allow_multiple && remaining == 0 {
                OffscreenContent::Unknown
            } else {
                OffscreenContent::Nothing
            },
            Some(next) => match self.shown_at(next).layout() {
                MaybeLayoutRes::Incompatible => OffscreenContent::LayoutIncompatible,
                MaybeLayoutRes::Unknown => OffscreenContent::Unknown,
                MaybeLayoutRes::Res(_) => OffscreenContent::LayoutCompatible(
                    if !check_two {
                        LayoutCount::OneOrMore
                    } else {
                        match next.display_page(self.counts(), self.modes.manga, d, 1) {
                            None => if allow_multiple && remaining <= 1 {
                                LayoutCount::OneOrMore
                            } else {
                                LayoutCount::ExactlyOne
                            },
                            Some(n2) => if self.shown_at(n2).res() is Some {
                                LayoutCount::TwoOrMore
                            } else {
                                LayoutCount::ExactlyOne
                            },
                        }
                    },
                ),
            },
        }
    }

    /// Whether there may be other archives before and after the current one.
    pub open spec fn multiple_archives(self) -> bool {
        self.modes.manga && self.archives@[self.current.first().archive_index()].allows_multiple()
    }

    /// Whether two pages that are shown side by side can be laid out.
    pub open spec fn pair_fits(self) -> bool {
        self.current matches CurrentIndices::Dual(OneOrTwo::Two(c, n)) ==> self.shown_at(
            c,
        ).res() is Some && self.shown_at(n).res() is Some
    }

    /// Whether a strip shows the current page and those around it.
    pub open spec fn shows_strip(
        self,
        s: Settings,
        current_index: usize,
        visible: Seq<Displayable>,
        next: OffscreenContent,
        change: PreloadRangeChange,
    ) -> bool {
        let after = (visible.len() - 1 - current_index) as nat;
        let space = (scroll_dim(self.modes.display, self.target_res) + s.scroll_amount) as nat;
        &&& current_index < visible.len()
        &&& self.is_run(Direction::Backwards, s.scroll_amount as nat, current_index as nat)
        &&& self.is_run(Direction::Forwards, space, after)
        &&& forall|i: int|
            0 <= i < visible.len() ==> (#[trigger] visible[i])@ == self.shown_at(
                self.strip_place(i - current_index),
            )
        &&& next == self.offscreen(
            self.strip_place(after as int),
            Direction::Forwards,
            self.multiple_archives(),
            if self.preload_ahead > after {
                (self.preload_ahead - after) as nat
            } else {
                0
            },
            false,
        )
        &&& change == preload_change(
            s,
            self.preload_ahead,
            after,
            self.strip_extent(Direction::Forwards, after) >= space,
            next,
        )
    }

    /// Whether contents are those of the current page in the current mode.
    pub open spec fn shows(self, s: Settings, content: GuiContent, change: PreloadRangeChange) -> bool {
        let c = self.current.first();
        let shown = self.shown_at(c);
        match self.modes.display {
            DisplayMode::Single => {
                let next = c.display_page(
                    self.counts(),
                    self.modes.manga,
                    Direction::Forwards,
                    1,
                );
                &&& content matches GuiContent::Single { current, preload }
                &&& current@ == shown
                &&& change is NoChange
                &&& if shown.res() is Some && next is Some && self.shown_at(next->0).res() is Some {
                    preload matches Some(p) && p@ == self.shown_at(next->0)
                } else {
                    preload is None
                }
            },
            DisplayMode::DualPage | DisplayMode::DualPageReversed => {
                &&& content matches GuiContent::Dual { prev, visible, next }
                &&& change is NoChange
                &&& prev == self.offscreen(
                    c,
                    Direction::Backwards,
                    self.multiple_archives(),
                    s.preload_behind as nat,
                    true,
                )
                &&& match self.current {
                    CurrentIndices::Dual(OneOrTwo::Two(_, n)) => {
                        &&& visible matches OneOrTwo::Two(a, b)
                        &&& a@ == shown
                        &&& b@ == self.shown_at(n)
                        &&& next == self.offscreen(
                            n,
                            Direction::Forwards,
                            self.multiple_archives(),
                            if self.preload_ahead > 0 {
                                (self.preload_ahead - 1) as nat
                            } else {
                                0
                            },
                            false,
                        )
                    },
                    _ => {
                        &&& visible matches OneOrTwo::One(a)
                        &&& a@ == shown
                        &&& next == self.offscreen(
                            c,
                            Direction::Forwards,
                            self.multiple_archives(),
                            self.preload_ahead as nat,
                            false,
                        )
                    },
                }
            },
            DisplayMode::VerticalStrip | DisplayMode::HorizontalStrip => if shown.res() is Some {
                &&& content matches GuiContent::Strip { prev, current_index, visible, next }
                &&& prev is Unknown
                &&& self.shows_strip(s, current_index, visible@, next, change)
            } else {
                &&& content matches GuiContent::Single { current, preload }
                &&& current@ == shown
                &&& preload is None
                &&& change is NoChange
            },
        }
    }

    fn next_display_page(&self, p: &PageIndices, d: Direction) -> (r: Option<PageIndices>)
        requires
            p.valid(self.counts()),
            !(d is Absolute),
        ensures
            r == p.display_page(self.counts(), self.modes.manga, d, 1),
            r matches Some(q) ==> q.valid(self.counts()),
    {
        let counts = page_counts(&self.archives);
        p.next_display_page(self.modes.manga, d, counts.as_slice())
    }

    /// What lies beyond a page.
    pub fn get_offscreen_content(
        &self,
        p: &PageIndices,
        d: Direction,
        allow_multiple_archives: bool,
        remaining_preload: usize,
        check_two: bool,
    ) -> (r: OffscreenContent)
        requires
            self.archives_wf(),
            p.valid(self.counts()),
            !(d is Absolute),
        ensures
            r == self.offscreen(
                *p,
                d,
                allow_multiple_archives,
                remaining_preload as nat,
                check_two,
            ),
    {
        let next = match self.next_display_page(p, d) {
            Some(n) => n,
            None => return if allow_multiple_archives && remaining_preload == 0 {
                OffscreenContent::Unknown
            } else {
                OffscreenContent::Nothing
            },
        };
        let shown = self.get_displayable(&next);
        proof {
            lemma_view_layout(shown);
        }
        match shown.layout() {
            MaybeLayoutRes::Incompatible => return OffscreenContent::LayoutIncompatible,
            MaybeLayoutRes::Unknown => return OffscreenContent::Unknown,
            MaybeLayoutRes::Res(_) => {},
        }
        if !check_two {
            return OffscreenContent::LayoutCompatible(LayoutCount::OneOrMore);
        }
        match self.next_display_page(&next, d) {
            None => OffscreenContent::LayoutCompatible(
                if allow_multiple_archives && remaining_preload <= 1 {
                    LayoutCount::OneOrMore
                } else {
                    LayoutCount::ExactlyOne
                },
            ),
            Some(n2) => {
                let second = self.get_displayable(&n2);
                proof {
                    lemma_view_layout(second);
                }
                OffscreenContent::LayoutCompatible(
                    if second.layout().res().is_some() {
                        LayoutCount::TwoOrMore
                    } else {
                        LayoutCount::ExactlyOne
                    },
                )
            },
        }
    }

    /// The next page of a run of pages, if it can be laid out.
    fn strip_next(&self, d: Direction, c: &PageIndices, Ghost(k): Ghost<nat>) -> (r: Option<
        (PageIndices, Displayable, Res),
    >)
        requires
            self.archives_wf(),
            self.current.valid(self.counts()),
            !(d is Absolute),
            c.valid(self.counts()),
            k == 0 ==> *c == self.current.first(),
            k > 0 ==> Some(*c) == self.strip_page(d, k),
        ensures
            r is Some <==> self.has_strip_page(d, k + 1),
            r matches Some(x) ==> {
                &&& self.strip_page(d, k + 1) == Some(x.0)
                &&& x.0.valid(self.counts())
                &&& x.1@ == self.shown_at(x.0)
                &&& x.1.wf()
                &&& Some(x.2) == x.1.layout_res()
                &&& Some(x.2) == self.shown_at(x.0).res()
                &&& steps_left(
                    self.current.first(),
                    self.counts(),
                    self.modes.manga,
                    d,
                    k + 1,
                ) >= 0
            },
    {
        let archives: usize = self.archives.len();
        assert(self.counts().len() == archives);
        proof {
            if k > 0 {
                law_display_pages_follow(
                    self.counts(),
                    self.current.first(),
                    self.modes.manga,
                    d,
                    k,
                );
            }
        }
        let p = match self.next_display_page(c, d) {
            Some(p) => p,
            None => return None,
        };
        let shown = self.get_displayable(&p);
        proof {
            lemma_view_layout(shown);
        }
        match shown.layout().res() {
            Some(res) => Some((p, shown, res)),
            None => None,
        }
    }

    /// The pages after or before the current one that are shown together with it, from the nearest
    /// on, the last of them, and whether they fill the space.
    fn strip_run(&self, d: Direction, space: u64) -> (r: (Vec<Displayable>, PageIndices, bool))
        requires
            self.archives_wf(),
            self.current.valid(self.counts()),
            !(d is Absolute),
            space > 0,
        ensures
            self.is_run(d, space as nat, r.0@.len()),
            forall|i: int|
                0 <= i < r.0@.len() ==> (#[trigger] r.0@[i])@ == self.shown_at(
                    self.strip_page(d, (i + 1) as nat)->0,
                ) && r.0@[i].wf() && r.0@[i].layout_res() is Some,
            r.0@.len() == 0 ==> r.1 == self.current.first(),
            r.0@.len() > 0 ==> Some(r.1) == self.strip_page(d, r.0@.len()),
            r.1.valid(self.counts()),
            r.2 == (self.strip_extent(d, r.0@.len()) >= space),
    {
        let target = self.target_res();
        let mut pages: Vec<Displayable> = Vec::new();
        let mut c = self.current.get();
        let mut remaining: u64 = space;
        loop
            invariant
                self.archives_wf(),
                !(d is Absolute),
                self.current.valid(self.counts()),
                target == self.target(),
                c.valid(self.counts()),
                pages@.len() == 0 ==> c == self.current.first(),
                pages@.len() > 0 ==> Some(c) == self.strip_page(d, pages@.len()),
                0 < remaining,
                self.strip_extent(d, pages@.len()) + remaining == space,
                forall|k: nat|
                    1 <= k <= pages@.len() ==> #[trigger] self.has_strip_page(d, k)
                        && self.strip_extent(d, (k - 1) as nat) < space,
                forall|i: int|
                    0 <= i < pages@.len() ==> (#[trigger] pages@[i])@ == self.shown_at(
                        self.strip_page(d, (i + 1) as nat)->0,
                    ) && pages@[i].wf() && pages@[i].layout_res() is Some,
            decreases
                    steps_left(
                        self.current.first(),
                        self.counts(),
                        self.modes.manga,
                        d,
                        pages@.len(),
                    ),
        {
            let ghost k = pages@.len();
            let (p, shown, res) = match self.strip_next(d, &c, Ghost(k)) {
                Some(x) => x,
                None => return (pages, c, false),
            };
            let size: u64 = dim(self.modes.display, res.fit_inside(target)) as u64;
            assert(size == self.strip_size(d, k + 1));
            pages.push(shown);
            c = p;
            if remaining <= size {
                return (pages, c, true);
            }
            remaining = remaining - size;
        }
    }
}

impl Manager {
    /// The strip that shows a current page that can be laid out, and how the number of pages to
    /// load ahead changes for it.
    fn build_strip_content(
        &self,
        s: &Settings,
        current: Displayable,
        allow_multiple_archives: bool,
    ) -> (r: (PreloadRangeChange, GuiContent))
        requires
            self.wf(*s),
            current@ == self.shown_at(self.current.first()),
            current.wf(),
            current.layout_res() is Some,
            allow_multiple_archives == self.multiple_archives(),
        ensures
            r.1 matches GuiContent::Strip { prev, current_index, visible, next } && prev is Unknown
                && self.shows_strip(*s, current_index, visible@, next, r.0),
            r.1.wf(),
            displayable_together(r.1),
    {
        let (mut before, _, _) = self.strip_run(Direction::Backwards, s.scroll_amount as u64);
        let space: u64 = dim(self.modes.display, self.target_res) as u64 + s.scroll_amount as u64;
        let (mut after, last, filled) = self.strip_run(Direction::Forwards, space);
        let current_index: usize = before.len();
        let pages: usize = after.len();
        let ghost b = before@;
        let ghost a = after@;
        let mut visible: Vec<Displayable> = Vec::new();
        while before.len() > 0
            invariant
                b == before@ + visible@.reverse(),
            decreases before.len(),
        {
            let ghost v = visible@;
            let ghost rest = before@;
            let d = before.pop().unwrap();
            visible.push(d);
            assert(visible@.reverse() =~= seq![d] + v.reverse());
            assert(before@ + visible@.reverse() =~= rest + v.reverse());
        }
        assert(visible@ =~= b.reverse());
        visible.push(current);
        visible.append(&mut after);
        assert(visible@ == b.reverse().push(current) + a);
        let left: usize = if self.preload_ahead > pages {
            self.preload_ahead - pages
        } else {
            0
        };
        let next = self.get_offscreen_content(
            &last,
            Direction::Forwards,
            allow_multiple_archives,
            left,
            false,
        );
        let change = change_preload(s, self.preload_ahead, pages, filled, next);
        proof {
            assert forall|i: int| 0 <= i < visible@.len() implies (#[trigger] visible@[i])@
                == self.shown_at(self.strip_place(i - current_index)) && visible@[i].wf()
                && visible@[i].layout_res() is Some by {
                if i < current_index {
                    assert(visible@[i] == b[current_index - 1 - i]);
                } else if i > current_index {
                    assert(visible@[i] == a[i - current_index - 1]);
                } else {
                    assert(visible@[i] == current);
                }
            }
            assert(last == self.strip_place(pages as int));
        }
        (
            change,
            GuiContent::Strip { prev: OffscreenContent::Unknown, current_index, visible, next },
        )
    }

    /// The contents for the current page in the current mode.
    fn build_content(&self, s: &Settings) -> (r: (GuiContent, PreloadRangeChange))
        requires
            self.wf(*s),
        ensures
            self.shows(*s, r.0, r.1),
            r.0.wf(),
            self.pair_fits() ==> displayable_together(r.0),
    {
        let c = self.current.get();
        let displayable = self.get_displayable(&c);
        proof {
            lemma_view_layout(displayable);
        }
        let allow_multiple: bool = self.modes.manga
            && self.archives[c.a().0].allow_multiple_archives();
        let res: Option<Res> = displayable.layout().res();
        match self.modes.display {
            DisplayMode::Single => {
                let mut preload: Option<Displayable> = None;
                if res.is_some() {
                    if let Some(p) = self.next_display_page(&c, Direction::Forwards) {
                        let d = self.get_displayable(&p);
                        proof {
                            lemma_view_layout(d);
                        }
                        if d.layout().res().is_some() {
                            preload = Some(d);
                        }
                    }
                }
                (GuiContent::Single { current: displayable, preload }, PreloadRangeChange::NoChange)
            },
            DisplayMode::VerticalStrip | DisplayMode::HorizontalStrip => {
                if res.is_none() {
                    return (
                        GuiContent::Single { current: displayable, preload: None },
                        PreloadRangeChange::NoChange,
                    );
                }
                let (change, content) = self.build_strip_content(s, displayable, allow_multiple);
                (content, change)
            },
            DisplayMode::DualPage | DisplayMode::DualPageReversed => {
                let prev = self.get_offscreen_content(
                    &c,
                    Direction::Backwards,
                    allow_multiple,
                    s.preload_behind,
                    true,
                );
                let mut preload_ahead: usize = self.preload_ahead;
                let (visible, n): (OneOrTwo<Displayable>, PageIndices) = match &self.current {
                    CurrentIndices::Single(_) | CurrentIndices::Dual(OneOrTwo::One(_)) => (
                        OneOrTwo::One(displayable),
                        c,
                    ),
                    CurrentIndices::Dual(OneOrTwo::Two(_, n)) => {
                        if preload_ahead > 0 {
                            preload_ahead = preload_ahead - 1;
                        }
                        let second = self.get_displayable(n);
                        proof {
                            lemma_view_layout(second);
                        }
                        (OneOrTwo::Two(displayable, second), *n)
                    },
                };
                let next = self.get_offscreen_content(
                    &n,
                    Direction::Forwards,
                    allow_multiple,
                    preload_ahead,
                    false,
                );
                (GuiContent::Dual { prev, visible, next }, PreloadRangeChange::NoChange)
            },
        }
    }

    /// Whether a state is the one for the current page in the current mode.
    pub open spec fn states(self, s: Settings, gs: GuiState, change: PreloadRangeChange) -> bool {
        let c = self.current.first();
        let archive = self.archives@[c.archive_index()];
        &&& self.shows(s, gs.content, change)
        &&& gs.page_num == match page_of(c) {
            Some(p) => p.0 + 1,
            None => 0,
        }
        &&& match archive.info(page_of(c)) {
            Some(i) => gs.page_info matches Some(q) && (q.0@, q.1@) == i,
            None => gs.page_info is None,
        }
        &&& gs.archive_len == archive.pages@.len()
        &&& gs.archive_name@ == archive.name@
        &&& gs.archive_id == archive.id
        &&& archive.in_directory(gs.current_dir)
        &&& gs.modes == self.modes
        &&& gs.target_res == self.target()
    }

    /// The state for the current page in the current mode, and how the number of pages to load
    /// ahead changes.
    pub fn build_gui_state(&self, s: &Settings) -> (r: (GuiState, PreloadRangeChange))
        requires
            self.wf(*s),
        ensures
            self.states(*s, r.0, r.1),
            r.0.content.wf(),
            self.pair_fits() ==> displayable_together(r.0.content),
    {
        let c = self.current.get();
        let p = c.p();
        let (content, change) = self.build_content(s);
        let archive = &self.archives[c.a().0];
        let page_num: usize = match p {
            Some(p) => {
                let n: usize = archive.page_count();
                assert(p.0 < n);
                p.0 + 1
            },
            None => 0,
        };
        let state = GuiState {
            content,
            page_num,
            page_info: archive.get_page_name_and_path(p),
            archive_len: archive.page_count(),
            archive_name: archive.name.clone(),
            archive_id: archive.id,
            current_dir: archive.containing_path(),
            modes: self.modes,
            target_res: self.target_res(),
        };
        (state, change)
    }
}

} // verus!
