//! The scroll position, and how it moves.
use vstd::prelude::*;

use crate::com::mode::{DisplayMode, Fit};
use crate::com::res::{law_fit_fits, lemma_fitted_bound, Res, TargetRes};
use crate::com::toggle::{Pagination, ScrollMotionTarget};
use crate::double::{double_units, lemma_scale_by_zero, scale_rounded, Fraction};
use crate::gui::layout::{
    excess, lemma_totals_parts, lemma_totals_push, total_height, total_width, Fitted,
    LayoutContents,
};

verus! {

/// How long a smooth motion takes, in microseconds.
pub const SCROLL_DURATION: u32 = 166_000;

/// A relative position in a page: a ratio that is computed in double precision.
#[derive(Clone, Copy, Debug, PartialEq, Eq, Structural)]
pub struct Saved {
    pub n: u32,
    pub d: u32,
}

impl Saved {
    pub open spec fn zero() -> Saved {
        Saved { n: 0, d: 1 }
    }

    pub open spec fn one() -> Saved {
        Saved { n: 1, d: 1 }
    }

    /// The relative position of an offset in a page.
    pub open spec fn of(pos: i32, size: u32) -> Saved {
        Saved {
            n: if pos <= 0 {
                0
            } else if pos < size {
                pos as u32
            } else {
                size
            },
            d: size,
        }
    }

    /// The offset of the relative position in a page.
    pub open spec fn offset(self, size: u32) -> nat {
        if self.n == 0 {
            0
        } else if self.n >= self.d {
            size as nat
        } else {
            scale_rounded(size as nat, self.n as nat, self.d as nat)
        }
    }

    fn new(pos: i32, size: u32) -> (r: Saved)
        ensures
            r == Saved::of(pos, size),
    {
        Saved {
            n: if pos <= 0 {
                0
            } else if (pos as u32) < size {
                pos as u32
            } else {
                size
            },
            d: size,
        }
    }

    fn offset_in(self, size: u32) -> (r: u32)
        ensures
            r == self.offset(size),
            r <= size,
    {
        if self.n == 0 {
            0
        } else if self.n >= self.d {
            size
        } else {
            let f = Fraction::new(self.n, self.d);
            assert(f.is_units(double_units(self.n as nat, self.d as nat)));
            f.scale(size) as u32
        }
    }
}

/// What the scroll position does.
#[derive(Clone, Copy, Debug)]
pub enum Motion {
    Stationary,
    /// On the way from one offset to another, which need not be reachable.
    Smooth {
        x: (i32, i32),
        y: (i32, i32),
        /// When the motion began, in microseconds.
        start: u64,
        /// When the last step was taken.
        step: u64,
    },
    /// Drags come as offsets from their beginning. This is the last one.
    Dragging { offset: (i32, i32) },
}

/// Whether a position can be counted in 32 bits.
pub open spec fn counted(v: int) -> bool {
    i32::MIN <= v <= i32::MAX
}

impl Motion {
    /// Whether a smooth motion stays countable when it is moved.
    pub open spec fn movable(self, dx: int, dy: int) -> bool {
        self matches Motion::Smooth { x, y, .. } ==> {
            &&& counted(x.0 + dx)
            &&& counted(x.1 + dx)
            &&& counted(y.0 + dy)
            &&& counted(y.1 + dy)
        }
    }

    /// A smooth motion moved along with the pages.
    pub open spec fn shifted(self, dx: int, dy: int) -> Motion {
        match self {
            Motion::Smooth { x, y, start, step } => Motion::Smooth {
                x: ((x.0 + dx) as i32, (x.1 + dx) as i32),
                y: ((y.0 + dy) as i32, (y.1 + dy) as i32),
                start,
                step,
            },
            m => m,
        }
    }
}

/// What became of an attempt to scroll.
#[derive(Clone, Copy, Debug, PartialEq, Eq, Structural)]
pub enum ScrollResult {
    NoOp,
    Applied,
    /// The page is to be changed.
    Pagination(Pagination),
}

pub open spec fn clamped(v: int, lo: int, hi: int) -> int {
    if v < lo {
        lo
    } else if v > hi {
        hi
    } else {
        v
    }
}

fn clamp(v: i64, lo: i32, hi: i32) -> (r: i32)
    requires
        lo <= hi,
    ensures
        r == clamped(v as int, lo as int, hi as int),
        lo <= r <= hi,
{
    if v < lo as i64 {
        lo
    } else if v > hi as i64 {
        hi
    } else {
        v as i32
    }
}

/// An edge of the pages.
#[derive(Clone, Copy, Debug, PartialEq, Eq, Structural)]
pub enum Edge {
    Top,
    Bottom,
    Left,
    Right,
}

impl Edge {
    /// The arrow that shows the edge.
    pub fn icon(self) -> (r: &'static str)
        ensures
            r@ == match self {
                Edge::Top => "\u{1F845}"@,
                Edge::Bottom => "\u{1F847}"@,
                Edge::Left => "\u{1F844}"@,
                Edge::Right => "\u{1F846}"@,
            },
    {
        match self {
            Edge::Top => "\u{1F845}",
            Edge::Bottom => "\u{1F847}",
            Edge::Left => "\u{1F844}",
            Edge::Right => "\u{1F846}",
        }
    }
}

/// The scroll position in the visible pages.
#[derive(Debug)]
pub struct LayoutManager {
    /// The offset of the viewport from the upper left corner of the current page.
    pub x: i32,
    pub y: i32,
    /// The relative position to return to when a page that fitted does so no longer.
    pub saved: (Saved, Saved),
    pub motion: Motion,
    pub fit: Fitted,
    pub contents: LayoutContents,
    pub mode: DisplayMode,
    pub target_res: TargetRes,
}

impl LayoutManager {
    /// Whether the bounds are those of the contents, and the position lies within them.
    pub open spec fn wf(self) -> bool {
        &&& self.contents.goes_with(self.mode)
        &&& self.contents.countable(self.target_res, self.mode)
        &&& self.target_res.res.w <= i32::MAX
        &&& self.target_res.res.h <= i32::MAX
        &&& self.fit == self.contents.spec_fit(self.target_res, self.mode)
        &&& self.fit.true_bounds.left <= self.x <= self.fit.true_bounds.right
        &&& self.fit.true_bounds.top <= self.y <= self.fit.true_bounds.bottom
    }

    /// Nothing is shown yet.
    pub fn new() -> (r: LayoutManager)
        ensures
            r.wf(),
            r.x == 0,
            r.y == 0,
            r.motion is Stationary,
            r.contents == LayoutContents::Single(Res { w: 0, h: 0 }),
            r.mode == DisplayMode::Single,
            r.target_res == (TargetRes {
                res: Res { w: 0, h: 0 },
                fit: Fit::Container,
                half_width: false,
            }),
            r.saved == (Saved::zero(), Saved::zero()),
    {
        let contents = LayoutContents::Single(Res { w: 0, h: 0 });
        let target_res = TargetRes::default();
        let mode = DisplayMode::Single;
        proof {
            lemma_nothing_countable(target_res, mode);
        }
        let fit = contents.fit(target_res, mode);
        LayoutManager {
            x: 0,
            y: 0,
            saved: (Saved { n: 0, d: 1 }, Saved { n: 0, d: 1 }),
            motion: Motion::Stationary,
            fit,
            contents,
            mode,
            target_res,
        }
    }

    /// Where the relative position is in the contents that are there now, given what they were.
    pub open spec fn readjusted(
        self,
        fit: Fitted,
        new_size: (nat, nat),
        old_size: (nat, nat),
        old_bounds: Res,
    ) -> (int, int, (Saved, Saved)) {
        let sx = if old_bounds.w > 0 {
            Saved::of(self.x, old_size.0 as u32)
        } else {
            self.saved.0
        };
        let sy = if old_bounds.h > 0 {
            Saved::of(self.y, old_size.1 as u32)
        } else {
            self.saved.1
        };
        (
            clamped(sx.offset(new_size.0 as u32) as int, 0, fit.page_bounds.w as int),
            clamped(sy.offset(new_size.1 as u32) as int, 0, fit.page_bounds.h as int),
            (sx, sy),
        )
    }

    /// Keeps the relative position in contents whose bounds have changed.
    pub fn readjust_scroll_in_place(&mut self, old_res: Res, old_bounds: Res)
        requires
            old(self).contents.has_current(),
            old(self).contents.first_size(old(self).target_res).0 <= u32::MAX,
            old(self).fit.bounded(old(self).target_res),
        ensures
            ({
                let (x, y, saved) = old(self).readjusted(
                    old(self).fit,
                    old(self).contents.first_size(old(self).target_res),
                    (old_res.w as nat, old_res.h as nat),
                    old_bounds,
                );
                *final(self) == (LayoutManager { x: x as i32, y: y as i32, saved, ..*old(self) })
            }),
    {
        let new_res = self.contents.first_res(self.target_res);
        if old_bounds.w > 0 {
            self.saved.0 = Saved::new(self.x, old_res.w);
        }
        if old_bounds.h > 0 {
            self.saved.1 = Saved::new(self.y, old_res.h);
        }
        let x: u32 = self.saved.0.offset_in(new_res.w);
        let y: u32 = self.saved.1.offset_in(new_res.h);
        self.x = clamp(x as i64, 0, self.fit.page_bounds.w as i32);
        self.y = clamp(y as i64, 0, self.fit.page_bounds.h as i32);
    }

    /// By how much positions change when the page does in the course of scrolling.
    pub open spec fn page_shift(
        p: Pagination,
        mode: DisplayMode,
        old_bounds: Res,
        new_bounds: Res,
    ) -> (int, int) {
        match (p, mode is HorizontalStrip) {
            (Pagination::Forwards, false) => (0, -(old_bounds.h + 1)),
            (Pagination::Forwards, true) => (-(old_bounds.w + 1), 0),
            (Pagination::Backwards, false) => (0, new_bounds.h + 1),
            (Pagination::Backwards, true) => (new_bounds.w + 1, 0),
        }
    }

    /// Lays out other contents, and scrolls to where they are to be seen from.
    pub fn update_contents(
        &mut self,
        contents: LayoutContents,
        pos: ScrollMotionTarget,
        mode: DisplayMode,
    )
        requires
            old(self).wf(),
            contents.goes_with(mode),
            contents.countable(old(self).target_res, mode),
            pos matches ScrollMotionTarget::Continuous(p) ==> {
                let (dx, dy) = LayoutManager::page_shift(
                    p,
                    mode,
                    old(self).fit.page_bounds,
                    contents.spec_fit(old(self).target_res, mode).page_bounds,
                );
                old(self).motion.movable(dx, dy)
            },
        ensures
            final(self).wf(),
            final(self).contents == contents,
            final(self).mode == mode,
            final(self).target_res == old(self).target_res,
            match pos {
                ScrollMotionTarget::Start => {
                    &&& final(self).x == 0 && final(self).y == 0
                    &&& final(self).saved == (Saved::zero(), Saved::zero())
                    &&& final(self).motion is Stationary
                },
                ScrollMotionTarget::End => {
                    &&& final(self).x == excess(
                        contents.first_size(old(self).target_res).0,
                        old(self).target_res.res.w as nat,
                    )
                    &&& final(self).y == excess(
                        contents.first_size(old(self).target_res).1,
                        old(self).target_res.res.h as nat,
                    )
                    &&& final(self).saved == (Saved::zero(), Saved::zero())
                    &&& final(self).motion is Stationary
                },
                ScrollMotionTarget::Maintain => {
                    &&& (final(self).x as int, final(self).y as int, final(self).saved) == old(
                        self,
                    ).readjusted(
                        final(self).fit,
                        contents.first_size(old(self).target_res),
                        old(self).contents.first_size(old(self).target_res),
                        old(self).fit.page_bounds,
                    )
                    &&& final(self).motion == old(self).motion
                },
                ScrollMotionTarget::Continuous(p) => {
                    let (dx, dy) = LayoutManager::page_shift(
                        p,
                        mode,
                        old(self).fit.page_bounds,
                        final(self).fit.page_bounds,
                    );
                    &&& final(self).x == clamped(
                        old(self).x + dx,
                        0,
                        final(self).fit.page_bounds.w as int,
                    )
                    &&& final(self).y == clamped(
                        old(self).y + dy,
                        0,
                        final(self).fit.page_bounds.h as int,
                    )
                    &&& final(self).motion == old(self).motion.shifted(dx, dy)
                    &&& final(self).saved == if mode is HorizontalStrip {
                        (Saved::zero(), old(self).saved.1)
                    } else {
                        (old(self).saved.0, Saved::zero())
                    }
                },
            },
    {
        proof {
            old(self).contents.lemma_bounded(old(self).target_res, old(self).mode);
            contents.lemma_bounded(old(self).target_res, mode);
        }
        if !pos.continue_current_scroll() {
            self.motion = Motion::Stationary;
        }
        let old_first_res = self.contents.first_res(self.target_res);
        let old_page_bounds = self.fit.page_bounds;
        self.mode = mode;
        self.contents = contents;
        self.fit = self.contents.fit(self.target_res, mode);
        match pos {
            ScrollMotionTarget::Start => {
                self.x = 0;
                self.y = 0;
                self.saved = (Saved { n: 0, d: 1 }, Saved { n: 0, d: 1 });
            },
            ScrollMotionTarget::End => {
                let end: (u32, u32) = self.contents.first_element_end_position(
                    self.target_res,
                );
                self.x = end.0 as i32;
                self.y = end.1 as i32;
                // A page that does not scroll is treated as if one had gone forwards to it.
                self.saved = (Saved { n: 0, d: 1 }, Saved { n: 0, d: 1 });
            },
            ScrollMotionTarget::Maintain => {
                self.readjust_scroll_in_place(old_first_res, old_page_bounds);
            },
            ScrollMotionTarget::Continuous(p) => {
                let vertical: bool = mode.vertical_pagination();
                let (dx, dy): (i64, i64) = match (p, vertical) {
                    (Pagination::Forwards, true) => (0, -(old_page_bounds.h as i64 + 1)),
                    (Pagination::Forwards, false) => (-(old_page_bounds.w as i64 + 1), 0),
                    (Pagination::Backwards, true) => (0, self.fit.page_bounds.h as i64 + 1),
                    (Pagination::Backwards, false) => (self.fit.page_bounds.w as i64 + 1, 0),
                };
                // The position must not land where the page would change again.
                self.x = clamp(self.x as i64 + dx, 0, self.fit.page_bounds.w as i32);
                self.y = clamp(self.y as i64 + dy, 0, self.fit.page_bounds.h as i32);
                if vertical {
                    self.saved.1 = Saved { n: 0, d: 1 };
                } else {
                    self.saved.0 = Saved { n: 0, d: 1 };
                }
                self.motion = match self.motion {
                    Motion::Smooth { x, y, start, step } => Motion::Smooth {
                        x: ((x.0 as i64 + dx) as i32, (x.1 as i64 + dx) as i32),
                        y: ((y.0 as i64 + dy) as i32, (y.1 as i64 + dy) as i32),
                        start,
                        step,
                    },
                    m => m,
                };
            },
        }
    }

    /// Shows nothing.
    pub fn zero(&mut self)
        requires
            old(self).wf(),
        ensures
            final(self).wf(),
            final(self).contents == LayoutContents::Single(Res { w: 0, h: 0 }),
            final(self).mode == old(self).mode,
            final(self).target_res == old(self).target_res,
            final(self).x == 0,
            final(self).y == 0,
            final(self).motion is Stationary,
            final(self).saved == (Saved::zero(), Saved::zero()),
    {
        proof {
            lemma_nothing_countable(self.target_res, self.mode);
        }
        let mode = self.mode;
        self.update_contents(
            LayoutContents::Single(Res { w: 0, h: 0 }),
            ScrollMotionTarget::Start,
            mode,
        );
    }

    /// Lays the contents out in another space. Any motion ends.
    pub fn update_container(&mut self, target_res: TargetRes)
        requires
            old(self).wf(),
            old(self).contents.countable(target_res, old(self).mode),
            target_res.res.w <= i32::MAX,
            target_res.res.h <= i32::MAX,
        ensures
            final(self).wf(),
            final(self).contents == old(self).contents,
            final(self).mode == old(self).mode,
            final(self).target_res == target_res,
            final(self).motion is Stationary,
            (final(self).x as int, final(self).y as int, final(self).saved) == old(self).readjusted(
                final(self).fit,
                old(self).contents.first_size(target_res),
                old(self).contents.first_size(old(self).target_res),
                old(self).fit.page_bounds,
            ),
    {
        proof {
            self.contents.lemma_bounded(target_res, self.mode);
            self.contents.lemma_bounded(self.target_res, self.mode);
        }
        self.motion = Motion::Stationary;
        let old_bounds = self.fit.page_bounds;
        let old_first_res = self.contents.first_res(self.target_res);
        self.target_res = target_res;
        self.fit = self.contents.fit(target_res, self.mode);
        self.readjust_scroll_in_place(old_first_res, old_bounds);
    }
}

impl LayoutManager {
    /// What a scroll command does that moves by some offset towards some position. Past the end
    /// of what can be scrolled to, it changes the page.
    pub open spec fn pagination(self, dx: int, dy: int, tx: int, ty: int, amount: int) -> ScrollResult {
        let (d, t, pos, first, last, bound) = if self.mode is HorizontalStrip {
            (
                dx,
                tx,
                self.x as int,
                self.fit.true_bounds.left as int,
                self.fit.true_bounds.right as int,
                self.fit.page_bounds.w as int,
            )
        } else {
            (
                dy,
                ty,
                self.y as int,
                self.fit.true_bounds.top as int,
                self.fit.true_bounds.bottom as int,
                self.fit.page_bounds.h as int,
            )
        };
        let (cross, from, cross_bound) = if self.mode is HorizontalStrip {
            (dy, ty - dy, self.fit.page_bounds.h as int)
        } else {
            (dx, tx - dx, self.fit.page_bounds.w as int)
        };
        if d == 0 {
            if (from <= 0 && cross <= 0) || (from >= cross_bound && cross >= 0) {
                ScrollResult::NoOp
            } else {
                ScrollResult::Applied
            }
        } else if d > 0 {
            if last == bound && (pos == last || t > last + amount) {
                ScrollResult::Pagination(Pagination::Forwards)
            } else {
                ScrollResult::Applied
            }
        } else {
            if first == 0 && (pos == 0 || t < -amount) {
                ScrollResult::Pagination(Pagination::Backwards)
            } else {
                ScrollResult::Applied
            }
        }
    }

    /// What a scroll command does.
    pub fn check_pagination(&self, dx: i32, dy: i32, tx: i32, ty: i32, amount: i32) -> (r:
        ScrollResult)
        requires
            self.wf(),
        ensures
            r == self.pagination(dx as int, dy as int, tx as int, ty as int, amount as int),
    {
        proof {
            self.contents.lemma_bounded(self.target_res, self.mode);
        }
        let b = self.fit.true_bounds;
        let p = self.fit.page_bounds;
        let amount: i64 = amount as i64;
        if self.mode.vertical_pagination() {
            if dy == 0 {
                let from: i64 = tx as i64 - dx as i64;
                if (from <= 0 && dx <= 0) || (from >= p.w as i64 && dx >= 0) {
                    ScrollResult::NoOp
                } else {
                    ScrollResult::Applied
                }
            } else if dy > 0 {
                if b.bottom == p.h as i32 && (self.y == b.bottom || ty as i64 > b.bottom as i64
                    + amount) {
                    ScrollResult::Pagination(Pagination::Forwards)
                } else {
                    ScrollResult::Applied
                }
            } else if b.top == 0 && (self.y == 0 || (ty as i64) < -amount) {
                ScrollResult::Pagination(Pagination::Backwards)
            } else {
                ScrollResult::Applied
            }
        } else {
            if dx == 0 {
                let from: i64 = ty as i64 - dy as i64;
                if (from <= 0 && dy <= 0) || (from >= p.h as i64 && dy >= 0) {
                    ScrollResult::NoOp
                } else {
                    ScrollResult::Applied
                }
            } else if dx > 0 {
                if b.right == p.w as i32 && (self.x == b.right || tx as i64 > b.right as i64
                    + amount) {
                    ScrollResult::Pagination(Pagination::Forwards)
                } else {
                    ScrollResult::Applied
                }
            } else if b.left == 0 && (self.x == 0 || (tx as i64) < -amount) {
                ScrollResult::Pagination(Pagination::Backwards)
            } else {
                ScrollResult::Applied
            }
        }
    }

    /// Where the position is headed.
    pub open spec fn heading(self) -> (int, int) {
        match self.motion {
            Motion::Smooth { x, y, .. } => (x.1 as int, y.1 as int),
            _ => (self.x as int, self.y as int),
        }
    }

    /// Scrolls smoothly by some offset, unless the page is to be changed.
    pub fn apply_smooth_scroll(&mut self, dx: i32, dy: i32, amount: i32, now: u64) -> (r:
        ScrollResult)
        requires
            old(self).wf(),
            counted(old(self).heading().0 + dx),
            counted(old(self).heading().1 + dy),
        ensures
            final(self).wf(),
            ({
                let tx = old(self).heading().0 + dx;
                let ty = old(self).heading().1 + dy;
                &&& r == old(self).pagination(dx as int, dy as int, tx, ty, amount as int)
                &&& *final(self) == (LayoutManager {
                    motion: if r is Applied {
                        let start = match old(self).motion {
                            Motion::Smooth { step, .. } => step,
                            _ => now,
                        };
                        Motion::Smooth {
                            x: (old(self).x, tx as i32),
                            y: (old(self).y, ty as i32),
                            start,
                            step: start,
                        }
                    } else {
                        old(self).motion
                    },
                    ..*old(self)
                })
            }),
    {
        proof {
            self.contents.lemma_bounded(self.target_res, self.mode);
        }
        let (tx, ty): (i32, i32) = match self.motion {
            Motion::Smooth { x, y, .. } => (x.1 + dx, y.1 + dy),
            _ => (self.x + dx, self.y + dy),
        };
        let r = self.check_pagination(dx, dy, tx, ty, amount);
        match r {
            ScrollResult::Applied => {},
            _ => return r,
        }
        let start: u64 = match self.motion {
            Motion::Smooth { step, .. } => step,
            _ => now,
        };
        self.motion = Motion::Smooth { x: (self.x, tx), y: (self.y, ty), start, step: start };
        r
    }

    /// Where a move by some offset ends.
    pub open spec fn moved(self, dx: int, dy: int) -> (int, int) {
        (
            clamped(
                self.x + dx,
                self.fit.true_bounds.left as int,
                self.fit.true_bounds.right as int,
            ),
            clamped(
                self.y + dy,
                self.fit.true_bounds.top as int,
                self.fit.true_bounds.bottom as int,
            ),
        )
    }

    /// What a move from one position to another does: the page changes with the edge of the
    /// current page.
    pub open spec fn move_result(self, x: int, y: int) -> ScrollResult {
        let w = self.fit.page_bounds.w as int;
        let h = self.fit.page_bounds.h as int;
        if x == self.x && y == self.y {
            ScrollResult::NoOp
        } else if (x < 0 && self.x >= 0) || (y < 0 && self.y >= 0) {
            ScrollResult::Pagination(Pagination::Backwards)
        } else if (x > w && self.x <= w) || (y > h && self.y <= h) {
            ScrollResult::Pagination(Pagination::Forwards)
        } else {
            ScrollResult::Applied
        }
    }

    /// Moves to a position, as far as the bounds allow.
    fn move_to(&mut self, tx: i64, ty: i64) -> (r: ScrollResult)
        requires
            old(self).wf(),
        ensures
            final(self).wf(),
            ({
                let (x, y) = old(self).moved(tx - old(self).x, ty - old(self).y);
                &&& *final(self) == (LayoutManager { x: x as i32, y: y as i32, ..*old(self) })
                &&& r == old(self).move_result(x, y)
            }),
    {
        proof {
            self.contents.lemma_bounded(self.target_res, self.mode);
        }
        let (old_x, old_y): (i32, i32) = (self.x, self.y);
        let b = self.fit.true_bounds;
        self.x = clamp(tx, b.left, b.right);
        self.y = clamp(ty, b.top, b.bottom);
        let w: i32 = self.fit.page_bounds.w as i32;
        let h: i32 = self.fit.page_bounds.h as i32;
        if self.x == old_x && self.y == old_y {
            ScrollResult::NoOp
        } else if (self.x < 0 && old_x >= 0) || (self.y < 0 && old_y >= 0) {
            ScrollResult::Pagination(Pagination::Backwards)
        } else if (self.x > w && old_x <= w) || (self.y > h && old_y <= h) {
            ScrollResult::Pagination(Pagination::Forwards)
        } else {
            ScrollResult::Applied
        }
    }

    /// Moves by some offset, as far as the bounds allow. What is left of the offset is returned.
    pub fn apply_delta(&mut self, dx: i32, dy: i32) -> (r: (i32, i32, ScrollResult))
        requires
            old(self).wf(),
            counted(old(self).x + dx),
            counted(old(self).y + dy),
        ensures
            final(self).wf(),
            ({
                let (x, y) = old(self).moved(dx as int, dy as int);
                &&& *final(self) == (LayoutManager { x: x as i32, y: y as i32, ..*old(self) })
                &&& r.0 == old(self).x + dx - x
                &&& r.1 == old(self).y + dy - y
                &&& r.2 == old(self).move_result(x, y)
            }),
    {
        proof {
            self.contents.lemma_bounded(self.target_res, self.mode);
        }
        let tx: i32 = self.x + dx;
        let ty: i32 = self.y + dy;
        let p = self.move_to(tx as i64, ty as i64);
        (tx - self.x, ty - self.y, p)
    }

    /// Scrolls at once by some offset.
    pub fn pad_scroll(&mut self, dx: i32, dy: i32) -> (r: ScrollResult)
        requires
            old(self).wf(),
        ensures
            final(self).wf(),
            ({
                let (x, y) = old(self).moved(dx as int, dy as int);
                &&& *final(self) == (LayoutManager {
                    x: x as i32,
                    y: y as i32,
                    motion: Motion::Stationary,
                    ..*old(self)
                })
                &&& r == old(self).move_result(x, y)
            }),
    {
        self.motion = Motion::Stationary;
        let (x, y): (i64, i64) = (self.x as i64, self.y as i64);
        self.move_to(x + dx as i64, y + dy as i64)
    }

    /// Begins to drag.
    pub fn start_drag(&mut self)
        requires
            old(self).wf(),
        ensures
            final(self).wf(),
            *final(self) == (LayoutManager {
                motion: Motion::Dragging { offset: (0, 0) },
                ..*old(self)
            }),
    {
        self.motion = Motion::Dragging { offset: (0, 0) };
    }

    /// Ends to drag.
    pub fn end_drag(&mut self)
        requires
            old(self).wf(),
        ensures
            final(self).wf(),
            *final(self) == (LayoutManager {
                motion: if old(self).motion is Dragging {
                    Motion::Stationary
                } else {
                    old(self).motion
                },
                ..*old(self)
            }),
    {
        match self.motion {
            Motion::Dragging { .. } => {
                self.motion = Motion::Stationary;
            },
            _ => {},
        }
    }

    /// Follows a drag to an offset from where it began.
    pub fn apply_drag_update(&mut self, ofx: i32, ofy: i32) -> (r: ScrollResult)
        requires
            old(self).wf(),
        ensures
            final(self).wf(),
            match old(self).motion {
                Motion::Dragging { offset } => {
                    let dx = ofx - offset.0;
                    let dy = ofy - offset.1;
                    let (x, y) = old(self).moved(dx, dy);
                    &&& r == old(self).move_result(x, y)
                    &&& *final(self) == (LayoutManager {
                        x: x as i32,
                        y: y as i32,
                        motion: Motion::Dragging {
                            offset: (
                                (offset.0 + x - old(self).x) as i32,
                                (offset.1 + y - old(self).y) as i32,
                            ),
                        },
                        ..*old(self)
                    })
                },
                _ => r is NoOp && *final(self) == *old(self),
            },
    {
        proof {
            self.contents.lemma_bounded(self.target_res, self.mode);
        }
        let offset: (i32, i32) = match self.motion {
            Motion::Dragging { offset } => offset,
            // Another device scrolls at the same time.
            _ => return ScrollResult::NoOp,
        };
        let (x, y): (i64, i64) = (self.x as i64, self.y as i64);
        let dx: i64 = ofx as i64 - offset.0 as i64;
        let dy: i64 = ofy as i64 - offset.1 as i64;
        let p = self.move_to(x + dx, y + dy);
        self.motion = Motion::Dragging {
            offset: (
                (offset.0 as i64 + (self.x as i64 - x)) as i32,
                (offset.1 as i64 + (self.y as i64 - y)) as i32,
            ),
        };
        p
    }
}

/// The part of a distance that a smooth motion has covered after some microseconds.
pub open spec fn covered(distance: int, elapsed: nat) -> int {
    if elapsed >= SCROLL_DURATION {
        distance
    } else if distance >= 0 {
        scale_rounded(distance as nat, elapsed, SCROLL_DURATION as nat) as int
    } else {
        -(scale_rounded((-distance) as nat, elapsed, SCROLL_DURATION as nat) as int)
    }
}

/// The part of a distance that a smooth motion has covered after some microseconds.
fn cover(distance: i64, elapsed: u64) -> (r: i64)
    requires
        -u32::MAX <= distance <= u32::MAX,
    ensures
        r == covered(distance as int, elapsed as nat),
        distance >= 0 ==> 0 <= r <= distance,
        distance <= 0 ==> distance <= r <= 0,
{
    if elapsed >= SCROLL_DURATION as u64 {
        return distance;
    }
    if elapsed == 0 {
        proof {
            lemma_scale_by_zero(distance as nat, SCROLL_DURATION as nat);
            lemma_scale_by_zero((-distance) as nat, SCROLL_DURATION as nat);
        }
        return 0;
    }
    let f = Fraction::new(elapsed as u32, SCROLL_DURATION);
    assert(f.is_units(double_units(elapsed as nat, SCROLL_DURATION as nat)));
    if distance >= 0 {
        f.scale(distance as u32) as i64
    } else {
        -(f.scale((-distance) as u32) as i64)
    }
}

impl LayoutManager {
    /// Takes a step of a smooth motion, which ends when its time is over.
    pub fn smooth_step(&mut self, now: u64) -> (r: ScrollResult)
        requires
            old(self).wf(),
            old(self).motion matches Motion::Smooth { start, .. } && start <= now,
        ensures
            final(self).wf(),
            old(self).motion matches Motion::Smooth { x, y, start, .. } && {
                let elapsed = (now - start) as nat;
                let (nx, ny) = old(self).moved(
                    x.0 + covered(x.1 - x.0, elapsed) - old(self).x,
                    y.0 + covered(y.1 - y.0, elapsed) - old(self).y,
                );
                &&& r == old(self).move_result(nx, ny)
                &&& *final(self) == (LayoutManager {
                    x: nx as i32,
                    y: ny as i32,
                    motion: if elapsed >= SCROLL_DURATION {
                        Motion::Stationary
                    } else {
                        Motion::Smooth { x, y, start, step: now }
                    },
                    ..*old(self)
                })
            },
    {
        proof {
            self.contents.lemma_bounded(self.target_res, self.mode);
        }
        match self.motion {
            Motion::Smooth { x, y, start, .. } => {
                let elapsed: u64 = now - start;
                let tx: i64 = x.0 as i64 + cover(x.1 as i64 - x.0 as i64, elapsed);
                let ty: i64 = y.0 as i64 + cover(y.1 as i64 - y.0 as i64, elapsed);
                self.motion = Motion::Smooth { x, y, start, step: now };
                let p = self.move_to(tx, ty);
                if elapsed >= SCROLL_DURATION as u64 {
                    self.motion = Motion::Stationary;
                }
                p
            },
            _ => ScrollResult::NoOp,
        }
    }

    /// The edge that the position has come to or is headed to.
    pub open spec fn spec_touched_edge(self) -> Option<Edge> {
        let b = self.fit.true_bounds;
        let p = self.fit.page_bounds;
        if self.mode is HorizontalStrip {
            let t = self.heading().0;
            if p.w == 0 {
                None
            } else if t <= 0 && b.left == 0 {
                Some(Edge::Left)
            } else if t >= b.right && b.right == p.w {
                Some(Edge::Right)
            } else {
                None
            }
        } else {
            let t = self.heading().1;
            if p.h == 0 {
                None
            } else if t <= 0 && b.top == 0 {
                Some(Edge::Top)
            } else if t >= b.bottom && b.bottom == p.h {
                Some(Edge::Bottom)
            } else {
                None
            }
        }
    }

    /// The edge that the position has come to or is headed to.
    pub fn touched_edge(&self) -> (r: Option<Edge>)
        requires
            self.wf(),
        ensures
            r == self.spec_touched_edge(),
    {
        proof {
            self.contents.lemma_bounded(self.target_res, self.mode);
        }
        let b = self.fit.true_bounds;
        let p = self.fit.page_bounds;
        if self.mode.vertical_pagination() {
            if p.h == 0 {
                return None;
            }
            let ty: i32 = match self.motion {
                Motion::Smooth { y, .. } => y.1,
                _ => self.y,
            };
            if ty <= 0 && b.top == 0 {
                Some(Edge::Top)
            } else if ty >= b.bottom && b.bottom == p.h as i32 {
                Some(Edge::Bottom)
            } else {
                None
            }
        } else {
            if p.w == 0 {
                return None;
            }
            let tx: i32 = match self.motion {
                Motion::Smooth { x, .. } => x.1,
                _ => self.x,
            };
            if tx <= 0 && b.left == 0 {
                Some(Edge::Left)
            } else if tx >= b.right && b.right == p.w as i32 {
                Some(Edge::Right)
            } else {
                None
            }
        }
    }

    /// A motion after a snap: a smooth one stays at the edge in that direction, a drag ends.
    pub open spec fn snapped_motion(self, edge: Edge, to: i32) -> Motion {
        match self.motion {
            Motion::Stationary => Motion::Stationary,
            Motion::Smooth { x, y, start, step } => if edge is Top || edge is Bottom {
                Motion::Smooth { x, y: (to, to), start, step }
            } else {
                Motion::Smooth { x: (to, to), y, start, step }
            },
            Motion::Dragging { .. } => Motion::Stationary,
        }
    }

    /// The position that a snap to an edge goes to, unless the page is about to change or the
    /// position is past the edge already.
    pub open spec fn snap_target(self, edge: Edge) -> Option<int> {
        let end_x = excess(
            self.contents.first_size(self.target_res).0,
            self.target_res.res.w as nat,
        ) as int;
        let end_y = excess(
            self.contents.first_size(self.target_res).1,
            self.target_res.res.h as nat,
        ) as int;
        match edge {
            Edge::Top => if self.y >= 0 {
                Some(0int)
            } else {
                None
            },
            Edge::Left => if self.x >= 0 {
                Some(0int)
            } else {
                None
            },
            Edge::Bottom => if self.y > self.fit.page_bounds.h || self.y > end_y {
                None
            } else {
                Some(end_y)
            },
            Edge::Right => if self.x > self.fit.page_bounds.w || self.x > end_x {
                None
            } else {
                Some(end_x)
            },
        }
    }

    /// The state after a snap.
    pub open spec fn snapped(self, edge: Edge) -> LayoutManager {
        match self.snap_target(edge) {
            None => self,
            Some(to) => match edge {
                Edge::Top => LayoutManager {
                    y: to as i32,
                    saved: (self.saved.0, Saved::zero()),
                    motion: self.snapped_motion(edge, to as i32),
                    ..self
                },
                Edge::Bottom => LayoutManager {
                    y: to as i32,
                    saved: (self.saved.0, Saved::one()),
                    motion: self.snapped_motion(edge, to as i32),
                    ..self
                },
                Edge::Left => LayoutManager {
                    x: to as i32,
                    saved: (Saved::zero(), self.saved.1),
                    motion: self.snapped_motion(edge, to as i32),
                    ..self
                },
                Edge::Right => LayoutManager {
                    x: to as i32,
                    saved: (Saved::one(), self.saved.1),
                    motion: self.snapped_motion(edge, to as i32),
                    ..self
                },
            },
        }
    }

    /// Goes to an edge of the current page.
    pub fn snap(&mut self, edge: Edge) -> (r: ScrollResult)
        requires
            old(self).wf(),
        ensures
            final(self).wf(),
            *final(self) == old(self).snapped(edge),
            r == match old(self).snap_target(edge) {
                None => ScrollResult::NoOp,
                Some(to) => {
                    let pos = if edge is Top || edge is Bottom {
                        old(self).y
                    } else {
                        old(self).x
                    };
                    if pos == to {
                        ScrollResult::NoOp
                    } else {
                        ScrollResult::Applied
                    }
                },
            },
    {
        proof {
            self.contents.lemma_bounded(self.target_res, self.mode);
        }
        let end: (u32, u32) = self.contents.first_element_end_position(self.target_res);
        let (vertical, pos, to, bound): (bool, i32, i32, i32) = match edge {
            Edge::Top => (true, self.y, 0, 0),
            Edge::Bottom => (true, self.y, end.1 as i32, self.fit.page_bounds.h as i32),
            Edge::Left => (false, self.x, 0, 0),
            Edge::Right => (false, self.x, end.0 as i32, self.fit.page_bounds.w as i32),
        };
        let starts: bool = match edge {
            Edge::Top | Edge::Left => true,
            Edge::Bottom | Edge::Right => false,
        };
        if starts {
            if pos < 0 {
                return ScrollResult::NoOp;
            }
        } else if pos > bound || pos > to {
            return ScrollResult::NoOp;
        }
        let saved = if starts {
            Saved { n: 0, d: 1 }
        } else {
            Saved { n: 1, d: 1 }
        };
        if vertical {
            self.y = to;
            self.saved.1 = saved;
        } else {
            self.x = to;
            self.saved.0 = saved;
        }
        self.motion = match self.motion {
            Motion::Stationary => Motion::Stationary,
            Motion::Smooth { x, y, start, step } => if vertical {
                Motion::Smooth { x, y: (to, to), start, step }
            } else {
                Motion::Smooth { x: (to, to), y, start, step }
            },
            Motion::Dragging { .. } => Motion::Stationary,
        };
        if pos == to {
            ScrollResult::NoOp
        } else {
            ScrollResult::Applied
        }
    }
}

/// Where a page is drawn, and how large.
pub type Placed = (i32, i32, Res);

/// Half of the space that is left over.
pub open spec fn margin(space: u32, size: u32) -> int {
    excess(space as nat, size as nat) as int / 2
}

fn half_margin(space: u32, size: u32) -> (r: i32)
    ensures
        r == margin(space, size),
{
    if space > size {
        ((space - size) / 2) as i32
    } else {
        0
    }
}

impl LayoutManager {
    /// The upper left corner of everything that is laid out, in the viewport.
    pub open spec fn upper_left(self) -> (int, int) {
        let t = self.target_res.res;
        let f = self.fit.fitted_res;
        let b = self.fit.true_bounds;
        let centered_x = margin(t.w, f.w) - self.x + b.left;
        let centered_y = margin(t.h, f.h) - self.y + b.top;
        match self.contents {
            LayoutContents::Strip { current_index, .. } => if current_index == 0 {
                (centered_x, centered_y)
            } else if self.mode is HorizontalStrip {
                (-self.x + b.left, centered_y)
            } else {
                (centered_x, -self.y + b.top)
            },
            _ => (centered_x, centered_y),
        }
    }

    /// How many pages are laid out.
    pub open spec fn page_count(self) -> nat {
        match self.contents {
            LayoutContents::Single(_) => 1,
            LayoutContents::Dual(..) => 2,
            LayoutContents::Strip { visible, .. } => visible@.len(),
        }
    }

    /// The size of a page.
    pub open spec fn page_size(self, k: int) -> Res {
        match self.contents {
            LayoutContents::Single(r) => r.fitted(self.target_res),
            LayoutContents::Dual(a, b) => if k == 0 {
                a.fitted(self.target_res)
            } else {
                b.fitted(self.target_res)
            },
            LayoutContents::Strip { visible, .. } => visible@[k].fitted(self.target_res),
        }
    }

    /// Where a page is drawn. Pages of a strip follow one another and are centred across it.
    /// Of two pages side by side, the second is to the right of the first, or to the left if they
    /// are reversed.
    pub open spec fn place(self, k: int) -> (int, int) {
        let (ux, uy) = self.upper_left();
        let size = self.page_size(k);
        let f = self.fit.fitted_res;
        match self.contents {
            LayoutContents::Single(_) => (ux, uy),
            LayoutContents::Dual(..) => {
                let first_w = self.page_size(0).w;
                let y = uy + margin(f.h, size.h);
                if self.mode is DualPage {
                    (
                        if k == 0 {
                            ux
                        } else {
                            ux + first_w
                        },
                        y,
                    )
                } else {
                    (
                        if k == 0 {
                            ux + f.w - first_w
                        } else {
                            ux
                        },
                        y,
                    )
                }
            },
            LayoutContents::Strip { visible, .. } => if self.mode is HorizontalStrip {
                (
                    ux + total_width(visible@.take(k), self.target_res),
                    uy + margin(f.h, size.h),
                )
            } else {
                (
                    ux + margin(f.w, size.w),
                    uy + total_height(visible@.take(k), self.target_res),
                )
            },
        }
    }

    /// Where all pages are drawn, and how large.
    pub fn layout(&self) -> (v: Vec<Placed>)
        requires
            self.wf(),
            self.contents.placeable(self.mode),
        ensures
            v@.len() == self.page_count(),
            forall|k: int|
                #![trigger v@[k]]
                0 <= k < v@.len() ==> v@[k].0 == self.place(k).0 && v@[k].1 == self.place(k).1
                    && v@[k].2 == self.page_size(k),
    {
        proof {
            self.contents.lemma_bounded(self.target_res, self.mode);
        }
        let t = self.target_res.res;
        let f = self.fit.fitted_res;
        let b = self.fit.true_bounds;
        let index: usize = match &self.contents {
            LayoutContents::Strip { current_index, .. } => *current_index,
            _ => 0,
        };
        let vertical: bool = self.mode.vertical_pagination();
        let mx: i32 = if index == 0 || vertical {
            half_margin(t.w, f.w)
        } else {
            0
        };
        let my: i32 = if index == 0 || !vertical {
            half_margin(t.h, f.h)
        } else {
            0
        };
        let cx: i32 = mx - self.x + b.left;
        let cy: i32 = my - self.y + b.top;
        let mut v: Vec<Placed> = Vec::new();
        match &self.contents {
            LayoutContents::Single(r) => {
                v.push((cx, cy, r.fit_inside(self.target_res)));
            },
            LayoutContents::Dual(first, second) => {
                let a = first.fit_inside(self.target_res);
                let c = second.fit_inside(self.target_res);
                let ay: i32 = cy + half_margin(f.h, a.h);
                let cy2: i32 = cy + half_margin(f.h, c.h);
                match self.mode {
                    DisplayMode::DualPage => {
                        v.push((cx, ay, a));
                        v.push((cx + a.w as i32, cy2, c));
                    },
                    _ => {
                        v.push((cx + f.w as i32 - a.w as i32, ay, a));
                        v.push((cx, cy2, c));
                    },
                }
            },
            LayoutContents::Strip { current_index, visible } => {
                let mut offset: i32 = 0;
                let mut k: usize = 0;
                assert(visible@.take(0) =~= Seq::<Res>::empty());
                while k < visible.len()
                    invariant
                        k <= visible@.len(),
                        self.wf(),
                        self.fit.bounded(self.target_res),
                        f == self.fit.fitted_res,
                        t == self.target_res.res,
                        b == self.fit.true_bounds,
                        self.contents == (LayoutContents::Strip {
                            current_index: *current_index,
                            visible: *visible,
                        }),
                        vertical == !(self.mode is HorizontalStrip),
                        (cx as int, cy as int) == self.upper_left(),
                        0 <= offset,
                        vertical ==> offset == total_height(visible@.take(k as int), self.target_res),
                        !vertical ==> offset == total_width(visible@.take(k as int), self.target_res),
                        v@.len() == k,
                        forall|j: int|
                            #![trigger v@[j]]
                            0 <= j < k ==> v@[j].0 == self.place(j).0 && v@[j].1 == self.place(j).1
                                && v@[j].2 == self.page_size(j),
                    decreases visible.len() - k,
                {
                    let res = visible[k].fit_inside(self.target_res);
                    proof {
                        let part = visible@.take(k as int);
                        let more = visible@.take(k + 1);
                        assert(more =~= part.push(visible@[k as int]));
                        lemma_totals_push(part, visible@[k as int], self.target_res);
                        lemma_totals_parts(visible@, k + 1, self.target_res);
                        lemma_totals_parts(visible@, *current_index as int, self.target_res);
                    }
                    if vertical {
                        v.push((cx + half_margin(f.w, res.w), cy + offset, res));
                        offset = offset + res.h as i32;
                    } else {
                        v.push((cx + offset, cy + half_margin(f.h, res.h), res));
                        offset = offset + res.w as i32;
                    }
                    k += 1;
                }
            },
        }
        v
    }
}

/// The current page of a strip that has pages before it is drawn as far above the viewport, or
/// left of it, as has been scrolled.
pub proof fn law_current_page_place(m: LayoutManager)
    requires
        m.wf(),
        m.contents matches LayoutContents::Strip { current_index, .. } && current_index > 0,
    ensures
        m.contents matches LayoutContents::Strip { current_index, .. } && {
            if m.mode is HorizontalStrip {
                m.place(current_index as int).0 == -m.x
            } else {
                m.place(current_index as int).1 == -m.y
            }
        },
{
    m.contents.lemma_bounded(m.target_res, m.mode);
    match m.contents {
        LayoutContents::Strip { current_index, visible } => {
            lemma_totals_parts(visible@, current_index as int, m.target_res);
        },
        _ => {},
    }
}

/// Each page of a strip begins where the one before it ends.
pub proof fn law_strip_pages_touch(m: LayoutManager, k: int)
    requires
        m.wf(),
        m.contents is Strip,
        0 <= k,
        k + 1 < m.page_count(),
    ensures
        m.mode is HorizontalStrip ==> m.place(k + 1).0 == m.place(k).0 + m.page_size(k).w,
        !(m.mode is HorizontalStrip) ==> m.place(k + 1).1 == m.place(k).1 + m.page_size(k).h,
{
    match m.contents {
        LayoutContents::Strip { visible, .. } => {
            assert(visible@.take(k + 1) =~= visible@.take(k).push(visible@[k]));
            lemma_totals_push(visible@.take(k), visible@[k], m.target_res);
        },
        _ => {},
    }
}

/// Two pages side by side touch and do not overlap.
pub proof fn law_dual_pages_touch(m: LayoutManager)
    requires
        m.wf(),
        m.contents is Dual,
    ensures
        m.mode is DualPage ==> m.place(1).0 == m.place(0).0 + m.page_size(0).w,
        m.mode is DualPageReversed ==> m.place(0).0 == m.place(1).0 + m.page_size(1).w,
{
    m.contents.lemma_bounded(m.target_res, m.mode);
}

/// Pages that are smaller than the viewport are not scrolled, and lie within it.
pub proof fn law_small_pages_visible(m: LayoutManager)
    requires
        m.wf(),
        m.contents is Single,
        m.page_size(0).w <= m.target_res.res.w,
        m.page_size(0).h <= m.target_res.res.h,
    ensures
        m.x == 0,
        m.y == 0,
        0 <= m.place(0).0,
        m.place(0).0 + m.page_size(0).w <= m.target_res.res.w,
        0 <= m.place(0).1,
        m.place(0).1 + m.page_size(0).h <= m.target_res.res.h,
{
    m.contents.lemma_bounded(m.target_res, m.mode);
}

/// Nothing at all is countable.
proof fn lemma_nothing_countable(t: TargetRes, mode: DisplayMode)
    ensures
        LayoutContents::Single(Res { w: 0, h: 0 }).countable(t, mode),
{
    lemma_fitted_bound(Res { w: 0, h: 0 }, t);
}

/// Scrolling to the side does not change the page, except where pages form a row.
pub proof fn law_sideways_scroll_keeps_page(m: LayoutManager, dx: int, amount: int)
    requires
        m.wf(),
        !(m.mode is HorizontalStrip),
    ensures
        !(m.pagination(dx, 0, m.heading().0 + dx, m.heading().1, amount) is Pagination),
{
}

/// Scrolling up or down does not change the page where pages form a row.
pub proof fn law_row_keeps_page(m: LayoutManager, dy: int, amount: int)
    requires
        m.wf(),
        m.mode is HorizontalStrip,
    ensures
        !(m.pagination(0, dy, m.heading().0, m.heading().1 + dy, amount) is Pagination),
{
}

/// A single page that is fitted inside the window does not need to be scrolled, and all of it can
/// be seen.
pub proof fn law_fit_inside_needs_no_scrolling(m: LayoutManager)
    requires
        m.wf(),
        m.contents matches LayoutContents::Single(r) && !r.spec_is_empty(),
        m.target_res.fit is Container,
        m.target_res.page_width() > 0,
        m.target_res.res.h > 0,
    ensures
        m.x == 0,
        m.y == 0,
        0 <= m.place(0).0,
        m.place(0).0 + m.page_size(0).w <= m.target_res.res.w,
        0 <= m.place(0).1,
        m.place(0).1 + m.page_size(0).h <= m.target_res.res.h,
{
    if let LayoutContents::Single(r) = m.contents {
        law_fit_fits(r, m.target_res);
    }
    law_small_pages_visible(m);
}

/// Scrolling on never goes back a page, and scrolling back never goes on to the next one. Pages
/// follow one another from left to right in a horizontal strip, and from top to bottom otherwise.
pub proof fn law_scrolling_turns_pages_its_way(
    m: LayoutManager,
    dx: int,
    dy: int,
    tx: int,
    ty: int,
    amount: int,
)
    ensures
        m.mode is HorizontalStrip && dx > 0 || !(m.mode is HorizontalStrip) && dy > 0
            ==> m.pagination(dx, dy, tx, ty, amount) != ScrollResult::Pagination(
            Pagination::Backwards,
        ),
        m.mode is HorizontalStrip && dx < 0 || !(m.mode is HorizontalStrip) && dy < 0
            ==> m.pagination(dx, dy, tx, ty, amount) != ScrollResult::Pagination(
            Pagination::Forwards,
        ),
        m.mode is HorizontalStrip && dx == 0 || !(m.mode is HorizontalStrip) && dy == 0 ==> !(
        m.pagination(dx, dy, tx, ty, amount) is Pagination),
        m.mode is HorizontalStrip && dx != 0 || !(m.mode is HorizontalStrip) && dy != 0 ==> !(
        m.pagination(dx, dy, tx, ty, amount) is NoOp),
{
}

/// Whether the current page is the last of those that are laid out.
pub open spec fn shows_last_page(c: LayoutContents) -> bool {
    c matches LayoutContents::Strip { current_index, visible } ==> current_index + 1
        == visible@.len()
}

/// Whether the current page is the first of those that are laid out.
pub open spec fn shows_first_page(c: LayoutContents) -> bool {
    c matches LayoutContents::Strip { current_index, .. } ==> current_index == 0
}

/// At the far end of the last page, scrolling on goes to the next one. At the near end of the first
/// page, scrolling back goes to the one before it.
pub proof fn law_ends_turn_pages(
    m: LayoutManager,
    dx: int,
    dy: int,
    tx: int,
    ty: int,
    amount: int,
)
    requires
        m.wf(),
        m.target_res.res.w > 0,
        m.target_res.res.h > 0,
    ensures
        m.mode is HorizontalStrip && dx > 0 && shows_last_page(m.contents) && m.x >= 0
            && m.x + m.target_res.res.w >= m.contents.first_size(m.target_res).0 ==> m.pagination(
            dx,
            dy,
            tx,
            ty,
            amount,
        ) == ScrollResult::Pagination(Pagination::Forwards),
        !(m.mode is HorizontalStrip) && dy > 0 && shows_last_page(m.contents) && m.y >= 0
            && m.y + m.target_res.res.h >= m.contents.first_size(m.target_res).1 ==> m.pagination(
            dx,
            dy,
            tx,
            ty,
            amount,
        ) == ScrollResult::Pagination(Pagination::Forwards),
        m.mode is HorizontalStrip && dx < 0 && shows_first_page(m.contents) && m.x == 0
            ==> m.pagination(dx, dy, tx, ty, amount) == ScrollResult::Pagination(
            Pagination::Backwards,
        ),
        !(m.mode is HorizontalStrip) && dy < 0 && shows_first_page(m.contents) && m.y == 0
            ==> m.pagination(dx, dy, tx, ty, amount) == ScrollResult::Pagination(
            Pagination::Backwards,
        ),
{
    m.contents.lemma_bounded(m.target_res, m.mode);
    match m.contents {
        LayoutContents::Strip { current_index, visible } => {
            let t = m.target_res;
            let rest = visible@.skip(current_index as int);
            let before = visible@.take(current_index as int);
            if shows_last_page(m.contents) {
                assert(rest =~= seq![visible@[current_index as int]]);
                assert(rest.drop_last() =~= Seq::<Res>::empty());
                assert(rest.last() == visible@[current_index as int]);
                assert(total_width(rest.drop_last(), t) == 0);
                assert(total_height(rest.drop_last(), t) == 0);
            }
            if current_index == 0 {
                assert(before =~= Seq::<Res>::empty());
                assert(total_width(before, t) == 0);
                assert(total_height(before, t) == 0);
            }
        },
        _ => {},
    }
}

/// A page is not turned as long as scrolling towards its end stays within it.
pub proof fn law_no_page_is_turned_early(
    m: LayoutManager,
    dx: int,
    dy: int,
    tx: int,
    ty: int,
    amount: int,
)
    requires
        m.wf(),
        amount >= 0,
        m.contents is Single || m.contents is Dual,
        !(m.mode is HorizontalStrip),
        0 < m.y,
        m.y + m.target_res.res.h < m.contents.first_size(m.target_res).1,
        0 <= ty,
        ty + m.target_res.res.h <= m.contents.first_size(m.target_res).1,
    ensures
        !(m.pagination(dx, dy, tx, ty, amount) is Pagination),
{
    m.contents.lemma_bounded(m.target_res, m.mode);
}

/// What has been moved by: nothing at all is nothing, and the page only changes in the direction of
/// the move.
pub proof fn law_move_turns_pages_its_way(m: LayoutManager, x: int, y: int)
    ensures
        m.move_result(x, y) is NoOp <==> x == m.x && y == m.y,
        m.move_result(x, y) == ScrollResult::Pagination(Pagination::Forwards) ==> x > m.x || y
            > m.y,
        m.move_result(x, y) == ScrollResult::Pagination(Pagination::Backwards) ==> x < m.x || y
            < m.y,
{
}

/// In a vertical strip a move goes on to the next page once the current one has been left above the
/// window, and back to the one before it once its upper edge is below that of the window. In a
/// horizontal strip the same happens to the left and to the right. Other pages are not left by a
/// move.
pub proof fn law_moves_leave_the_page(m: LayoutManager, dx: int, dy: int)
    requires
        m.wf(),
        m.contents.first_size(m.target_res).0 > 0,
        m.contents.first_size(m.target_res).1 > 0,
        0 <= m.x,
        0 <= m.y,
        m.mode is VerticalStrip ==> m.y < m.contents.first_size(m.target_res).1,
        m.mode is HorizontalStrip ==> m.x < m.contents.first_size(m.target_res).0,
    ensures
        ({
            let (x, y) = m.moved(dx, dy);
            let r = m.move_result(x, y);
            let (w, h) = m.contents.first_size(m.target_res);
            &&& !(m.contents is Strip) ==> !(r is Pagination)
            &&& m.contents is Strip && m.mode is VerticalStrip ==> {
                &&& r == ScrollResult::Pagination(Pagination::Forwards) <==> y >= h
                &&& r == ScrollResult::Pagination(Pagination::Backwards) <==> y < 0
            }
            &&& m.contents is Strip && m.mode is HorizontalStrip ==> {
                &&& r == ScrollResult::Pagination(Pagination::Forwards) <==> x >= w
                &&& r == ScrollResult::Pagination(Pagination::Backwards) <==> x < 0
            }
        }),
{
    m.contents.lemma_bounded(m.target_res, m.mode);
}

/// A move goes as far as it was asked to go, or to the edge of the pages that lies in its way.
pub proof fn law_moves_go_as_far_as_they_can(m: LayoutManager, dx: int, dy: int)
    requires
        m.wf(),
    ensures
        ({
            let (x, y) = m.moved(dx, dy);
            let b = m.fit.true_bounds;
            &&& b.left <= x <= b.right
            &&& b.top <= y <= b.bottom
            &&& x == m.x + dx || dx < 0 && x == b.left || dx > 0 && x == b.right
            &&& y == m.y + dy || dy < 0 && y == b.top || dy > 0 && y == b.bottom
            &&& dx >= 0 ==> m.x <= x <= m.x + dx
            &&& dx <= 0 ==> m.x + dx <= x <= m.x
            &&& dy >= 0 ==> m.y <= y <= m.y + dy
            &&& dy <= 0 ==> m.y + dy <= y <= m.y
        }),
{
    m.contents.lemma_bounded(m.target_res, m.mode);
}

/// What is laid out can be seen up to its edges: scrolled as far as it goes in one direction, its
/// edge is that of the window, or all of it is inside the window in that direction.
pub proof fn law_bounds_reach_the_edges(m: LayoutManager)
    requires
        m.wf(),
    ensures
        ({
            let f = m.fit.fitted_res;
            let b = m.fit.true_bounds;
            let t = m.target_res.res;
            &&& f.w > t.w ==> b.right + t.w == f.w
            &&& f.w <= t.w ==> b.right == 0
            &&& f.h > t.h ==> b.bottom + t.h == f.h
            &&& f.h <= t.h ==> b.bottom == 0
            &&& !(m.contents is Strip) ==> b.left == 0 && b.top == 0
            &&& m.mode is VerticalStrip ==> b.left == 0
            &&& m.mode is HorizontalStrip ==> b.top == 0
        }),
{
    m.contents.lemma_bounded(m.target_res, m.mode);
}

} // verus!
