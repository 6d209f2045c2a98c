//! Where the visible pages are laid out.
use vstd::prelude::*;

use crate::com::mode::DisplayMode;
use crate::com::res::{Res, TargetRes};

verus! {

/// The resolutions of the visible pages.
#[derive(Debug)]
pub enum LayoutContents {
    Single(Res),
    Dual(Res, Res),
    Strip {
        /// The place of the current page, which need not be the first.
        current_index: usize,
        visible: Vec<Res>,
    },
}

/// How far one can scroll.
#[derive(Clone, Copy, Debug, PartialEq, Eq, Structural)]
pub struct Rect {
    pub top: i32,
    pub bottom: i32,
    pub left: i32,
    pub right: i32,
}

impl Default for Rect {
    fn default() -> (r: Self)
        ensures
            r == (Rect { top: 0, bottom: 0, left: 0, right: 0 }),
    {
        Rect { top: 0, bottom: 0, left: 0, right: 0 }
    }
}

/// The difference, or nought if that is negative.
pub open spec fn excess(a: nat, b: nat) -> nat {
    if a > b {
        (a - b) as nat
    } else {
        0
    }
}

pub open spec fn larger(a: nat, b: nat) -> nat {
    if a >= b {
        a
    } else {
        b
    }
}

pub open spec fn smaller(a: nat, b: nat) -> nat {
    if a <= b {
        a
    } else {
        b
    }
}

/// The width of pages side by side.
pub open spec fn total_width(v: Seq<Res>, t: TargetRes) -> nat
    decreases v.len(),
{
    if v.len() == 0 {
        0
    } else {
        total_width(v.drop_last(), t) + v.last().fitted(t).w as nat
    }
}

/// The height of pages one above the other.
pub open spec fn total_height(v: Seq<Res>, t: TargetRes) -> nat
    decreases v.len(),
{
    if v.len() == 0 {
        0
    } else {
        total_height(v.drop_last(), t) + v.last().fitted(t).h as nat
    }
}

/// The width of the widest page.
pub open spec fn greatest_width(v: Seq<Res>, t: TargetRes) -> nat
    decreases v.len(),
{
    if v.len() == 0 {
        0
    } else {
        larger(greatest_width(v.drop_last(), t), v.last().fitted(t).w as nat)
    }
}

/// The height of the highest page.
pub open spec fn greatest_height(v: Seq<Res>, t: TargetRes) -> nat
    decreases v.len(),
{
    if v.len() == 0 {
        0
    } else {
        larger(greatest_height(v.drop_last(), t), v.last().fitted(t).h as nat)
    }
}

/// What pages take up in the direction of a strip.
pub open spec fn length_of(v: Seq<Res>, t: TargetRes, vertical: bool) -> nat {
    if vertical {
        total_height(v, t)
    } else {
        total_width(v, t)
    }
}

/// What pages take up across a strip.
pub open spec fn breadth_of(v: Seq<Res>, t: TargetRes, vertical: bool) -> nat {
    if vertical {
        greatest_width(v, t)
    } else {
        greatest_height(v, t)
    }
}

/// A strip is as long as its parts together.
pub proof fn lemma_totals_parts(v: Seq<Res>, k: int, t: TargetRes)
    requires
        0 <= k <= v.len(),
    ensures
        total_width(v, t) == total_width(v.take(k), t) + total_width(v.skip(k), t),
        total_height(v, t) == total_height(v.take(k), t) + total_height(v.skip(k), t),
    decreases v.len() - k,
{
    if k == v.len() {
        assert(v.take(k) =~= v);
        assert(v.skip(k) =~= Seq::<Res>::empty());
    } else {
        lemma_totals_parts(v.drop_last(), k, t);
        assert(v.drop_last().take(k) =~= v.take(k));
        assert(v.drop_last().skip(k) =~= v.skip(k).drop_last());
    }
}

/// What a page adds to those before it.
pub proof fn lemma_totals_push(v: Seq<Res>, r: Res, t: TargetRes)
    ensures
        total_width(v.push(r), t) == total_width(v, t) + r.fitted(t).w,
        total_height(v.push(r), t) == total_height(v, t) + r.fitted(t).h,
        greatest_width(v.push(r), t) == larger(greatest_width(v, t), r.fitted(t).w as nat),
        greatest_height(v.push(r), t) == larger(greatest_height(v, t), r.fitted(t).h as nat),
{
    assert(v.push(r).drop_last() =~= v);
}

/// What some pages in a row take up, as far as it can be counted.
#[derive(Clone, Copy, Debug)]
struct Extent {
    length: u32,
    breadth: u32,
}

/// Measures some pages in a row, unless they are too long for their positions to be counted.
fn measure(visible: &Vec<Res>, from: usize, to: usize, t: TargetRes, vertical: bool) -> (r: Option<
    Extent,
>)
    requires
        from <= to <= visible@.len(),
    ensures
        ({
            let part = visible@.subrange(from as int, to as int);
            match r {
                Some(e) => {
                    &&& length_of(part, t, vertical) <= i32::MAX
                    &&& e.length == length_of(part, t, vertical)
                    &&& e.breadth == breadth_of(part, t, vertical)
                },
                None => length_of(part, t, vertical) > i32::MAX,
            }
        }),
{
    let mut e = Extent { length: 0, breadth: 0 };
    let mut i: usize = from;
    let ghost all = visible@.subrange(from as int, to as int);
    assert(all.take(0) =~= Seq::<Res>::empty());
    while i < to
        invariant
            from <= i <= to <= visible@.len(),
            all == visible@.subrange(from as int, to as int),
            e.length == length_of(all.take(i - from), t, vertical),
            e.length <= i32::MAX,
            e.breadth == breadth_of(all.take(i - from), t, vertical),
        decreases to - i,
    {
        let r = visible[i].fit_inside(t);
        let (along, across): (u32, u32) = if vertical {
            (r.h, r.w)
        } else {
            (r.w, r.h)
        };
        proof {
            let part = all.take(i - from);
            let more = all.take(i - from + 1);
            assert(more =~= part.push(visible@[i as int]));
            lemma_totals_push(part, visible@[i as int], t);
            lemma_totals_parts(all, i - from + 1, t);
        }
        if along > i32::MAX as u32 - e.length {
            return None;
        }
        e = Extent {
            length: e.length + along,
            breadth: if e.breadth >= across {
                e.breadth
            } else {
                across
            },
        };
        i += 1;
    }
    assert(all.take(to - from) =~= all);
    Some(e)
}

/// The size of what is laid out, how far one can scroll before the page changes, and how far one
/// can scroll at all.
#[derive(Clone, Copy, Debug, PartialEq, Eq, Structural)]
pub struct Fitted {
    pub fitted_res: Res,
    pub page_bounds: Res,
    pub true_bounds: Rect,
}

/// The bounds of something that is all on one page.
pub open spec fn fitted_page(w: nat, h: nat, t: TargetRes) -> Fitted {
    let bw = excess(w, t.res.w as nat);
    let bh = excess(h, t.res.h as nat);
    Fitted {
        fitted_res: Res { w: w as u32, h: h as u32 },
        page_bounds: Res { w: bw as u32, h: bh as u32 },
        true_bounds: Rect { top: 0, left: 0, bottom: bh as i32, right: bw as i32 },
    }
}

impl LayoutContents {
    /// Whether there is a current page.
    pub open spec fn has_current(self) -> bool {
        self matches LayoutContents::Strip { current_index, visible } ==> current_index
            < visible@.len()
    }

    /// Whether the contents can be measured in a display mode. A strip has a direction.
    pub open spec fn goes_with(self, mode: DisplayMode) -> bool {
        self.has_current() && (self is Strip ==> mode.is_strip())
    }

    /// Whether the contents can be placed in a display mode. Two pages side by side have an order.
    pub open spec fn placeable(self, mode: DisplayMode) -> bool {
        self is Dual ==> mode.is_dual_page()
    }

    /// Whether the positions in the pages, once these are fitted, can be counted in 32 bits.
    pub open spec fn countable(self, t: TargetRes, mode: DisplayMode) -> bool {
        match self {
            LayoutContents::Strip { current_index, visible } => {
                let vertical = mode is VerticalStrip;
                &&& length_of(visible@, t, vertical) <= i32::MAX
                &&& breadth_of(visible@.skip(current_index as int), t, vertical) <= i32::MAX
            },
            _ => self.first_size(t).0 <= i32::MAX && self.first_size(t).1 <= i32::MAX,
        }
    }

    /// The size of the current page, or of both pages side by side.
    pub open spec fn first_size(self, t: TargetRes) -> (nat, nat) {
        match self {
            LayoutContents::Single(r) => (r.fitted(t).w as nat, r.fitted(t).h as nat),
            LayoutContents::Dual(a, b) => (
                (a.fitted(t).w + b.fitted(t).w) as nat,
                larger(a.fitted(t).h as nat, b.fitted(t).h as nat),
            ),
            LayoutContents::Strip { current_index, visible } => {
                let r = visible@[current_index as int].fitted(t);
                (r.w as nat, r.h as nat)
            },
        }
    }

    /// The size of what is laid out, and how far one can scroll. Along a strip the page changes
    /// when its last line has been scrolled past.
    pub open spec fn spec_fit(self, t: TargetRes, mode: DisplayMode) -> Fitted {
        match self {
            LayoutContents::Strip { current_index, visible } => {
                let first = visible@[current_index as int].fitted(t);
                let before = visible@.take(current_index as int);
                let rest = visible@.skip(current_index as int);
                if mode is VerticalStrip {
                    let w = greatest_width(rest, t);
                    let h = total_height(rest, t);
                    let bw = excess(w, t.res.w as nat);
                    let below = excess(h, t.res.h as nat);
                    Fitted {
                        fitted_res: Res { w: w as u32, h: h as u32 },
                        page_bounds: Res {
                            w: bw as u32,
                            h: smaller(below, excess(first.h as nat, 1)) as u32,
                        },
                        true_bounds: Rect {
                            top: -(total_height(before, t)) as i32,
                            left: 0,
                            bottom: below as i32,
                            right: bw as i32,
                        },
                    }
                } else {
                    let w = total_width(rest, t);
                    let h = greatest_height(rest, t);
                    let bh = excess(h, t.res.h as nat);
                    let beyond = excess(w, t.res.w as nat);
                    Fitted {
                        fitted_res: Res { w: w as u32, h: h as u32 },
                        page_bounds: Res {
                            w: smaller(beyond, excess(first.w as nat, 1)) as u32,
                            h: bh as u32,
                        },
                        true_bounds: Rect {
                            top: 0,
                            left: -(total_width(before, t)) as i32,
                            bottom: bh as i32,
                            right: beyond as i32,
                        },
                    }
                }
            },
            _ => fitted_page(self.first_size(t).0, self.first_size(t).1, t),
        }
    }

    /// What the sizes are bounded by.
    pub proof fn lemma_bounded(self, t: TargetRes, mode: DisplayMode)
        requires
            self.goes_with(mode),
            self.countable(t, mode),
        ensures
            self.first_size(t).0 <= self.spec_fit(t, mode).fitted_res.w,
            self.first_size(t).1 <= self.spec_fit(t, mode).fitted_res.h,
            self.spec_fit(t, mode).bounded(t),
    {
        match self {
            LayoutContents::Strip { current_index, visible } => {
                let k = current_index as int;
                let rest = visible@.skip(k);
                lemma_totals_parts(visible@, k, t);
                assert(rest[0] == visible@[k]);
                lemma_first_within(rest, t);
            },
            _ => {},
        }
    }
}

impl Fitted {
    /// Whether all of the pages can be counted, those before the current one too, and the page
    /// changes within what can be scrolled to.
    pub open spec fn bounded(self, t: TargetRes) -> bool {
        &&& self.fitted_res.w - self.true_bounds.left <= i32::MAX
        &&& self.fitted_res.h - self.true_bounds.top <= i32::MAX
        &&& self.true_bounds.top <= 0
        &&& self.true_bounds.left <= 0
        &&& self.true_bounds.right == excess(self.fitted_res.w as nat, t.res.w as nat)
        &&& self.true_bounds.bottom == excess(self.fitted_res.h as nat, t.res.h as nat)
        &&& self.page_bounds.w <= self.true_bounds.right
        &&& self.page_bounds.h <= self.true_bounds.bottom
    }
}

/// The first page of a row is no larger than the row.
proof fn lemma_first_within(v: Seq<Res>, t: TargetRes)
    requires
        v.len() > 0,
    ensures
        v[0].fitted(t).w <= greatest_width(v, t),
        v[0].fitted(t).h <= greatest_height(v, t),
        v[0].fitted(t).w <= total_width(v, t),
        v[0].fitted(t).h <= total_height(v, t),
    decreases v.len(),
{
    if v.len() > 1 {
        lemma_first_within(v.drop_last(), t);
        assert(v.drop_last()[0] == v[0]);
    }
}

fn subtract(a: u32, b: u32) -> (r: u32)
    ensures
        r == excess(a as nat, b as nat),
{
    if a > b {
        a - b
    } else {
        0
    }
}

impl LayoutContents {
    /// Whether the positions in the pages can be counted.
    pub fn is_countable(&self, t: TargetRes, mode: DisplayMode) -> (r: bool)
        requires
            self.goes_with(mode),
        ensures
            r == self.countable(t, mode),
    {
        match self {
            LayoutContents::Single(r) => {
                let r = r.fit_inside(t);
                r.w <= i32::MAX as u32 && r.h <= i32::MAX as u32
            },
            LayoutContents::Dual(a, b) => {
                let a = a.fit_inside(t);
                let b = b.fit_inside(t);
                a.w as u64 + b.w as u64 <= i32::MAX as u64 && a.h <= i32::MAX as u32 && b.h
                    <= i32::MAX as u32
            },
            LayoutContents::Strip { current_index, visible } => {
                let vertical: bool = match mode {
                    DisplayMode::VerticalStrip => true,
                    _ => false,
                };
                let n: usize = visible.len();
                proof {
                    let k = *current_index as int;
                    lemma_totals_parts(visible@, k, t);
                    assert(visible@.subrange(0, n as int) =~= visible@);
                    assert(visible@.subrange(k, n as int) =~= visible@.skip(k));
                }
                if measure(visible, 0, n, t, vertical).is_none() {
                    return false;
                }
                match measure(visible, *current_index, n, t, vertical) {
                    Some(e) => e.breadth <= i32::MAX as u32,
                    None => false,
                }
            },
        }
    }

    /// The size of what is laid out, and how far one can scroll.
    pub fn fit(&self, t: TargetRes, mode: DisplayMode) -> (r: Fitted)
        requires
            self.goes_with(mode),
            self.countable(t, mode),
        ensures
            r == self.spec_fit(t, mode),
            r.bounded(t),
    {
        proof {
            self.lemma_bounded(t, mode);
        }
        match self {
            LayoutContents::Strip { current_index, visible } => {
                let k: usize = *current_index;
                let n: usize = visible.len();
                let first = visible[k].fit_inside(t);
                let vertical: bool = match mode {
                    DisplayMode::VerticalStrip => true,
                    _ => false,
                };
                proof {
                    lemma_totals_parts(visible@, k as int, t);
                    assert(visible@.subrange(0, k as int) =~= visible@.take(k as int));
                    assert(visible@.subrange(k as int, n as int) =~= visible@.skip(k as int));
                }
                let none = Extent { length: 0, breadth: 0 };
                let before = match measure(visible, 0, k, t, vertical) {
                    Some(e) => e,
                    None => none,
                };
                let rest = match measure(visible, k, n, t, vertical) {
                    Some(e) => e,
                    None => none,
                };
                if vertical {
                    let bw: u32 = subtract(rest.breadth, t.res.w);
                    let below: u32 = subtract(rest.length, t.res.h);
                    let page: u32 = subtract(first.h, 1);
                    Fitted {
                        fitted_res: Res { w: rest.breadth, h: rest.length },
                        page_bounds: Res {
                            w: bw,
                            h: if below <= page {
                                below
                            } else {
                                page
                            },
                        },
                        true_bounds: Rect {
                            top: -(before.length as i32),
                            left: 0,
                            bottom: below as i32,
                            right: bw as i32,
                        },
                    }
                } else {
                    let bh: u32 = subtract(rest.breadth, t.res.h);
                    let beyond: u32 = subtract(rest.length, t.res.w);
                    let page: u32 = subtract(first.w, 1);
                    Fitted {
                        fitted_res: Res { w: rest.length, h: rest.breadth },
                        page_bounds: Res {
                            w: if beyond <= page {
                                beyond
                            } else {
                                page
                            },
                            h: bh,
                        },
                        true_bounds: Rect {
                            top: 0,
                            left: -(before.length as i32),
                            bottom: bh as i32,
                            right: beyond as i32,
                        },
                    }
                }
            },
            _ => {
                let fitted = self.first_res(t);
                let bw: u32 = subtract(fitted.w, t.res.w);
                let bh: u32 = subtract(fitted.h, t.res.h);
                Fitted {
                    fitted_res: fitted,
                    page_bounds: Res { w: bw, h: bh },
                    true_bounds: Rect { top: 0, left: 0, bottom: bh as i32, right: bw as i32 },
                }
            },
        }
    }

    /// The size of the current page, or of both pages side by side.
    pub fn first_res(&self, t: TargetRes) -> (r: Res)
        requires
            self.has_current(),
            self.first_size(t).0 <= u32::MAX,
        ensures
            r.w == self.first_size(t).0,
            r.h == self.first_size(t).1,
    {
        match self {
            LayoutContents::Single(r) => r.fit_inside(t),
            LayoutContents::Dual(a, b) => {
                let a = a.fit_inside(t);
                let b = b.fit_inside(t);
                Res {
                    w: a.w + b.w,
                    h: if a.h >= b.h {
                        a.h
                    } else {
                        b.h
                    },
                }
            },
            LayoutContents::Strip { current_index, visible } => visible[*current_index].fit_inside(
                t,
            ),
        }
    }

    /// Where one gets to by going back to the page: its end.
    pub fn first_element_end_position(&self, t: TargetRes) -> (r: (u32, u32))
        requires
            self.has_current(),
            self.first_size(t).0 <= u32::MAX,
        ensures
            r.0 == excess(self.first_size(t).0, t.res.w as nat),
            r.1 == excess(self.first_size(t).1, t.res.h as nat),
    {
        let fitted = self.first_res(t);
        (subtract(fitted.w, t.res.w), subtract(fitted.h, t.res.h))
    }
}

} // verus!
