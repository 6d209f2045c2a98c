//! What holds of pages that are laid out, wherever they are scrolled to.
use vstd::prelude::*;

use crate::com::mode::DisplayMode;
use crate::com::res::{Res, TargetRes};
use crate::com::toggle::Pagination;
use crate::double::{lemma_scale_by_zero, lemma_scale_exact, lemma_scale_near};
use crate::gui::layout::{
    excess, greatest_height, greatest_width, lemma_totals_parts, total_height, total_width,
    LayoutContents,
};
use crate::gui::layout_manager::{clamped, covered, Edge, LayoutManager, Motion, Saved, ScrollResult};

verus! {

/// Two pages side by side are as wide as both together, and as high as the higher one.
pub proof fn law_size_of_two_pages(m: LayoutManager)
    requires
        m.wf(),
        m.contents is Dual,
    ensures
        m.fit.fitted_res.w == m.page_size(0).w + m.page_size(1).w,
        m.fit.fitted_res.h >= m.page_size(0).h,
        m.fit.fitted_res.h >= m.page_size(1).h,
        m.fit.fitted_res.h == m.page_size(0).h || m.fit.fitted_res.h == m.page_size(1).h,
{
}

/// A single page takes up its own size.
pub proof fn law_size_of_one_page(m: LayoutManager)
    requires
        m.wf(),
        m.contents is Single,
    ensures
        m.fit.fitted_res == m.page_size(0),
{
}

proof fn lemma_greatest(v: Seq<Res>, t: TargetRes) -> (r: (int, int))
    requires
        v.len() > 0,
    ensures
        0 <= r.0 < v.len(),
        0 <= r.1 < v.len(),
        greatest_width(v, t) == v[r.0].fitted(t).w,
        greatest_height(v, t) == v[r.1].fitted(t).h,
        forall|k: int|
            0 <= k < v.len() ==> (#[trigger] v[k]).fitted(t).w <= greatest_width(v, t)
                && v[k].fitted(t).h <= greatest_height(v, t),
    decreases v.len(),
{
    let last = v.len() - 1;
    if v.len() == 1 {
        assert(v.drop_last().len() == 0);
        assert(greatest_width(v.drop_last(), t) == 0);
        assert(greatest_height(v.drop_last(), t) == 0);
        (0, 0)
    } else {
        let r = lemma_greatest(v.drop_last(), t);
        assert forall|k: int| 0 <= k < v.len() implies (#[trigger] v[k]).fitted(t).w
            <= greatest_width(v, t) && v[k].fitted(t).h <= greatest_height(v, t) by {
            if k < last {
                assert(v.drop_last()[k] == v[k]);
            }
        }
        (
            if greatest_width(v.drop_last(), t) >= v.last().fitted(t).w {
                r.0
            } else {
                last
            },
            if greatest_height(v.drop_last(), t) >= v.last().fitted(t).h {
                r.1
            } else {
                last
            },
        )
    }
}

/// A strip is as long as from where its current page begins to where its last one ends, and as
/// broad as the broadest of these. One can scroll back to where the first page begins.
pub proof fn law_size_of_strips(m: LayoutManager) -> (broadest: int)
    requires
        m.wf(),
        m.contents is Strip,
    ensures
        m.contents matches LayoutContents::Strip { current_index, visible } && {
            let c = current_index as int;
            let last = visible@.len() - 1;
            let f = m.fit.fitted_res;
            &&& c <= broadest <= last
            &&& m.mode is VerticalStrip ==> {
                &&& m.place(last).1 + m.page_size(last).h - m.place(c).1 == f.h
                &&& m.place(0).1 - m.place(c).1 == m.fit.true_bounds.top
                &&& f.w == m.page_size(broadest).w
                &&& forall|k: int| c <= k <= last ==> (#[trigger] m.page_size(k)).w <= f.w
            }
            &&& m.mode is HorizontalStrip ==> {
                &&& m.place(last).0 + m.page_size(last).w - m.place(c).0 == f.w
                &&& m.place(0).0 - m.place(c).0 == m.fit.true_bounds.left
                &&& f.h == m.page_size(broadest).h
                &&& forall|k: int| c <= k <= last ==> (#[trigger] m.page_size(k)).h <= f.h
            }
        },
{
    m.contents.lemma_bounded(m.target_res, m.mode);
    let t = m.target_res;
    match m.contents {
        LayoutContents::Strip { current_index, visible } => {
            let v = visible@;
            let c = current_index as int;
            let rest = v.skip(c);
            let last = v.len() - 1;
            lemma_totals_parts(v, c, t);
            lemma_totals_parts(v, last, t);
            assert(v.skip(last) =~= seq![v[last]]);
            assert(seq![v[last]].drop_last() =~= seq![]);
            assert(total_height(Seq::<Res>::empty(), t) == 0);
            assert(total_width(Seq::<Res>::empty(), t) == 0);
            assert(v.take(0) =~= seq![]);
            let r = lemma_greatest(rest, t);
            assert(rest[r.0] == v[c + r.0]);
            assert(rest[r.1] == v[c + r.1]);
            assert forall|k: int| c <= k <= last implies (#[trigger] m.page_size(k)).w
                <= greatest_width(rest, t) && m.page_size(k).h <= greatest_height(rest, t) by {
                assert(rest[k - c] == v[k]);
            }
            if m.mode is VerticalStrip {
                c + r.0
            } else {
                c + r.1
            }
        },
        _ => 0,
    }
}

/// Pages that fill the window in neither direction stand in the middle of it, and there is the same
/// space on either side of them, to within a line.
pub proof fn law_small_pages_stand_in_the_middle(m: LayoutManager)
    requires
        m.wf(),
        m.contents is Single,
    ensures
        ({
            let t = m.target_res.res;
            let (x, y) = m.place(0);
            let size = m.page_size(0);
            &&& size.w <= t.w ==> 0 <= (t.w - (x + size.w)) - x <= 1
            &&& size.h <= t.h ==> 0 <= (t.h - (y + size.h)) - y <= 1
            &&& size.w >= t.w ==> x == -m.x
            &&& size.h >= t.h ==> y == -m.y
        }),
{
}

/// Two pages stand in the middle of the window together, and each in the middle of the height of
/// both.
pub proof fn law_two_pages_stand_in_the_middle(m: LayoutManager)
    requires
        m.wf(),
        m.contents is Dual,
        m.mode.is_dual_page(),
    ensures
        ({
            let t = m.target_res.res;
            let left: int = if m.mode is DualPage {
                0
            } else {
                1
            };
            let x = m.place(left).0;
            let right = m.place(1 - left).0 + m.page_size(1 - left).w;
            &&& right - x == m.page_size(0).w + m.page_size(1).w
            &&& right - x <= t.w ==> 0 <= (t.w - right) - x <= 1
            &&& right - x >= t.w ==> x == -m.x
            &&& -1 <= (2 * m.place(0).1 + m.page_size(0).h) - (2 * m.place(1).1 + m.page_size(1).h)
                <= 1
        }),
{
}

/// Pages of a strip stand in the middle of one another, across it.
pub proof fn law_strips_are_straight(m: LayoutManager, j: int, k: int)
    requires
        m.wf(),
        m.contents is Strip,
        0 <= j < m.page_count(),
        0 <= k < m.page_count(),
    ensures
        m.mode is VerticalStrip && m.page_size(j).w <= m.fit.fitted_res.w && m.page_size(k).w
            <= m.fit.fitted_res.w ==> -1 <= (2 * m.place(j).0 + m.page_size(j).w) - (2 * m.place(
            k,
        ).0 + m.page_size(k).w) <= 1,
        m.mode is HorizontalStrip && m.page_size(j).h <= m.fit.fitted_res.h && m.page_size(k).h
            <= m.fit.fitted_res.h ==> -1 <= (2 * m.place(j).1 + m.page_size(j).h) - (2 * m.place(
            k,
        ).1 + m.page_size(k).h) <= 1,
{
}

/// Scrolling moves all pages the other way by the same amount.
pub proof fn law_scrolling_moves_all_pages(m: LayoutManager, n: LayoutManager, k: int)
    requires
        n == (LayoutManager { x: n.x, y: n.y, ..m }),
    ensures
        n.place(k).0 - m.place(k).0 == m.x - n.x,
        n.place(k).1 - m.place(k).1 == m.y - n.y,
        n.page_size(k) == m.page_size(k),
{
}

/// A smooth motion begins where it is and ends where it is headed, after a sixth of a second. On
/// its way it has covered as much of the distance as of the time, to within a line.
pub proof fn law_smooth_motions(distance: int, elapsed: nat)
    requires
        -0xffff_ffff <= distance <= 0xffff_ffff,
    ensures
        elapsed == 0 ==> covered(distance, elapsed) == 0,
        elapsed >= 166_000 ==> covered(distance, elapsed) == distance,
        elapsed <= 166_000 ==> -166_000 <= covered(distance, elapsed) * 166_000 - distance
            * elapsed <= 166_000,
{
    let size: nat = if distance >= 0 {
        distance as nat
    } else {
        (-distance) as nat
    };
    if elapsed == 0 {
        lemma_scale_by_zero(size, 166_000);
        assert(distance * 0 == 0) by (nonlinear_arith);
    } else if elapsed < 166_000 {
        lemma_scale_near(size, elapsed, 166_000);
        assert((-distance) * elapsed == -(distance * elapsed)) by (nonlinear_arith);
    } else if elapsed == 166_000 {
        assert(covered(distance, elapsed) == distance);
    }
}

/// A relative position in a page leads back to where it was taken, and in a page of another size
/// to the same part of it, to within a line. Before the page it is its start, and behind it its end.
pub proof fn law_relative_positions(pos: i32, size: u32, other: u32)
    requires
        size > 0,
    ensures
        0 <= pos <= size ==> Saved::of(pos, size).offset(size) == pos,
        pos <= 0 ==> Saved::of(pos, size).offset(other) == 0,
        pos >= size ==> Saved::of(pos, size).offset(other) == other,
        0 <= pos <= size ==> -size <= Saved::of(pos, size).offset(other) * size - other * pos
            <= size,
{
    if 0 < pos < size {
        lemma_scale_exact(pos as nat, size as nat);
        lemma_scale_near(other as nat, pos as nat, size as nat);
    } else if pos == 0 {
        assert(other * 0 == 0) by (nonlinear_arith);
        assert(0 * size == 0) by (nonlinear_arith);
    } else if pos == size {
        assert(other * size - other * size == 0);
    }
}

/// The start and the end of a page, as relative positions.
pub proof fn law_start_and_end(size: u32)
    ensures
        Saved::zero().offset(size) == 0,
        Saved::one().offset(size) == size,
{
}

/// Where nothing has changed, a page that can be scrolled stays where it is. Otherwise it is seen
/// from where it was, by what part of it was above and left of the window, as far as it can be.
pub proof fn law_position_is_kept(m: LayoutManager, w: nat, h: nat)
    requires
        m.wf(),
        0 < w <= u32::MAX,
        0 < h <= u32::MAX,
    ensures
        ({
            let b = m.fit.page_bounds;
            let (x, y, saved) = m.readjusted(m.fit, (w, h), (w, h), b);
            &&& b.w > 0 && 0 <= m.x <= b.w && m.x <= w ==> x == m.x
            &&& b.h > 0 && 0 <= m.y <= b.h && m.y <= h ==> y == m.y
            &&& b.w == 0 ==> x == 0 && saved.0 == m.saved.0
            &&& b.h == 0 ==> y == 0 && saved.1 == m.saved.1
            &&& 0 <= x <= b.w
            &&& 0 <= y <= b.h
        }),
{
    law_relative_positions(m.x, w as u32, w as u32);
    law_relative_positions(m.y, h as u32, h as u32);
}

/// A page that did not need to be scrolled is seen from where it was last when it does again.
pub proof fn law_position_is_remembered(m: LayoutManager, n: LayoutManager, w: nat, h: nat)
    requires
        n.wf(),
        0 < w <= u32::MAX,
        0 < h <= u32::MAX,
    ensures
        ({
            let nothing = Res { w: 0, h: 0 };
            let (x, y, saved) = m.readjusted(n.fit, (w, h), (w, h), nothing);
            &&& saved == m.saved
            &&& m.saved == (Saved::zero(), Saved::zero()) ==> x == 0 && y == 0
            &&& m.saved == (Saved::one(), Saved::one()) && w >= n.fit.page_bounds.w && h
                >= n.fit.page_bounds.h ==> x == n.fit.page_bounds.w && y == n.fit.page_bounds.h
        }),
{
}

/// Scrolling on past the last line of a page leads to the first line of the next one, and scrolling
/// back past the first line to the last line of the one before. Only the direction that pages
/// follow one another in is concerned.
pub proof fn law_lines_follow_from_page_to_page(mode: DisplayMode, was: Res, now: Res)
    ensures
        !(mode is HorizontalStrip) ==> {
            &&& (was.h + 1) + LayoutManager::page_shift(Pagination::Forwards, mode, was, now).1 == 0
            &&& -1 + LayoutManager::page_shift(Pagination::Backwards, mode, was, now).1 == now.h
            &&& LayoutManager::page_shift(Pagination::Forwards, mode, was, now).0 == 0
            &&& LayoutManager::page_shift(Pagination::Backwards, mode, was, now).0 == 0
        },
        mode is HorizontalStrip ==> {
            &&& (was.w + 1) + LayoutManager::page_shift(Pagination::Forwards, mode, was, now).0 == 0
            &&& -1 + LayoutManager::page_shift(Pagination::Backwards, mode, was, now).0 == now.w
            &&& LayoutManager::page_shift(Pagination::Forwards, mode, was, now).1 == 0
            &&& LayoutManager::page_shift(Pagination::Backwards, mode, was, now).1 == 0
        },
{
}

/// A motion that is moved along with the pages still covers the same distance in the same time.
pub proof fn law_motions_move_along(motion: Motion, dx: int, dy: int)
    requires
        motion.movable(dx, dy),
    ensures
        motion is Smooth <==> motion.shifted(dx, dy) is Smooth,
        !(motion is Smooth) ==> motion.shifted(dx, dy) == motion,
        match (motion, motion.shifted(dx, dy)) {
            (
                Motion::Smooth { x, y, start, step },
                Motion::Smooth { x: nx, y: ny, start: nstart, step: nstep },
            ) => {
                &&& nx.0 - x.0 == dx
                &&& nx.1 - x.1 == dx
                &&& ny.0 - y.0 == dy
                &&& ny.1 - y.1 == dy
                &&& start == nstart
                &&& step == nstep
            },
            _ => true,
        },
{
}

/// The edge that is shown as touched is the one that a further step turns the page at, and no edge
/// is shown as long as there is something left to scroll.
pub proof fn law_touched_edges_turn_pages(m: LayoutManager, n: int, amount: int)
    requires
        m.wf(),
        m.motion is Stationary,
        n > 0,
        amount >= 0,
    ensures
        match m.spec_touched_edge() {
            Some(Edge::Bottom) => !(m.mode is HorizontalStrip) && m.pagination(
                0,
                n,
                m.x as int,
                m.y + n,
                amount,
            ) == ScrollResult::Pagination(Pagination::Forwards),
            Some(Edge::Top) => !(m.mode is HorizontalStrip) && (m.y == 0 ==> m.pagination(
                0,
                -n,
                m.x as int,
                m.y - n,
                amount,
            ) == ScrollResult::Pagination(Pagination::Backwards)),
            Some(Edge::Right) => m.mode is HorizontalStrip && m.pagination(
                n,
                0,
                m.x + n,
                m.y as int,
                amount,
            ) == ScrollResult::Pagination(Pagination::Forwards),
            Some(Edge::Left) => m.mode is HorizontalStrip && (m.x == 0 ==> m.pagination(
                -n,
                0,
                m.x - n,
                m.y as int,
                amount,
            ) == ScrollResult::Pagination(Pagination::Backwards)),
            None => true,
        },
        !(m.mode is HorizontalStrip) && m.fit.page_bounds.h > 0 && m.y == m.fit.true_bounds.bottom
            && m.pagination(0, n, m.x as int, m.y + n, amount) is Pagination
            ==> m.spec_touched_edge() == Some(Edge::Bottom),
        !(m.mode is HorizontalStrip) && m.fit.page_bounds.h > 0 && m.y == 0
            && m.fit.true_bounds.top == 0 ==> m.spec_touched_edge() == Some(Edge::Top),
        m.mode is HorizontalStrip && m.fit.page_bounds.w > 0 && m.x == m.fit.true_bounds.right
            && m.pagination(n, 0, m.x + n, m.y as int, amount) is Pagination
            ==> m.spec_touched_edge() == Some(Edge::Right),
        m.mode is HorizontalStrip && m.fit.page_bounds.w > 0 && m.x == 0
            && m.fit.true_bounds.left == 0 ==> m.spec_touched_edge() == Some(Edge::Left),
        !(m.mode is HorizontalStrip) && 0 < m.y < m.fit.true_bounds.bottom
            ==> m.spec_touched_edge() is None,
        m.mode is HorizontalStrip && 0 < m.x < m.fit.true_bounds.right ==> m.spec_touched_edge()
            is None,
{
    m.contents.lemma_bounded(m.target_res, m.mode);
}

/// A snap goes to its edge of the current page: that edge is then where the edge of the window is,
/// or the page does not reach it. Nothing happens in the other direction.
pub proof fn law_snaps_reach_their_edge(m: LayoutManager)
    requires
        m.wf(),
        0 <= m.x <= m.fit.page_bounds.w,
        0 <= m.y <= m.fit.page_bounds.h,
    ensures
        ({
            let (w, h) = m.contents.first_size(m.target_res);
            let t = m.target_res.res;
            &&& m.snapped(Edge::Top).y == 0
            &&& m.snapped(Edge::Left).x == 0
            &&& m.snapped(Edge::Top).x == m.x
            &&& m.snapped(Edge::Bottom).x == m.x
            &&& m.snapped(Edge::Left).y == m.y
            &&& m.snapped(Edge::Right).y == m.y
            &&& h >= t.h && m.y + t.h <= h ==> m.snapped(Edge::Bottom).y + t.h == h
            &&& w >= t.w && m.x + t.w <= w ==> m.snapped(Edge::Right).x + t.w == w
            &&& h <= t.h ==> m.snapped(Edge::Bottom).y == m.y
            &&& w <= t.w ==> m.snapped(Edge::Right).x == m.x
        }),
{
    m.contents.lemma_bounded(m.target_res, m.mode);
}

/// A page that is being left is not brought back by a snap.
pub proof fn law_snaps_do_not_go_back(m: LayoutManager)
    requires
        m.wf(),
    ensures
        m.y < 0 ==> m.snapped(Edge::Top) == m,
        m.x < 0 ==> m.snapped(Edge::Left) == m,
        m.y > m.fit.page_bounds.h ==> m.snapped(Edge::Bottom) == m,
        m.x > m.fit.page_bounds.w ==> m.snapped(Edge::Right) == m,
{
}

/// After a snap, what is remembered of the page is its start or its end, in that direction. A
/// motion does not go on in it, and a drag ends.
pub proof fn law_motions_end_with_snaps(m: LayoutManager, edge: Edge)
    requires
        m.wf(),
        0 <= m.x <= m.fit.page_bounds.w,
        0 <= m.y <= m.fit.page_bounds.h,
        edge is Bottom ==> m.y + m.target_res.res.h <= m.contents.first_size(m.target_res).1,
        edge is Right ==> m.x + m.target_res.res.w <= m.contents.first_size(m.target_res).0,
    ensures
        ({
            let n = m.snapped(edge);
            let upright = edge is Top || edge is Bottom;
            let far = edge is Bottom || edge is Right;
            let kept = if far {
                Saved { n: 1, d: 1 }
            } else {
                Saved { n: 0, d: 1 }
            };
            &&& upright ==> n.saved == (m.saved.0, kept)
            &&& !upright ==> n.saved == (kept, m.saved.1)
            &&& !(m.motion is Smooth) ==> n.motion is Stationary
            &&& match (m.motion, n.motion) {
                (
                    Motion::Smooth { x, y, start, step },
                    Motion::Smooth { x: nx, y: ny, start: nstart, step: nstep },
                ) => {
                    &&& start == nstart
                    &&& step == nstep
                    &&& upright ==> nx == x && ny == (n.y, n.y)
                    &&& !upright ==> ny == y && nx == (n.x, n.x)
                },
                (Motion::Smooth { .. }, _) => false,
                _ => true,
            }
        }),
{
    m.contents.lemma_bounded(m.target_res, m.mode);
}

/// A page is not turned by a step that leads no further past the edge of what is laid out than the
/// usual amount, unless the edge was reached before. One that leads further turns it.
pub proof fn law_steps_past_the_edge(
    m: LayoutManager,
    dx: int,
    dy: int,
    tx: int,
    ty: int,
    amount: int,
)
    requires
        m.wf(),
        amount >= 0,
        m.contents is Single || m.contents is Dual,
        !(m.mode is HorizontalStrip),
    ensures
        dy > 0 && m.y < m.fit.true_bounds.bottom ==> {
            &&& ty - m.fit.true_bounds.bottom <= amount ==> m.pagination(dx, dy, tx, ty, amount)
                is Applied
            &&& ty - m.fit.true_bounds.bottom > amount ==> m.pagination(dx, dy, tx, ty, amount)
                == ScrollResult::Pagination(Pagination::Forwards)
        },
        dy < 0 && m.y > 0 ==> {
            &&& -ty <= amount ==> m.pagination(dx, dy, tx, ty, amount) is Applied
            &&& -ty > amount ==> m.pagination(dx, dy, tx, ty, amount) == ScrollResult::Pagination(
                Pagination::Backwards,
            )
        },
{
}

/// The pages of a row are turned in the same way, from left to right.
pub proof fn law_steps_past_the_edge_of_rows(
    m: LayoutManager,
    dx: int,
    dy: int,
    tx: int,
    ty: int,
    amount: int,
)
    requires
        m.wf(),
        amount >= 0,
        m.mode is HorizontalStrip,
        m.fit.true_bounds.right == m.fit.page_bounds.w,
        m.fit.true_bounds.left == 0,
    ensures
        dx > 0 && m.x < m.fit.true_bounds.right ==> {
            &&& tx - m.fit.true_bounds.right <= amount ==> m.pagination(dx, dy, tx, ty, amount)
                is Applied
            &&& tx - m.fit.true_bounds.right > amount ==> m.pagination(dx, dy, tx, ty, amount)
                == ScrollResult::Pagination(Pagination::Forwards)
        },
        dx < 0 && m.x > 0 ==> {
            &&& -tx <= amount ==> m.pagination(dx, dy, tx, ty, amount) is Applied
            &&& -tx > amount ==> m.pagination(dx, dy, tx, ty, amount) == ScrollResult::Pagination(
                Pagination::Backwards,
            )
        },
{
}

/// As long as pages are laid out beyond the current one, scrolling on or back just goes on to them.
pub proof fn law_strips_scroll_on(
    m: LayoutManager,
    dx: int,
    dy: int,
    tx: int,
    ty: int,
    amount: int,
)
    requires
        m.wf(),
        m.mode.is_strip(),
    ensures
        m.mode is VerticalStrip ==> {
            &&& m.fit.true_bounds.bottom > m.fit.page_bounds.h && dy > 0 ==> m.pagination(
                dx,
                dy,
                tx,
                ty,
                amount,
            ) is Applied
            &&& m.fit.true_bounds.top < 0 && dy < 0 ==> m.pagination(dx, dy, tx, ty, amount)
                is Applied
        },
        m.mode is HorizontalStrip ==> {
            &&& m.fit.true_bounds.right > m.fit.page_bounds.w && dx > 0 ==> m.pagination(
                dx,
                dy,
                tx,
                ty,
                amount,
            ) is Applied
            &&& m.fit.true_bounds.left < 0 && dx < 0 ==> m.pagination(dx, dy, tx, ty, amount)
                is Applied
        },
{
}

/// Scrolling across the direction of the pages does nothing at an edge that it goes towards, and
/// scrolls otherwise.
pub proof fn law_scrolling_across(m: LayoutManager, n: int, x: int, y: int, amount: int)
    requires
        m.wf(),
        n > 0,
    ensures
        !(m.mode is HorizontalStrip) && x < m.fit.page_bounds.w ==> m.pagination(
            n,
            0,
            x + n,
            y,
            amount,
        ) is Applied,
        !(m.mode is HorizontalStrip) && x >= m.fit.page_bounds.w ==> m.pagination(
            n,
            0,
            x + n,
            y,
            amount,
        ) is NoOp,
        !(m.mode is HorizontalStrip) && x > 0 ==> m.pagination(-n, 0, x - n, y, amount) is Applied,
        !(m.mode is HorizontalStrip) && x <= 0 ==> m.pagination(-n, 0, x - n, y, amount) is NoOp,
        m.mode is HorizontalStrip && y < m.fit.page_bounds.h ==> m.pagination(
            0,
            n,
            x,
            y + n,
            amount,
        ) is Applied,
        m.mode is HorizontalStrip && y >= m.fit.page_bounds.h ==> m.pagination(
            0,
            n,
            x,
            y + n,
            amount,
        ) is NoOp,
        m.mode is HorizontalStrip && y > 0 ==> m.pagination(0, -n, x, y - n, amount) is Applied,
        m.mode is HorizontalStrip && y <= 0 ==> m.pagination(0, -n, x, y - n, amount) is NoOp,
{
}

/// The page of a strip changes when its last line has been scrolled past, or at the end of the
/// strip if that comes first. All other pages change at their end.
pub proof fn law_where_pages_change(m: LayoutManager)
    requires
        m.wf(),
    ensures
        ({
            let (w, h) = m.contents.first_size(m.target_res);
            let b = m.fit.true_bounds;
            let p = m.fit.page_bounds;
            &&& !(m.contents is Strip) ==> p.w == b.right && p.h == b.bottom
            &&& m.contents is Strip && m.mode is VerticalStrip ==> {
                &&& p.w == b.right
                &&& h > 0 && h <= b.bottom ==> p.h + 1 == h
                &&& h > b.bottom ==> p.h == b.bottom
            }
            &&& m.contents is Strip && m.mode is HorizontalStrip ==> {
                &&& p.h == b.bottom
                &&& w > 0 && w <= b.right ==> p.w + 1 == w
                &&& w > b.right ==> p.w == b.right
            }
        }),
{
    m.contents.lemma_bounded(m.target_res, m.mode);
}

/// The end of a page is where its last line is that of the window, or its start if it is no larger.
pub proof fn law_end_of_pages(size: nat, window: nat)
    ensures
        size >= window ==> excess(size, window) + window == size,
        size <= window ==> excess(size, window) == 0,
{
}

/// A position is kept within bounds, and changed no more than it takes.
pub proof fn law_positions_within_bounds(v: int, lo: int, hi: int)
    requires
        lo <= hi,
    ensures
        lo <= clamped(v, lo, hi) <= hi,
        lo <= v <= hi ==> clamped(v, lo, hi) == v,
        v <= lo ==> clamped(v, lo, hi) == lo,
        v >= hi ==> clamped(v, lo, hi) == hi,
{
}

/// The position is headed to where its motion ends, and stays where it is without one.
pub proof fn law_where_motions_end(m: LayoutManager)
    ensures
        m.motion matches Motion::Smooth { x, y, .. } ==> {
            &&& x.0 + covered(x.1 - x.0, 166_000) == m.heading().0
            &&& y.0 + covered(y.1 - y.0, 166_000) == m.heading().1
        },
        !(m.motion is Smooth) ==> m.heading() == (m.x as int, m.y as int),
{
}

/// When a page gets another size, the same part of it is above and left of the window as before, to
/// within a line, unless it cannot be scrolled that far.
pub proof fn law_position_follows_the_size(
    m: LayoutManager,
    n: LayoutManager,
    was: Res,
    now: Res,
    bounds: Res,
)
    requires
        n.wf(),
        bounds.w > 0,
        bounds.h > 0,
        0 <= m.x <= was.w,
        0 <= m.y <= was.h,
        was.w > 0,
        was.h > 0,
    ensures
        ({
            let (x, y, _) = m.readjusted(
                n.fit,
                (now.w as nat, now.h as nat),
                (was.w as nat, was.h as nat),
                bounds,
            );
            &&& x < n.fit.page_bounds.w ==> -was.w <= x * was.w - now.w * m.x <= was.w
            &&& y < n.fit.page_bounds.h ==> -was.h <= y * was.h - now.h * m.y <= was.h
        }),
{
    law_relative_positions(m.x, was.w, now.w);
    law_relative_positions(m.y, was.h, now.h);
}

} // verus!
