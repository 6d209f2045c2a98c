use aw_man::com::mode::{DisplayMode, Fit};
use aw_man::com::res::{Res, TargetRes};
use aw_man::com::toggle::{Pagination, ScrollMotionTarget};
use aw_man::gui::layout::LayoutContents;
use aw_man::gui::layout_manager::{
    Edge, LayoutManager, Motion, Saved, ScrollResult, SCROLL_DURATION,
};

fn res(w: u32, h: u32) -> Res {
    Res { w, h }
}

fn manager(fit: Fit, mode: DisplayMode, contents: LayoutContents) -> LayoutManager {
    let mut m = LayoutManager::new();
    let half_width = mode == DisplayMode::DualPage || mode == DisplayMode::DualPageReversed;
    m.update_container(TargetRes { res: res(1000, 1000), fit, half_width });
    m.update_contents(contents, ScrollMotionTarget::Start, mode);
    m
}

fn large() -> LayoutManager {
    manager(Fit::FullSize, DisplayMode::Single, LayoutContents::Single(res(2000, 3000)))
}

fn strip(mode: DisplayMode, current_index: usize) -> LayoutManager {
    let visible = vec![res(500, 600), res(400, 700), res(1000, 800)];
    manager(Fit::FullSize, mode, LayoutContents::Strip { current_index, visible })
}

#[test]
fn small_pages_are_centred() {
    let m = manager(Fit::Container, DisplayMode::Single, LayoutContents::Single(res(500, 200)));
    assert_eq!(m.layout(), vec![(250, 400, res(500, 200))]);
    assert_eq!((m.x, m.y), (0, 0));
    assert_eq!(m.touched_edge(), None);
}

#[test]
fn pages_fitted_inside_need_no_scrolling() {
    let m = manager(Fit::Container, DisplayMode::Single, LayoutContents::Single(res(2000, 8000)));
    assert_eq!(m.layout(), vec![(375, 0, res(250, 1000))]);
    assert_eq!((m.fit.page_bounds.w, m.fit.page_bounds.h), (0, 0));
}

#[test]
fn large_pages_are_scrolled() {
    let mut m = large();
    assert_eq!(m.fit.page_bounds, res(1000, 2000));
    assert_eq!(m.layout(), vec![(0, 0, res(2000, 3000))]);
    assert_eq!(m.apply_delta(100, 500).2, ScrollResult::Applied);
    assert_eq!(m.layout(), vec![(-100, -500, res(2000, 3000))]);
    assert_eq!(m.apply_delta(5000, 5000).2, ScrollResult::Applied);
    assert_eq!((m.x, m.y), (1000, 2000));
    assert_eq!(m.apply_delta(1, 1).2, ScrollResult::NoOp);
}

#[test]
fn pages_begin_or_end_where_asked() {
    let mut m = large();
    m.update_contents(
        LayoutContents::Single(res(1500, 4000)),
        ScrollMotionTarget::End,
        DisplayMode::Single,
    );
    assert_eq!((m.x, m.y), (500, 3000));
    m.update_contents(
        LayoutContents::Single(res(1500, 4000)),
        ScrollMotionTarget::Start,
        DisplayMode::Single,
    );
    assert_eq!((m.x, m.y), (0, 0));
}

#[test]
fn the_place_in_a_page_is_kept() {
    let mut m = large();
    m.apply_delta(500, 1000);
    m.update_contents(
        LayoutContents::Single(res(3000, 5000)),
        ScrollMotionTarget::Maintain,
        DisplayMode::Single,
    );
    assert_eq!((m.x, m.y), (750, 1667));
}

#[test]
fn scrolling_past_the_end_turns_the_page() {
    let mut m = large();
    assert_eq!(m.apply_smooth_scroll(0, 300, 300, 0), ScrollResult::Applied);
    m = large();
    m.apply_delta(0, 2000);
    assert_eq!(
        m.apply_smooth_scroll(0, 300, 300, 0),
        ScrollResult::Pagination(Pagination::Forwards)
    );
    m = large();
    assert_eq!(
        m.apply_smooth_scroll(0, -300, 300, 0),
        ScrollResult::Pagination(Pagination::Backwards)
    );
}

#[test]
fn scrolling_sideways_does_not_turn_the_page() {
    let mut m = large();
    assert_eq!(m.apply_smooth_scroll(-300, 0, 300, 0), ScrollResult::NoOp);
    assert_eq!(m.apply_smooth_scroll(300, 0, 300, 0), ScrollResult::Applied);
    m = large();
    m.apply_delta(1000, 0);
    assert_eq!(m.apply_smooth_scroll(300, 0, 300, 0), ScrollResult::NoOp);
    let mut row = strip(DisplayMode::HorizontalStrip, 0);
    assert_eq!(
        row.apply_smooth_scroll(-300, 0, 300, 0),
        ScrollResult::Pagination(Pagination::Backwards)
    );
    assert_eq!(row.apply_smooth_scroll(0, -300, 300, 0), ScrollResult::NoOp);
}

#[test]
fn smooth_motion_takes_its_time() {
    let mut m = large();
    m.apply_smooth_scroll(0, 300, 300, 1_000_000);
    assert_eq!(m.smooth_step(1_000_000 + u64::from(SCROLL_DURATION) / 2), ScrollResult::Applied);
    assert_eq!(m.y, 150);
    assert!(matches!(m.motion, Motion::Smooth { .. }));
    m.smooth_step(1_000_000 + u64::from(SCROLL_DURATION));
    assert_eq!(m.y, 300);
    assert!(matches!(m.motion, Motion::Stationary));
}

#[test]
fn dragging() {
    let mut m = large();
    assert_eq!(m.apply_drag_update(10, 10), ScrollResult::NoOp);
    m.start_drag();
    assert_eq!(m.apply_drag_update(10, 20), ScrollResult::Applied);
    assert_eq!(m.apply_drag_update(15, 15), ScrollResult::Applied);
    assert_eq!((m.x, m.y), (15, 15));
    m.end_drag();
    assert!(matches!(m.motion, Motion::Stationary));
}

#[test]
fn snapping() {
    let mut m = large();
    m.snap(Edge::Bottom);
    assert_eq!((m.x, m.y), (0, 2000));
    m.snap(Edge::Right);
    assert_eq!((m.x, m.y), (1000, 2000));
    m.snap(Edge::Top);
    m.snap(Edge::Left);
    assert_eq!((m.x, m.y), (0, 0));
}

#[test]
fn edges_are_shown() {
    let mut m = large();
    assert_eq!(m.touched_edge(), Some(Edge::Top));
    m.apply_delta(0, 10);
    assert_eq!(m.touched_edge(), None);
    m.apply_delta(0, 5000);
    assert_eq!(m.touched_edge(), Some(Edge::Bottom));
    let icons = [Edge::Top, Edge::Bottom, Edge::Left, Edge::Right].map(|e| e.icon());
    for i in 0..4 {
        for j in 0..i {
            assert_ne!(icons[i], icons[j]);
        }
    }
}

#[test]
fn two_pages_touch() {
    let c = || LayoutContents::Dual(res(400, 1000), res(300, 800));
    let m = manager(Fit::Container, DisplayMode::DualPage, c());
    let v = m.layout();
    assert_eq!(v.len(), 2);
    assert_eq!(v[1].0, v[0].0 + 400);
    let m = manager(Fit::Container, DisplayMode::DualPageReversed, c());
    let v = m.layout();
    assert_eq!(v[0].0, v[1].0 + 300);
}

#[test]
fn pages_of_a_strip_follow_one_another() {
    let m = strip(DisplayMode::VerticalStrip, 0);
    let v = m.layout();
    assert_eq!(v[0], (250, 0, res(500, 600)));
    assert_eq!(v[1], (300, 600, res(400, 700)));
    assert_eq!(v[2], (0, 1300, res(1000, 800)));
    let m = strip(DisplayMode::HorizontalStrip, 0);
    let v = m.layout();
    assert_eq!(v[1].0, v[0].0 + 500);
    assert_eq!(v[2].0, v[1].0 + 400);
}

#[test]
fn the_current_page_of_a_strip_is_at_the_top() {
    let m = strip(DisplayMode::VerticalStrip, 1);
    let v = m.layout();
    assert_eq!(v[1].1, 0);
    assert_eq!(v[0].1, -600);
}

#[test]
fn scrolling_goes_on_in_the_next_page_of_a_strip() {
    let mut m = strip(DisplayMode::VerticalStrip, 0);
    assert_eq!(m.fit.page_bounds.h, 599);
    let (_, _, r) = m.apply_delta(0, 700);
    assert_eq!(r, ScrollResult::Pagination(Pagination::Forwards));
    assert_eq!(m.y, 700);
    let visible = vec![res(500, 600), res(400, 700), res(1000, 800)];
    m.update_contents(
        LayoutContents::Strip { current_index: 1, visible },
        ScrollMotionTarget::Continuous(Pagination::Forwards),
        DisplayMode::VerticalStrip,
    );
    assert_eq!(m.y, 100);
    assert_eq!(m.layout()[1].1, -100);
}

#[test]
fn nothing_to_lay_out() {
    let mut m = large();
    m.apply_delta(10, 10);
    m.zero();
    assert_eq!((m.x, m.y), (0, 0));
}

#[test]
fn touchpads_scroll_at_once() {
    let mut m = large();
    m.apply_smooth_scroll(0, 300, 300, 0);
    assert!(matches!(m.motion, Motion::Smooth { .. }));
    assert_eq!(m.pad_scroll(40, 70), ScrollResult::Applied);
    assert!(matches!(m.motion, Motion::Stationary));
    assert_eq!((m.x, m.y), (40, 70));
    assert_eq!(m.pad_scroll(-100, -100), ScrollResult::Applied);
    assert_eq!((m.x, m.y), (0, 0));
    assert_eq!(m.pad_scroll(-1, -1), ScrollResult::NoOp);
}

#[test]
fn positions_are_counted_in_32_bits() {
    let most = i32::MAX as u32;
    let target = TargetRes { res: res(1000, 1000), fit: Fit::FullSize, half_width: false };
    let single = |w: u32, h: u32| LayoutContents::Single(res(w, h));
    assert!(single(most, most).is_countable(target, DisplayMode::Single));
    assert!(!single(most + 1, 1).is_countable(target, DisplayMode::Single));
    assert!(!LayoutContents::Dual(res(most, 1), res(1, 1)).is_countable(target, DisplayMode::DualPage));
    let pages = |r: Res| LayoutContents::Strip { current_index: 1, visible: vec![r, r] };
    let half = most / 2;
    assert!(pages(res(most, half)).is_countable(target, DisplayMode::VerticalStrip));
    assert!(!pages(res(most, half)).is_countable(target, DisplayMode::HorizontalStrip));
    assert!(!pages(res(1, half + 1)).is_countable(target, DisplayMode::VerticalStrip));
    // What is fitted counts, and not how large it was.
    let fitted = TargetRes { fit: Fit::Container, ..target };
    assert!(single(u32::MAX, u32::MAX).is_countable(fitted, DisplayMode::Single));
}

#[test]
fn large_pages_are_scrolled_to_their_ends() {
    let most = i32::MAX;
    let contents = LayoutContents::Single(res(most as u32, most as u32));
    let mut m = manager(Fit::FullSize, DisplayMode::Single, contents);
    assert_eq!(m.apply_delta(most, 5), (1000, 0, ScrollResult::Applied));
    assert_eq!((m.x, m.y), (most - 1000, 5));
    assert_eq!(m.layout(), vec![(1000 - most, -5, res(most as u32, most as u32))]);
    assert_eq!(m.apply_delta(1000, 0), (1000, 0, ScrollResult::NoOp));
    assert_eq!(m.pad_scroll(most, i32::MIN), ScrollResult::Applied);
    assert_eq!((m.x, m.y), (most - 1000, 0));
    let target = TargetRes { res: res(1000, 1000), fit: Fit::Container, half_width: false };
    m.update_container(target);
    assert_eq!((m.x, m.y), (0, 0));
}

#[test]
fn drags_go_as_far_as_they_can() {
    let mut m = large();
    m.start_drag();
    assert_eq!(m.apply_drag_update(i32::MAX, -1), ScrollResult::Applied);
    assert!(matches!(m.motion, Motion::Dragging { offset: (1000, 0) }));
    assert_eq!(m.apply_drag_update(i32::MIN, 0), ScrollResult::Applied);
    assert!(matches!(m.motion, Motion::Dragging { offset: (0, 0) }));
    assert_eq!((m.x, m.y), (0, 0));
}

#[test]
fn far_motions_end_at_the_edge() {
    let mut m = large();
    assert_eq!(m.apply_smooth_scroll(0, i32::MAX, i32::MAX, 0), ScrollResult::Applied);
    assert_eq!(m.smooth_step(1), ScrollResult::Applied);
    assert_eq!(m.y, 2000);
    assert_eq!(m.smooth_step(SCROLL_DURATION as u64), ScrollResult::NoOp);
    assert!(matches!(m.motion, Motion::Stationary));
}

#[test]
fn nothing_is_saved_at_first() {
    let mut m = LayoutManager::new();
    assert_eq!(m.saved, (Saved { n: 0, d: 1 }, Saved { n: 0, d: 1 }));
    assert_eq!(
        m.target_res,
        TargetRes { res: res(0, 0), fit: Fit::Container, half_width: false }
    );
    m.update_container(TargetRes { res: res(100, 100), fit: Fit::FullSize, half_width: false });
    m.update_contents(
        LayoutContents::Single(res(100, 500)),
        ScrollMotionTarget::Maintain,
        DisplayMode::Single,
    );
    assert_eq!((m.x, m.y), (0, 0));
}

#[test]
fn two_pages_are_measured_in_any_mode() {
    let two = LayoutContents::Dual(res(300, 400), res(200, 900));
    let target = TargetRes { res: res(100, 100), fit: Fit::FullSize, half_width: false };
    assert_eq!(two.first_res(target), res(500, 900));
    assert_eq!(two.first_element_end_position(target), (400, 800));
    assert_eq!(two.fit(target, DisplayMode::Single).page_bounds, res(400, 800));
}
