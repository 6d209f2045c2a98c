//! How the window reacts to scrolling, to other contents and to changes of its own state.
use vstd::prelude::*;

use crate::com::content::{GuiContent, GuiState, LayoutCount, OffscreenContent};
use crate::com::direction::Direction;
use crate::com::displayable::Displayable;
use crate::com::one_or_two::OneOrTwo;
use crate::com::res::Res;
use crate::com::toggle::{Pagination, ScrollMotionTarget};
use crate::double::{
    double_units, lemma_double_units_monotone, lemma_double_whole, lemma_round_half_up_monotone,
    lemma_scale_by_zero, lemma_scale_near, one, round_half_up, scale_rounded, unit_exp, Fraction,
};
use crate::gui::layout::LayoutContents;
use crate::gui::layout_manager::Edge;
use crate::gui::renderer::shown_pages;
use crate::number::{decimal, push_decimal};

verus! {

/// How many pages to move by to the next ones. In dual page mode the pairs are kept together, and
/// there is no moving past the end.
pub open spec fn spec_next_jump(content: GuiContent) -> int {
    match content {
        GuiContent::Single { .. } | GuiContent::Strip { .. } => 1,
        GuiContent::Dual { next, visible, .. } => if next is Nothing {
            0
        } else if visible is One {
            1
        } else {
            2
        },
    }
}

/// How many pages to move by to the next ones.
pub fn next_jump(content: &GuiContent) -> (r: usize)
    ensures
        r == spec_next_jump(*content),
{
    match content {
        GuiContent::Single { .. } | GuiContent::Strip { .. } => 1,
        GuiContent::Dual { next: OffscreenContent::Nothing, .. } => 0,
        GuiContent::Dual { visible, .. } => visible.count(),
    }
}

/// How many pages to move by to the previous ones.
pub open spec fn spec_prev_jump(content: GuiContent) -> int {
    match content {
        GuiContent::Dual { prev, .. } => match prev {
            OffscreenContent::Nothing => 0,
            OffscreenContent::LayoutCompatible(LayoutCount::TwoOrMore) => 2,
            _ => 1,
        },
        _ => 1,
    }
}

/// How many pages to move by to the previous ones.
pub fn prev_jump(content: &GuiContent) -> (r: usize)
    ensures
        r == spec_prev_jump(*content),
{
    match content {
        GuiContent::Dual { prev, .. } => match prev {
            OffscreenContent::Nothing => 0,
            OffscreenContent::LayoutCompatible(LayoutCount::TwoOrMore) => 2,
            _ => 1,
        },
        _ => 1,
    }
}

/// A move to other pages, and where to scroll to then.
#[derive(Clone, Copy, Debug, PartialEq, Eq, Structural)]
pub struct PageMove {
    pub direction: Direction,
    pub pages: usize,
    pub target: ScrollMotionTarget,
}

/// The move of a scroll command past the edge of the pages, unless there is nothing to move to.
pub open spec fn edge_move(content: GuiContent, p: Pagination) -> Option<PageMove> {
    let pages = match p {
        Pagination::Forwards => match content {
            GuiContent::Single { .. } => 1,
            GuiContent::Dual { next, visible, .. } => if next is Nothing {
                0
            } else if visible is One {
                1
            } else {
                2
            },
            GuiContent::Strip { next, current_index, visible, .. } => if next is Nothing {
                0
            } else {
                visible@.len() - current_index
            },
        },
        Pagination::Backwards => match content {
            GuiContent::Single { .. } => 1,
            GuiContent::Dual { .. } => spec_prev_jump(content),
            GuiContent::Strip { prev, current_index, .. } => if prev is Nothing {
                0
            } else {
                current_index + 1
            },
        },
    };
    if pages == 0 {
        None
    } else {
        Some(
            PageMove {
                direction: match p {
                    Pagination::Forwards => Direction::Forwards,
                    Pagination::Backwards => Direction::Backwards,
                },
                pages: pages as usize,
                target: match p {
                    Pagination::Forwards => ScrollMotionTarget::Start,
                    Pagination::Backwards => ScrollMotionTarget::End,
                },
            },
        )
    }
}

/// The move of a scroll command past the edge of the pages, unless there is nothing to move to.
pub fn paginate(content: &GuiContent, p: Pagination) -> (r: Option<PageMove>)
    requires
        content.wf(),
    ensures
        r == edge_move(*content, p),
{
    let pages: usize = match p {
        Pagination::Forwards => match content {
            GuiContent::Single { .. } => 1,
            GuiContent::Dual { next, visible, .. } => match next {
                OffscreenContent::Nothing => return None,
                _ => visible.count(),
            },
            GuiContent::Strip { next, current_index, visible, .. } => match next {
                OffscreenContent::Nothing => return None,
                _ => visible.len() - *current_index,
            },
        },
        Pagination::Backwards => match content {
            GuiContent::Single { .. } => 1,
            GuiContent::Dual { .. } => {
                let n: usize = prev_jump(content);
                if n == 0 {
                    return None;
                }
                n
            },
            GuiContent::Strip { prev, current_index, visible, .. } => match prev {
                OffscreenContent::Nothing => return None,
                _ => {
                    let n: usize = visible.len();
                    assert(*current_index < n);
                    *current_index + 1
                },
            },
        },
    };
    Some(
        match p {
            Pagination::Forwards => PageMove {
                direction: Direction::Forwards,
                pages,
                target: ScrollMotionTarget::Start,
            },
            Pagination::Backwards => PageMove {
                direction: Direction::Backwards,
                pages,
                target: ScrollMotionTarget::End,
            },
        },
    )
}

/// The move of scrolling from one page onto the next.
pub fn continuous_pagination(p: Pagination) -> (r: PageMove)
    ensures
        r == (PageMove {
            direction: match p {
                Pagination::Forwards => Direction::Forwards,
                Pagination::Backwards => Direction::Backwards,
            },
            pages: 1,
            target: ScrollMotionTarget::Continuous(p),
        }),
{
    PageMove {
        direction: match p {
            Pagination::Forwards => Direction::Forwards,
            Pagination::Backwards => Direction::Backwards,
        },
        pages: 1,
        target: ScrollMotionTarget::Continuous(p),
    }
}

/// The offset of scrolling towards an edge by some amount.
pub open spec fn edge_offset(edge: Edge, amount: int) -> (int, int) {
    match edge {
        Edge::Bottom => (0, amount),
        Edge::Top => (0, -amount),
        Edge::Right => (amount, 0),
        Edge::Left => (-amount, 0),
    }
}

/// The offset of a scroll command, by the usual amount if it gives none.
pub fn scroll_offset(edge: Edge, given: Option<u32>, usual: u32) -> (r: (i32, i32))
    requires
        usual <= i32::MAX,
        given matches Some(n) ==> n <= i32::MAX,
    ensures
        (r.0 as int, r.1 as int) == edge_offset(
            edge,
            match given {
                Some(n) => n as int,
                None => usual as int,
            },
        ),
{
    let amount: i32 = match given {
        Some(n) => n as i32,
        None => usual as i32,
    };
    match edge {
        Edge::Bottom => (0, amount),
        Edge::Top => (0, -amount),
        Edge::Right => (amount, 0),
        Edge::Left => (-amount, 0),
    }
}

/// The edge that a step of a scroll wheel goes towards, by the signs of its axes. The vertical one
/// comes first.
pub open spec fn wheel_edge(x: int, y: int) -> Option<Edge> {
    if y > 0 {
        Some(Edge::Bottom)
    } else if y < 0 {
        Some(Edge::Top)
    } else if x > 0 {
        Some(Edge::Right)
    } else if x < 0 {
        Some(Edge::Left)
    } else {
        None
    }
}

/// The edge that a step of a scroll wheel goes towards.
pub fn discrete_scroll(x: i8, y: i8) -> (r: Option<Edge>)
    ensures
        r == wheel_edge(x as int, y as int),
{
    if y > 0 {
        Some(Edge::Bottom)
    } else if y < 0 {
        Some(Edge::Top)
    } else if x > 0 {
        Some(Edge::Right)
    } else if x < 0 {
        Some(Edge::Left)
    } else {
        None
    }
}

/// Which page the zoom level is that of, and the width that it had before scaling, if it has one.
pub open spec fn zoomed_page(content: GuiContent) -> (int, Option<u32>) {
    let (d, i) = match content {
        GuiContent::Single { current, .. } => (current, 0),
        GuiContent::Dual { visible, .. } => (visible.spec_first(), 0),
        GuiContent::Strip { visible, current_index, .. } => (
            visible@[current_index as int],
            current_index as int,
        ),
    };
    (
        i,
        match d {
            Displayable::Error(_) | Displayable::Pending | Displayable::Video(_) => None,
            Displayable::Image(img) => Some(img.original_res.w),
            Displayable::Animation(a) => Some(a.frames.frames.items()[0].0.res.w),
            Displayable::Loading { original_res, .. } => Some(original_res.w),
        },
    )
}

/// The zoom level of a page in percent, by the width that it is drawn with.
pub open spec fn zoom_percent(drawn: u32, width: Option<u32>) -> nat {
    match width {
        None => 100,
        Some(w) => if w == 0 {
            100
        } else {
            scale_rounded(100, drawn as nat, w as nat)
        },
    }
}

/// Which page the zoom level is that of, and the width that it had before scaling, if it has one.
pub fn zoom_page(content: &GuiContent) -> (r: (usize, Option<u32>))
    requires
        content.wf(),
    ensures
        (r.0 as int, r.1) == zoomed_page(*content),
{
    let (d, i): (&Displayable, usize) = match content {
        GuiContent::Single { current, .. } => (current, 0),
        GuiContent::Dual { visible, .. } => (visible.first(), 0),
        GuiContent::Strip { visible, current_index, .. } => (
            &visible[*current_index],
            *current_index,
        ),
    };
    (
        i,
        match d {
            Displayable::Error(_) | Displayable::Pending | Displayable::Video(_) => None,
            Displayable::Image(img) => Some(img.original_res.w),
            Displayable::Animation(a) => Some(a.frames.frames.index(0).0.res.w),
            Displayable::Loading { original_res, .. } => Some(original_res.w),
        },
    )
}

/// The zoom level of a page in percent, by the width that it is drawn with.
pub fn zoom_level(drawn: u32, width: Option<u32>) -> (r: u128)
    ensures
        r == zoom_percent(drawn, width),
{
    match width {
        None => 100,
        Some(w) => if w == 0 {
            100
        } else if drawn == 0 {
            proof {
                crate::double::lemma_scale_by_zero(100, w as nat);
            }
            0
        } else {
            let f = Fraction::new(drawn, w);
            assert(f.is_units(double_units(drawn as nat, w as nat)));
            f.product(100)
        },
    }
}

/// A zoom level in at least three places.
pub open spec fn zoom_words(percent: nat) -> Seq<char> {
    let d = decimal(percent);
    (if d.len() == 1 {
        seq![' ', ' ']
    } else if d.len() == 2 {
        seq![' ']
    } else {
        seq![]
    }) + d + seq!['%']
}

/// A zoom level in at least three places.
pub fn zoom_text(percent: u64) -> (s: String)
    ensures
        s@ == zoom_words(percent as nat),
{
    let mut s = String::new();
    proof {
        lemma_decimal_lengths(percent as nat);
    }
    if percent < 10 {
        s.push(' ');
        s.push(' ');
    } else if percent < 100 {
        s.push(' ');
    }
    push_decimal(&mut s, percent);
    s.push('%');
    assert(s@ =~= zoom_words(percent as nat));
    s
}

proof fn lemma_decimal_lengths(n: nat)
    ensures
        n < 10 <==> decimal(n).len() == 1,
        10 <= n < 100 <==> decimal(n).len() == 2,
        decimal(n).len() >= 1,
    decreases n,
{
    if n >= 10 {
        lemma_decimal_lengths(n / 10);
    }
}

/// A page number and the number of pages.
pub fn page_label(page_num: usize, archive_len: usize) -> (s: String)
    ensures
        s@ == decimal(page_num as nat) + " / "@ + decimal(archive_len as nat),
{
    let mut s = String::new();
    push_decimal(&mut s, page_num as u64);
    s.append(" / ");
    push_decimal(&mut s, archive_len as u64);
    assert(s@ =~= decimal(page_num as nat) + " / "@ + decimal(archive_len as nat));
    s
}

/// The title of the window.
pub fn window_title(archive_name: &str) -> (s: String)
    ensures
        s@ == archive_name@ + " - aw-man"@,
{
    let mut s = archive_name.to_owned();
    s.append(" - aw-man");
    s
}

/// The size of the window when it is neither maximized nor full screen, and whether it is.
#[derive(Clone, Copy, Debug, PartialEq, Eq, Structural)]
pub struct WindowState {
    pub maximized: bool,
    pub fullscreen: bool,
    pub memorized_size: Res,
}

impl WindowState {
    /// Follows a change of the state. The size is kept from before the change.
    pub fn changed(self, size: Res, maximized: bool, fullscreen: bool) -> (r: WindowState)
        ensures
            r.maximized == maximized,
            r.fullscreen == fullscreen,
            r.memorized_size == (if self.maximized || self.fullscreen {
                self.memorized_size
            } else {
                size
            }),
    {
        WindowState {
            maximized,
            fullscreen,
            memorized_size: if !self.maximized && !self.fullscreen {
                size
            } else {
                self.memorized_size
            },
        }
    }

    /// The size to save for the next time.
    pub fn saved_size(self, size: Res) -> (r: Res)
        ensures
            r == (if self.maximized || self.fullscreen {
                self.memorized_size
            } else {
                size
            }),
    {
        if self.maximized || self.fullscreen {
            self.memorized_size
        } else {
            size
        }
    }
}

/// What is saved of the window for the next time.
#[derive(Clone, Copy, Debug, PartialEq, Eq, Structural)]
pub struct SavedWindow {
    pub size: Res,
    pub maximized: bool,
}

impl SavedWindow {
    /// The size to open the window with. Very small windows are not created again.
    pub fn usable_size(self) -> (r: Option<Res>)
        ensures
            r == if self.size.w >= 100 && self.size.h >= 100 {
                Some(self.size)
            } else {
                None::<Res>
            },
    {
        if self.size.w >= 100 && self.size.h >= 100 {
            Some(self.size)
        } else {
            None
        }
    }

    /// Whether there is something to save that was not saved before.
    pub fn must_save(self, before: Option<SavedWindow>) -> (r: bool)
        ensures
            r == (before != Some(self)),
    {
        match before {
            Some(b) => !(b == self),
            None => true,
        }
    }
}

/// The sign that something is being loaded.
#[derive(Clone, Copy, Debug, PartialEq, Eq, Structural)]
pub enum SpinnerState {
    Hidden,
    /// To be shown after a delay.
    Waiting,
    Visible,
}

/// What to do with the sign that something is being loaded.
#[derive(Clone, Copy, Debug, PartialEq, Eq, Structural)]
pub enum SpinnerAction {
    Nothing,
    StartTimer,
    CancelTimer,
    Stop,
}

impl SpinnerState {
    /// Something is being loaded.
    pub fn start(&mut self) -> (r: SpinnerAction)
        ensures
            *final(self) == (if *old(self) is Hidden {
                SpinnerState::Waiting
            } else {
                *old(self)
            }),
            r == (if *old(self) is Hidden {
                SpinnerAction::StartTimer
            } else {
                SpinnerAction::Nothing
            }),
    {
        match *self {
            SpinnerState::Waiting | SpinnerState::Visible => SpinnerAction::Nothing,
            SpinnerState::Hidden => {
                *self = SpinnerState::Waiting;
                SpinnerAction::StartTimer
            },
        }
    }

    /// The delay is over.
    pub fn show(&mut self)
        ensures
            *final(self) is Visible,
    {
        *self = SpinnerState::Visible;
    }

    /// Nothing is being loaded any more.
    pub fn stop(&mut self) -> (r: SpinnerAction)
        ensures
            *final(self) is Hidden,
            r == match *old(self) {
                SpinnerState::Hidden => SpinnerAction::Nothing,
                SpinnerState::Waiting => SpinnerAction::CancelTimer,
                SpinnerState::Visible => SpinnerAction::Stop,
            },
    {
        let r = match *self {
            SpinnerState::Hidden => SpinnerAction::Nothing,
            SpinnerState::Waiting => SpinnerAction::CancelTimer,
            SpinnerState::Visible => SpinnerAction::Stop,
        };
        *self = SpinnerState::Hidden;
        r
    }
}

/// What to do with the layout on another state.
#[derive(Debug)]
pub enum ContentUpdate {
    /// The same is shown in the same way.
    Unchanged,
    /// Go on showing what was shown while the page is loaded.
    KeepOld,
    /// Lay out these pages.
    Layout(LayoutContents, ScrollMotionTarget),
    /// There is nothing to lay out yet, but there will be.
    Wait,
    /// There is nothing to lay out.
    Zero,
}

/// How the window takes up another state.
#[derive(Debug)]
pub struct UpdatePlan {
    /// Whether there is another space to lay out in.
    pub resized: bool,
    /// Whether something is being loaded.
    pub loading: bool,
    /// Where to scroll to later.
    pub pending: ScrollMotionTarget,
    pub content: ContentUpdate,
}

/// Whether all pages that are shown together can be laid out.
pub open spec fn displayable_together(content: GuiContent) -> bool {
    match content {
        GuiContent::Single { .. } => true,
        GuiContent::Dual { visible, .. } => visible matches OneOrTwo::Two(a, b)
            ==> a.layout_res() is Some && b.layout_res() is Some,
        GuiContent::Strip { visible, .. } => {
            ||| visible@.len() == 1
            ||| forall|i: int|
                0 <= i < visible@.len() ==> (#[trigger] visible@[i]).layout_res() is Some
        },
    }
}

/// The resolutions of pages that can be laid out.
pub open spec fn resolutions(v: Seq<Displayable>) -> Seq<Res> {
    v.map_values(|d: Displayable| d.layout_res()->0)
}

/// The contents to lay out, if there are any.
pub open spec fn contents_match(content: GuiContent, l: Option<LayoutContents>) -> bool {
    match content {
        GuiContent::Single { current, .. } => match current.layout_res() {
            Some(r) => l == Some(LayoutContents::Single(r)),
            None => l is None,
        },
        GuiContent::Dual { visible, .. } => match visible {
            OneOrTwo::One(d) => match d.layout_res() {
                Some(r) => l == Some(LayoutContents::Single(r)),
                None => l is None,
            },
            OneOrTwo::Two(a, b) => l == Some(
                LayoutContents::Dual(a.layout_res()->0, b.layout_res()->0),
            ),
        },
        GuiContent::Strip { visible, current_index, .. } => if visible@[0].layout_res() is Some {
            l matches Some(LayoutContents::Strip { current_index: i, visible: v }) && i
                == current_index && v@ == resolutions(visible@)
        } else {
            l is None
        },
    }
}

/// The contents to lay out, if there are any.
pub fn layout_contents(content: &GuiContent) -> (r: Option<LayoutContents>)
    requires
        content.wf(),
        displayable_together(*content),
    ensures
        contents_match(*content, r),
{
    match content {
        GuiContent::Single { current, .. } => match current.layout().res() {
            Some(r) => Some(LayoutContents::Single(r)),
            None => None,
        },
        GuiContent::Dual { visible, .. } => match visible {
            OneOrTwo::One(d) => match d.layout().res() {
                Some(r) => Some(LayoutContents::Single(r)),
                None => None,
            },
            OneOrTwo::Two(a, b) => Some(LayoutContents::Dual(a.unwrap_res(), b.unwrap_res())),
        },
        GuiContent::Strip { visible, current_index, .. } => {
            match visible[0].layout().res() {
                Some(_) => {},
                None => return None,
            }
            let mut v: Vec<Res> = Vec::new();
            let mut i: usize = 0;
            while i < visible.len()
                invariant
                    i <= visible@.len(),
                    forall|j: int| 0 <= j < visible@.len() ==> (#[trigger] visible@[j]).wf(),
                    forall|j: int|
                        0 <= j < visible@.len() ==> (#[trigger] visible@[j]).layout_res() is Some,
                    v@ == resolutions(visible@).take(i as int),
                decreases visible.len() - i,
            {
                v.push(visible[i].unwrap_res());
                i += 1;
                assert(resolutions(visible@).take(i as int) =~= resolutions(visible@).take(
                    i - 1,
                ).push(resolutions(visible@)[i - 1]));
            }
            assert(resolutions(visible@).take(i as int) =~= resolutions(visible@));
            Some(LayoutContents::Strip { current_index: *current_index, visible: v })
        },
    }
}

/// Where to scroll to on a state: where the action says, or where an earlier one did.
pub open spec fn wanted_target(
    target: ScrollMotionTarget,
    pending: ScrollMotionTarget,
) -> ScrollMotionTarget {
    if target is Maintain {
        pending
    } else {
        target
    }
}

/// What stays pending when an action says where to scroll to.
pub open spec fn left_pending(
    target: ScrollMotionTarget,
    pending: ScrollMotionTarget,
) -> ScrollMotionTarget {
    if target is Maintain {
        ScrollMotionTarget::Maintain
    } else {
        pending
    }
}

/// Whether a single page is not there yet.
pub open spec fn single_is_ongoing(content: GuiContent) -> bool {
    content matches GuiContent::Single { current, .. } && current.spec_ongoing()
}

/// How the window takes up another state. A single page that is not there yet does not replace
/// what is shown of the same archive.
pub open spec fn update_plan(
    old: GuiState,
    new: GuiState,
    target: ScrollMotionTarget,
    pending: ScrollMotionTarget,
    plan: UpdatePlan,
) -> bool {
    let wanted = wanted_target(target, pending);
    &&& plan.resized == (old.target_res != new.target_res)
    &&& plan.loading == new.content.spec_ongoing_work()
    &&& if old.content.same(new.content) && old.modes.display == new.modes.display {
        plan.content is Unchanged && plan.pending == left_pending(target, pending)
    } else if single_is_ongoing(new.content) && old.archive_id == new.archive_id {
        plan.content is KeepOld && plan.pending == wanted
    } else {
        match plan.content {
            ContentUpdate::Layout(l, t) => {
                &&& contents_match(new.content, Some(l))
                &&& t == wanted
                &&& plan.pending == left_pending(target, pending)
            },
            ContentUpdate::Wait => {
                &&& contents_match(new.content, None)
                &&& new.content.spec_ongoing_work()
                &&& plan.pending == wanted
            },
            ContentUpdate::Zero => {
                &&& contents_match(new.content, None)
                &&& !new.content.spec_ongoing_work()
                &&& plan.pending == left_pending(target, pending)
            },
            _ => false,
        }
    }
}

/// How the window takes up another state.
pub fn plan_update(
    old: &GuiState,
    new: &GuiState,
    target: ScrollMotionTarget,
    pending: ScrollMotionTarget,
) -> (plan: UpdatePlan)
    requires
        new.content.wf(),
        displayable_together(new.content),
    ensures
        update_plan(*old, *new, target, pending, plan),
{
    let resized: bool = !(old.target_res == new.target_res);
    let loading: bool = new.content.ongoing_work();
    let (wanted, left): (ScrollMotionTarget, ScrollMotionTarget) = match target {
        ScrollMotionTarget::Maintain => (pending, ScrollMotionTarget::Maintain),
        _ => (target, pending),
    };
    if old.content.is_same(&new.content) && old.modes.display == new.modes.display {
        return UpdatePlan { resized, loading, pending: left, content: ContentUpdate::Unchanged };
    }
    let ongoing: bool = match &new.content {
        GuiContent::Single { current, .. } => current.is_ongoing_work(),
        _ => false,
    };
    if ongoing && old.archive_id == new.archive_id {
        return UpdatePlan { resized, loading, pending: wanted, content: ContentUpdate::KeepOld };
    }
    match layout_contents(&new.content) {
        Some(l) => UpdatePlan {
            resized,
            loading,
            pending: left,
            content: ContentUpdate::Layout(l, wanted),
        },
        None => if loading {
            UpdatePlan { resized, loading, pending: wanted, content: ContentUpdate::Wait }
        } else {
            UpdatePlan { resized, loading, pending: left, content: ContentUpdate::Zero }
        },
    }
}

/// Turning to the next pages passes over those that are shown, and turning back to the previous
/// ones over as many as are shown then. A strip goes on by one page. Two pages are not left where
/// there is nothing beyond them.
pub proof fn law_jumps(content: GuiContent)
    ensures
        content is Single || content is Strip ==> spec_next_jump(content) == 1 && spec_prev_jump(
            content,
        ) == 1,
        content matches GuiContent::Dual { prev, visible, next } ==> {
            &&& next is Nothing <==> spec_next_jump(content) == 0
            &&& prev is Nothing <==> spec_prev_jump(content) == 0
            &&& !(next is Nothing) ==> spec_next_jump(content) == shown_pages(content).len()
            &&& spec_prev_jump(content) == 2 <==> prev == OffscreenContent::LayoutCompatible(
                LayoutCount::TwoOrMore,
            )
            &&& 0 <= spec_prev_jump(content) <= 2
        },
{
}

/// Scrolling past an edge leads to the first page that is not shown: forwards to the one behind the
/// last, seen from its start, and backwards to the one before the first, seen from its end. There
/// is no such move where there is nothing beyond a strip or a pair.
pub proof fn law_moves_past_the_edge(content: GuiContent)
    requires
        content.wf(),
    ensures
        edge_move(content, Pagination::Forwards) matches Some(m) ==> m.direction is Forwards
            && m.target is Start,
        edge_move(content, Pagination::Backwards) matches Some(m) ==> m.direction is Backwards
            && m.target is End,
        content is Single ==> (edge_move(content, Pagination::Forwards) matches Some(m) && m.pages
            == 1) && (edge_move(content, Pagination::Backwards) matches Some(m) && m.pages == 1),
        content matches GuiContent::Dual { prev, next, .. } ==> {
            &&& edge_move(content, Pagination::Forwards) is None <==> next is Nothing
            &&& edge_move(content, Pagination::Backwards) is None <==> prev is Nothing
            &&& edge_move(content, Pagination::Forwards) matches Some(m) ==> m.pages
                == shown_pages(content).len()
            &&& edge_move(content, Pagination::Backwards) matches Some(m) ==> m.pages
                == if prev == OffscreenContent::LayoutCompatible(LayoutCount::TwoOrMore) {
                2int
            } else {
                1
            }
        },
        content matches GuiContent::Strip { prev, current_index, visible, next } ==> {
            &&& edge_move(content, Pagination::Forwards) is None <==> next is Nothing
            &&& edge_move(content, Pagination::Backwards) is None <==> prev is Nothing
            &&& visible@.len() < usize::MAX ==> {
                &&& edge_move(content, Pagination::Forwards) matches Some(m) ==> current_index
                    + m.pages == visible@.len()
                &&& edge_move(content, Pagination::Backwards) matches Some(m) ==> current_index
                    - m.pages == -1
            }
        },
{
}

/// Scrolling goes the way of its edge and no other, and towards opposite edges by opposite amounts.
pub proof fn law_scrolling_goes_its_way(edge: Edge, n: int)
    requires
        n > 0,
    ensures
        edge is Bottom || edge is Top ==> edge_offset(edge, n).0 == 0,
        edge is Left || edge is Right ==> edge_offset(edge, n).1 == 0,
        edge is Bottom || edge is Right ==> edge_offset(edge, n).0 + edge_offset(edge, n).1 == n,
        edge is Top || edge is Left ==> edge_offset(edge, n).0 + edge_offset(edge, n).1 == -n,
{
}

/// A step of a scroll wheel goes the way that its axis points, and along the vertical one if both
/// do.
pub proof fn law_wheel_goes_its_way(x: int, y: int)
    ensures
        wheel_edge(x, y) is None <==> x == 0 && y == 0,
        wheel_edge(x, y) == Some(Edge::Bottom) <==> y > 0,
        wheel_edge(x, y) == Some(Edge::Top) <==> y < 0,
        wheel_edge(x, y) == Some(Edge::Right) <==> y == 0 && x > 0,
        wheel_edge(x, y) == Some(Edge::Left) <==> y == 0 && x < 0,
{
}

/// The zoom level is that of the current page of a strip, or of the first page otherwise, by the
/// width that it had before all scaling.
pub proof fn law_zoom_of_current_page(content: GuiContent)
    requires
        content.wf(),
    ensures
        0 <= zoomed_page(content).0 < shown_pages(content).len(),
        content matches GuiContent::Strip { current_index, .. } ==> zoomed_page(content).0
            == current_index,
        !(content is Strip) ==> zoomed_page(content).0 == 0,
        match shown_pages(content)[zoomed_page(content).0] {
            Displayable::Image(i) => zoomed_page(content).1 == Some(i.original_res.w),
            Displayable::Loading { original_res, .. } => zoomed_page(content).1 == Some(
                original_res.w,
            ),
            Displayable::Animation(a) => zoomed_page(content).1 == Some(
                a.frames.frames.items()[0].0.res.w,
            ),
            _ => zoomed_page(content).1 is None,
        },
{
}

/// A page that is drawn wider has no lesser zoom level. One that is drawn with a multiple of its
/// width has that many times 100 percent, and one that is drawn with less has its part of 100, to
/// within one percent.
pub proof fn law_zoom_levels(drawn: u32, wider: u32, w: u32, times: u32)
    requires
        w > 0,
        drawn <= wider,
    ensures
        zoom_percent(drawn, Some(w)) <= zoom_percent(wider, Some(w)),
        drawn == times * w ==> zoom_percent(drawn, Some(w)) == 100 * times,
        drawn < w ==> -w <= zoom_percent(drawn, Some(w)) * w - 100 * drawn <= w,
        zoom_percent(drawn, None) == 100,
{
    let n = drawn as nat;
    let m = wider as nat;
    let d = w as nat;
    let o = one();
    vstd::arithmetic::power2::lemma_pow2_pos(unit_exp());
    assert(n * d <= m * d) by (nonlinear_arith)
        requires
            n <= m,
    ;
    lemma_double_units_monotone(n, d, m, d);
    let u = double_units(n, d);
    let v = double_units(m, d);
    assert((100 * u) * o <= (100 * v) * o) by (nonlinear_arith)
        requires
            u <= v,
    ;
    lemma_double_units_monotone(100 * u, o, 100 * v, o);
    lemma_round_half_up_monotone(
        double_units(100 * u, o) as int,
        double_units(100 * v, o) as int,
        o as int,
    );
    assert(round_half_up(double_units(100 * u, o) as int, o as int) >= 0) by {
        let x = double_units(100 * u, o) as int;
        vstd::arithmetic::div_mod::lemma_div_pos_is_pos(2 * x + o, (2 * o) as int);
    }
    if n < d {
        if n == 0 {
            lemma_scale_by_zero(100, d);
            assert(0 * d == 0) by (nonlinear_arith);
        } else {
            lemma_scale_near(100, n, d);
        }
    }
    if drawn == times * w {
        let k = times as nat;
        assert(n * 1 <= k * d && k * d <= n * 1);
        lemma_double_units_monotone(n, d, k, 1);
        lemma_double_units_monotone(k, 1, n, d);
        lemma_double_whole(k);
        assert(u == k * o);
        let t = 100 * k;
        assert((100 * u) * 1 <= t * o && t * o <= (100 * u) * 1) by (nonlinear_arith)
            requires
                u == k * o,
                t == 100 * k,
        ;
        lemma_double_units_monotone(100 * u, o, t, 1);
        lemma_double_units_monotone(t, 1, 100 * u, o);
        lemma_double_whole(t);
        assert(round_half_up((t * o) as int, o as int) == t) by {
            assert(2 * (t * o) + o == t * (2 * o) + o) by (nonlinear_arith);
            vstd::arithmetic::div_mod::lemma_fundamental_div_mod_converse(
                (2 * (t * o) + o) as int,
                (2 * o) as int,
                t as int,
                o as int,
            );
        }
    }
}

/// A zoom level takes up the same place whatever it is, up to three digits: it stands at the end of
/// it, before the sign for percent.
pub proof fn law_zoom_words(percent: nat)
    ensures
        zoom_words(percent).last() == '%',
        percent < 1000 ==> zoom_words(percent).len() == 4,
        percent >= 1000 ==> zoom_words(percent).len() == decimal(percent).len() + 1,
        zoom_words(percent).subrange(
            zoom_words(percent).len() - 1 - decimal(percent).len(),
            zoom_words(percent).len() - 1,
        ) == decimal(percent),
        forall|i: int|
            0 <= i < zoom_words(percent).len() - 1 - decimal(percent).len() ==> #[trigger] zoom_words(
                percent,
            )[i] == ' ',
{
    lemma_decimal_lengths(percent);
    if percent >= 100 {
        let p = percent / 10;
        lemma_decimal_lengths(p);
        assert(decimal(percent).len() == decimal(p).len() + 1);
    }
    assert(zoom_words(percent).subrange(
        zoom_words(percent).len() - 1 - decimal(percent).len(),
        zoom_words(percent).len() - 1,
    ) =~= decimal(percent));
}

/// What is laid out are the pages that are shown, one by one, each by its own resolution.
pub proof fn law_shown_pages_are_laid_out(content: GuiContent, l: LayoutContents, i: int)
    requires
        content.wf(),
        displayable_together(content),
        contents_match(content, Some(l)),
        0 <= i < shown_pages(content).len(),
    ensures
        shown_pages(content)[i].layout_res() == Some(
            match l {
                LayoutContents::Single(r) => r,
                LayoutContents::Dual(a, b) => if i == 0 {
                    a
                } else {
                    b
                },
                LayoutContents::Strip { visible, .. } => visible@[i],
            },
        ),
        match l {
            LayoutContents::Single(_) => shown_pages(content).len() == 1 && !(content is Strip),
            LayoutContents::Dual(..) => shown_pages(content).len() == 2 && content is Dual,
            LayoutContents::Strip { current_index, visible } => visible@.len() == shown_pages(
                content,
            ).len() && content is Strip && current_index == zoomed_page(content).0,
        },
{
}

/// Where an action says to scroll to is not lost: it is done when pages are laid out, or kept until
/// they are. An action that says nothing leaves that to an earlier one, whose wish is done once.
pub proof fn law_no_scroll_target_is_lost(
    old: GuiState,
    new: GuiState,
    target: ScrollMotionTarget,
    pending: ScrollMotionTarget,
    plan: UpdatePlan,
)
    requires
        update_plan(old, new, target, pending, plan),
    ensures
        plan.content matches ContentUpdate::Layout(_, t) ==> {
            &&& t == if target == ScrollMotionTarget::Maintain {
                pending
            } else {
                target
            }
            &&& target == ScrollMotionTarget::Maintain ==> plan.pending
                == ScrollMotionTarget::Maintain
        },
        plan.content is KeepOld || plan.content is Wait ==> plan.pending == if target
            == ScrollMotionTarget::Maintain {
            pending
        } else {
            target
        },
{
}

/// Pages are laid out anew only when others are shown or in another way. What is shown of an
/// archive stays while a single page of it is loaded. Without anything to lay out one waits where
/// there is more to come.
pub proof fn law_when_pages_are_laid_out(
    old: GuiState,
    new: GuiState,
    target: ScrollMotionTarget,
    pending: ScrollMotionTarget,
    plan: UpdatePlan,
)
    requires
        new.content.wf(),
        displayable_together(new.content),
        update_plan(old, new, target, pending, plan),
    ensures
        plan.resized <==> old.target_res != new.target_res,
        plan.loading == new.content.spec_ongoing_work(),
        plan.content is Unchanged <==> old.content.same(new.content) && old.modes.display
            == new.modes.display,
        plan.content is KeepOld ==> new.content is Single && old.archive_id == new.archive_id
            && plan.loading,
        plan.content is Layout ==> forall|i: int|
            0 <= i < shown_pages(new.content).len() ==> (#[trigger] shown_pages(
                new.content,
            )[i]).layout_res() is Some,
        plan.content is Wait ==> plan.loading,
        plan.content is Zero ==> !plan.loading,
        plan.content is Wait || plan.content is Zero ==> shown_pages(new.content)[0].layout_res()
            is None,
{
    if let ContentUpdate::Layout(l, _) = plan.content {
        assert forall|i: int| 0 <= i < shown_pages(new.content).len() implies (
        #[trigger] shown_pages(new.content)[i]).layout_res() is Some by {
            law_shown_pages_are_laid_out(new.content, l, i);
        }
    }
}

} // verus!
