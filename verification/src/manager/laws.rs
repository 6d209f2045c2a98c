//! What holds of the page manager as a whole: where moves end, what actions change, which pages are
//! shown together, and which are kept.
use vstd::prelude::*;

use crate::com::action::ActionView;
use crate::com::content::{GuiContent, GuiState, LayoutCount, OffscreenContent};
use crate::com::direction::Direction;
use crate::com::displayable::Displayable;
use crate::com::mode::{DisplayMode, Fit, Modes};
use crate::com::one_or_two::OneOrTwo;
use crate::com::res::Res;
use crate::com::toggle::Toggle;
use crate::manager::archive::Archive;
use crate::manager::contents::{preload_change, scroll_dim, PreloadRangeChange};
use crate::manager::control::{only, Awaited, LoopEvent, LoopStep, Ready};
use crate::manager::current::CurrentIndices;
use crate::manager::delay::Millis;
use crate::manager::indices::{
    law_left_behind, law_moves_in_archive, law_next_shown_page, law_number_round_trip, law_order,
    law_position_round_trip, position_at, positions_up, total_places, PageIndices,
};
use crate::manager::manager::{page_of, Manager, ManagerWork, Settings};
use crate::manager::upkeep::kept_when_idle;
use crate::number::decimal;

verus! {

/// Outside of manga mode a move stays in the archive: it goes as many pages on or back as it is asked
/// to, or to the page of a given index, but not past the first or the last page.
pub proof fn law_moves_stay_in_the_archive(m: Manager, d: Direction, n: usize)
    requires
        m.current.valid(m.counts()),
        m.counts().len() <= usize::MAX,
        !m.modes.manga,
    ensures
        ({
            let c = m.current.first();
            let last = m.counts()[c.archive_index()] - 1;
            let wanted: int = match d {
                Direction::Forwards => c.page_index() + n,
                Direction::Backwards => c.page_index() - n,
                Direction::Absolute => n as int,
            };
            &&& m.move_end(d, n) matches Some(e)
            &&& e.first().archive_index() == c.archive_index()
            &&& 0 <= wanted <= last ==> e.first().page_index() == wanted
            &&& wanted < 0 ==> e.first().page_index() == 0
            &&& wanted > last && last >= 0 ==> e.first().page_index() == last
            &&& e.last() == e.first()
        }),
{
    law_moves_in_archive(m.counts(), m.current.first(), d, n as nat);
}

/// In manga mode a move goes on in other archives: it goes as many places on or back as it is asked
/// to where that many are open. To the page of a given index it goes in the current archive.
pub proof fn law_moves_go_on_in_manga_mode(m: Manager, d: Direction, n: usize)
    requires
        m.current.valid(m.counts()),
        m.counts().len() <= usize::MAX,
        m.modes.manga,
    ensures
        ({
            let c = m.current.first();
            let at = c.number(m.counts());
            let e = m.move_end(d, n);
            &&& d is Forwards ==> (e is Some <==> at + n < total_places(m.counts()))
            &&& d is Forwards && e is Some ==> e->0.first().number(m.counts()) == at + n
            &&& d is Backwards ==> (e is Some <==> n <= at)
            &&& d is Backwards && e is Some ==> e->0.first().number(m.counts()) == at - n
            &&& d is Absolute ==> e is Some && e->0.first().archive_index() == c.archive_index()
            &&& d is Absolute && n < m.counts()[c.archive_index()] ==> e->0.first().page_index()
                == n
            &&& e matches Some(e) ==> e.last() == e.first() && e.valid(m.counts())
        }),
{
    let c = m.current.first();
    let counts = m.counts();
    law_number_round_trip(counts, c);
    let at = c.number(counts);
    if at + n < total_places(counts) {
        law_position_round_trip(counts, (at + n) as nat);
    }
    if n <= at {
        law_position_round_trip(counts, (at - n) as nat);
    }
    law_moves_in_archive(counts, c, Direction::Absolute, n as nat);
}

/// A move that goes further than all archives ends at the first or the last place of the queue.
pub proof fn law_moves_end_at_the_edge(m: Manager, d: Direction, n: usize)
    requires
        m.current.valid(m.counts()),
        m.counts().len() <= usize::MAX,
        m.modes.manga,
        m.move_end(d, n) is None,
    ensures
        m.move_edge(d, n).valid(m.counts()),
        d is Forwards ==> m.move_edge(d, n).first().number(m.counts()) + 1 == total_places(
            m.counts(),
        ),
        d is Backwards ==> m.move_edge(d, n).first().number(m.counts()) == 0,
{
    let c = m.current.first();
    law_number_round_trip(m.counts(), c);
    law_position_round_trip(m.counts(), c.later_number(m.counts(), n as nat));
    law_position_round_trip(m.counts(), c.earlier_number(m.counts(), n as nat));
}

/// Only going back by a single page leaves that page alone where two are shown side by side.
pub proof fn law_pages_that_stay_alone(m: Manager, d: Direction, n: usize)
    requires
        m.move_end(d, n) is Some,
    ensures
        m.move_end(d, n)->0 is Dual <==> d is Backwards && n == 1 && (m.modes.display is DualPage
            || m.modes.display is DualPageReversed),
        !(m.move_end(d, n)->0 matches CurrentIndices::Dual(OneOrTwo::Two(_, _))),
{
}

/// The next and the previous archive are shown from their first page.
pub proof fn law_archives_are_shown_from_the_start(m: Manager)
    requires
        m.current.valid(m.counts()),
        m.counts().len() <= usize::MAX,
    ensures
        ({
            let a = m.current.first().archive_index();
            &&& match m.archive_end(Direction::Forwards) {
                Some(e) => e.first().archive_index() == a + 1 && e.first().page_index() == 0
                    && e.valid(m.counts()),
                None => a + 1 == m.counts().len(),
            }
            &&& match m.archive_end(Direction::Backwards) {
                Some(e) => e.first().archive_index() == a - 1 && e.first().page_index() == 0
                    && e.valid(m.counts()),
                None => a == 0,
            }
        }),
{
}

/// An action changes the mode that it is for, and no other. A switch is on after it was switched on,
/// off after it was switched off, and something else after it was changed. The current page stays.
pub proof fn law_actions_change_their_mode(
    m: Manager,
    s: Settings,
    now: Millis,
    archives: Vec<Archive>,
    fit: Fit,
    display: DisplayMode,
    t: Toggle,
    r: Res,
)
    ensures
        m.after(s, ActionView::FitStrategy(fit), now, archives).modes == (Modes { fit, ..m.modes }),
        m.after(s, ActionView::Display(display), now, archives).modes == (Modes {
            display,
            ..m.modes
        }),
        m.after(s, ActionView::Upscaling(t), now, archives).modes == (Modes {
            upscaling: match t {
                Toggle::On => true,
                Toggle::Off => false,
                Toggle::Change => !m.modes.upscaling,
            },
            ..m.modes
        }),
        m.after(s, ActionView::Manga(t), now, archives).modes == (Modes {
            manga: match t {
                Toggle::On => true,
                Toggle::Off => false,
                Toggle::Change => !m.modes.manga,
            },
            ..m.modes
        }),
        m.after(s, ActionView::Resolution(r), now, archives).modes == m.modes,
        m.after(s, ActionView::Resolution(r), now, archives).target_res == r,
        m.after(s, ActionView::FitStrategy(fit), now, archives).target_res == m.target_res,
        m.after(s, ActionView::Display(display), now, archives).target_res == m.target_res,
        m.after(s, ActionView::FitStrategy(fit), now, archives).current == m.current,
        m.after(s, ActionView::Upscaling(t), now, archives).current == m.current,
        m.after(s, ActionView::Manga(t), now, archives).current == m.current,
        m.after(s, ActionView::Resolution(r), now, archives).current == m.current,
        m.after(s, ActionView::Display(display), now, archives).current.first()
            == m.current.first(),
{
}

/// All work begins again at the current page when something has changed. Nothing is upscaled where
/// that is switched off.
pub proof fn law_work_begins_again(m: Manager)
    ensures
        m.reset().finalize == Some(m.current.first()),
        m.reset().downscale == Some(m.current.first()),
        m.reset().load == Some(m.current.first()),
        m.reset().scan == Some(m.current.first()),
        m.modes.upscaling ==> m.reset().upscale == Some(m.current.first()),
        !m.modes.upscaling ==> m.reset().upscale is None,
        m.reset().current == m.current,
        m.reset().modes == m.modes,
        m.reset().archives == m.archives,
        m.reset().preload_ahead == m.preload_ahead,
{
}

/// Pages that were loaded to fill a strip are no longer wanted once pages are not shown in one, and
/// they are let go of: those past as many as the settings say.
pub proof fn law_leaving_a_strip(
    m: Manager,
    s: Settings,
    now: Millis,
    archives: Vec<Archive>,
    display: DisplayMode,
    k: nat,
)
    requires
        m.wf(s),
        m.counts().len() <= usize::MAX,
        k < total_places(m.counts()),
    ensures
        ({
            let from_strip = m.modes.display is VerticalStrip || m.modes.display is HorizontalStrip;
            let to_strip = display is VerticalStrip || display is HorizontalStrip;
            let at = m.current.first().number(m.counts());
            let gone = m.unloaded_by(s, ActionView::Display(display)).contains(
                position_at(m.counts(), k),
            );
            &&& from_strip && !to_strip ==> m.after(
                s,
                ActionView::Display(display),
                now,
                archives,
            ).preload_ahead == s.preload_ahead
            &&& !(from_strip && !to_strip) ==> m.after(
                s,
                ActionView::Display(display),
                now,
                archives,
            ).preload_ahead == m.preload_ahead
            &&& gone <==> from_strip && !to_strip && at + s.preload_ahead < k <= at
                + m.preload_ahead
        }),
{
    let c = m.current.first();
    law_number_round_trip(m.counts(), c);
    if m.modes.display.is_strip() && !display.is_strip() && m.preload_ahead > s.preload_ahead {
        lemma_beyond(m, m.preload_ahead as nat, (m.preload_ahead - s.preload_ahead) as nat, k);
    } else {
        assert(m.unloaded_by(s, ActionView::Display(display)) =~= Seq::<PageIndices>::empty());
    }
}

/// Which places are beyond those that are loaded ahead.
proof fn lemma_beyond(m: Manager, ahead: nat, fewer: nat, k: nat)
    requires
        m.current.valid(m.counts()),
        m.counts().len() <= usize::MAX,
        fewer <= ahead,
        k < total_places(m.counts()),
    ensures
        m.beyond(ahead, fewer).contains(position_at(m.counts(), k)) <==> m.current.first().number(
            m.counts(),
        ) + ahead - fewer < k <= m.current.first().number(m.counts()) + ahead,
{
    let counts = m.counts();
    let c = m.current.first();
    law_number_round_trip(counts, c);
    let from = c.number(counts) + ahead - fewer + 1;
    let to = c.later_number(counts, ahead);
    let v = m.beyond(ahead, fewer);
    let i = position_at(counts, k);
    law_position_round_trip(counts, k);
    if from <= to {
        if from <= k <= to {
            assert(v[k - from] == i);
        }
        if v.contains(i) {
            let j = v.index_of(i);
            assert(v[j] == position_at(counts, (from + j) as nat));
            law_position_round_trip(counts, (from + j) as nat);
        }
    }
}

/// Loading fewer pages ahead lets go of the farthest ones, as many as that.
pub proof fn law_farthest_pages_go(m: Manager, fewer: nat, k: nat)
    requires
        m.current.valid(m.counts()),
        m.counts().len() <= usize::MAX,
        fewer <= m.preload_ahead,
        k < total_places(m.counts()),
    ensures
        m.beyond(m.preload_ahead as nat, fewer).contains(position_at(m.counts(), k))
            <==> m.current.first().number(m.counts()) + m.preload_ahead - fewer < k
            <= m.current.first().number(m.counts()) + m.preload_ahead,
{
    lemma_beyond(m, m.preload_ahead as nat, fewer, k);
}

/// What an action leads to: moves, and what else takes longer, are left to do. Switching a mode opens
/// archives, but only if it changes something.
pub proof fn law_followups(m: Manager, d: Direction, n: usize, t: Toggle, text: Seq<char>)
    ensures
        m.followup(ActionView::MovePages(d, n)) is Move,
        m.followup(ActionView::NextArchive) is NextArchive,
        m.followup(ActionView::PreviousArchive) is PreviousArchive,
        m.followup(ActionView::Status) is Status,
        m.followup(ActionView::ListPages) is ListPages,
        m.followup(ActionView::Execute(text)) is Execute,
        m.followup(ActionView::Script(text)) is Script,
        m.followup(ActionView::CleanExit) is Close,
        m.followup(ActionView::Upscaling(Toggle::Change)) is OpenArchives,
        m.followup(ActionView::Manga(Toggle::Change)) is OpenArchivesForManga,
        m.followup(ActionView::Upscaling(t)) is Nothing <==> t is On && m.modes.upscaling || t is Off
            && !m.modes.upscaling,
        m.followup(ActionView::Manga(t)) is Nothing <==> t is On && m.modes.manga || t is Off
            && !m.modes.manga,
{
}

/// One or nought.
pub open spec fn counted_if(b: bool) -> int {
    if b {
        1
    } else {
        0
    }
}

/// What is waited for comes in the order of its urgency: that the program is closed, then actions,
/// then work, of which that for the current page comes first and scanning last.
pub proof fn law_most_urgent_first(r: Ready, idle: bool, page_change: bool, timeout: bool)
    ensures
        ({
            let v = r.awaited(idle, page_change, timeout);
            let a = 2 + counted_if(r.current);
            let b = a + counted_if(r.finalize);
            let c = b + counted_if(r.downscale);
            let d = c + counted_if(r.load);
            let e = d + counted_if(r.upscale);
            let f = e + counted_if(r.scan);
            let g = f + counted_if(r.delayed);
            let h = g + counted_if(page_change);
            let nothing = !(r.current || r.finalize || r.downscale || r.load || r.upscale || r.scan
                || r.delayed);
            let end = h + counted_if(nothing && !idle && timeout);
            &&& v.len() == end
            &&& v[0] is Closing
            &&& v[1] is Action
            &&& r.current ==> v[2] == Awaited::Work(ManagerWork::Current)
            &&& r.finalize ==> v[a] == Awaited::Work(ManagerWork::Finalize)
            &&& r.downscale ==> v[b] == Awaited::Work(ManagerWork::Downscale)
            &&& r.load ==> v[c] == Awaited::Work(ManagerWork::Load)
            &&& r.upscale ==> v[d] == Awaited::Work(ManagerWork::Upscale)
            &&& r.scan ==> v[e] == Awaited::Work(ManagerWork::Scan)
            &&& r.delayed ==> v[f] is Delay
            &&& page_change ==> v[g] is PageChange
            &&& end > h ==> v[h] is Idling
        }),
{
    let v0 = seq![Awaited::Closing, Awaited::Action];
    let v1 = v0 + only(r.current, Awaited::Work(ManagerWork::Current));
    lemma_only(v0, r.current, Awaited::Work(ManagerWork::Current));
    let v2 = v1 + only(r.finalize, Awaited::Work(ManagerWork::Finalize));
    lemma_only(v1, r.finalize, Awaited::Work(ManagerWork::Finalize));
    let v3 = v2 + only(r.downscale, Awaited::Work(ManagerWork::Downscale));
    lemma_only(v2, r.downscale, Awaited::Work(ManagerWork::Downscale));
    let v4 = v3 + only(r.load, Awaited::Work(ManagerWork::Load));
    lemma_only(v3, r.load, Awaited::Work(ManagerWork::Load));
    let v5 = v4 + only(r.upscale, Awaited::Work(ManagerWork::Upscale));
    lemma_only(v4, r.upscale, Awaited::Work(ManagerWork::Upscale));
    let v6 = v5 + only(r.scan, Awaited::Work(ManagerWork::Scan));
    lemma_only(v5, r.scan, Awaited::Work(ManagerWork::Scan));
    let v7 = v6 + only(r.delayed, Awaited::Delay);
    lemma_only(v6, r.delayed, Awaited::Delay);
    let v8 = v7 + only(page_change, Awaited::PageChange);
    lemma_only(v7, page_change, Awaited::PageChange);
    let v9 = v8 + only(r.spec_idle() && !idle && timeout, Awaited::Idling);
    lemma_only(v8, r.spec_idle() && !idle && timeout, Awaited::Idling);
    assert(r.awaited(idle, page_change, timeout) == v9);
}

proof fn lemma_only(v: Seq<Awaited>, b: bool, a: Awaited)
    ensures
        (v + only(b, a)).len() == v.len() + counted_if(b),
        b ==> (v + only(b, a))[v.len() as int] == a,
        forall|i: int| 0 <= i < v.len() ==> #[trigger] (v + only(b, a))[i] == v[i],
{
    reveal(only);
}

/// What the manager does about what has come. Only the end of a delay clears it. An action that is not
/// one at the window changes nothing.
pub proof fn law_events_are_answered(r: Ready, idle: bool, timeout: bool)
    ensures
        r.spec_step(idle, timeout, LoopEvent::Closing).1 is Leave,
        r.spec_step(idle, timeout, LoopEvent::Disconnected).1 is Fail,
        r.spec_step(idle, timeout, LoopEvent::PageChangeDue) == (idle, LoopStep::PageChanged),
        r.spec_step(idle, timeout, LoopEvent::Worked).1 == (LoopStep::GoOn {
            unidle: idle,
            clear_delay: false,
        }),
        r.spec_step(idle, timeout, LoopEvent::DelayOver).1 == (LoopStep::GoOn {
            unidle: idle,
            clear_delay: true,
        }),
        r.spec_step(idle, timeout, LoopEvent::Action { interactive: true }).1 == (LoopStep::GoOn {
            unidle: idle,
            clear_delay: false,
        }),
        r.spec_step(idle, timeout, LoopEvent::Action { interactive: false }) == (
            idle,
            LoopStep::Wait,
        ),
        r.spec_step(idle, timeout, LoopEvent::TimedOut).1 is Idle <==> timeout && !idle && !(
        r.current || r.finalize || r.downscale || r.load || r.upscale || r.scan || r.delayed),
{
}

/// In dual page mode the current page becomes a pair with the page after it where both can be laid
/// out, and stays alone otherwise. In other modes it is alone. It stays the first one.
pub proof fn law_pairs(m: Manager)
    requires
        m.current.valid(m.counts()),
        m.counts().len() <= usize::MAX,
        m.current is Single,
    ensures
        ({
            let c = m.current.first();
            let dual = m.modes.display is DualPage || m.modes.display is DualPageReversed;
            let e = m.adjusted();
            &&& e.first() == c
            &&& !dual ==> e == CurrentIndices::Single(c)
            &&& dual ==> e is Dual
            &&& e.last() != c ==> {
                &&& dual
                &&& m.shown_at(c).res() is Some
                &&& m.shown_at(e.last()).res() is Some
                &&& e.last().number(m.counts()) == c.number(m.counts()) + 1
                &&& !m.modes.manga ==> e.last().archive_index() == c.archive_index()
                    && e.last().page_index() == c.page_index() + 1
            }
            &&& dual && m.shown_at(c).res() is Some && c.page_index() + 1
                < m.counts()[c.archive_index()] ==> {
                let n = c.display_page(m.counts(), m.modes.manga, Direction::Forwards, 1)->0;
                m.shown_at(n).res() is Some ==> e == CurrentIndices::Dual(OneOrTwo::Two(c, n))
            }
        }),
{
    let c = m.current.first();
    law_number_round_trip(m.counts(), c);
    law_next_shown_page(m.counts(), c, m.modes.manga);
    if c.number(m.counts()) + 1 < total_places(m.counts()) {
        law_position_round_trip(m.counts(), c.number(m.counts()) + 1);
    }
}

/// When idle, the page before the current one and the one after it are kept, and in dual page mode the
/// two before it and the three after it. Pages that are not shown in a strip are let go of past
/// those, as far as they are loaded.
pub proof fn law_nearest_pages_are_kept_when_idle(m: Manager, s: Settings, k: nat)
    requires
        m.current.valid(m.counts()),
        m.counts().len() <= usize::MAX,
        k < total_places(m.counts()),
    ensures
        ({
            let at = m.current.first().number(m.counts());
            let dual = m.modes.display is DualPage || m.modes.display is DualPageReversed;
            let strip = m.modes.display is VerticalStrip || m.modes.display is HorizontalStrip;
            let gone = m.idle_pages(s).contains(position_at(m.counts(), k));
            &&& at - 1 <= k <= at + 1 ==> !gone
            &&& dual && at - 2 <= k <= at + 3 ==> !gone
            &&& k < at - s.preload_behind ==> !gone
            &&& k > at + m.preload_ahead ==> !gone
            &&& at - s.preload_behind <= k < at - 1 && !dual ==> gone
            &&& at - s.preload_behind <= k < at - 2 && dual ==> gone
            &&& !strip && !dual && at + 1 < k <= at + m.preload_ahead ==> gone
            &&& dual && at + 3 < k <= at + m.preload_ahead ==> gone
        }),
{
    let at = m.current.first().number(m.counts());
    let i = position_at(m.counts(), k);
    law_number_round_trip(m.counts(), m.current.first());
    law_position_round_trip(m.counts(), k);
    lemma_idle_behind(m, s.preload_behind as nat, k);
    lemma_idle_ahead(m, s, m.preload_ahead as nat, k);
    let a = m.idle_behind(s.preload_behind as nat);
    let b = m.idle_ahead(s, m.preload_ahead as nat);
    let v = m.idle_pages(s);
    if a.contains(i) {
        assert(v[a.index_of(i)] == i);
    }
    if b.contains(i) {
        assert(v[a.len() + b.index_of(i)] == i);
    }
    if v.contains(i) {
        let j = v.index_of(i);
        if j < a.len() {
            assert(a[j] == i);
        } else {
            assert(b[j - a.len()] == i);
        }
    }
}

proof fn lemma_idle_behind(m: Manager, n: nat, k: nat)
    requires
        m.current.valid(m.counts()),
        m.counts().len() <= usize::MAX,
        k < total_places(m.counts()),
    ensures
        m.idle_behind(n).contains(position_at(m.counts(), k)) <==> m.current.first().number(
            m.counts(),
        ) - n <= k < m.current.first().number(m.counts()) - kept_when_idle(m.modes.display).0,
    decreases n,
{
    let at = m.current.first().number(m.counts());
    let i = position_at(m.counts(), k);
    law_position_round_trip(m.counts(), k);
    law_number_round_trip(m.counts(), m.current.first());
    if n == 0 {
        assert(m.idle_behind(0) =~= Seq::<PageIndices>::empty());
    } else {
        lemma_idle_behind(m, (n - 1) as nat, k);
        let nearer = m.idle_behind((n - 1) as nat);
        match m.place_behind(n) {
            Some(j) => {
                law_position_round_trip(m.counts(), (at - n) as nat);
                if n > kept_when_idle(m.modes.display).0 {
                    lemma_push_contains(nearer, j, i);
                }
            },
            None => {},
        }
    }
}

proof fn lemma_idle_ahead(m: Manager, s: Settings, n: nat, k: nat)
    requires
        m.current.valid(m.counts()),
        m.counts().len() <= usize::MAX,
        k < total_places(m.counts()),
    ensures
        m.idle_ahead(s, n).contains(position_at(m.counts(), k)) ==> m.current.first().number(
            m.counts(),
        ) + kept_when_idle(m.modes.display).1 < k <= m.current.first().number(m.counts()) + n,
        !m.modes.display.is_strip() && m.current.first().number(m.counts()) + kept_when_idle(
            m.modes.display,
        ).1 < k <= m.current.first().number(m.counts()) + n ==> m.idle_ahead(s, n).contains(
            position_at(m.counts(), k),
        ),
    decreases n,
{
    let at = m.current.first().number(m.counts());
    let i = position_at(m.counts(), k);
    law_position_round_trip(m.counts(), k);
    law_number_round_trip(m.counts(), m.current.first());
    if n == 0 {
        assert(m.idle_ahead(s, 0) =~= Seq::<PageIndices>::empty());
    } else {
        lemma_idle_ahead(m, s, (n - 1) as nat, k);
        if !m.modes.display.is_strip() {
            lemma_no_space(m, s, (n - 1) as nat);
        }
        let nearer = m.idle_ahead(s, (n - 1) as nat);
        match m.place_ahead(n) {
            Some(j) => {
                law_position_round_trip(m.counts(), at + n);
                lemma_push_contains(nearer, j, i);
            },
            None => {},
        }
    }
}

proof fn lemma_no_space(m: Manager, s: Settings, k: nat)
    requires
        !m.modes.display.is_strip(),
    ensures
        m.idle_space(s, k) == 0,
    decreases k,
{
    if k > 0 {
        lemma_no_space(m, s, (k - 1) as nat);
    }
}

proof fn lemma_push_contains(v: Seq<PageIndices>, j: PageIndices, i: PageIndices)
    ensures
        v.push(j).contains(i) <==> v.contains(i) || i == j,
{
    if v.contains(i) {
        assert(v.push(j)[v.index_of(i)] == i);
    }
    if i == j {
        assert(v.push(j)[v.len() as int] == i);
    }
    if v.push(j).contains(i) {
        let n = v.push(j).index_of(i);
        if n < v.len() {
            assert(v[n] == i);
        }
    }
}

/// A strip asks for as many pages to be loaded ahead as fill it, between what the settings say and the
/// most that they allow. One more is asked for as long as the last one that is loaded does not fill
/// it and others may follow.
pub proof fn law_strips_load_what_fills_them(
    s: Settings,
    preload_ahead: usize,
    pages: nat,
    filled: bool,
    next: OffscreenContent,
)
    requires
        s.wf(),
        s.preload_ahead <= preload_ahead,
        s.max_strip_preload_ahead matches Some(m) ==> preload_ahead <= m,
    ensures
        s.max_strip_preload_ahead is None ==> preload_change(
            s,
            preload_ahead,
            pages,
            filled,
            next,
        ) is NoChange,
        s.max_strip_preload_ahead matches Some(most) ==> match preload_change(
            s,
            preload_ahead,
            pages,
            filled,
            next,
        ) {
            PreloadRangeChange::More(n) => {
                ||| pages > preload_ahead && pages <= most && preload_ahead + n == pages
                ||| pages > most && preload_ahead + n == most
                ||| pages == preload_ahead && n == 1 && !filled && !(next is Nothing) && !(next
                    is LayoutIncompatible)
            },
            PreloadRangeChange::Fewer(n) => {
                &&& filled
                &&& pages < preload_ahead
                &&& preload_ahead - n >= pages && preload_ahead - n >= s.preload_ahead
                &&& preload_ahead - n == pages || preload_ahead - n == s.preload_ahead
            },
            PreloadRangeChange::NoChange => {
                &&& pages > preload_ahead ==> preload_ahead == most
                &&& filled && pages < preload_ahead ==> preload_ahead == s.preload_ahead
                &&& pages == preload_ahead && !filled && preload_ahead < most ==> next is Nothing
                    || next is LayoutIncompatible
            },
        },
{
}

/// Pages follow one another from left to right in a horizontal strip, and from top to bottom
/// otherwise.
pub proof fn law_direction_of_pages(display: DisplayMode, r: Res)
    ensures
        display is HorizontalStrip ==> scroll_dim(display, r) == r.w,
        !(display is HorizontalStrip) ==> scroll_dim(display, r) == r.h,
{
}

/// A strip fills the window: the pages after the current one take up at least the space of the window
/// and that of a scroll command, and those before it the latter, unless there are no more pages that
/// can be laid out. No page is shown that is not needed for that.
pub proof fn law_strips_fill_the_window(
    m: Manager,
    s: Settings,
    content: GuiContent,
    change: PreloadRangeChange,
)
    requires
        m.shows(s, content, change),
        content is Strip,
    ensures
        m.modes.display is VerticalStrip || m.modes.display is HorizontalStrip,
        ({
            let before = content->current_index as nat;
            let after = (content->Strip_visible@.len() - 1 - before) as nat;
            let window = if m.modes.display is HorizontalStrip {
                m.target_res.w
            } else {
                m.target_res.h
            };
            &&& before < content->Strip_visible@.len()
            &&& m.strip_extent(Direction::Forwards, after) >= window + s.scroll_amount
                || !m.has_strip_page(Direction::Forwards, after + 1)
            &&& m.strip_extent(Direction::Backwards, before) >= s.scroll_amount
                || !m.has_strip_page(Direction::Backwards, before + 1)
            &&& after > 0 ==> m.strip_extent(Direction::Forwards, (after - 1) as nat) < window
                + s.scroll_amount
            &&& before > 0 ==> m.strip_extent(Direction::Backwards, (before - 1) as nat)
                < s.scroll_amount
            &&& content->Strip_visible@[before as int]@ == m.shown_at(m.current.first())
            &&& after > 0 ==> content->Strip_visible@[before as int + 1]@ == m.shown_at(
                m.strip_page(Direction::Forwards, 1)->0,
            )
            &&& before > 0 ==> content->Strip_visible@[before as int - 1]@ == m.shown_at(
                m.strip_page(Direction::Backwards, 1)->0,
            )
        }),
{
    let before = content->current_index as nat;
    let after = (content->Strip_visible@.len() - 1 - before) as nat;
    if after > 0 {
        assert(m.has_strip_page(Direction::Forwards, after));
    }
    if before > 0 {
        assert(m.has_strip_page(Direction::Backwards, before));
    }
}

/// A single page is shown alone, and the next one is made ready where both can be laid out. Two pages
/// side by side are the current one and the one after it, in this order.
pub proof fn law_pages_that_are_shown(
    m: Manager,
    s: Settings,
    content: GuiContent,
    change: PreloadRangeChange,
)
    requires
        m.current.valid(m.counts()),
        m.counts().len() <= usize::MAX,
        m.shows(s, content, change),
    ensures
        m.modes.display is Single ==> content is Single && content->current@ == m.shown_at(
            m.current.first(),
        ),
        m.modes.display is Single && content->preload is Some ==> {
            let c = m.current.first();
            let n = c.display_page(m.counts(), m.modes.manga, Direction::Forwards, 1);
            n is Some && content->preload->0@ == m.shown_at(n->0)
        },
        m.modes.display is DualPage || m.modes.display is DualPageReversed ==> content is Dual
            && content->Dual_visible.spec_first()@ == m.shown_at(m.current.first()),
        content is Dual ==> match m.current {
            CurrentIndices::Dual(OneOrTwo::Two(_, n)) => content->Dual_visible
                matches OneOrTwo::Two(_, b) && b@ == m.shown_at(n),
            _ => content->Dual_visible is One,
        },
        !(content is Strip) ==> change is NoChange,
        (m.modes.display is VerticalStrip || m.modes.display is HorizontalStrip) && m.shown_at(
            m.current.first(),
        ).res() is Some ==> content is Strip,
{
}

/// What lies beyond a page is what the next page can be laid out as. Nothing is said to be there only
/// if there is no next page, and none can come from another archive.
pub proof fn law_beyond_a_page(
    m: Manager,
    p: PageIndices,
    d: Direction,
    multiple: bool,
    remaining: nat,
    check_two: bool,
)
    ensures
        ({
            let next = p.display_page(m.counts(), m.modes.manga, d, 1);
            let o = m.offscreen(p, d, multiple, remaining, check_two);
            &&& o is Nothing <==> next is None && !(multiple && remaining == 0)
            &&& o is LayoutCompatible <==> next is Some && m.shown_at(next->0).res() is Some
            &&& o is LayoutIncompatible <==> next is Some && m.shown_at(
                next->0,
            ).layout() is Incompatible
            &&& o == OffscreenContent::LayoutCompatible(LayoutCount::TwoOrMore) ==> check_two && {
                let after = next->0.display_page(m.counts(), m.modes.manga, d, 1);
                after is Some && m.shown_at(after->0).res() is Some
            }
            &&& o == OffscreenContent::LayoutCompatible(LayoutCount::ExactlyOne) ==> check_two && {
                let after = next->0.display_page(m.counts(), m.modes.manga, d, 1);
                after is Some ==> m.shown_at(after->0).res() is None
            }
        }),
{
}

/// The state for the window tells of the current page: its number counts from one, and is nought where
/// there is none.
pub proof fn law_state_tells_of_the_current_page(
    m: Manager,
    s: Settings,
    gs: GuiState,
    change: PreloadRangeChange,
)
    requires
        m.states(s, gs, change),
    ensures
        ({
            let c = m.current.first();
            let a = m.archives@[c.archive_index()];
            &&& page_of(c) is Some ==> gs.page_num == c.page_index() + 1
            &&& page_of(c) is None ==> gs.page_num == 0
            &&& gs.archive_len == a.pages@.len()
            &&& gs.archive_name@ == a.name@
            &&& gs.archive_id == a.id
            &&& gs.modes == m.modes
            &&& gs.target_res.res == m.target_res
            &&& gs.target_res.fit == m.modes.fit
            &&& gs.target_res.half_width == (m.modes.display is DualPage || m.modes.display
                is DualPageReversed)
            &&& !(a.kind is Broken) && page_of(c) is Some ==> (gs.page_info matches Some(q) && q.0@
                == a.pages@[c.page_index()].name@ && q.1@
                == a.pages@[c.page_index()].absolute_path())
        }),
{
}

/// Commands are run for what has changed, and for nothing else: that for modes before that for the
/// archive, and that for the page last. The last is put off by as many seconds as the settings say.
pub proof fn law_commands_for_changes(m: Manager, s: Settings, now: Millis)
    requires
        now <= u64::MAX / 2,
    ensures
        ({
            let c = m.current.first();
            let archive = m.archives@[c.archive_index()].id != m.old_state.archive_id;
            let page = archive || m.old_state.page_num != match page_of(c) {
                Some(p) => p.0 + 1,
                None => 0,
            };
            let v = m.commands(s);
            &&& m.modes == m.old_state.modes && !page ==> v.len() == 0
            &&& m.modes != m.old_state.modes && s.mode_change_command is Some ==> v.len() > 0
                && v[0] == s.mode_change_command->0@
            &&& m.modes == m.old_state.modes && archive && s.archive_change_command is Some
                ==> v.len() > 0 && v[0] == s.archive_change_command->0@
            &&& page && s.page_change_debounce is None && s.page_change_command is Some ==> v.len()
                > 0 && v.last() == s.page_change_command->0@
            &&& page && s.page_change_debounce is Some && s.page_change_command is Some
                ==> m.pending_command(s, now) == Some(
                (now + 1000 * s.page_change_debounce->0) as Millis,
            )
            &&& !page || s.page_change_command is None ==> m.pending_command(s, now)
                == m.pending_page_change
        }),
{
}

/// An archive is kept open if a page of it is wanted, and only archives between such ones are.
pub proof fn law_archives_that_are_kept(m: Manager, s: Settings, i: PageIndices)
    requires
        m.current.valid(m.counts()),
        m.counts().len() <= usize::MAX,
        i.valid(m.counts()),
        s.preload_behind <= isize::MAX,
        m.preload_ahead <= isize::MAX,
        s.prescale <= isize::MAX,
        m.current.first().number(m.counts()) - s.preload_behind <= i.number(m.counts())
            <= m.current.first().number(m.counts()) + m.preload_ahead || m.modes.upscaling
            && m.current.first().number(m.counts()) < i.number(m.counts())
            <= m.current.first().number(m.counts()) + s.prescale,
    ensures
        m.kept_archives(s).0 <= i.archive_index() <= m.kept_archives(s).1,
{
    let counts = m.counts();
    let c = m.current.first();
    law_number_round_trip(counts, c);
    law_number_round_trip(counts, i);
    let lo = c.moved_clamped(counts, Direction::Backwards, s.behind());
    let hi = c.moved_clamped(counts, Direction::Forwards, m.ahead(s, m.widest_work()));
    law_position_round_trip(counts, c.earlier_number(counts, s.behind()));
    law_position_round_trip(counts, c.later_number(counts, m.ahead(s, m.widest_work())));
    law_order(counts, i, lo);
    law_order(counts, hi, i);
}

/// The first and the last archive that are kept have a page that is wanted.
pub proof fn law_no_needless_archives(m: Manager, s: Settings)
    requires
        m.current.valid(m.counts()),
        m.counts().len() <= usize::MAX,
    ensures
        ({
            let c = m.current.first();
            let lo = c.moved_clamped(m.counts(), Direction::Backwards, s.behind());
            let hi = c.moved_clamped(
                m.counts(),
                Direction::Forwards,
                m.ahead(s, m.widest_work()),
            );
            &&& m.kept_archives(s) == (lo.archive_index(), hi.archive_index())
            &&& lo.valid(m.counts()) && hi.valid(m.counts())
            &&& c.number(m.counts()) - s.preload_behind <= lo.number(m.counts())
                <= c.number(m.counts())
            &&& c.number(m.counts()) <= hi.number(m.counts())
            &&& hi.number(m.counts()) <= c.number(m.counts()) + m.preload_ahead
                || m.modes.upscaling && hi.number(m.counts()) <= c.number(m.counts()) + s.prescale
        }),
{
    let counts = m.counts();
    let c = m.current.first();
    law_number_round_trip(counts, c);
    law_position_round_trip(counts, c.earlier_number(counts, s.behind()));
    law_position_round_trip(counts, c.later_number(counts, m.ahead(s, m.widest_work())));
}

/// Programs are told of the modes, the archive and the page under the documented names, and of what
/// the window has to say as it says it.
pub proof fn law_variables_for_programs(
    m: Manager,
    gui_env: Seq<(Seq<char>, Seq<char>)>,
    pid: u32,
    window: Option<String>,
    socket: Option<String>,
    k: int,
)
    ensures
        ({
            let v = m.env(gui_env, pid, window, socket);
            let c = m.current.first();
            let a = m.archives@[c.archive_index()];
            &&& v.contains(("AWMAN_PID"@, decimal(pid as nat)))
            &&& v.contains(("AWMAN_MANGA_MODE"@, if m.modes.manga { "true"@ } else { "false"@ }))
            &&& v.contains(
                ("AWMAN_UPSCALING_ENABLED"@, if m.modes.upscaling { "true"@ } else { "false"@ }),
            )
            &&& v.contains(
                (
                    "AWMAN_DISPLAY_MODE"@,
                    match m.modes.display {
                        DisplayMode::Single => "single"@,
                        DisplayMode::VerticalStrip => "verticalstrip"@,
                        DisplayMode::HorizontalStrip => "horizontalstrip"@,
                        DisplayMode::DualPage => "dualpage"@,
                        DisplayMode::DualPageReversed => "dualpagereversed"@,
                    },
                ),
            )
            &&& v.contains(
                (
                    "AWMAN_FIT_MODE"@,
                    match m.modes.fit {
                        Fit::Container => "container"@,
                        Fit::Height => "height"@,
                        Fit::Width => "width"@,
                        Fit::FullSize => "fullsize"@,
                    },
                ),
            )
            &&& v.contains(("AWMAN_ARCHIVE"@, a.path@))
            &&& v.contains(("AWMAN_PAGE_COUNT"@, decimal(a.pages@.len())))
            &&& window matches Some(w) ==> v.contains(("AWMAN_WINDOW"@, w@))
            &&& socket matches Some(p) ==> v.contains(("AWMAN_SOCKET"@, p@))
            &&& 0 <= k < gui_env.len() ==> v.contains(gui_env[k])
        }),
{
    let v = m.env(gui_env, pid, window, socket);
    let c = m.current.first();
    let a = m.archives@[c.archive_index()].env(page_of(c));
    let n = a.len() as int;
    let w: int = if window is Some {
        1
    } else {
        0
    };
    let p: int = if socket is Some {
        1
    } else {
        0
    };
    assert(v[n].0 == "AWMAN_PID"@);
    assert(v[n + 1].0 == "AWMAN_DISPLAY_MODE"@);
    assert(v[n + 2].0 == "AWMAN_FIT_MODE"@);
    assert(v[n + 3].0 == "AWMAN_MANGA_MODE"@);
    assert(v[n + 4].0 == "AWMAN_UPSCALING_ENABLED"@);
    assert(v[n - 1] == a[n - 1] && a[n - 1].0 == "AWMAN_PAGE_COUNT"@);
    assert(v[n - 3] == a[n - 3] && a[n - 3].0 == "AWMAN_ARCHIVE"@);
    if window is Some {
        assert(v[n + 5].0 == "AWMAN_WINDOW"@);
    }
    if socket is Some {
        assert(v[n + 5 + w].0 == "AWMAN_SOCKET"@);
    }
    if 0 <= k < gui_env.len() {
        assert(v[n + 5 + w + p + k] == gui_env[k]);
    }
}

/// The page some places after the current one, in whatever archive.
pub open spec fn page_ahead(m: Manager, n: nat) -> PageIndices {
    position_at(m.counts(), m.current.first().number(m.counts()) + n)
}

/// How long the next pages are together, in the direction of the strip.
pub open spec fn length_ahead(m: Manager, n: nat) -> nat
    decreases n,
{
    if n == 0 {
        0
    } else {
        let r = m.shown_at(page_ahead(m, n)).res()->0.fitted(m.target());
        length_ahead(m, (n - 1) as nat) + if m.modes.display is HorizontalStrip {
            r.w as nat
        } else {
            r.h as nat
        }
    }
}

/// In a strip, the pages that the next step of scrolling may show are kept when idle: those of the
/// next ones that begin within the window and a step behind it. A page that is not known to be part
/// of the strip is let go of.
pub proof fn law_strips_are_kept_when_idle(m: Manager, s: Settings, k: nat)
    requires
        m.current.valid(m.counts()),
        m.counts().len() <= usize::MAX,
        m.modes.display is VerticalStrip || m.modes.display is HorizontalStrip,
        1 < k <= m.preload_ahead,
        m.current.first().number(m.counts()) + k < total_places(m.counts()),
        forall|j: nat| 1 <= j < k ==> m.shown_at(#[trigger] page_ahead(m, j)).res() is Some,
    ensures
        ({
            let gone = m.idle_pages(s).contains(page_ahead(m, k));
            let window = if m.modes.display is HorizontalStrip {
                m.target_res.w as nat
            } else {
                m.target_res.h as nat
            };
            &&& m.shown_at(page_ahead(m, k)).res() is None ==> gone
            &&& m.shown_at(page_ahead(m, k)).res() is Some ==> (gone <==> length_ahead(
                m,
                (k - 1) as nat,
            ) >= window + s.scroll_amount)
        }),
{
    let at = m.current.first().number(m.counts());
    let i = page_ahead(m, k);
    law_number_round_trip(m.counts(), m.current.first());
    law_position_round_trip(m.counts(), at + k);
    lemma_idle_behind(m, s.preload_behind as nat, at + k);
    lemma_idle_at(m, s, m.preload_ahead as nat, k);
    lemma_space_left(m, s, (k - 1) as nat);
    let a = m.idle_behind(s.preload_behind as nat);
    let b = m.idle_ahead(s, m.preload_ahead as nat);
    let v = m.idle_pages(s);
    if b.contains(i) {
        assert(v[a.len() + b.index_of(i)] == i);
    }
    if v.contains(i) {
        let j = v.index_of(i);
        if j < a.len() {
            assert(a[j] == i);
        } else {
            assert(b[j - a.len()] == i);
        }
    }
}

proof fn lemma_space_left(m: Manager, s: Settings, n: nat)
    requires
        m.current.valid(m.counts()),
        m.counts().len() <= usize::MAX,
        m.modes.display is VerticalStrip || m.modes.display is HorizontalStrip,
        m.current.first().number(m.counts()) + n < total_places(m.counts()),
        forall|j: nat| 1 <= j <= n ==> m.shown_at(#[trigger] page_ahead(m, j)).res() is Some,
    ensures
        ({
            let window = if m.modes.display is HorizontalStrip {
                m.target_res.w as nat
            } else {
                m.target_res.h as nat
            };
            let left = window + s.scroll_amount - length_ahead(m, n);
            m.idle_space(s, n) == if left > 0 {
                left
            } else {
                0
            }
        }),
    decreases n,
{
    if n > 0 {
        lemma_space_left(m, s, (n - 1) as nat);
        law_position_round_trip(m.counts(), m.current.first().number(m.counts()) + n);
        assert(m.place_ahead(n) == Some(page_ahead(m, n)));
        assert(m.shown_at(page_ahead(m, n)).res() is Some);
    }
}

proof fn lemma_idle_at(m: Manager, s: Settings, n: nat, k: nat)
    requires
        m.current.valid(m.counts()),
        m.counts().len() <= usize::MAX,
        1 <= k <= n,
        m.current.first().number(m.counts()) + k < total_places(m.counts()),
    ensures
        m.idle_ahead(s, n).contains(page_ahead(m, k)) <==> k > kept_when_idle(m.modes.display).1
            && (m.idle_space(s, (k - 1) as nat) == 0 || m.shown_at(page_ahead(m, k)).res() is None),
    decreases n,
{
    let at = m.current.first().number(m.counts());
    let i = page_ahead(m, k);
    law_number_round_trip(m.counts(), m.current.first());
    law_position_round_trip(m.counts(), at + k);
    let nearer = m.idle_ahead(s, (n - 1) as nat);
    if n == k {
        lemma_idle_ahead(m, s, (n - 1) as nat, at + k);
        assert(m.place_ahead(n) == Some(i));
        lemma_push_contains(nearer, i, i);
    } else {
        lemma_idle_at(m, s, (n - 1) as nat, k);
        match m.place_ahead(n) {
            Some(j) => {
                law_position_round_trip(m.counts(), at + n);
                lemma_push_contains(nearer, j, i);
            },
            None => {},
        }
    }
}

/// Together with a single page the next one is told, if both are there and can be laid out.
pub proof fn law_next_page_is_told(
    m: Manager,
    s: Settings,
    current: Displayable,
    preload: Option<Displayable>,
    change: PreloadRangeChange,
)
    requires
        m.modes.display is Single,
        m.shows(s, GuiContent::Single { current, preload }, change),
    ensures
        ({
            let next = m.current.first().display_page(
                m.counts(),
                m.modes.manga,
                Direction::Forwards,
                1,
            );
            &&& preload is Some <==> current@.res() is Some && (next matches Some(n) && m.shown_at(
                n,
            ).res() is Some)
            &&& preload matches Some(p) ==> (next matches Some(n) && p@ == m.shown_at(n))
            &&& change is NoChange
        }),
{
}

/// Where no page follows there is nothing, unless there may be other archives and none of them was
/// looked for that far.
pub proof fn law_beyond_the_last_page(
    m: Manager,
    p: PageIndices,
    d: Direction,
    allow_multiple: bool,
    remaining: nat,
    check_two: bool,
)
    ensures
        p.display_page(m.counts(), m.modes.manga, d, 1) is None ==> {
            let beyond = m.offscreen(p, d, allow_multiple, remaining, check_two);
            &&& beyond is Unknown <==> allow_multiple && remaining == 0
            &&& beyond is Nothing <==> !allow_multiple || remaining > 0
        },
        p.display_page(m.counts(), m.modes.manga, d, 1) matches Some(next) ==> {
            let beyond = m.offscreen(p, d, allow_multiple, remaining, true);
            m.shown_at(next).res() is Some ==> match next.display_page(
                m.counts(),
                m.modes.manga,
                d,
                1,
            ) {
                None => {
                    &&& beyond == OffscreenContent::LayoutCompatible(LayoutCount::OneOrMore)
                        <==> allow_multiple && (remaining == 0 || remaining == 1)
                    &&& beyond == OffscreenContent::LayoutCompatible(LayoutCount::ExactlyOne)
                        <==> !allow_multiple || remaining >= 2
                },
                Some(second) => {
                    &&& beyond == OffscreenContent::LayoutCompatible(LayoutCount::TwoOrMore)
                        <==> m.shown_at(second).res() is Some
                    &&& beyond == OffscreenContent::LayoutCompatible(LayoutCount::ExactlyOne)
                        <==> m.shown_at(second).res() is None
                },
            }
        },
{
}

/// What lies before and behind two pages that are shown together is told as far as pages are loaded:
/// behind the second one that is one page less than ahead of the first.
pub proof fn law_beyond_pairs(
    m: Manager,
    s: Settings,
    prev: OffscreenContent,
    visible: OneOrTwo<Displayable>,
    next: OffscreenContent,
    change: PreloadRangeChange,
)
    requires
        m.modes.display is DualPage || m.modes.display is DualPageReversed,
        m.shows(s, GuiContent::Dual { prev, visible, next }, change),
    ensures
        ({
            let c = m.current.first();
            let others = m.modes.manga && (m.archives@[c.archive_index()].kind is Compressed
                || m.archives@[c.archive_index()].kind is Broken);
            let before = c.display_page(m.counts(), m.modes.manga, Direction::Backwards, 1);
            &&& before is None ==> (prev is Unknown <==> others && s.preload_behind == 0)
            &&& match m.current {
                CurrentIndices::Dual(OneOrTwo::Two(_, n)) => {
                    let behind = n.display_page(m.counts(), m.modes.manga, Direction::Forwards, 1);
                    &&& visible is Two
                    &&& behind is None ==> (next is Unknown <==> others && m.preload_ahead <= 1)
                    &&& behind is None ==> (next is Nothing <==> !others || m.preload_ahead > 1)
                },
                _ => {
                    let behind = c.display_page(m.counts(), m.modes.manga, Direction::Forwards, 1);
                    &&& visible is One
                    &&& behind is None ==> (next is Unknown <==> others && m.preload_ahead == 0)
                    &&& behind is None ==> (next is Nothing <==> !others || m.preload_ahead > 0)
                },
            }
        }),
{
}

/// When another page becomes the current one, those pages are let go of that were kept loaded around
/// the old one and are not around the new one.
pub proof fn law_pages_left_behind(m: Manager, s: Settings, new: PageIndices, k: nat)
    requires
        m.current.valid(m.counts()),
        new.valid(m.counts()),
        m.counts().len() <= usize::MAX,
        m.preload_ahead <= isize::MAX,
        s.preload_behind <= isize::MAX,
        k < total_places(m.counts()),
    ensures
        ({
            let was = m.current.first().number(m.counts());
            let now = new.number(m.counts());
            let around_old = was - s.preload_behind <= k <= was + m.preload_ahead;
            let around_new = now - s.preload_behind <= k <= now + m.preload_ahead;
            m.left_pages(s, new).contains(position_at(m.counts(), k)) <==> around_old
                && !around_new
        }),
{
    let counts = m.counts();
    let c = m.current.first();
    let i = position_at(counts, k);
    law_number_round_trip(counts, c);
    law_number_round_trip(counts, new);
    law_position_round_trip(counts, k);
    law_left_behind(counts, c, new, s.preload_behind as nat, m.preload_ahead as nat, k);
    match c.left_behind(new, counts, s.preload_behind as nat, m.preload_ahead as nat) {
        Some((start, end)) => {
            let v = positions_up(counts, start, end);
            if start <= k <= end {
                assert(v[k - start] == i);
            }
            if v.contains(i) {
                let j = v.index_of(i);
                assert(v[j] == position_at(counts, (start + j) as nat));
                assert(end < total_places(counts));
                law_position_round_trip(counts, (start + j) as nat);
            }
        },
        None => {},
    }
}

} // verus!
