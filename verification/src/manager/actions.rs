//! How pages are moved through, and archives come and go.
use vstd::prelude::*;

use crate::com::content::GuiState;
use crate::com::direction::Direction;
use crate::com::one_or_two::OneOrTwo;
use crate::com::toggle::{GuiActionContext, ScrollMotionTarget};
use crate::manager::contents::PreloadRangeChange;
use crate::manager::current::CurrentIndices;
use crate::manager::delay::Millis;
use crate::manager::indices::{
    law_number_round_trip, lemma_positions_up, position_in, positions_up, PageIndices,
};
use crate::manager::manager::{
    lemma_same_pages, page_counts, page_of, Manager, ManagerWork, Settings,
};
use crate::manager::page::scanned::Cancels;
use crate::manager::upkeep::{archives_after, ongoing_for};
use crate::path::texts;

verus! {

/// What is sent to the window, and what else is to be done then.
#[derive(Debug)]
pub struct Update {
    pub state: Option<(GuiState, GuiActionContext)>,
    /// The commands to run, in this order.
    pub commands: Vec<String>,
    pub change: PreloadRangeChange,
}

/// A step of a move.
#[derive(Debug)]
pub enum MoveStep {
    /// Make these pages the current ones.
    GoTo(CurrentIndices),
    /// Try to open the archive behind the last one, or before the first one.
    Open,
    Stay,
}

/// A command, if there is one and it is to be run.
pub open spec fn command_if(run: bool, command: Option<String>) -> Seq<Seq<char>> {
    match command {
        Some(c) => if run {
            seq![c@]
        } else {
            seq![]
        },
        None => seq![],
    }
}

fn push_command(v: &mut Vec<String>, run: bool, command: &Option<String>)
    ensures
        texts(final(v)@) == texts(old(v)@) + command_if(run, *command),
{
    let ghost before = texts(v@);
    if run {
        if let Some(c) = command {
            v.push(c.clone());
        }
    }
    assert(texts(v@) =~= before + command_if(run, *command));
}

impl Manager {
    /// Whether another archive is shown than the window was told of.
    pub open spec fn archive_changed(self) -> bool {
        self.archives@[self.current.first().archive_index()].id != self.old_state.archive_id
    }

    /// Whether another page is shown than the window was told of.
    pub open spec fn page_changed(self) -> bool {
        self.archive_changed() || self.old_state.page_num != match page_of(self.current.first()) {
            Some(p) => p.0 + 1,
            None => 0,
        }
    }

    /// The commands to run for what has changed.
    pub open spec fn commands(self, s: Settings) -> Seq<Seq<char>> {
        command_if(self.modes != self.old_state.modes, s.mode_change_command) + command_if(
            self.archive_changed(),
            s.archive_change_command,
        ) + command_if(
            self.page_changed() && s.page_change_debounce is None,
            s.page_change_command,
        )
    }

    /// When to run the command for a change of the page, if that is put off.
    pub open spec fn pending_command(self, s: Settings, now: Millis) -> Option<Millis> {
        match (s.page_change_command, s.page_change_debounce) {
            (Some(_), Some(d)) => if self.page_changed() {
                Some((now + d * 1000) as Millis)
            } else {
                self.pending_page_change
            },
            _ => self.pending_page_change,
        }
    }

    fn collect_commands(&self, s: &Settings, gs: &GuiState, Ghost(change): Ghost<PreloadRangeChange>) -> (r:
        Vec<String>)
        requires
            self.states(*s, *gs, change),
        ensures
            texts(r@) == self.commands(*s),
    {
        let archive_changed: bool = gs.archive_id != self.old_state.archive_id;
        let page_changed: bool = archive_changed || gs.page_num != self.old_state.page_num;
        let modes_changed: bool = !(gs.modes == self.old_state.modes);
        let mut commands: Vec<String> = Vec::new();
        assert(texts(commands@) =~= seq![]);
        push_command(&mut commands, modes_changed, &s.mode_change_command);
        push_command(&mut commands, archive_changed, &s.archive_change_command);
        push_command(
            &mut commands,
            page_changed && s.page_change_debounce.is_none(),
            &s.page_change_command,
        );
        assert(texts(commands@) =~= self.commands(*s));
        commands
    }

    /// Finds out whether to send a state to the window. The context of the last action goes with
    /// it, and is taken in any case.
    pub fn maybe_send_gui_state(&mut self, s: &Settings, now: Millis) -> (r: Update)
        requires
            old(self).wf(*s),
            now <= u64::MAX / 2,
        ensures
            final(self).wf(*s),
            *final(self) == (Manager {
                action_context: GuiActionContext {
                    scroll_motion_target: ScrollMotionTarget::Maintain,
                },
                old_state: final(self).old_state,
                blocking_work: false,
                pending_page_change: old(self).pending_command(*s, now),
                ..*old(self)
            }),
            match r.state {
                Some((gs, context)) => {
                    &&& old(self).states(*s, gs, r.change)
                    &&& gs.content.wf()
                    &&& old(self).blocking_work || !gs.same(old(self).old_state)
                    &&& context == old(self).action_context
                    &&& final(self).old_state.equals(gs)
                },
                None => {
                    &&& !old(self).blocking_work
                    &&& final(self).old_state == old(self).old_state
                    &&& exists|gs: GuiState| #[trigger]
                        old(self).states(*s, gs, r.change) && gs.same(old(self).old_state)
                },
            },
            texts(r.commands@) == old(self).commands(*s),
    {
        let (gs, change) = self.build_gui_state(s);
        let commands = self.collect_commands(s, &gs, Ghost(change));
        let context = self.action_context;
        let archive_changed: bool = gs.archive_id != self.old_state.archive_id;
        let page_changed: bool = archive_changed || gs.page_num != self.old_state.page_num;
        if page_changed && s.page_change_command.is_some() {
            if let Some(d) = s.page_change_debounce {
                self.pending_page_change = Some(now + d as u64 * 1000);
            }
        }
        let changed: bool = self.blocking_work || !gs.is_same(&self.old_state);
        self.action_context = GuiActionContext::default();
        let state: Option<(GuiState, GuiActionContext)> = if changed {
            self.old_state = gs.share();
            self.blocking_work = false;
            Some((gs, context))
        } else {
            None
        };
        proof {
            lemma_same_pages(*old(self), *self, *s);
        }
        Update { state, commands, change }
    }
}

/// A page as the current one, alone where a move by one page ends in dual page mode.
pub open spec fn landed(alone: bool, i: PageIndices) -> CurrentIndices {
    if alone {
        CurrentIndices::Dual(OneOrTwo::One(i))
    } else {
        CurrentIndices::Single(i)
    }
}

fn land(alone: bool, i: PageIndices) -> (r: CurrentIndices)
    ensures
        r == landed(alone, i),
{
    if alone {
        CurrentIndices::Dual(OneOrTwo::One(i))
    } else {
        CurrentIndices::Single(i)
    }
}

impl Manager {
    /// Where a move by some pages ends. In manga mode it may go on in other archives, and there is
    /// no such place if it goes further than those that are open.
    pub open spec fn move_end(self, d: Direction, n: usize) -> Option<CurrentIndices> {
        let c = self.current.first();
        let alone = n == 1 && d is Backwards && self.modes.display.is_dual_page();
        if self.modes.manga {
            match c.moved(self.counts(), d, n as nat) {
                Some(i) => Some(landed(alone, i)),
                None => None,
            }
        } else {
            Some(landed(alone, c.moved_in_archive(self.counts(), d, n as nat)))
        }
    }

    /// Where a move by some pages ends.
    pub fn move_target(&self, d: Direction, n: usize) -> (r: Option<CurrentIndices>)
        requires
            self.current.valid(self.counts()),
        ensures
            r == self.move_end(d, n),
            r matches Some(c) ==> c.valid(self.counts()),
    {
        let counts = page_counts(&self.archives);
        let c = self.current.get();
        let backwards: bool = match d {
            Direction::Backwards => true,
            _ => false,
        };
        let alone: bool = n == 1 && backwards && self.modes.display.dual_page();
        if !self.modes.manga {
            return Some(land(alone, c.move_clamped_in_archive(d, n, counts.as_slice())));
        }
        match c.try_move_pages(d, n, counts.as_slice()) {
            Some(i) => Some(land(alone, i)),
            None => None,
        }
    }

    /// Where a move by some pages ends that goes further than all archives.
    pub open spec fn move_edge(self, d: Direction, n: usize) -> CurrentIndices {
        let c = self.current.first();
        let i = c.moved_clamped(self.counts(), d, n as nat);
        landed(
            d is Backwards && self.modes.display.is_dual_page() && c.moved(self.counts(), d, 1)
                == Some(i),
            i,
        )
    }

    /// Where a move by some pages ends that goes further than all archives.
    pub fn move_target_at_edge(&self, d: Direction, n: usize) -> (r: CurrentIndices)
        requires
            self.current.valid(self.counts()),
        ensures
            r == self.move_edge(d, n),
            r.valid(self.counts()),
    {
        let counts = page_counts(&self.archives);
        let c = self.current.get();
        let i = c.move_clamped(d, n, counts.as_slice());
        let backwards: bool = match d {
            Direction::Backwards => true,
            _ => false,
        };
        let alone: bool = backwards && self.modes.display.dual_page() && match c.try_move_pages(
            d,
            1,
            counts.as_slice(),
        ) {
            Some(p) => p == i,
            None => false,
        };
        land(alone, i)
    }

    /// The beginning of the next archive, if there is one.
    pub fn next_archive_target(&self) -> (r: Option<CurrentIndices>)
        requires
            self.current.valid(self.counts()),
        ensures
            r == if self.current.first().archive_index() + 1 < self.archives@.len() {
                Some(
                    CurrentIndices::Single(
                        position_in(
                            self.counts(),
                            self.current.first().archive_index() + 1,
                            0,
                        ),
                    ),
                )
            } else {
                None
            },
            r matches Some(c) ==> c.valid(self.counts()),
    {
        let counts = page_counts(&self.archives);
        let a: usize = self.current.get().a().0;
        let n: usize = counts.len();
        assert(self.counts().len() == n);
        if a + 1 < n {
            let p: Option<usize> = if counts[a + 1] > 0 {
                Some(0)
            } else {
                None
            };
            Some(CurrentIndices::Single(PageIndices::new(a + 1, p, counts.as_slice())))
        } else {
            None
        }
    }

    /// The beginning of the previous archive, if there is one.
    pub fn previous_archive_target(&self) -> (r: Option<CurrentIndices>)
        requires
            self.current.valid(self.counts()),
        ensures
            r == if self.current.first().archive_index() > 0 {
                Some(
                    CurrentIndices::Single(
                        position_in(
                            self.counts(),
                            self.current.first().archive_index() - 1,
                            0,
                        ),
                    ),
                )
            } else {
                None
            },
            r matches Some(c) ==> c.valid(self.counts()),
    {
        let counts = page_counts(&self.archives);
        let a: usize = self.current.get().a().0;
        if a > 0 {
            let p: Option<usize> = if counts[a - 1] > 0 {
                Some(0)
            } else {
                None
            };
            Some(CurrentIndices::Single(PageIndices::new(a - 1, p, counts.as_slice())))
        } else {
            None
        }
    }

    /// What is done next to move by some pages, by whether the last attempt to open another archive
    /// found one: the move ends where it can, archives are opened as long as there are any, and it
    /// stops at the edge of the last one.
    pub fn move_step(&self, d: Direction, n: usize, opened: Option<bool>) -> (r: MoveStep)
        requires
            self.current.valid(self.counts()),
        ensures
            r == match self.move_end(d, n) {
                Some(c) => MoveStep::GoTo(c),
                None => if d is Absolute || opened == Some(false) {
                    MoveStep::GoTo(self.move_edge(d, n))
                } else {
                    MoveStep::Open
                },
            },
            r matches MoveStep::GoTo(c) ==> c.valid(self.counts()),
    {
        match self.move_target(d, n) {
            Some(c) => return MoveStep::GoTo(c),
            None => {},
        }
        let failed: bool = match opened {
            Some(found) => !found,
            None => false,
        };
        match d {
            Direction::Absolute => MoveStep::GoTo(self.move_target_at_edge(d, n)),
            _ => if failed {
                MoveStep::GoTo(self.move_target_at_edge(d, n))
            } else {
                MoveStep::Open
            },
        }
    }

    /// The beginning of the next or the previous archive, if it is open.
    pub open spec fn archive_end(self, d: Direction) -> Option<CurrentIndices> {
        let a = self.current.first().archive_index();
        if d is Forwards && a + 1 < self.archives@.len() {
            Some(CurrentIndices::Single(position_in(self.counts(), a + 1, 0)))
        } else if !(d is Forwards) && a > 0 {
            Some(CurrentIndices::Single(position_in(self.counts(), a - 1, 0)))
        } else {
            None
        }
    }

    /// What is done next to move to the next or the previous archive. One that is not open yet is
    /// opened, once, and nothing happens if there is none.
    pub fn archive_step(&self, d: Direction, opened: Option<bool>) -> (r: MoveStep)
        requires
            self.current.valid(self.counts()),
        ensures
            r == match (self.archive_end(d), opened) {
                (Some(c), _) => MoveStep::GoTo(c),
                (None, None) => MoveStep::Open,
                (None, Some(_)) => MoveStep::Stay,
            },
            r matches MoveStep::GoTo(c) ==> c.valid(self.counts()),
    {
        let target = match d {
            Direction::Forwards => self.next_archive_target(),
            _ => self.previous_archive_target(),
        };
        match (target, opened) {
            (Some(c), _) => MoveStep::GoTo(c),
            (None, None) => MoveStep::Open,
            (None, Some(_)) => MoveStep::Stay,
        }
    }

    /// The pages that are no longer kept loaded when another page becomes the current one.
    pub open spec fn left_pages(self, s: Settings, new: PageIndices) -> Seq<PageIndices> {
        match self.current.first().left_behind(
            new,
            self.counts(),
            s.behind(),
            self.ahead(s, ManagerWork::Load),
        ) {
            Some((start, end)) => positions_up(self.counts(), start, end),
            None => seq![],
        }
    }

    /// Makes another page the current one. Pages that are too far from it are let go of, and it
    /// says what to stop for each. After that archives are opened and closed, and the move is
    /// finished. Nothing of that happens when the page is the current one already.
    pub fn set_current_page(&mut self, s: &Settings, new: CurrentIndices) -> (r: Option<
        Vec<(PageIndices, Cancels)>,
    >)
        requires
            old(self).wf(*s),
            new.valid(old(self).counts()),
        ensures
            final(self).wf(*s),
            old(self).current.first() == new.first() ==> r is None && *final(self) == (Manager {
                current: old(self).adjusted(),
                ..*old(self)
            }).reset(),
            old(self).current.first() != new.first() ==> {
                &&& r matches Some(v)
                &&& v@ == ongoing_for(old(self).archives@, old(self).left_pages(*s, new.first()))
                &&& archives_after(
                    old(self).archives@,
                    final(self).archives@,
                    old(self).left_pages(*s, new.first()),
                )
                &&& *final(self) == (Manager {
                    current: new,
                    archives: final(self).archives,
                    ..*old(self)
                }).reset()
            },
    {
        let c = self.current.get();
        let n = new.get();
        let archives: usize = self.archives.len();
        assert(self.counts().len() == archives);
        if c == n {
            self.adjust_current_for_dual_page();
            proof {
                self.lemma_reset(*s);
            }
            self.reset_indices();
            return None;
        }
        let (behind, ahead) = self.get_range(s, ManagerWork::Load);
        let counts = page_counts(&self.archives);
        let left = c.diff_range_with_new(&n, behind, ahead, counts.as_slice());
        proof {
            law_number_round_trip(self.counts(), c);
            law_number_round_trip(self.counts(), n);
            if let Some((start, end)) = c.left_behind(n, self.counts(), behind as nat, ahead as nat) {
                if start <= end {
                    lemma_positions_up(self.counts(), start, end);
                }
            }
        }
        let stopped = self.unload_all(&left);
        self.current = new;
        proof {
            self.lemma_reset(*s);
        }
        self.reset_indices();
        Some(stopped)
    }

    /// The work that archives are kept open for.
    pub open spec fn widest_work(self) -> ManagerWork {
        if self.modes.upscaling {
            ManagerWork::Upscale
        } else {
            ManagerWork::Load
        }
    }

    /// How many pages behind and ahead of the current one archives are kept open for.
    pub fn widest_range(&self, s: &Settings) -> (r: (usize, usize))
        ensures
            r.0 == s.behind(),
            r.1 == self.ahead(*s, self.widest_work()),
    {
        if self.modes.upscaling {
            self.get_range(s, ManagerWork::Upscale)
        } else {
            self.get_range(s, ManagerWork::Load)
        }
    }

    /// Whether another archive is opened in advance: in manga mode, where pages are wanted that no
    /// open archive has.
    pub fn wants_archive(&self, s: &Settings, d: Direction) -> (r: bool)
        requires
            self.current.valid(self.counts()),
            !(d is Absolute),
        ensures
            r == (self.modes.manga && self.current.first().moved(
                self.counts(),
                d,
                if d is Forwards {
                    self.ahead(*s, self.widest_work())
                } else {
                    s.behind()
                },
            ) is None),
    {
        if !self.modes.manga {
            return false;
        }
        let (behind, ahead) = self.widest_range(s);
        let counts = page_counts(&self.archives);
        let n: usize = match d {
            Direction::Forwards => ahead,
            _ => behind,
        };
        self.current.get().try_move_pages(d, n, counts.as_slice()).is_none()
    }

    /// The path of the archive that another one may follow or precede, if one may.
    pub fn archive_to_extend(&self, d: Direction) -> (r: Option<String>)
        requires
            self.archives_wf(),
            !(d is Absolute),
        ensures
            ({
                let edge = if d is Forwards {
                    self.archives@.last()
                } else {
                    self.archives@[0]
                };
                if edge.allows_multiple() {
                    r matches Some(p) && p@ == edge.path@
                } else {
                    r is None
                }
            }),
    {
        let i: usize = match d {
            Direction::Forwards => self.archives.len() - 1,
            _ => 0,
        };
        if self.archives[i].allow_multiple_archives() {
            Some(self.archives[i].path.clone())
        } else {
            None
        }
    }

    /// Says whether to tell the window that something takes a while, which is done once.
    pub fn start_blocking_work(&mut self) -> (r: bool)
        ensures
            r == !old(self).blocking_work,
            *final(self) == (Manager { blocking_work: true, ..*old(self) }),
    {
        let r: bool = !self.blocking_work;
        self.blocking_work = true;
        r
    }
}

} // verus!
