//! What the page manager does about actions, and in which order it works.
use vstd::prelude::*;

use crate::com::action::{ActionView, ManagerAction};
use crate::com::content::GuiState;
use crate::com::mode::{DisplayMode, Modes};
use crate::com::res::Res;
use crate::com::toggle::{GuiActionContext, ScrollMotionTarget};
use crate::manager::archive::Archive;
use crate::manager::current::CurrentIndices;
use crate::manager::delay::{DownscaleDelay, Millis, RESOLUTION_DELAY};
use crate::manager::indices::{Indices, PageIndices, AI, PI};
use crate::manager::manager::{page_counts, page_of, Manager, ManagerWork, Settings};
use crate::manager::page::page::{env_view, push_env};
use crate::manager::page::scanned::Cancels;
use crate::manager::upkeep::{archives_after, ongoing_for};
use crate::number::{decimal, decimal_text};

verus! {

/// What is left to do of an action.
#[derive(Clone, Copy, Debug, PartialEq, Eq, Structural)]
pub enum Followup {
    Nothing,
    /// Open archives in advance.
    OpenArchives,
    /// Open archives in advance, and then look at the current pages again.
    OpenArchivesForManga,
    Move,
    NextArchive,
    PreviousArchive,
    Open,
    Status,
    ListPages,
    Execute,
    Script,
    Close,
}

impl Followup {
    /// Whether the action is one of the user at the window, which ends idling.
    pub fn interactive(self) -> (r: bool)
        ensures
            r == !(self is Status || self is ListPages || self is Execute || self is Script),
    {
        match self {
            Followup::Status | Followup::ListPages | Followup::Execute | Followup::Script => false,
            _ => true,
        }
    }
}

/// Which work can be done now.
#[derive(Clone, Copy, Debug, PartialEq, Eq, Structural)]
pub struct Ready {
    pub current: bool,
    pub finalize: bool,
    pub downscale: bool,
    pub load: bool,
    pub upscale: bool,
    pub scan: bool,
    /// Whether scaling down waits.
    pub delayed: bool,
}

impl Ready {
    /// Whether there is nothing to do, and nothing to wait for.
    pub fn idle(self) -> (r: bool)
        ensures
            r == self.spec_idle(),
    {
        !(self.current || self.finalize || self.downscale || self.load || self.upscale || self.scan
            || self.delayed)
    }

    /// Whether there is nothing to do, and nothing to wait for.
    pub open spec fn spec_idle(self) -> bool {
        !(self.current || self.finalize || self.downscale || self.load || self.upscale || self.scan
            || self.delayed)
    }

    /// What is waited for, the most urgent first: an end of the program goes before actions, these
    /// before work, the work for the current page before all other, and idling comes last.
    pub open spec fn awaited(self, idle: bool, page_change: bool, timeout: bool) -> Seq<Awaited> {
        seq![Awaited::Closing, Awaited::Action] + only(
            self.current,
            Awaited::Work(ManagerWork::Current),
        ) + only(self.finalize, Awaited::Work(ManagerWork::Finalize)) + only(
            self.downscale,
            Awaited::Work(ManagerWork::Downscale),
        ) + only(self.load, Awaited::Work(ManagerWork::Load)) + only(
            self.upscale,
            Awaited::Work(ManagerWork::Upscale),
        ) + only(self.scan, Awaited::Work(ManagerWork::Scan)) + only(self.delayed, Awaited::Delay)
            + only(page_change, Awaited::PageChange) + only(
            self.spec_idle() && !idle && timeout,
            Awaited::Idling,
        )
    }

    /// What is waited for, the most urgent first, by whether the manager idles already, whether a
    /// command is to be run for a page that was changed, and whether it idles after some time.
    pub fn awaits(self, idle: bool, page_change: bool, timeout: bool) -> (r: Vec<Awaited>)
        ensures
            r@ == self.awaited(idle, page_change, timeout),
    {
        let mut v: Vec<Awaited> = Vec::new();
        v.push(Awaited::Closing);
        v.push(Awaited::Action);
        assert(v@ =~= seq![Awaited::Closing, Awaited::Action]);
        add_if(&mut v, self.current, Awaited::Work(ManagerWork::Current));
        add_if(&mut v, self.finalize, Awaited::Work(ManagerWork::Finalize));
        add_if(&mut v, self.downscale, Awaited::Work(ManagerWork::Downscale));
        add_if(&mut v, self.load, Awaited::Work(ManagerWork::Load));
        add_if(&mut v, self.upscale, Awaited::Work(ManagerWork::Upscale));
        add_if(&mut v, self.scan, Awaited::Work(ManagerWork::Scan));
        add_if(&mut v, self.delayed, Awaited::Delay);
        add_if(&mut v, page_change, Awaited::PageChange);
        add_if(&mut v, self.idle() && !idle && timeout, Awaited::Idling);
        v
    }

    /// Whether the manager idles afterwards, and what is done, when something has come.
    pub open spec fn spec_step(self, idle: bool, timeout: bool, event: LoopEvent) -> (
        bool,
        LoopStep,
    ) {
        match event {
            LoopEvent::Closing => (idle, LoopStep::Leave),
            LoopEvent::Disconnected => (idle, LoopStep::Fail),
            LoopEvent::Action { interactive } => if interactive {
                (false, LoopStep::GoOn { unidle: idle, clear_delay: false })
            } else {
                (idle, LoopStep::Wait)
            },
            LoopEvent::Worked => (false, LoopStep::GoOn { unidle: idle, clear_delay: false }),
            LoopEvent::DelayOver => (false, LoopStep::GoOn { unidle: idle, clear_delay: true }),
            LoopEvent::PageChangeDue => (idle, LoopStep::PageChanged),
            LoopEvent::TimedOut => if self.spec_idle() && !idle && timeout {
                (true, LoopStep::Idle)
            } else {
                (idle, LoopStep::Wait)
            },
        }
    }

    /// What is done when something has come that was waited for, and whether the manager idles
    /// afterwards. Only an action at the window, work or the end of a delay ends idling.
    pub fn step(self, idle: bool, timeout: bool, event: LoopEvent) -> (r: (bool, LoopStep))
        ensures
            r == self.spec_step(idle, timeout, event),
    {
        match event {
            LoopEvent::Closing => (idle, LoopStep::Leave),
            LoopEvent::Disconnected => (idle, LoopStep::Fail),
            LoopEvent::Action { interactive } => if interactive {
                (false, LoopStep::GoOn { unidle: idle, clear_delay: false })
            } else {
                (idle, LoopStep::Wait)
            },
            LoopEvent::Worked => (false, LoopStep::GoOn { unidle: idle, clear_delay: false }),
            LoopEvent::DelayOver => (false, LoopStep::GoOn { unidle: idle, clear_delay: true }),
            LoopEvent::PageChangeDue => (idle, LoopStep::PageChanged),
            LoopEvent::TimedOut => if self.idle() && !idle && timeout {
                (true, LoopStep::Idle)
            } else {
                (idle, LoopStep::Wait)
            },
        }
    }
}

/// Something that the manager waits for.
#[derive(Clone, Copy, Debug, PartialEq, Eq, Structural)]
pub enum Awaited {
    /// That the program is closed.
    Closing,
    Action,
    /// That work can be done, or is finished.
    Work(ManagerWork),
    /// That images are scaled down again.
    Delay,
    /// That the page has stayed the same for long enough.
    PageChange,
    /// That nothing has happened for long enough.
    Idling,
}

/// Something that has come.
#[derive(Clone, Copy, Debug, PartialEq, Eq, Structural)]
pub enum LoopEvent {
    /// The program is closed.
    Closing,
    /// No more actions can come.
    Disconnected,
    /// An action was done.
    Action { interactive: bool },
    /// Some work was done.
    Worked,
    DelayOver,
    PageChangeDue,
    TimedOut,
}

/// What the manager does about it.
#[derive(Clone, Copy, Debug, PartialEq, Eq, Structural)]
pub enum LoopStep {
    /// Ends.
    Leave,
    /// Says that actions can no longer come, and ends.
    Fail,
    /// Waits again for the same things.
    Wait,
    /// Runs the command for a page that was changed, once, and waits again.
    PageChanged,
    /// Runs the command for idling, lets go of pages, and waits again.
    Idle,
    /// Looks for what is to be done next. When idling ends, all positions are looked at again, and
    /// the command for the end of idling is run.
    GoOn { unidle: bool, clear_delay: bool },
}

/// A thing alone, if some condition is met.
#[verifier::opaque]
pub open spec fn only(b: bool, a: Awaited) -> Seq<Awaited> {
    if b {
        seq![a]
    } else {
        seq![]
    }
}

fn add_if(v: &mut Vec<Awaited>, b: bool, a: Awaited)
    ensures
        final(v)@ == old(v)@ + only(b, a),
{
    reveal(only);
    if b {
        v.push(a);
    }
    assert(v@ =~= old(v)@ + only(b, a));
}

/// Idling begins once at most while there is nothing to do, and it ends with whatever is looked for
/// next.
pub proof fn law_idling(ready: Ready, idle: bool, timeout: bool, event: LoopEvent)
    ensures
        ({
            let (after, step) = ready.spec_step(idle, timeout, event);
            &&& step is Idle ==> after && !idle && timeout && ready.spec_idle()
            &&& after && !idle ==> step is Idle
            &&& idle && !after ==> (step matches LoopStep::GoOn { unidle, .. } && unidle)
            &&& step matches LoopStep::GoOn { unidle, .. } ==> !after && unidle == idle
        }),
{
}

impl Manager {
    /// What is left to do of an action.
    pub open spec fn followup(self, action: ActionView) -> Followup {
        match action {
            ActionView::Resolution(_) | ActionView::FitStrategy(_) | ActionView::Display(_) => {
                Followup::Nothing
            },
            ActionView::MovePages(..) => Followup::Move,
            ActionView::NextArchive => Followup::NextArchive,
            ActionView::PreviousArchive => Followup::PreviousArchive,
            ActionView::Open(_) => Followup::Open,
            ActionView::Status => Followup::Status,
            ActionView::ListPages => Followup::ListPages,
            ActionView::Execute(_) => Followup::Execute,
            ActionView::Script(_) => Followup::Script,
            ActionView::Upscaling(t) => if t.changes(self.modes.upscaling) {
                Followup::OpenArchives
            } else {
                Followup::Nothing
            },
            ActionView::Manga(t) => if t.changes(self.modes.manga) {
                Followup::OpenArchivesForManga
            } else {
                Followup::Nothing
            },
            ActionView::CleanExit => Followup::Close,
        }
    }

    /// The pages that are let go of by an action: those that were loaded to fill a strip.
    pub open spec fn unloaded_by(self, s: Settings, action: ActionView) -> Seq<PageIndices> {
        match action {
            ActionView::Display(dm) => if self.modes.display.is_strip() && !dm.is_strip()
                && self.preload_ahead > s.preload_ahead {
                self.beyond(
                    self.preload_ahead as nat,
                    (self.preload_ahead - s.preload_ahead) as nat,
                )
            } else {
                seq![]
            },
            _ => seq![],
        }
    }

    /// The state after an action, by the archives after it.
    pub open spec fn after(self, s: Settings, action: ActionView, now: Millis, archives: Vec<
        Archive,
    >) -> Manager {
        match action {
            ActionView::Resolution(r) => (Manager {
                downscale_delay: self.downscale_delay.resized(now),
                target_res: r,
                ..self
            }).reset(),
            ActionView::Upscaling(t) => if t.changes(self.modes.upscaling) {
                (Manager {
                    modes: Modes { upscaling: !self.modes.upscaling, ..self.modes },
                    ..self
                }).reset()
            } else {
                self
            },
            ActionView::Manga(t) => if t.changes(self.modes.manga) {
                (Manager {
                    modes: Modes { manga: !self.modes.manga, ..self.modes },
                    ..self
                }).reset()
            } else {
                self
            },
            ActionView::FitStrategy(fit) => (Manager {
                modes: Modes { fit, ..self.modes },
                ..self
            }).reset(),
            ActionView::Display(display) => {
                let m = Manager {
                    modes: Modes { display, ..self.modes },
                    preload_ahead: if self.modes.display.is_strip() && !display.is_strip() {
                        s.preload_ahead
                    } else {
                        self.preload_ahead
                    },
                    archives,
                    ..self
                };
                (Manager { current: m.adjusted(), ..m }).reset()
            },
            _ => self,
        }
    }

    /// Lets go of the pages that were loaded to fill a strip, if pages are no longer shown in one.
    fn leave_strip(&mut self, s: &Settings, dm: DisplayMode) -> (stopped: Vec<
        (PageIndices, Cancels),
    >)
        requires
            old(self).wf(*s),
        ensures
            final(self).wf(*s),
            archives_after(
                old(self).archives@,
                final(self).archives@,
                old(self).unloaded_by(*s, ActionView::Display(dm)),
            ),
            stopped@ == ongoing_for(
                old(self).archives@,
                old(self).unloaded_by(*s, ActionView::Display(dm)),
            ),
            final(self).reset() == (Manager {
                preload_ahead: if old(self).modes.display.is_strip() && !dm.is_strip() {
                    s.preload_ahead
                } else {
                    old(self).preload_ahead
                },
                archives: final(self).archives,
                ..*old(self)
            }).reset(),
    {
        if self.modes.display.strip() && !dm.strip() && self.preload_ahead != s.preload_ahead {
            let n: usize = self.preload_ahead - s.preload_ahead;
            return self.shrink_preload(s, n);
        }
        let stopped: Vec<(PageIndices, Cancels)> = Vec::new();
        proof {
            lemma_nothing_unloaded(self.archives@);
            assert(stopped@ =~= ongoing_for(self.archives@, seq![]));
        }
        stopped
    }

    /// Which pages are shown side by side depends on the modes and the archives alone.
    proof fn lemma_adjusted(self, other: Manager)
        requires
            self.archives == other.archives,
            self.current == other.current,
            self.modes == other.modes,
        ensures
            self.adjusted() == other.adjusted(),
    {
    }

    /// Shows pages in another way.
    fn set_display(&mut self, s: &Settings, dm: DisplayMode, Ghost(now): Ghost<Millis>) -> (stopped:
        Vec<(PageIndices, Cancels)>)
        requires
            old(self).wf(*s),
        ensures
            final(self).wf(*s),
            archives_after(
                old(self).archives@,
                final(self).archives@,
                old(self).unloaded_by(*s, ActionView::Display(dm)),
            ),
            stopped@ == ongoing_for(
                old(self).archives@,
                old(self).unloaded_by(*s, ActionView::Display(dm)),
            ),
            *final(self) == old(self).after(
                *s,
                ActionView::Display(dm),
                now,
                final(self).archives,
            ),
    {
        let stopped = self.leave_strip(s, dm);
        self.modes.display = dm;
        let ghost m = *self;
        self.adjust_current_for_dual_page();
        let archives: usize = self.archives.len();
        proof {
            assert(self.counts().len() == archives);
            self.lemma_reset(*s);
        }
        self.reset_indices();
        proof {
            let n = Manager {
                modes: Modes { display: dm, ..old(self).modes },
                preload_ahead: m.preload_ahead,
                archives: self.archives,
                ..*old(self)
            };
            n.lemma_adjusted(m);
        }
        stopped
    }

    /// Does what can be done at once of an action. It says what is left to do, and what to stop
    /// for pages that were let go of.
    #[verifier::spinoff_prover]
    pub fn handle_action(&mut self, s: &Settings, action: &ManagerAction, now: Millis) -> (r: (
        Followup,
        Vec<(PageIndices, Cancels)>,
    ))
        requires
            old(self).wf(*s),
            now + RESOLUTION_DELAY <= u64::MAX,
        ensures
            final(self).wf(*s),
            r.0 == old(self).followup(action@),
            archives_after(
                old(self).archives@,
                final(self).archives@,
                old(self).unloaded_by(*s, action@),
            ),
            r.1@ == ongoing_for(old(self).archives@, old(self).unloaded_by(*s, action@)),
            *final(self) == old(self).after(*s, action@, now, final(self).archives),
    {
        let ghost before = *self;
        let archives: usize = self.archives.len();
        assert(self.counts().len() == archives);
        let mut stopped: Vec<(PageIndices, Cancels)> = Vec::new();
        proof {
            lemma_nothing_unloaded(self.archives@);
            assert(stopped@ =~= ongoing_for(self.archives@, seq![]));
        }
        let followup = match action {
            ManagerAction::Resolution(r) => {
                self.downscale_delay.mark_resize(now);
                self.target_res = *r;
                proof {
                    self.lemma_reset(*s);
                }
                self.reset_indices();
                Followup::Nothing
            },
            ManagerAction::MovePages(..) => Followup::Move,
            ManagerAction::NextArchive => Followup::NextArchive,
            ManagerAction::PreviousArchive => Followup::PreviousArchive,
            ManagerAction::Open(_) => Followup::Open,
            ManagerAction::Status => Followup::Status,
            ManagerAction::ListPages => Followup::ListPages,
            ManagerAction::Execute(_) => Followup::Execute,
            ManagerAction::Script(_) => Followup::Script,
            ManagerAction::Upscaling(toggle) => {
                if toggle.apply(&mut self.modes.upscaling) {
                    proof {
                        self.lemma_reset(*s);
                    }
                    self.reset_indices();
                    Followup::OpenArchives
                } else {
                    Followup::Nothing
                }
            },
            ManagerAction::Manga(toggle) => {
                if toggle.apply(&mut self.modes.manga) {
                    proof {
                        self.lemma_reset(*s);
                    }
                    self.reset_indices();
                    Followup::OpenArchivesForManga
                } else {
                    Followup::Nothing
                }
            },
            ManagerAction::FitStrategy(f) => {
                self.modes.fit = *f;
                proof {
                    self.lemma_reset(*s);
                }
                self.reset_indices();
                Followup::Nothing
            },
            ManagerAction::Display(dm) => {
                stopped = self.set_display(s, *dm, Ghost(now));
                Followup::Nothing
            },
            ManagerAction::CleanExit => Followup::Close,
        };
        (followup, stopped)
    }

    /// Looks at the current pages again when manga mode was switched. A page at the end of an
    /// archive may have become one of a pair, or ceased to be.
    pub fn manga_changed(&mut self, s: &Settings)
        requires
            old(self).wf(*s),
        ensures
            final(self).wf(*s),
            *final(self) == (Manager {
                current: if old(self).modes.display.is_dual_page() && page_of(
                    old(self).current.first(),
                ) is Some && old(self).current.first().page_index() + 1 == old(
                    self,
                ).archives@[old(self).current.first().archive_index()].pages@.len() {
                    (Manager {
                        current: CurrentIndices::Single(old(self).current.first()),
                        ..*old(self)
                    }).adjusted()
                } else {
                    old(self).current
                },
                ..*old(self)
            }),
    {
        if !self.modes.display.dual_page() {
            return;
        }
        let c = self.current.get();
        let pages: usize = self.archives[c.a().0].page_count();
        match c.p() {
            Some(p) => {
                if pages == 0 || p.0 != pages - 1 {
                    return;
                }
            },
            None => return,
        }
        self.current = CurrentIndices::Single(c);
        self.adjust_current_for_dual_page();
    }

    /// Which work can be done now. While scaling down waits, only work without it is done.
    pub fn ready(&self, now: Millis) -> (r: Ready)
        requires
            self.positions_valid(),
        ensures
            ({
                let delayed = self.downscale_delay.delays(now);
                r == Ready {
                    current: !delayed && self.spec_has_work(ManagerWork::Current),
                    finalize: !delayed && self.spec_has_work(ManagerWork::Finalize),
                    downscale: !delayed && self.spec_has_work(ManagerWork::Downscale),
                    load: self.spec_has_work(ManagerWork::Load),
                    upscale: self.spec_has_work(ManagerWork::Upscale),
                    scan: self.spec_has_work(ManagerWork::Scan),
                    delayed,
                }
            }),
    {
        let delayed: bool = self.downscale_delay.delay_downscale(now);
        Ready {
            current: !delayed && self.has_work(ManagerWork::Current),
            finalize: !delayed && self.has_work(ManagerWork::Finalize),
            downscale: !delayed && self.has_work(ManagerWork::Downscale),
            load: self.has_work(ManagerWork::Load),
            upscale: self.has_work(ManagerWork::Upscale),
            scan: self.has_work(ManagerWork::Scan),
            delayed,
        }
    }

    /// What becomes of opening archives in advance that was put off until the current page is
    /// done: whether it is still put off, and whether to do it now.
    pub fn pending_open(&self, pending: bool, current_work: bool) -> (r: (bool, bool))
        ensures
            r.0 == (pending && current_work),
            r.1 == (pending && !current_work && self.modes.manga),
    {
        (pending && current_work, pending && !current_work && self.modes.manga)
    }

    /// A page manager with one archive, at one of its pages.
    pub fn new(s: &Settings, a: Archive, p: Option<usize>, modes: Modes, old_state: GuiState, blocking_work:
        bool) -> (r: Self)
        requires
            s.wf(),
            a.wf(),
            match p {
                Some(p) => p < a.pages@.len(),
                None => a.pages@.len() == 0,
            },
        ensures
            r.wf(*s),
            r.archives@ == seq![a],
            ({
                let c = PageIndices {
                    indices: match p {
                        Some(p) => Indices::Normal(AI(0), PI(p)),
                        None => Indices::Empty(AI(0)),
                    },
                };
                let m = Manager {
                    archives: r.archives,
                    target_res: Res { w: 0, h: 0 },
                    modes,
                    preload_ahead: s.preload_ahead,
                    old_state,
                    action_context: GuiActionContext {
                        scroll_motion_target: ScrollMotionTarget::Maintain,
                    },
                    current: CurrentIndices::Single(c),
                    finalize: None,
                    downscale: None,
                    load: None,
                    upscale: None,
                    scan: None,
                    downscale_delay: DownscaleDelay::Cleared,
                    pending_page_change: None,
                    next_id: 1,
                    blocking_work,
                };
                r == (Manager { current: m.adjusted(), ..m }).reset()
            }),
    {
        let count: usize = a.page_count();
        let mut archives: Vec<Archive> = Vec::new();
        archives.push(a);
        let counts = page_counts(&archives);
        assert(archives@ =~= seq![a]);
        assert(counts@[0] == count);
        let c = PageIndices::new(0, p, counts.as_slice());
        let mut m = Manager {
            archives,
            target_res: Res { w: 0, h: 0 },
            modes,
            preload_ahead: s.preload_ahead,
            old_state,
            action_context: GuiActionContext::default(),
            current: CurrentIndices::Single(c),
            finalize: None,
            downscale: None,
            load: None,
            upscale: None,
            scan: None,
            downscale_delay: DownscaleDelay::Cleared,
            pending_page_change: None,
            next_id: 1,
            blocking_work,
        };
        m.adjust_current_for_dual_page();
        proof {
            m.lemma_reset(*s);
        }
        m.reset_indices();
        m
    }

    /// The variables for programs, with those that the window has.
    pub open spec fn env(
        self,
        gui_env: Seq<(Seq<char>, Seq<char>)>,
        pid: u32,
        window: Option<String>,
        socket: Option<String>,
    ) -> Seq<(Seq<char>, Seq<char>)> {
        let c = self.current.first();
        self.archives@[c.archive_index()].env(page_of(c)) + seq![
            ("AWMAN_PID"@, decimal(pid as nat)),
            ("AWMAN_DISPLAY_MODE"@, self.modes.display.spec_word()),
            ("AWMAN_FIT_MODE"@, self.modes.fit.spec_word()),
            ("AWMAN_MANGA_MODE"@, bool_word(self.modes.manga)),
            ("AWMAN_UPSCALING_ENABLED"@, bool_word(self.modes.upscaling)),
        ] + (match window {
            Some(w) => seq![("AWMAN_WINDOW"@, w@)],
            None => seq![],
        }) + (match socket {
            Some(p) => seq![("AWMAN_SOCKET"@, p@)],
            None => seq![],
        }) + gui_env
    }

    /// The variables for programs, with those that the window has.
    pub fn get_env(
        &self,
        gui_env: Vec<(String, String)>,
        pid: u32,
        window: Option<String>,
        socket: Option<String>,
    ) -> (r: Vec<(String, String)>)
        requires
            self.archives_wf(),
            self.current.valid(self.counts()),
        ensures
            env_view(r@) == self.env(env_view(gui_env@), pid, window, socket),
    {
        let ghost more = env_view(gui_env@);
        let mut gui_env = gui_env;
        let c = self.current.get();
        let mut env = self.archives[c.a().0].get_env(c.p());
        push_env(&mut env, "AWMAN_PID", decimal_text(pid as u64));
        push_env(&mut env, "AWMAN_DISPLAY_MODE", self.modes.display.word().to_owned());
        push_env(&mut env, "AWMAN_FIT_MODE", self.modes.fit.word().to_owned());
        push_env(&mut env, "AWMAN_MANGA_MODE", bool_text(self.modes.manga).to_owned());
        push_env(&mut env, "AWMAN_UPSCALING_ENABLED", bool_text(self.modes.upscaling).to_owned());
        let ghost w = window;
        let ghost p = socket;
        if let Some(w) = window {
            push_env(&mut env, "AWMAN_WINDOW", w);
        }
        if let Some(p) = socket {
            push_env(&mut env, "AWMAN_SOCKET", p);
        }
        let ghost before = env@;
        env.append(&mut gui_env);
        proof {
            assert(env_view(env@) =~= env_view(before) + more);
            assert(env_view(env@) =~= self.env(more, pid, w, p));
        }
        env
    }
}

/// The word for a switch.
pub open spec fn bool_word(b: bool) -> Seq<char> {
    if b {
        "true"@
    } else {
        "false"@
    }
}

/// The word for a switch.
pub fn bool_text(b: bool) -> (r: &'static str)
    ensures
        r@ == bool_word(b),
{
    if b {
        "true"
    } else {
        "false"
    }
}

proof fn lemma_nothing_unloaded(archives: Seq<Archive>)
    ensures
        archives_after(archives, archives, seq![]),
{
    assert forall|a: int, p: int| !crate::manager::upkeep::holds(seq![], a, p) by {}
}

/// Outside of manga mode a jump to a page of the current archive ends at that page.
pub proof fn law_jump_to_page(m: Manager, s: Settings, p: usize)
    requires
        m.wf(s),
        !m.modes.manga,
        p < m.archives@[m.current.first().archive_index()].pages@.len() <= usize::MAX,
    ensures
        m.move_end(crate::com::direction::Direction::Absolute, p) == Some(
            CurrentIndices::Single(
                PageIndices {
                    indices: Indices::Normal(
                        AI(m.current.first().archive_index() as usize),
                        PI(p),
                    ),
                },
            ),
        ),
{
}

} // verus!
