//! The state of the page manager.
use vstd::prelude::*;

use crate::com::content::GuiState;
use crate::com::direction::Direction;
use crate::com::displayable::{Displayable, DisplayableView};
use crate::com::mode::Modes;
use crate::com::res::{Res, TargetRes};
use crate::com::toggle::GuiActionContext;
use crate::manager::archive::Archive;
use crate::manager::current::CurrentIndices;
use crate::manager::delay::{DownscaleDelay, Millis};
use crate::manager::indices::{Indices, PageIndices, PI};

verus! {

/// What the user has set for the page manager.
#[derive(Debug)]
pub struct Settings {
    /// How many pages to load ahead of the current one.
    pub preload_ahead: usize,
    /// How many pages to keep behind the current one.
    pub preload_behind: usize,
    /// How many pages to upscale ahead of the current one.
    pub prescale: usize,
    /// How many pages at most to load ahead to fill the space that a strip is shown in.
    pub max_strip_preload_ahead: Option<usize>,
    /// By how many pixels a scroll command scrolls.
    pub scroll_amount: u32,
    pub mode_change_command: Option<String>,
    pub archive_change_command: Option<String>,
    pub page_change_command: Option<String>,
    /// For how many seconds a page must be the current one before the command for it is run.
    pub page_change_debounce: Option<u32>,
    pub idle_command: Option<String>,
    pub unidle_command: Option<String>,
}

impl Settings {
    /// Whether scrolling goes anywhere, and strips are allowed as many pages as anything else.
    pub open spec fn wf(self) -> bool {
        &&& self.scroll_amount > 0
        &&& self.max_strip_preload_ahead matches Some(m) ==> self.preload_ahead <= m
    }

    /// How many pages behind the current one work is done for.
    pub open spec fn behind(self) -> nat {
        if self.preload_behind <= isize::MAX {
            self.preload_behind as nat
        } else {
            isize::MAX as nat + 1
        }
    }
}

/// Which work is done next for a page.
#[derive(Clone, Copy, Debug, PartialEq, Eq, Structural)]
pub enum ManagerWork {
    /// All work for the current page.
    Current,
    Finalize,
    Downscale,
    Load,
    Upscale,
    Scan,
}

/// The state of the page manager.
#[derive(Debug)]
pub struct Manager {
    pub archives: Vec<Archive>,
    pub target_res: Res,
    pub modes: Modes,
    pub preload_ahead: usize,
    /// What was sent to the window last.
    pub old_state: GuiState,
    pub action_context: GuiActionContext,
    pub current: CurrentIndices,
    /// The next pages to finalize, downscale, load, upscale and scan. They may not be extracted
    /// yet.
    pub finalize: Option<PageIndices>,
    pub downscale: Option<PageIndices>,
    pub load: Option<PageIndices>,
    pub upscale: Option<PageIndices>,
    pub scan: Option<PageIndices>,
    pub downscale_delay: DownscaleDelay,
    /// When to run the command for a change of the page.
    pub pending_page_change: Option<Millis>,
    pub next_id: u16,
    /// Whether the window was told that something takes a while.
    pub blocking_work: bool,
}

/// How many pages archives have.
pub open spec fn counts_of(archives: Seq<Archive>) -> Seq<usize> {
    archives.map_values(|a: Archive| a.pages@.len() as usize)
}

/// How many pages archives have.
pub fn page_counts(archives: &Vec<Archive>) -> (r: Vec<usize>)
    ensures
        r@ == counts_of(archives@),
{
    let mut r: Vec<usize> = Vec::new();
    let mut i: usize = 0;
    while i < archives.len()
        invariant
            i <= archives@.len(),
            r@ == counts_of(archives@).take(i as int),
        decreases archives.len() - i,
    {
        r.push(archives[i].page_count());
        i += 1;
        assert(counts_of(archives@).take(i as int) =~= counts_of(archives@).take(i - 1).push(
            counts_of(archives@)[i - 1],
        ));
    }
    assert(counts_of(archives@).take(i as int) =~= counts_of(archives@));
    r
}

/// Whether a position is there, if it is one.
pub open spec fn valid_if_any(i: Option<PageIndices>, counts: Seq<usize>) -> bool {
    i matches Some(i) ==> i.valid(counts)
}

/// The page that a position is that of.
pub open spec fn page_of(i: PageIndices) -> Option<PI> {
    match i.indices {
        Indices::Normal(_, p) => Some(p),
        Indices::Empty(_) => None,
    }
}

impl Manager {
    /// How many pages the archives have.
    pub open spec fn counts(self) -> Seq<usize> {
        counts_of(self.archives@)
    }

    /// Whether archives are in order.
    pub open spec fn archives_wf(self) -> bool {
        &&& self.archives@.len() > 0
        &&& forall|i: int| 0 <= i < self.archives@.len() ==> (#[trigger] self.archives@[i]).wf()
    }

    /// Whether all positions are those of pages, or of archives without any.
    pub open spec fn positions_valid(self) -> bool {
        &&& self.current.valid(self.counts())
        &&& valid_if_any(self.finalize, self.counts())
        &&& valid_if_any(self.downscale, self.counts())
        &&& valid_if_any(self.load, self.counts())
        &&& valid_if_any(self.upscale, self.counts())
        &&& valid_if_any(self.scan, self.counts())
    }

    /// Whether no fewer pages are loaded ahead than the settings say, and no more than a strip may
    /// have.
    pub open spec fn preload_wf(self, s: Settings) -> bool {
        &&& s.preload_ahead <= self.preload_ahead
        &&& s.max_strip_preload_ahead matches Some(m) ==> self.preload_ahead <= m
    }

    /// The position that some work is done for.
    pub open spec fn position_for(self, w: ManagerWork) -> Option<PageIndices> {
        match w {
            ManagerWork::Current => Some(self.current.first()),
            ManagerWork::Finalize => self.finalize,
            ManagerWork::Downscale => self.downscale,
            ManagerWork::Load => self.load,
            ManagerWork::Upscale => self.upscale,
            ManagerWork::Scan => self.scan,
        }
    }

    /// How many pages ahead of the current one some work is done for.
    pub open spec fn ahead(self, s: Settings, w: ManagerWork) -> nat {
        let pages = if w is Upscale && s.prescale > self.preload_ahead {
            s.prescale
        } else {
            self.preload_ahead
        };
        if pages <= isize::MAX {
            pages as nat
        } else {
            isize::MAX as nat
        }
    }

    /// The number of the first position that work is done for.
    pub open spec fn range_start(self, s: Settings) -> nat {
        if self.modes.manga {
            self.current.first().earlier_number(self.counts(), s.behind())
        } else {
            self.current.first().moved_in_archive(
                self.counts(),
                Direction::Backwards,
                s.behind(),
            ).number(self.counts())
        }
    }

    /// The number of the last position that some work is done for.
    pub open spec fn range_end(self, s: Settings, w: ManagerWork) -> nat {
        if self.modes.manga {
            self.current.first().later_number(self.counts(), self.ahead(s, w))
        } else {
            self.current.first().moved_in_archive(
                self.counts(),
                Direction::Forwards,
                self.ahead(s, w),
            ).number(self.counts())
        }
    }

    /// Whether the position that some work is done for is within the range for that work.
    pub open spec fn in_range(self, s: Settings, w: ManagerWork) -> bool {
        self.position_for(w) matches Some(i) ==> self.range_start(s) <= i.number(self.counts())
            <= self.range_end(s, w)
    }

    /// Whether all positions are within the ranges for their work.
    pub open spec fn ranges_wf(self, s: Settings) -> bool {
        &&& self.in_range(s, ManagerWork::Finalize)
        &&& self.in_range(s, ManagerWork::Downscale)
        &&& self.in_range(s, ManagerWork::Load)
        &&& self.in_range(s, ManagerWork::Upscale)
        &&& self.in_range(s, ManagerWork::Scan)
        &&& self.upscale is Some ==> self.modes.upscaling
    }

    /// What every operation keeps.
    pub open spec fn wf(self, s: Settings) -> bool {
        &&& s.wf()
        &&& self.archives_wf()
        &&& self.positions_valid()
        &&& self.preload_wf(s)
        &&& self.ranges_wf(s)
    }

    /// What is shown of a page.
    pub open spec fn shown_at(self, i: PageIndices) -> DisplayableView {
        self.archives@[i.archive_index()].shown(page_of(i), self.modes.upscaling)
    }

    /// The space that pages are fitted to.
    pub open spec fn target(self) -> TargetRes {
        TargetRes {
            res: self.target_res,
            fit: self.modes.fit,
            half_width: self.modes.display.is_dual_page(),
        }
    }

    /// The space that pages are fitted to.
    pub fn target_res(&self) -> (r: TargetRes)
        ensures
            r == self.target(),
    {
        TargetRes {
            res: self.target_res,
            fit: self.modes.fit,
            half_width: self.modes.display.half_width_pages(),
        }
    }

    /// What is shown of a page.
    pub fn get_displayable(&self, i: &PageIndices) -> (r: Displayable)
        requires
            self.archives_wf(),
            i.valid(self.counts()),
        ensures
            r@ == self.shown_at(*i),
            r.wf(),
    {
        self.archives[i.a().0].get_displayable(i.p(), self.modes.upscaling)
    }

    /// An identifier for another archive.
    pub fn next_id(&mut self) -> (r: u16)
        ensures
            r == old(self).next_id,
            *final(self) == (Manager {
                next_id: if r == u16::MAX {
                    0
                } else {
                    (r + 1) as u16
                },
                ..*old(self)
            }),
    {
        let id: u16 = self.next_id;
        self.next_id = id.wrapping_add(1);
        id
    }
}

/// Whether what the window was told, and when commands are run, is all that two states differ in.
pub open spec fn same_pages(a: Manager, b: Manager) -> bool {
    b == (Manager {
        action_context: b.action_context,
        old_state: b.old_state,
        blocking_work: b.blocking_work,
        pending_page_change: b.pending_page_change,
        downscale_delay: b.downscale_delay,
        next_id: b.next_id,
        ..a
    })
}

/// What the window was told does not matter for what every operation keeps.
pub proof fn lemma_same_pages(a: Manager, b: Manager, s: Settings)
    requires
        a.wf(s),
        same_pages(a, b),
    ensures
        b.wf(s),
{
}

/// What is drawn is what is laid out.
pub proof fn lemma_view_layout(d: Displayable)
    ensures
        d.spec_layout() == d@.layout(),
        d.layout_res() == d@.res(),
{
}

} // verus!
