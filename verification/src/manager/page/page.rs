//! Single pages of archives.
use vstd::prelude::*;

use crate::com::displayable::{Displayable, DisplayableView};
use crate::filenames::{shown, shown_name};
use crate::manager::page::animation::AnimationState;
use crate::manager::page::scanned::{
    scanned_as, Cancels, PageKind, ScannedJoin, ScannedPage, ScannedStep, Upscales,
};
use crate::manager::work::{Completion, Work};
use crate::number::{decimal, decimal_text};
use crate::pools::loading::{ScanFuture, ScanResult};

verus! {

/// How far the work on a page has come.
#[derive(Debug)]
pub enum PageState {
    /// Being extracted. The flag says whether it can still be asked to go before others.
    Extracting(bool),
    Unscanned,
    Scanning(ScanFuture),
    Scanned(Box<ScannedPage>),
    Failed(String),
}

/// Where the file of a page is from, with its absolute path.
#[derive(Debug)]
pub enum Origin {
    /// Extracted from an archive. The file belongs to the page.
    Extracted(String),
    Original(String),
}

/// A single page of an archive, even if it moves.
#[derive(Debug)]
pub struct Page {
    pub name: String,
    pub origin: Origin,
    pub rel_path: String,
    pub state: PageState,
    pub index: usize,
}

/// What to do next for a page.
#[derive(Clone, Copy, Debug, PartialEq, Eq, Structural)]
pub enum PageStep {
    AwaitExtraction,
    /// Start to find out what the page is, and keep the image if asked to.
    StartScanning(bool),
    AwaitScanning,
    Scanned(ScannedStep),
}

/// What to do before a page goes away.
#[derive(Debug)]
pub enum PageJoin {
    Nothing,
    AwaitExtraction,
    AwaitScanning,
    Scanned(ScannedJoin),
}

/// What there is to say of a page in a list of pages.
#[derive(Debug)]
pub struct PageInfo {
    pub path: String,
    pub index: usize,
    pub abs_path: Option<String>,
}

/// Variables for programs, by name.
pub open spec fn env_view(v: Seq<(String, String)>) -> Seq<(Seq<char>, Seq<char>)> {
    v.map_values(|p: (String, String)| (p.0@, p.1@))
}

/// Adds a variable for programs.
pub(crate) fn push_env(env: &mut Vec<(String, String)>, name: &str, value: String)
    ensures
        env_view(final(env)@) == env_view(old(env)@).push((name@, value@)),
{
    let ghost before = env_view(env@);
    env.push((name.to_owned(), value));
    assert(env_view(env@) =~= before.push((name@, value@)));
}

impl Page {
    /// Whether its number can be counted, and a loaded animation has frames.
    pub open spec fn wf(self) -> bool {
        &&& self.index < usize::MAX
        &&& self.state matches PageState::Scanned(p) ==> p.wf()
    }

    /// The path of the file.
    pub open spec fn absolute_path(self) -> Seq<char> {
        match self.origin {
            Origin::Extracted(p) => p@,
            Origin::Original(p) => p@,
        }
    }

    /// Whether the file is there.
    pub open spec fn has_file(self) -> bool {
        !(self.state is Extracting) && !(self.state is Failed)
    }

    /// Whether two are the same but for the state.
    pub open spec fn same_file(self, other: Page) -> bool {
        &&& self.name == other.name
        &&& self.origin == other.origin
        &&& self.rel_path == other.rel_path
        &&& self.index == other.index
    }

    /// What is shown of the page.
    pub open spec fn shown(self, upscaling: bool) -> DisplayableView {
        match self.state {
            PageState::Extracting(_) | PageState::Unscanned | PageState::Scanning(_) => {
                DisplayableView::Pending
            },
            PageState::Scanned(p) => p.shown(upscaling),
            PageState::Failed(e) => DisplayableView::Error(e@),
        }
    }

    /// Whether there is something to do for the page.
    pub open spec fn spec_has_work(self, work: Work) -> bool {
        match self.state {
            PageState::Extracting(_) | PageState::Unscanned => true,
            PageState::Scanning(_) => !(work is Scan),
            PageState::Scanned(p) => p.spec_has_work(work),
            PageState::Failed(_) => false,
        }
    }

    /// Whether the page can be worked on.
    pub open spec fn can_do(self, work: Work) -> bool {
        match self.state {
            PageState::Extracting(_) | PageState::Unscanned => true,
            PageState::Scanning(_) => !(work is Scan),
            PageState::Scanned(p) => p.can_do(work),
            PageState::Failed(_) => false,
        }
    }

    /// What to do next for the page.
    pub open spec fn next_step(self, work: Work) -> PageStep {
        match self.state {
            PageState::Extracting(_) => PageStep::AwaitExtraction,
            PageState::Unscanned => PageStep::StartScanning(!work.spec_upscale()),
            PageState::Scanned(p) => PageStep::Scanned(p.next_step(work)),
            _ => PageStep::AwaitScanning,
        }
    }

    /// Whether to ask for the page to be extracted before others.
    pub open spec fn jumps(self, work: Work) -> bool {
        &&& work.spec_params() matches Some(p)
        &&& p.extract_early
        &&& self.state matches PageState::Extracting(jump)
        &&& jump
    }

    /// A page with a file of its own.
    pub fn new_original(abs_path: String, rel_path: String, name: String, index: usize) -> (r: Self)
        ensures
            r == (Page {
                name,
                origin: Origin::Original(abs_path),
                rel_path,
                state: PageState::Unscanned,
                index,
            }),
    {
        Page {
            name,
            origin: Origin::Original(abs_path),
            rel_path,
            state: PageState::Unscanned,
            index,
        }
    }

    /// A page to be extracted.
    pub fn new_extracted(ext_path: String, rel_path: String, name: String, index: usize) -> (r: Self)
        ensures
            r == (Page {
                name,
                origin: Origin::Extracted(ext_path),
                rel_path,
                state: PageState::Extracting(true),
                index,
            }),
    {
        Page {
            name,
            origin: Origin::Extracted(ext_path),
            rel_path,
            state: PageState::Extracting(true),
            index,
        }
    }

    /// What is shown of the page.
    pub fn get_displayable(&self, upscaling: bool) -> (r: Displayable)
        requires
            self.wf(),
        ensures
            r@ == self.shown(upscaling),
            r.wf(),
    {
        match &self.state {
            PageState::Extracting(_) | PageState::Unscanned | PageState::Scanning(_) => {
                Displayable::Pending
            },
            PageState::Scanned(p) => p.get_displayable(upscaling),
            PageState::Failed(e) => Displayable::Error(e.clone()),
        }
    }

    /// Whether there is something to do for the page.
    pub fn has_work(&self, work: &Work) -> (r: bool)
        ensures
            r == self.spec_has_work(*work),
    {
        match &self.state {
            PageState::Extracting(_) | PageState::Unscanned => true,
            PageState::Scanning(_) => match work {
                Work::Scan => false,
                _ => true,
            },
            PageState::Scanned(p) => p.has_work(work),
            PageState::Failed(_) => false,
        }
    }

    /// Finds out what to do next, and whether to ask for the page to be extracted before others.
    /// That is asked once.
    pub fn do_work(&mut self, work: &Work) -> (r: (bool, PageStep))
        requires
            old(self).can_do(*work),
        ensures
            r.0 == old(self).jumps(*work),
            r.1 == old(self).next_step(*work),
            final(self).same_file(*old(self)),
            match old(self).state {
                PageState::Extracting(jump) => final(self).state == PageState::Extracting(
                    jump && !r.0,
                ),
                PageState::Scanned(p) => {
                    &&& final(self).state matches PageState::Scanned(q)
                    &&& q.kind == p.after_step(*work)
                    &&& q.converted_file == p.converted_file
                },
                _ => final(self).state == old(self).state,
            },
            old(self).wf() ==> final(self).wf(),
    {
        let early: bool = work.extract_early();
        match &mut self.state {
            PageState::Extracting(jump) => {
                let j: bool = *jump && early;
                if j {
                    *jump = false;
                }
                (j, PageStep::AwaitExtraction)
            },
            PageState::Unscanned => (false, PageStep::StartScanning(work.load_during_scan())),
            PageState::Scanning(_) => (false, PageStep::AwaitScanning),
            PageState::Scanned(p) => (false, PageStep::Scanned(p.do_work(work))),
            PageState::Failed(_) => (false, PageStep::AwaitScanning),
        }
    }

    /// Which stage is completed when a step is.
    pub fn completion(step: PageStep) -> (r: Completion)
        ensures
            r == match step {
                PageStep::AwaitExtraction | PageStep::StartScanning(_) => Completion::StartScan,
                PageStep::AwaitScanning => Completion::Scanned,
                PageStep::Scanned(_) => Completion::More,
            },
    {
        match step {
            PageStep::AwaitExtraction | PageStep::StartScanning(_) => Completion::StartScan,
            PageStep::AwaitScanning => Completion::Scanned,
            PageStep::Scanned(_) => Completion::More,
        }
    }

    /// Extraction has come to an end, and whether it succeeded. If so, scanning starts at once.
    pub fn extraction_finished(&mut self, extracted: bool)
        requires
            old(self).state is Extracting,
        ensures
            final(self).same_file(*old(self)),
            extracted ==> final(self).state is Unscanned,
            !extracted ==> (final(self).state matches PageState::Failed(e) && e@
                == "Failed to extract page."@),
            old(self).wf() ==> final(self).wf(),
    {
        self.state = if extracted {
            PageState::Unscanned
        } else {
            PageState::Failed("Failed to extract page.".to_owned())
        };
    }

    /// Scanning has started.
    pub fn scanning_started(&mut self)
        requires
            old(self).state is Unscanned,
        ensures
            final(self).same_file(*old(self)),
            final(self).state == PageState::Scanning(ScanFuture { unloaded: false }),
            old(self).wf() ==> final(self).wf(),
    {
        self.state = PageState::Scanning(ScanFuture { unloaded: false });
    }

    /// Scanning has come to an end.
    pub fn scanning_finished(&mut self, result: ScanResult, u: &Upscales)
        requires
            old(self).state is Scanning,
        ensures
            final(self).same_file(*old(self)),
            final(self).state matches PageState::Scanned(p) && p.wf() && scanned_as(
                *p,
                old(self).absolute_path(),
                old(self).index,
                if old(self).state->Scanning_0.unloaded {
                    result.unloaded()
                } else {
                    result
                },
                *u,
            ),
            old(self).wf() ==> final(self).wf(),
    {
        let scanned = match &self.state {
            PageState::Scanning(f) => {
                let path: &String = match &self.origin {
                    Origin::Extracted(p) => p,
                    Origin::Original(p) => p,
                };
                ScannedPage::new(path.as_str(), self.index, f.finish(result), u)
            },
            _ => return,
        };
        self.state = PageState::Scanned(Box::new(scanned));
    }

    /// What to do before the page goes away.
    pub fn join(self) -> (r: PageJoin)
        ensures
            match self.state {
                PageState::Extracting(_) => r is AwaitExtraction,
                PageState::Unscanned | PageState::Failed(_) => r is Nothing,
                PageState::Scanning(_) => r is AwaitScanning,
                PageState::Scanned(p) => {
                    &&& r matches PageJoin::Scanned(j)
                    &&& j.image == p.ongoing().image
                    &&& j.upscaled == p.upscaled_join()
                    &&& j.animation == p.ongoing().animation
                    &&& j.remove == p.converted_file
                },
            },
    {
        match self.state {
            PageState::Extracting(_) => PageJoin::AwaitExtraction,
            PageState::Unscanned | PageState::Failed(_) => PageJoin::Nothing,
            PageState::Scanning(_) => PageJoin::AwaitScanning,
            PageState::Scanned(p) => PageJoin::Scanned((*p).join()),
        }
    }

    /// The file to remove with the page, given whether extraction succeeded where it still went
    /// on. Only an extracted file is removed, and only if it was written.
    pub fn file_to_remove(&self, extracted: bool) -> (r: Option<String>)
        ensures
            match (self.origin, self.state) {
                (Origin::Original(_), _) | (_, PageState::Failed(_)) => r is None,
                (Origin::Extracted(p), PageState::Extracting(_)) => if extracted {
                    r matches Some(f) && f@ == p@
                } else {
                    r is None
                },
                (Origin::Extracted(p), _) => r matches Some(f) && f@ == p@,
            },
    {
        let written: bool = match &self.state {
            PageState::Extracting(_) => extracted,
            PageState::Unscanned | PageState::Scanning(_) | PageState::Scanned(_) => true,
            PageState::Failed(_) => return None,
        };
        match &self.origin {
            Origin::Extracted(p) => if written {
                Some(p.clone())
            } else {
                None
            },
            Origin::Original(_) => None,
        }
    }

    /// The page once it was let go of.
    pub open spec fn unloaded_as(self, after: PageState) -> bool {
        match self.state {
            PageState::Scanning(_) => after == PageState::Scanning(ScanFuture { unloaded: true }),
            PageState::Scanned(p) => {
                &&& after matches PageState::Scanned(q)
                &&& q.kind == p.unloaded()
                &&& q.converted_file == p.converted_file
            },
            s => after == s,
        }
    }

    /// Lets go of what was loaded, and says what to stop.
    pub fn unload(&mut self) -> (r: Option<Cancels>)
        ensures
            final(self).same_file(*old(self)),
            old(self).wf() ==> final(self).wf(),
            old(self).unloaded_as(final(self).state),
            match old(self).state {
                PageState::Scanned(p) => r == Some(p.ongoing()),
                _ => r is None,
            },
    {
        match &mut self.state {
            PageState::Extracting(_) | PageState::Unscanned | PageState::Failed(_) => None,
            PageState::Scanning(f) => {
                f.unload_scanning();
                None
            },
            PageState::Scanned(p) => Some(p.unload()),
        }
    }

    /// The path of the file.
    pub fn get_absolute_file_path(&self) -> (r: &String)
        ensures
            r@ == self.absolute_path(),
    {
        match &self.origin {
            Origin::Extracted(p) => p,
            Origin::Original(p) => p,
        }
    }

    /// The variables for programs that speak of the page.
    pub open spec fn env(self) -> Seq<(Seq<char>, Seq<char>)> {
        let e = seq![
            ("AWMAN_PAGE_NUMBER"@, decimal((self.index + 1) as nat)),
            ("AWMAN_RELATIVE_FILE_PATH"@, self.rel_path@),
        ];
        if self.has_file() {
            e.push(("AWMAN_CURRENT_FILE"@, self.absolute_path()))
        } else {
            e
        }
    }

    /// The variables for programs that speak of the page.
    pub fn get_env(&self) -> (r: Vec<(String, String)>)
        requires
            self.wf(),
        ensures
            env_view(r@) == self.env(),
    {
        let mut e: Vec<(String, String)> = Vec::new();
        push_env(&mut e, "AWMAN_PAGE_NUMBER", decimal_text(self.index as u64 + 1));
        push_env(&mut e, "AWMAN_RELATIVE_FILE_PATH", self.rel_path.clone());
        match &self.state {
            PageState::Extracting(_) | PageState::Failed(_) => {},
            PageState::Unscanned | PageState::Scanning(_) | PageState::Scanned(_) => {
                push_env(&mut e, "AWMAN_CURRENT_FILE", self.get_absolute_file_path().clone());
            },
        }
        assert(env_view(e@) =~= self.env());
        e
    }

    /// What there is to say of the page in a list of pages.
    pub fn page_info(&self) -> (r: PageInfo)
        requires
            self.wf(),
        ensures
            r.path@ == shown(self.rel_path@),
            r.index == self.index + 1,
            match r.abs_path {
                Some(p) => self.has_file() && p@ == shown(self.absolute_path()),
                None => !self.has_file(),
            },
    {
        let abs_path: Option<String> = match &self.state {
            PageState::Extracting(_) | PageState::Failed(_) => None,
            PageState::Unscanned | PageState::Scanning(_) | PageState::Scanned(_) => Some(
                shown_name(self.get_absolute_file_path().as_str()),
            ),
        };
        PageInfo { path: shown_name(self.rel_path.as_str()), index: self.index + 1, abs_path }
    }
}

/// A page can be worked on wherever there is something to do.
pub proof fn law_work_can_be_done(p: Page, work: Work)
    requires
        p.spec_has_work(work),
    ensures
        p.can_do(work),
{
}

/// Letting go of a page changes nothing of what is known of it: where it is shown with a
/// resolution, it still is, and with the same one, unless a loaded animation is of another size
/// than the scan found.
pub proof fn law_unload_keeps_layout(p: Page, q: Page, upscaling: bool)
    requires
        p.unloaded_as(q.state),
        p.state matches PageState::Scanned(s) ==> (s.kind matches PageKind::Animation(a) ==> (
        a.state matches AnimationState::Loaded(l) ==> l.frames.frames.items()[0].0.res
            == a.original_res)),
    ensures
        q.shown(upscaling).res() == p.shown(upscaling).res(),
{
}

} // verus!
