//! The state of the page manager that the window shows.
use vstd::prelude::*;

use crate::com::displayable::Displayable;
use crate::com::mode::{DisplayMode, Fit, Modes};
use crate::com::one_or_two::OneOrTwo;
use crate::com::res::{Res, TargetRes};
use crate::path::{parent, parent_of};
use crate::text::same_text;

verus! {

/// How many pages can be laid out.
#[derive(Clone, Copy, Debug, PartialEq, Eq, Structural)]
pub enum LayoutCount {
    ExactlyOne,
    OneOrMore,
    TwoOrMore,
}

/// What lies beyond the pages that are shown.
#[derive(Clone, Copy, Debug, PartialEq, Eq, Structural)]
pub enum OffscreenContent {
    /// There is nothing, and no point in turning the page.
    Nothing,
    /// Something that cannot be scrolled.
    LayoutIncompatible,
    LayoutCompatible(LayoutCount),
    /// Nobody looked, or it is past what is loaded ahead.
    Unknown,
}

/// The pages that are shown.
#[derive(Debug)]
#[allow(inconsistent_fields)]
pub enum GuiContent {
    Single { current: Displayable, preload: Option<Displayable> },
    Dual { prev: OffscreenContent, visible: OneOrTwo<Displayable>, next: OffscreenContent },
    Strip {
        prev: OffscreenContent,
        current_index: usize,
        visible: Vec<Displayable>,
        next: OffscreenContent,
    },
}

impl Default for GuiContent {
    fn default() -> (r: Self)
        ensures
            r == (GuiContent::Single { current: Displayable::Pending, preload: None }),
    {
        GuiContent::Single { current: Displayable::Pending, preload: None }
    }
}

/// Whether two runs of pages show the same.
pub open spec fn same_pages(a: Seq<Displayable>, b: Seq<Displayable>) -> bool {
    &&& a.len() == b.len()
    &&& forall|i: int| 0 <= i < a.len() ==> (#[trigger] a[i]).same(b[i])
}

fn are_same_pages(a: &Vec<Displayable>, b: &Vec<Displayable>) -> (r: bool)
    ensures
        r == same_pages(a@, b@),
{
    if a.len() != b.len() {
        return false;
    }
    let mut i: usize = 0;
    while i < a.len()
        invariant
            i <= a@.len(),
            a@.len() == b@.len(),
            forall|j: int| 0 <= j < i ==> (#[trigger] a@[j]).same(b@[j]),
        decreases a.len() - i,
    {
        if !a[i].is_same(&b[i]) {
            return false;
        }
        i += 1;
    }
    true
}

impl GuiContent {
    /// Whether the current page is one of a strip, and animations have frames.
    pub open spec fn wf(self) -> bool {
        match self {
            GuiContent::Single { current, preload } => current.wf() && (preload matches Some(p)
                ==> p.wf()),
            GuiContent::Dual { visible, .. } => match visible {
                OneOrTwo::One(f) => f.wf(),
                OneOrTwo::Two(f, s) => f.wf() && s.wf(),
            },
            GuiContent::Strip { current_index, visible, .. } => {
                &&& current_index < visible@.len()
                &&& forall|i: int| 0 <= i < visible@.len() ==> (#[trigger] visible@[i]).wf()
            },
        }
    }

    pub open spec fn spec_ongoing_work(self) -> bool {
        match self {
            GuiContent::Single { current, .. } => current.spec_ongoing(),
            GuiContent::Dual { visible, .. } => match visible {
                OneOrTwo::One(f) => f.spec_ongoing(),
                OneOrTwo::Two(f, s) => f.spec_ongoing() || s.spec_ongoing(),
            },
            GuiContent::Strip { current_index, visible, .. } => {
                ||| visible@[current_index as int].spec_ongoing()
                ||| current_index + 1 < visible@.len() && visible@[current_index
                    + 1].spec_ongoing()
            },
        }
    }

    /// Whether there is more to come of what is shown. In a strip that is the current page and the
    /// next one.
    pub fn ongoing_work(&self) -> (r: bool)
        requires
            self.wf(),
        ensures
            r == self.spec_ongoing_work(),
    {
        match self {
            GuiContent::Single { current, .. } => current.is_ongoing_work(),
            GuiContent::Dual { visible, .. } => match visible {
                OneOrTwo::One(f) => f.is_ongoing_work(),
                OneOrTwo::Two(f, s) => f.is_ongoing_work() || s.is_ongoing_work(),
            },
            GuiContent::Strip { current_index, visible, .. } => {
                let i: usize = *current_index;
                let n: usize = visible.len();
                visible[i].is_ongoing_work() || (i + 1 < n && visible[i + 1].is_ongoing_work())
            },
        }
    }

    /// Whether two show the same.
    pub open spec fn same(self, other: GuiContent) -> bool {
        match (self, other) {
            (
                GuiContent::Single { current: a, preload: p },
                GuiContent::Single { current: b, preload: q },
            ) => {
                &&& a.same(b)
                &&& match (p, q) {
                    (Some(x), Some(y)) => x.same(y),
                    (None, None) => true,
                    _ => false,
                }
            },
            (
                GuiContent::Dual { prev: p, visible: v, next: n },
                GuiContent::Dual { prev: q, visible: w, next: m },
            ) => {
                &&& p == q
                &&& n == m
                &&& match (v, w) {
                    (OneOrTwo::One(a), OneOrTwo::One(b)) => a.same(b),
                    (OneOrTwo::Two(a, c), OneOrTwo::Two(b, d)) => a.same(b) && c.same(d),
                    _ => false,
                }
            },
            (
                GuiContent::Strip { prev: p, current_index: i, visible: v, next: n },
                GuiContent::Strip { prev: q, current_index: j, visible: w, next: m },
            ) => p == q && i == j && n == m && same_pages(v@, w@),
            _ => false,
        }
    }

    /// Whether two show the same.
    pub fn is_same(&self, other: &GuiContent) -> (r: bool)
        ensures
            r == self.same(*other),
    {
        match (self, other) {
            (
                GuiContent::Single { current: a, preload: p },
                GuiContent::Single { current: b, preload: q },
            ) => a.is_same(b) && match (p, q) {
                (Some(x), Some(y)) => x.is_same(y),
                (None, None) => true,
                _ => false,
            },
            (
                GuiContent::Dual { prev: p, visible: v, next: n },
                GuiContent::Dual { prev: q, visible: w, next: m },
            ) => *p == *q && *n == *m && match (v, w) {
                (OneOrTwo::One(a), OneOrTwo::One(b)) => a.is_same(b),
                (OneOrTwo::Two(a, c), OneOrTwo::Two(b, d)) => a.is_same(b) && c.is_same(d),
                _ => false,
            },
            (
                GuiContent::Strip { prev: p, current_index: i, visible: v, next: n },
                GuiContent::Strip { prev: q, current_index: j, visible: w, next: m },
            ) => *p == *q && *i == *j && *n == *m && are_same_pages(v, w),
            _ => false,
        }
    }
}

/// Where the directory is that holds an archive or all of its files.
#[derive(Debug)]
pub enum ContainingPath {
    /// The parent of a path that has one.
    AssertParent(String),
    /// The parent of a path, or the path itself if it has none.
    TryParent(String),
    Current(String),
}

impl ContainingPath {
    pub open spec fn wf(self) -> bool {
        self matches ContainingPath::AssertParent(p) ==> parent(p@) is Some
    }

    /// The directory.
    pub open spec fn directory(self) -> Seq<char> {
        match self {
            ContainingPath::AssertParent(p) => parent(p@)->0,
            ContainingPath::TryParent(p) => match parent(p@) {
                Some(d) => d,
                None => p@,
            },
            ContainingPath::Current(p) => p@,
        }
    }

    /// The directory.
    pub fn get(&self) -> (r: String)
        requires
            self.wf(),
        ensures
            r@ == self.directory(),
    {
        match self {
            ContainingPath::AssertParent(p) => parent_of(p.as_str()).unwrap(),
            ContainingPath::TryParent(p) => match parent_of(p.as_str()) {
                Some(d) => d,
                None => p.clone(),
            },
            ContainingPath::Current(p) => p.clone(),
        }
    }

    /// Whether two are the same.
    pub open spec fn same(self, other: ContainingPath) -> bool {
        match (self, other) {
            (ContainingPath::AssertParent(a), ContainingPath::AssertParent(b)) => a@ == b@,
            (ContainingPath::TryParent(a), ContainingPath::TryParent(b)) => a@ == b@,
            (ContainingPath::Current(a), ContainingPath::Current(b)) => a@ == b@,
            _ => false,
        }
    }

    fn is_same(&self, other: &ContainingPath) -> (r: bool)
        ensures
            r == self.same(*other),
    {
        match (self, other) {
            (ContainingPath::AssertParent(a), ContainingPath::AssertParent(b)) => same_text(
                a.as_str(),
                b.as_str(),
            ),
            (ContainingPath::TryParent(a), ContainingPath::TryParent(b)) => same_text(
                a.as_str(),
                b.as_str(),
            ),
            (ContainingPath::Current(a), ContainingPath::Current(b)) => same_text(
                a.as_str(),
                b.as_str(),
            ),
            _ => false,
        }
    }
}

/// The pages that are shown and what there is to say of them.
#[derive(Debug)]
pub struct GuiState {
    pub content: GuiContent,
    pub page_num: usize,
    /// The name and the path of the page.
    pub page_info: Option<(String, String)>,
    pub archive_len: usize,
    pub archive_name: String,
    pub archive_id: u16,
    pub current_dir: ContainingPath,
    pub modes: Modes,
    pub target_res: TargetRes,
}

/// Whether two pages have the same name and path.
pub open spec fn same_info(a: Option<(String, String)>, b: Option<(String, String)>) -> bool {
    match (a, b) {
        (Some(x), Some(y)) => x.0@ == y.0@ && x.1@ == y.1@,
        (None, None) => true,
        _ => false,
    }
}

impl GuiState {
    /// Whether two show and say the same.
    pub open spec fn same(self, other: GuiState) -> bool {
        &&& self.content.same(other.content)
        &&& self.page_num == other.page_num
        &&& same_info(self.page_info, other.page_info)
        &&& self.archive_len == other.archive_len
        &&& self.archive_name@ == other.archive_name@
        &&& self.archive_id == other.archive_id
        &&& self.current_dir.same(other.current_dir)
        &&& self.modes == other.modes
        &&& self.target_res == other.target_res
    }

    /// Whether two show and say the same.
    pub fn is_same(&self, other: &GuiState) -> (r: bool)
        ensures
            r == self.same(*other),
    {
        let info: bool = match (&self.page_info, &other.page_info) {
            (Some(x), Some(y)) => same_text(x.0.as_str(), y.0.as_str()) && same_text(
                x.1.as_str(),
                y.1.as_str(),
            ),
            (None, None) => true,
            _ => false,
        };
        info && self.content.is_same(&other.content) && self.page_num == other.page_num
            && self.archive_len == other.archive_len && same_text(
            self.archive_name.as_str(),
            other.archive_name.as_str(),
        ) && self.archive_id == other.archive_id && self.current_dir.is_same(&other.current_dir)
            && self.modes == other.modes && self.target_res == other.target_res
    }
}

fn share_pages(v: &Vec<Displayable>) -> (r: Vec<Displayable>)
    ensures
        r@ == v@,
{
    let mut r: Vec<Displayable> = Vec::new();
    let mut i: usize = 0;
    while i < v.len()
        invariant
            i <= v@.len(),
            r@ == v@.take(i as int),
        decreases v.len() - i,
    {
        r.push(v[i].share());
        i += 1;
        assert(v@.take(i as int) =~= v@.take(i - 1).push(v@[i - 1]));
    }
    assert(v@.take(i as int) =~= v@);
    r
}

impl GuiContent {
    /// Whether two hold the same pages.
    pub open spec fn equals(self, other: GuiContent) -> bool {
        match (self, other) {
            (
                GuiContent::Strip { prev: p, current_index: i, visible: v, next: n },
                GuiContent::Strip { prev: q, current_index: j, visible: w, next: m },
            ) => p == q && i == j && n == m && v@ == w@,
            (a, b) => a == b,
        }
    }

    /// Another one with the same pages.
    pub fn share(&self) -> (r: GuiContent)
        ensures
            r.equals(*self),
    {
        match self {
            GuiContent::Single { current, preload } => GuiContent::Single {
                current: current.share(),
                preload: match preload {
                    Some(p) => Some(p.share()),
                    None => None,
                },
            },
            GuiContent::Dual { prev, visible, next } => GuiContent::Dual {
                prev: *prev,
                visible: match visible {
                    OneOrTwo::One(a) => OneOrTwo::One(a.share()),
                    OneOrTwo::Two(a, b) => OneOrTwo::Two(a.share(), b.share()),
                },
                next: *next,
            },
            GuiContent::Strip { prev, current_index, visible, next } => GuiContent::Strip {
                prev: *prev,
                current_index: *current_index,
                visible: share_pages(visible),
                next: *next,
            },
        }
    }
}

impl ContainingPath {
    fn share(&self) -> (r: ContainingPath)
        ensures
            r == *self,
    {
        match self {
            ContainingPath::AssertParent(p) => ContainingPath::AssertParent(p.clone()),
            ContainingPath::TryParent(p) => ContainingPath::TryParent(p.clone()),
            ContainingPath::Current(p) => ContainingPath::Current(p.clone()),
        }
    }
}

impl GuiState {
    /// Whether two hold the same.
    pub open spec fn equals(self, other: GuiState) -> bool {
        &&& self.content.equals(other.content)
        &&& self == (GuiState { content: self.content, ..other })
    }

    /// Another one that shows and says the same.
    pub fn share(&self) -> (r: GuiState)
        ensures
            r.equals(*self),
    {
        GuiState {
            content: self.content.share(),
            page_num: self.page_num,
            page_info: match &self.page_info {
                Some(i) => Some((i.0.clone(), i.1.clone())),
                None => None,
            },
            archive_len: self.archive_len,
            archive_name: self.archive_name.clone(),
            archive_id: self.archive_id,
            current_dir: self.current_dir.share(),
            modes: self.modes,
            target_res: self.target_res,
        }
    }
}

impl Default for GuiState {
    fn default() -> (r: Self)
        ensures
            r.content == (GuiContent::Single { current: Displayable::Pending, preload: None }),
            r.page_num == 0,
            r.page_info is None,
            r.archive_len == 0,
            r.archive_name@ == ""@,
            r.archive_id == 0,
            r.current_dir matches ContainingPath::Current(p) && p@ == ""@,
            r.modes == (Modes {
                manga: false,
                upscaling: false,
                fit: Fit::Container,
                display: DisplayMode::Single,
            }),
            r.target_res == (TargetRes {
                res: Res { w: 0, h: 0 },
                fit: Fit::Container,
                half_width: false,
            }),
    {
        GuiState {
            content: GuiContent::default(),
            page_num: 0,
            page_info: None,
            archive_len: 0,
            archive_name: "".to_owned(),
            archive_id: 0,
            current_dir: ContainingPath::Current("".to_owned()),
            modes: Modes::default(),
            target_res: TargetRes::default(),
        }
    }
}

/// What shows the same has the same number of pages on the same places, and knows the same of what
/// lies beyond them.
pub proof fn law_same_contents(a: GuiContent, b: GuiContent)
    requires
        a.same(b),
    ensures
        a is Single <==> b is Single,
        a is Dual <==> b is Dual,
        a is Strip <==> b is Strip,
        match (a, b) {
            (
                GuiContent::Single { current: x, preload: p },
                GuiContent::Single { current: y, preload: q },
            ) => x.same(y) && (p is Some <==> q is Some) && (p is Some ==> p->0.same(q->0)),
            (
                GuiContent::Dual { prev: p, visible: v, next: n },
                GuiContent::Dual { prev: q, visible: w, next: m },
            ) => p == q && n == m && v.spec_first().same(w.spec_first()) && (v is Two <==> w
                is Two) && (v is Two ==> v->Two_1.same(w->Two_1)),
            (
                GuiContent::Strip { prev: p, current_index: i, visible: v, next: n },
                GuiContent::Strip { prev: q, current_index: j, visible: w, next: m },
            ) => p == q && n == m && i == j && v@.len() == w@.len() && forall|k: int|
                0 <= k < v@.len() ==> (#[trigger] v@[k]).same(w@[k]),
            _ => true,
        },
{
}

/// There is more to come as long as a page that is shown is not there: of a strip the current one
/// or the one behind it.
pub proof fn law_more_to_come(c: GuiContent)
    requires
        c.wf(),
    ensures
        c matches GuiContent::Single { current, .. } ==> c.spec_ongoing_work()
            == current.spec_ongoing(),
        c matches GuiContent::Dual { visible, .. } ==> {
            &&& visible.spec_first().spec_ongoing() ==> c.spec_ongoing_work()
            &&& visible matches OneOrTwo::Two(_, second) ==> {
                second.spec_ongoing() ==> c.spec_ongoing_work()
            }
            &&& visible matches OneOrTwo::Two(first, second) ==> {
                !first.spec_ongoing() && !second.spec_ongoing() ==> !c.spec_ongoing_work()
            }
            &&& visible is One && !visible.spec_first().spec_ongoing() ==> !c.spec_ongoing_work()
        },
        c matches GuiContent::Strip { current_index, visible, .. } ==> {
            c.spec_ongoing_work() <==> exists|k: int|
                current_index <= k <= current_index + 1 && k < visible@.len() && (
                #[trigger] visible@[k]).spec_ongoing()
        },
{
    if let GuiContent::Strip { current_index, visible, .. } = c {
        let i = current_index as int;
        if visible@[i].spec_ongoing() {
            assert(i <= i && visible@[i].spec_ongoing());
        } else if i + 1 < visible@.len() && visible@[i + 1].spec_ongoing() {
            assert(visible@[i + 1].spec_ongoing());
        }
    }
}

} // verus!
