//! Switches, and what happens to the scroll position with a change of pages.
use vstd::prelude::*;

use crate::text::{chars_of, equal_ignoring_case, same_ignoring_case};

verus! {

/// What to do with something that is on or off.
#[derive(Clone, Copy, Debug, PartialEq, Eq, Structural)]
pub enum Toggle {
    Change,
    On,
    Off,
}

/// The switch that a word stands for, in any case.
pub open spec fn parse_toggle(s: Seq<char>) -> Result<Toggle, ()> {
    if equal_ignoring_case(s, "toggle"@) {
        Ok(Toggle::Change)
    } else if equal_ignoring_case(s, "on"@) {
        Ok(Toggle::On)
    } else if equal_ignoring_case(s, "off"@) {
        Ok(Toggle::Off)
    } else {
        Err(())
    }
}

/// Whether a word is another one in any case.
pub(crate) fn is_word(s: &[char], word: &str) -> (r: bool)
    ensures
        r == equal_ignoring_case(s@, word@),
{
    let w = chars_of(word);
    same_ignoring_case(s, w.as_slice())
}

impl Toggle {
    /// The switch that a word stands for, in any case.
    pub fn try_from(value: &[char]) -> (r: Result<Self, ()>)
        ensures
            r == parse_toggle(value@),
    {
        if is_word(value, "toggle") {
            Ok(Toggle::Change)
        } else if is_word(value, "on") {
            Ok(Toggle::On)
        } else if is_word(value, "off") {
            Ok(Toggle::Off)
        } else {
            Err(())
        }
    }

    /// Whether something that is on or off becomes the other.
    pub open spec fn changes(self, v: bool) -> bool {
        match self {
            Toggle::Change => true,
            Toggle::On => !v,
            Toggle::Off => v,
        }
    }

    /// Switches, and says whether something happened.
    #[must_use]
    pub fn apply(self, v: &mut bool) -> (r: bool)
        ensures
            r == self.changes(*old(v)),
            *final(v) == (if r {
                !*old(v)
            } else {
                *old(v)
            }),
    {
        match (self, *v) {
            (Toggle::Change, _) | (Toggle::On, false) | (Toggle::Off, true) => {
                *v = !*v;
                true
            },
            _ => false,
        }
    }

    /// What to set something to that is read and set elsewhere, if it changes.
    #[must_use]
    pub fn apply_cell(self, v: bool) -> (r: Option<bool>)
        ensures
            r == if self.changes(v) {
                Some(!v)
            } else {
                None::<bool>
            },
    {
        match (self, v) {
            (Toggle::Change, _) | (Toggle::On, false) | (Toggle::Off, true) => Some(!v),
            _ => None,
        }
    }

    /// Runs what belongs to a change, if there is one.
    pub fn run_if_change<T: FnOnce(), F: FnOnce()>(self, v: bool, became_true: T, became_false: F)
        requires
            self.changes(v) && !v ==> became_true.requires(()),
            self.changes(v) && v ==> became_false.requires(()),
        ensures
            self.changes(v) && !v ==> became_true.ensures((), ()),
            self.changes(v) && v ==> became_false.ensures((), ()),
    {
        match (self, v) {
            (Toggle::Change, false) | (Toggle::On, false) => became_true(),
            (Toggle::Change, true) | (Toggle::Off, true) => became_false(),
            _ => {},
        }
    }
}

/// Switching twice by hand is not switching at all.
pub proof fn law_toggle_twice(v: bool)
    ensures
        Toggle::Change.changes(v),
        Toggle::Change.changes(!v),
        !Toggle::On.changes(true),
        !Toggle::Off.changes(false),
{
}

/// Which way scrolling past an edge turns the pages.
#[derive(Clone, Copy, Debug, PartialEq, Eq, Structural)]
pub enum Pagination {
    Forwards,
    Backwards,
}

/// Where to scroll to when pages or modes have changed.
#[derive(Clone, Copy, Debug, PartialEq, Eq, Structural)]
pub enum ScrollMotionTarget {
    Maintain,
    Start,
    End,
    Continuous(Pagination),
}

impl Default for ScrollMotionTarget {
    fn default() -> (r: Self)
        ensures
            r == ScrollMotionTarget::Maintain,
    {
        ScrollMotionTarget::Maintain
    }
}

/// The target that a word stands for, in any case.
pub open spec fn parse_scroll_target(s: Seq<char>) -> Result<ScrollMotionTarget, ()> {
    if equal_ignoring_case(s, "start"@) {
        Ok(ScrollMotionTarget::Start)
    } else if equal_ignoring_case(s, "end"@) {
        Ok(ScrollMotionTarget::End)
    } else if equal_ignoring_case(s, "current"@) {
        Ok(ScrollMotionTarget::Maintain)
    } else {
        Err(())
    }
}

impl ScrollMotionTarget {
    /// The target that a word stands for, in any case.
    pub fn try_from(value: &[char]) -> (r: Result<Self, ()>)
        ensures
            r == parse_scroll_target(value@),
    {
        if is_word(value, "start") {
            Ok(ScrollMotionTarget::Start)
        } else if is_word(value, "end") {
            Ok(ScrollMotionTarget::End)
        } else if is_word(value, "current") {
            Ok(ScrollMotionTarget::Maintain)
        } else {
            Err(())
        }
    }

    pub open spec fn continues(self) -> bool {
        self is Maintain || self is Continuous
    }

    /// Whether a motion that is under way goes on.
    pub fn continue_current_scroll(self) -> (r: bool)
        ensures
            r == self.continues(),
    {
        match self {
            ScrollMotionTarget::Maintain | ScrollMotionTarget::Continuous(_) => true,
            ScrollMotionTarget::Start | ScrollMotionTarget::End => false,
        }
    }
}

/// What the window sends along with an action, and gets back with the state that the action leads
/// to.
#[derive(Clone, Copy, Debug, PartialEq, Eq, Structural)]
pub struct GuiActionContext {
    pub scroll_motion_target: ScrollMotionTarget,
}

impl Default for GuiActionContext {
    fn default() -> (r: Self)
        ensures
            r.scroll_motion_target == ScrollMotionTarget::Maintain,
    {
        GuiActionContext { scroll_motion_target: ScrollMotionTarget::Maintain }
    }
}

impl From<ScrollMotionTarget> for GuiActionContext {
    fn from(scroll_motion_target: ScrollMotionTarget) -> (r: Self) {
        GuiActionContext { scroll_motion_target }
    }
}

impl vstd::std_specs::convert::FromSpecImpl<ScrollMotionTarget> for GuiActionContext {
    open spec fn obeys_from_spec() -> bool {
        true
    }

    open spec fn from_spec(scroll_motion_target: ScrollMotionTarget) -> Self {
        GuiActionContext { scroll_motion_target }
    }
}

/// The words for a switch, in any case.
pub proof fn law_words_for_switches(s: Seq<char>)
    ensures
        parse_toggle(s) == Ok::<Toggle, ()>(Toggle::Change) <==> equal_ignoring_case(
            s,
            "toggle"@,
        ),
        parse_toggle(s) == Ok::<Toggle, ()>(Toggle::On) <==> equal_ignoring_case(s, "on"@),
        parse_toggle(s) == Ok::<Toggle, ()>(Toggle::Off) <==> equal_ignoring_case(s, "off"@),
{
    reveal_strlit("toggle");
    reveal_strlit("on");
    reveal_strlit("off");
}

/// Something is on after it was switched on and off after it was switched off, and not what it was
/// after it was changed.
pub proof fn law_switches(v: bool)
    ensures
        Toggle::On.changes(v) == !v,
        Toggle::Off.changes(v) == v,
        Toggle::Change.changes(v),
{
}

/// The words for a place to scroll to, in any case.
pub proof fn law_words_for_scroll_targets(s: Seq<char>)
    ensures
        parse_scroll_target(s) == Ok::<ScrollMotionTarget, ()>(ScrollMotionTarget::Start)
            <==> equal_ignoring_case(s, "start"@),
        parse_scroll_target(s) == Ok::<ScrollMotionTarget, ()>(ScrollMotionTarget::End)
            <==> equal_ignoring_case(s, "end"@),
        parse_scroll_target(s) == Ok::<ScrollMotionTarget, ()>(ScrollMotionTarget::Maintain)
            <==> equal_ignoring_case(s, "current"@),
        parse_scroll_target(s) is Err <==> !equal_ignoring_case(s, "start"@)
            && !equal_ignoring_case(s, "end"@) && !equal_ignoring_case(s, "current"@),
{
    reveal_strlit("start");
    reveal_strlit("end");
    reveal_strlit("current");
}

/// A motion that is under way goes on unless there is another place to scroll to.
pub proof fn law_motions_that_go_on(t: ScrollMotionTarget)
    ensures
        t.continues() <==> t != ScrollMotionTarget::Start && t != ScrollMotionTarget::End,
{
}

} // verus!
