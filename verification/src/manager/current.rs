//! The current page, or the two of them.
use vstd::prelude::*;

use crate::com::one_or_two::OneOrTwo;
use crate::manager::indices::PageIndices;

verus! {

/// The current page. `Single` becomes one or two pages in dual page mode, while one page alone in
/// `Dual` is shown alone on purpose.
#[derive(Debug)]
pub enum CurrentIndices {
    Single(PageIndices),
    Dual(OneOrTwo<PageIndices>),
}

impl CurrentIndices {
    /// The first of the current pages.
    pub open spec fn first(self) -> PageIndices {
        match self {
            CurrentIndices::Single(c) => c,
            CurrentIndices::Dual(d) => d.spec_first(),
        }
    }

    /// The last of the current pages.
    pub open spec fn last(self) -> PageIndices {
        match self {
            CurrentIndices::Dual(OneOrTwo::Two(_, n)) => n,
            _ => self.first(),
        }
    }

    /// Whether all current pages are there.
    pub open spec fn valid(self, counts: Seq<usize>) -> bool {
        self.first().valid(counts) && self.last().valid(counts)
    }

    /// The first of the current pages.
    pub fn get(&self) -> (r: PageIndices)
        ensures
            r == self.first(),
    {
        match self {
            CurrentIndices::Single(c) => *c,
            CurrentIndices::Dual(d) => *d.first(),
        }
    }

    /// Whether two are the same pages, of archives with another number.
    pub open spec fn shifted(self, other: CurrentIndices, by: int) -> bool {
        match (self, other) {
            (CurrentIndices::Single(a), CurrentIndices::Single(b)) => a.shifted(b, by),
            (
                CurrentIndices::Dual(OneOrTwo::One(a)),
                CurrentIndices::Dual(OneOrTwo::One(b)),
            ) => a.shifted(b, by),
            (
                CurrentIndices::Dual(OneOrTwo::Two(a, c)),
                CurrentIndices::Dual(OneOrTwo::Two(b, d)),
            ) => a.shifted(b, by) && c.shifted(d, by),
            _ => false,
        }
    }

    /// An archive was added at the front.
    pub fn increment_archive(&mut self)
        requires
            old(self).first().archive_index() < usize::MAX,
            old(self).last().archive_index() < usize::MAX,
        ensures
            old(self).shifted(*final(self), 1),
    {
        match self {
            CurrentIndices::Single(c) => c.increment_archive(),
            CurrentIndices::Dual(OneOrTwo::One(c)) => c.increment_archive(),
            CurrentIndices::Dual(OneOrTwo::Two(c, n)) => {
                c.increment_archive();
                n.increment_archive();
            },
        }
    }

    /// An archive was removed from the front.
    pub fn decrement_archive(&mut self)
        requires
            old(self).first().archive_index() > 0,
            old(self).last().archive_index() > 0,
        ensures
            old(self).shifted(*final(self), -1),
    {
        match self {
            CurrentIndices::Single(c) => c.decrement_archive(),
            CurrentIndices::Dual(OneOrTwo::One(c)) => c.decrement_archive(),
            CurrentIndices::Dual(OneOrTwo::Two(c, n)) => {
                c.decrement_archive();
                n.decrement_archive();
            },
        }
    }
}

} // verus!
