//! One or two of something.
use vstd::prelude::*;

verus! {

/// The one page that is shown, or the two side by side.
#[derive(Debug, PartialEq, Eq)]
pub enum OneOrTwo<T> {
    One(T),
    Two(T, T),
}

impl<T> OneOrTwo<T> {
    pub open spec fn spec_first(self) -> T {
        match self {
            OneOrTwo::One(f) => f,
            OneOrTwo::Two(f, _) => f,
        }
    }

    pub fn first(&self) -> (r: &T)
        ensures
            *r == self.spec_first(),
    {
        match self {
            OneOrTwo::One(f) => f,
            OneOrTwo::Two(f, _) => f,
        }
    }

    pub fn second(&self) -> (r: Option<&T>)
        ensures
            match *self {
                OneOrTwo::One(_) => r is None,
                OneOrTwo::Two(_, s) => r == Some(&s),
            },
    {
        match self {
            OneOrTwo::One(_) => None,
            OneOrTwo::Two(_, s) => Some(s),
        }
    }

    pub fn count(&self) -> (r: usize)
        ensures
            r == (if *self is One {
                1int
            } else {
                2
            }),
    {
        match self {
            OneOrTwo::One(_) => 1,
            OneOrTwo::Two(..) => 2,
        }
    }

    /// Whether a condition holds of either, the first being asked first.
    pub fn either<F: Fn(&T) -> bool>(&self, cond: F) -> (r: bool)
        requires
            match *self {
                OneOrTwo::One(f) => cond.requires((&f,)),
                OneOrTwo::Two(f, s) => cond.requires((&f,)) && cond.requires((&s,)),
            },
        ensures
            match *self {
                OneOrTwo::One(f) => cond.ensures((&f,), r),
                OneOrTwo::Two(f, s) => {
                    ||| r && cond.ensures((&f,), true)
                    ||| cond.ensures((&f,), false) && cond.ensures((&s,), r)
                },
            },
    {
        match self {
            OneOrTwo::One(f) => cond(f),
            OneOrTwo::Two(f, s) => cond(f) || cond(s),
        }
    }
}

} // verus!
