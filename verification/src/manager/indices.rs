//! Positions in the pages of a queue of open archives.
//!
//! The queue is known by the page count of each archive. An archive without pages still takes up
//! one place, so that it can be shown and moved past. Counting these places from the start of the
//! queue gives every position a number, and moving by some pages is adding to that number.
use vstd::prelude::*;

use crate::com::direction::Direction;

verus! {

/// The index of an archive in the queue.
#[derive(Clone, Copy, Debug, PartialEq, Eq, Structural)]
pub struct AI(pub usize);

/// The index of a page in an archive.
#[derive(Clone, Copy, Debug, PartialEq, Eq, Structural)]
pub struct PI(pub usize);

/// A page of an archive, or an archive without pages.
#[derive(Clone, Copy, Debug, PartialEq, Eq, Structural)]
pub enum Indices {
    Normal(AI, PI),
    Empty(AI),
}

/// A position in the queue. It points to either a page or an archive without pages.
#[derive(Clone, Copy, Debug, PartialEq, Eq, Structural)]
pub struct PageIndices {
    pub indices: Indices,
}

/// How many places an archive takes up.
pub open spec fn places(count: usize) -> nat {
    if count == 0 {
        1
    } else {
        count as nat
    }
}

/// How many places there are before an archive.
pub open spec fn places_before(counts: Seq<usize>, a: int) -> nat
    decreases a,
{
    if a <= 0 {
        0
    } else {
        places_before(counts, a - 1) + places(counts[a - 1])
    }
}

/// How many places there are in the whole queue.
pub open spec fn total_places(counts: Seq<usize>) -> nat {
    places_before(counts, counts.len() as int)
}

/// The position of a page of an archive, or of the archive if it has no pages.
pub open spec fn position_in(counts: Seq<usize>, a: int, p: nat) -> PageIndices {
    PageIndices {
        indices: if counts[a] == 0 {
            Indices::Empty(AI(a as usize))
        } else {
            Indices::Normal(AI(a as usize), PI(p as usize))
        },
    }
}

/// The position that is `n` places after the start of an archive.
pub open spec fn position_from(counts: Seq<usize>, a: int, n: nat) -> PageIndices
    decreases counts.len() - a,
{
    if a >= counts.len() - 1 || n < places(counts[a]) {
        position_in(counts, a, n)
    } else {
        position_from(counts, a + 1, (n - places(counts[a])) as nat)
    }
}

/// The position of a given number.
pub open spec fn position_at(counts: Seq<usize>, n: nat) -> PageIndices {
    position_from(counts, 0, n)
}

impl PageIndices {
    /// The index of the archive.
    pub open spec fn archive_index(self) -> int {
        match self.indices {
            Indices::Normal(a, _) | Indices::Empty(a) => a.0 as int,
        }
    }

    /// The index of the page in its archive, or nought where there is none.
    pub open spec fn page_index(self) -> int {
        match self.indices {
            Indices::Normal(_, p) => p.0 as int,
            Indices::Empty(_) => 0,
        }
    }

    /// Whether the position is one of the queue.
    pub open spec fn valid(self, counts: Seq<usize>) -> bool {
        &&& self.archive_index() < counts.len()
        &&& match self.indices {
            Indices::Normal(a, p) => p.0 < counts[a.0 as int],
            Indices::Empty(a) => counts[a.0 as int] == 0,
        }
    }

    /// The number of the position.
    pub open spec fn number(self, counts: Seq<usize>) -> nat {
        (places_before(counts, self.archive_index()) + self.page_index()) as nat
    }

    /// The position some places later, if the queue is that long.
    pub open spec fn later(self, counts: Seq<usize>, n: nat) -> Option<PageIndices> {
        if self.number(counts) + n < total_places(counts) {
            Some(position_at(counts, self.number(counts) + n))
        } else {
            None
        }
    }

    /// The position some places earlier, if there are that many.
    pub open spec fn earlier(self, counts: Seq<usize>, n: nat) -> Option<PageIndices> {
        if self.number(counts) >= n {
            Some(position_at(counts, (self.number(counts) - n) as nat))
        } else {
            None
        }
    }

    /// The number of the position some places later, or of the last one.
    pub open spec fn later_number(self, counts: Seq<usize>, n: nat) -> nat {
        if self.number(counts) + n < total_places(counts) {
            self.number(counts) + n
        } else {
            (total_places(counts) - 1) as nat
        }
    }

    /// The number of the position some places earlier, or of the first one.
    pub open spec fn earlier_number(self, counts: Seq<usize>, n: nat) -> nat {
        if self.number(counts) >= n {
            (self.number(counts) - n) as nat
        } else {
            0
        }
    }

    /// The page of the same archive with a given index, or the last one.
    pub open spec fn absolute(self, counts: Seq<usize>, n: nat) -> PageIndices {
        let count = counts[self.archive_index()];
        position_in(
            counts,
            self.archive_index(),
            if n < count {
                n
            } else {
                (count - 1) as nat
            },
        )
    }

    /// Where a move ends, if it stays within the queue.
    pub open spec fn moved(self, counts: Seq<usize>, d: Direction, n: nat) -> Option<PageIndices> {
        match d {
            Direction::Forwards => self.later(counts, n),
            Direction::Backwards => self.earlier(counts, n),
            Direction::Absolute => Some(self.absolute(counts, n)),
        }
    }

    /// Where a move ends that stops at the ends of the queue.
    pub open spec fn moved_clamped(self, counts: Seq<usize>, d: Direction, n: nat) -> PageIndices {
        match d {
            Direction::Forwards => position_at(counts, self.later_number(counts, n)),
            Direction::Backwards => position_at(counts, self.earlier_number(counts, n)),
            Direction::Absolute => self.absolute(counts, n),
        }
    }

    /// Where a move ends that stops at the ends of the archive.
    pub open spec fn moved_in_archive(
        self,
        counts: Seq<usize>,
        d: Direction,
        n: nat,
    ) -> PageIndices {
        match d {
            Direction::Forwards => self.absolute(counts, (self.page_index() + n) as nat),
            Direction::Backwards => self.absolute(
                counts,
                if self.page_index() >= n {
                    (self.page_index() - n) as nat
                } else {
                    0
                },
            ),
            Direction::Absolute => self.absolute(counts, n),
        }
    }

    /// Whether another position is that of the same page of an archive with another number.
    pub open spec fn shifted(self, other: PageIndices, by: int) -> bool {
        &&& other.archive_index() == self.archive_index() + by
        &&& other.page_index() == self.page_index()
        &&& other.indices is Empty <==> self.indices is Empty
    }

    /// Whether the position comes before another one.
    pub open spec fn precedes(self, other: PageIndices) -> bool {
        ||| self.archive_index() < other.archive_index()
        ||| self.archive_index() == other.archive_index() && self.page_index() < other.page_index()
    }
}

/// There are no fewer places before a later archive.
pub proof fn lemma_places_before_monotone(counts: Seq<usize>, a: int, b: int)
    requires
        0 <= a <= b <= counts.len(),
    ensures
        places_before(counts, a) <= places_before(counts, b),
        a < b ==> places_before(counts, a) + places(counts[a]) <= places_before(counts, b),
    decreases b,
{
    if a < b {
        lemma_places_before_monotone(counts, a, b - 1);
    }
}

/// A number that falls in an archive is the position of a page of it.
proof fn lemma_position_from(counts: Seq<usize>, from: int, a: int, p: nat)
    requires
        0 <= from <= a < counts.len(),
        p < places(counts[a]),
    ensures
        places_before(counts, a) >= places_before(counts, from),
        position_from(counts, from, (places_before(counts, a) - places_before(counts, from) + p) as nat)
            == position_in(counts, a, p),
    decreases a - from,
{
    lemma_places_before_monotone(counts, from, a);
    if from < a {
        lemma_places_before_monotone(counts, from + 1, a);
        lemma_position_from(counts, from + 1, a, p);
    }
}

/// A number that falls in an archive is the position of a page of it.
pub proof fn lemma_position_at(counts: Seq<usize>, a: int, p: nat)
    requires
        0 <= a < counts.len(),
        p < places(counts[a]),
    ensures
        position_at(counts, places_before(counts, a) + p) == position_in(counts, a, p),
        places_before(counts, a) + p < total_places(counts),
{
    lemma_position_from(counts, 0, a, p);
    lemma_places_before_monotone(counts, a, counts.len() as int);
    if a + 1 < counts.len() {
        lemma_places_before_monotone(counts, a + 1, counts.len() as int);
    }
}

/// Numbers and positions determine one another.
pub proof fn law_number_round_trip(counts: Seq<usize>, i: PageIndices)
    requires
        i.valid(counts),
    ensures
        i.number(counts) < total_places(counts),
        position_at(counts, i.number(counts)) == i,
{
    lemma_position_at(counts, i.archive_index(), i.page_index() as nat);
}

/// Every number below the total is that of a position of the queue.
pub proof fn law_position_round_trip(counts: Seq<usize>, n: nat)
    requires
        n < total_places(counts),
        counts.len() <= usize::MAX,
    ensures
        position_at(counts, n).valid(counts),
        position_at(counts, n).number(counts) == n,
{
    lemma_find_archive(counts, counts.len() as int, n);
    let a = choose|a: int|
        0 <= a < counts.len() && #[trigger] places_before(counts, a) <= n < places_before(counts, a)
            + places(counts[a]);
    lemma_position_at(counts, a, (n - places_before(counts, a)) as nat);
}

/// Some archive holds the place of a given number.
proof fn lemma_find_archive(counts: Seq<usize>, b: int, n: nat)
    requires
        0 <= b <= counts.len(),
        n < places_before(counts, b),
    ensures
        exists|a: int|
            0 <= a < b && #[trigger] places_before(counts, a) <= n < places_before(counts, a) + places(
                counts[a],
            ),
    decreases b,
{
    if n < places_before(counts, b - 1) {
        lemma_find_archive(counts, b - 1, n);
        let a = choose|a: int|
            0 <= a < b - 1 && #[trigger] places_before(counts, a) <= n < places_before(counts, a)
                + places(counts[a]);
        assert(0 <= a < b && places_before(counts, a) <= n < places_before(counts, a) + places(counts[a]));
    } else {
        let a = b - 1;
        assert(0 <= a < b && places_before(counts, a) <= n < places_before(counts, a) + places(counts[a]));
    }
}

/// Positions are ordered as their numbers are.
pub proof fn law_order(counts: Seq<usize>, i: PageIndices, j: PageIndices)
    requires
        i.valid(counts),
        j.valid(counts),
    ensures
        i.precedes(j) <==> i.number(counts) < j.number(counts),
        i == j <==> i.number(counts) == j.number(counts),
{
    law_number_round_trip(counts, i);
    law_number_round_trip(counts, j);
    let a = i.archive_index();
    let b = j.archive_index();
    if a < b {
        lemma_places_before_monotone(counts, a, b);
    } else if b < a {
        lemma_places_before_monotone(counts, b, a);
    }
}

/// Moving forwards and then backwards by as many pages, or the other way round, ends where it
/// began.
pub proof fn law_there_and_back(counts: Seq<usize>, i: PageIndices, n: nat)
    requires
        i.valid(counts),
        counts.len() <= usize::MAX,
    ensures
        i.later(counts, n) matches Some(j) ==> j.earlier(counts, n) == Some(i),
        i.earlier(counts, n) matches Some(j) ==> j.later(counts, n) == Some(i),
{
    law_number_round_trip(counts, i);
    let m = i.number(counts);
    if m + n < total_places(counts) {
        law_position_round_trip(counts, m + n);
    }
    if m >= n {
        law_position_round_trip(counts, (m - n) as nat);
    }
}

/// The position of a page of an archive, or of the archive if it has no pages.
fn make_position(counts: &[usize], a: usize, p: usize) -> (r: PageIndices)
    requires
        a < counts.len(),
    ensures
        r == position_in(counts@, a as int, p as nat),
{
    PageIndices {
        indices: if counts[a] == 0 {
            Indices::Empty(AI(a))
        } else {
            Indices::Normal(AI(a), PI(p))
        },
    }
}

impl PageIndices {
    /// The position of a page, or of an archive without pages.
    pub fn new(a: usize, p: Option<usize>, counts: &[usize]) -> (r: Self)
        requires
            a < counts.len(),
            match p {
                Some(p) => p < counts[a as int],
                None => counts[a as int] == 0,
            },
        ensures
            r.valid(counts@),
            r.archive_index() == a,
            r.page_index() == match p {
                Some(p) => p as int,
                None => 0,
            },
            p is None <==> r.indices is Empty,
    {
        let indices = match p {
            Some(p) => Indices::Normal(AI(a), PI(p)),
            None => Indices::Empty(AI(a)),
        };
        PageIndices { indices }
    }

    /// The index of the archive.
    pub fn a(&self) -> (r: AI)
        ensures
            r.0 == self.archive_index(),
    {
        match self.indices {
            Indices::Normal(a, _) => a,
            Indices::Empty(a) => a,
        }
    }

    /// The index of the page, unless the archive has no pages.
    pub fn p(&self) -> (r: Option<PI>)
        ensures
            r == match self.indices {
                Indices::Normal(_, p) => Some(p),
                Indices::Empty(_) => None::<PI>,
            },
    {
        match self.indices {
            Indices::Normal(_, p) => Some(p),
            Indices::Empty(_) => None,
        }
    }

    /// The index of the page in its archive, or nought where there is none.
    fn page(&self) -> (r: usize)
        ensures
            r == self.page_index(),
    {
        match self.indices {
            Indices::Normal(_, p) => p.0,
            Indices::Empty(_) => 0,
        }
    }

    /// Follows an archive that was put before all others in the queue.
    pub fn increment_archive(&mut self)
        requires
            old(self).archive_index() < usize::MAX,
        ensures
            final(self).archive_index() == old(self).archive_index() + 1,
            final(self).page_index() == old(self).page_index(),
            final(self).indices is Empty <==> old(self).indices is Empty,
    {
        self.indices = match self.indices {
            Indices::Normal(a, p) => Indices::Normal(AI(a.0 + 1), p),
            Indices::Empty(a) => Indices::Empty(AI(a.0 + 1)),
        };
    }

    /// Follows the loss of the first archive of the queue.
    pub fn decrement_archive(&mut self)
        requires
            old(self).archive_index() > 0,
        ensures
            final(self).archive_index() == old(self).archive_index() - 1,
            final(self).page_index() == old(self).page_index(),
            final(self).indices is Empty <==> old(self).indices is Empty,
    {
        self.indices = match self.indices {
            Indices::Normal(a, p) => Indices::Normal(AI(a.0 - 1), p),
            Indices::Empty(a) => Indices::Empty(AI(a.0 - 1)),
        };
    }

    /// Whether the position comes before another one. Of two positions in one archive both have
    /// pages or none has.
    pub fn before(&self, other: &Self) -> (r: bool)
        ensures
            r == self.precedes(*other),
    {
        self.a().0 < other.a().0 || (self.a().0 == other.a().0 && self.page() < other.page())
    }

    /// The position some places later, if the queue is that long.
    pub fn forwards(&self, x: usize, counts: &[usize]) -> (r: Option<Self>)
        requires
            self.valid(counts@),
        ensures
            r == self.later(counts@, x as nat),
            r matches Some(q) ==> q.valid(counts@),
    {
        let mut a: usize = self.a().0;
        let p: usize = self.page();
        let here: usize = if counts[a] == 0 {
            1
        } else {
            counts[a]
        };
        let ghost n = self.number(counts@) + x;
        if x < here - p {
            proof {
                lemma_position_at(counts@, a as int, (p + x) as nat);
            }
            return Some(make_position(counts, a, p + x));
        }
        let mut left: usize = x - (here - p);
        a = a + 1;
        while a < counts.len()
            invariant
                a <= counts.len(),
                n == places_before(counts@, a as int) + left,
                n == self.number(counts@) + x,
            decreases counts.len() - a,
        {
            let here: usize = if counts[a] == 0 {
                1
            } else {
                counts[a]
            };
            if left < here {
                proof {
                    lemma_position_at(counts@, a as int, left as nat);
                }
                return Some(make_position(counts, a, left));
            }
            left = left - here;
            a = a + 1;
        }
        None
    }

    /// The position some places earlier, if there are that many.
    pub fn backwards(&self, x: usize, counts: &[usize]) -> (r: Option<Self>)
        requires
            self.valid(counts@),
        ensures
            r == self.earlier(counts@, x as nat),
            r matches Some(q) ==> q.valid(counts@),
    {
        let mut a: usize = self.a().0;
        let p: usize = self.page();
        if p >= x {
            proof {
                lemma_position_at(counts@, a as int, (p - x) as nat);
            }
            return Some(make_position(counts, a, p - x));
        }
        let mut left: usize = x - p;
        while a > 0
            invariant
                a <= counts.len(),
                left > 0,
                self.number(counts@) - x == places_before(counts@, a as int) - left,
            decreases a,
        {
            a = a - 1;
            let here: usize = if counts[a] == 0 {
                1
            } else {
                counts[a]
            };
            if left <= here {
                proof {
                    lemma_position_at(counts@, a as int, (here - left) as nat);
                }
                return Some(make_position(counts, a, here - left));
            }
            left = left - here;
        }
        None
    }

    /// The page of the same archive with a given index, or the last one.
    fn go_to(&self, n: usize, counts: &[usize]) -> (r: Self)
        requires
            self.valid(counts@),
        ensures
            r == self.absolute(counts@, n as nat),
            r.valid(counts@),
            r.archive_index() == self.archive_index(),
    {
        let a: usize = self.a().0;
        let count: usize = counts[a];
        if count == 0 {
            *self
        } else if n < count {
            make_position(counts, a, n)
        } else {
            make_position(counts, a, count - 1)
        }
    }

    /// Moves, unless that would leave the queue.
    pub fn try_move_pages(&self, d: Direction, n: usize, counts: &[usize]) -> (r: Option<Self>)
        requires
            self.valid(counts@),
        ensures
            r == self.moved(counts@, d, n as nat),
            r matches Some(q) ==> q.valid(counts@),
    {
        match d {
            Direction::Forwards => self.forwards(n, counts),
            Direction::Backwards => self.backwards(n, counts),
            Direction::Absolute => Some(self.go_to(n, counts)),
        }
    }

    /// Moves, stopping at the ends of the archive.
    pub fn move_clamped_in_archive(&self, d: Direction, n: usize, counts: &[usize]) -> (r: Self)
        requires
            self.valid(counts@),
        ensures
            r == self.moved_in_archive(counts@, d, n as nat),
            r.valid(counts@),
            r.archive_index() == self.archive_index(),
    {
        let p: usize = self.page();
        match d {
            Direction::Forwards => if n <= usize::MAX - p {
                self.go_to(p + n, counts)
            } else {
                self.go_to(usize::MAX, counts)
            },
            Direction::Backwards => if n <= p {
                self.go_to(p - n, counts)
            } else {
                self.go_to(0, counts)
            },
            Direction::Absolute => self.go_to(n, counts),
        }
    }

    /// Moves, stopping at the ends of the queue.
    pub fn move_clamped(&self, d: Direction, n: usize, counts: &[usize]) -> (r: Self)
        requires
            self.valid(counts@),
        ensures
            r == self.moved_clamped(counts@, d, n as nat),
            r.valid(counts@),
    {
        match self.try_move_pages(d, n, counts) {
            Some(r) => r,
            None => match d {
                Direction::Backwards => Self::first(counts),
                _ => Self::last(counts),
            },
        }
    }

    /// The first position of the queue.
    pub fn first(counts: &[usize]) -> (r: Self)
        requires
            counts.len() > 0,
        ensures
            r == position_at(counts@, 0),
            r.valid(counts@),
    {
        proof {
            lemma_position_at(counts@, 0, 0);
        }
        make_position(counts, 0, 0)
    }

    /// The last position of the queue.
    pub fn last(counts: &[usize]) -> (r: Self)
        requires
            counts.len() > 0,
        ensures
            r == position_at(counts@, (total_places(counts@) - 1) as nat),
            r.valid(counts@),
    {
        let a: usize = counts.len() - 1;
        proof {
            lemma_position_at(counts@, a as int, (places(counts@[a as int]) - 1) as nat);
        }
        if counts[a] == 0 {
            make_position(counts, a, 0)
        } else {
            make_position(counts, a, counts[a] - 1)
        }
    }
}

/// The positions from one number up to another, both included.
pub open spec fn positions_up(counts: Seq<usize>, from: nat, to: nat) -> Seq<PageIndices> {
    Seq::new((to - from + 1) as nat, |k: int| position_at(counts, (from + k) as nat))
}

/// The positions below one number down to another, which is included.
pub open spec fn positions_down(counts: Seq<usize>, from: nat, to: nat) -> Seq<PageIndices> {
    Seq::new((from - to) as nat, |k: int| position_at(counts, (from - 1 - k) as nat))
}

/// Forwards from an initial position to the end of a range, then backwards from its centre to its
/// start.
pub open spec fn wrapped(
    counts: Seq<usize>,
    center: nat,
    start: nat,
    end: nat,
    initial: nat,
) -> Seq<PageIndices> {
    positions_up(counts, initial, end) + positions_down(counts, center, start)
}

/// The positions of a wrapped range.
fn collect_wrapped(
    center: &PageIndices,
    start: PageIndices,
    end: PageIndices,
    initial: &PageIndices,
    counts: &[usize],
) -> (v: Vec<PageIndices>)
    requires
        center.valid(counts@),
        start.valid(counts@),
        end.valid(counts@),
        initial.valid(counts@),
        start.number(counts@) <= center.number(counts@),
        initial.number(counts@) <= end.number(counts@),
    ensures
        v@ == wrapped(
            counts@,
            center.number(counts@),
            start.number(counts@),
            end.number(counts@),
            initial.number(counts@),
        ),
{
    let mut v: Vec<PageIndices> = Vec::new();
    let mut next: PageIndices = *initial;
    let ghost c = center.number(counts@);
    let ghost s = start.number(counts@);
    let ghost e = end.number(counts@);
    let ghost i = initial.number(counts@);
    let ghost mut n = i;
    proof {
        law_number_round_trip(counts@, *initial);
        law_number_round_trip(counts@, end);
        law_order(counts@, next, end);
    }
    v.push(next);
    assert(v@ =~= positions_up(counts@, i, n));
    while next != end
        invariant
            next.valid(counts@),
            end.valid(counts@),
            next.number(counts@) == n,
            e == end.number(counts@),
            i <= n <= e < total_places(counts@),
            counts.len() <= usize::MAX,
            v@ == positions_up(counts@, i, n),
        decreases e - n,
    {
        proof {
            law_order(counts@, next, end);
            law_position_round_trip(counts@, n + 1);
        }
        next = match next.forwards(1, counts) {
            Some(p) => p,
            None => next,
        };
        v.push(next);
        proof {
            n = n + 1;
            assert(v@ =~= positions_up(counts@, i, n));
        }
    }
    let ghost up = v@;
    proof {
        law_number_round_trip(counts@, *center);
        law_number_round_trip(counts@, start);
        n = c;
        assert(v@ =~= up + positions_down(counts@, c, n));
    }
    next = *center;
    while next != start
        invariant
            next.valid(counts@),
            start.valid(counts@),
            next.number(counts@) == n,
            s == start.number(counts@),
            s <= n <= c < total_places(counts@),
            counts.len() <= usize::MAX,
            v@ == up + positions_down(counts@, c, n),
        decreases n - s,
    {
        proof {
            law_order(counts@, next, start);
            law_position_round_trip(counts@, (n - 1) as nat);
        }
        next = match next.backwards(1, counts) {
            Some(p) => p,
            None => next,
        };
        v.push(next);
        proof {
            n = (n - 1) as nat;
            assert(v@ =~= up + positions_down(counts@, c, n));
        }
    }
    v
}

/// Moving to no later a place than the last of the archive.
pub proof fn lemma_absolute_number(counts: Seq<usize>, i: PageIndices, n: nat)
    requires
        i.valid(counts),
    ensures
        i.absolute(counts, n).number(counts) == places_before(counts, i.archive_index()) + (if n
            < counts[i.archive_index()] {
            n as int
        } else if counts[i.archive_index()] == 0 {
            0
        } else {
            counts[i.archive_index()] - 1
        }),
{
}

impl PageIndices {
    /// The positions within some places of this one, beginning with an initial one: forwards to
    /// the end of the range, then backwards from this position to the start of the range.
    pub fn wrapping_range(
        &self,
        behind: usize,
        ahead: usize,
        initial: &Self,
        counts: &[usize],
    ) -> (v: Vec<Self>)
        requires
            self.valid(counts@),
            initial.valid(counts@),
            self.earlier_number(counts@, behind as nat) <= initial.number(counts@)
                <= self.later_number(counts@, ahead as nat),
        ensures
            v@ == wrapped(
                counts@,
                self.number(counts@),
                self.earlier_number(counts@, behind as nat),
                self.later_number(counts@, ahead as nat),
                initial.number(counts@),
            ),
    {
        let start = self.move_clamped(Direction::Backwards, behind, counts);
        let end = self.move_clamped(Direction::Forwards, ahead, counts);
        proof {
            assert(counts.len() <= usize::MAX);
            law_number_round_trip(counts@, *self);
            law_position_round_trip(counts@, self.earlier_number(counts@, behind as nat));
            law_position_round_trip(counts@, self.later_number(counts@, ahead as nat));
        }
        collect_wrapped(self, start, end, initial, counts)
    }

    /// The same for a range that ends with the archive.
    pub fn wrapping_range_in_archive(
        &self,
        behind: usize,
        ahead: usize,
        initial: &Self,
        counts: &[usize],
    ) -> (v: Vec<Self>)
        requires
            self.valid(counts@),
            initial.valid(counts@),
            self.moved_in_archive(counts@, Direction::Backwards, behind as nat).number(counts@)
                <= initial.number(counts@) <= self.moved_in_archive(
                counts@,
                Direction::Forwards,
                ahead as nat,
            ).number(counts@),
        ensures
            v@ == wrapped(
                counts@,
                self.number(counts@),
                self.moved_in_archive(counts@, Direction::Backwards, behind as nat).number(counts@),
                self.moved_in_archive(counts@, Direction::Forwards, ahead as nat).number(counts@),
                initial.number(counts@),
            ),
    {
        let start = self.move_clamped_in_archive(Direction::Backwards, behind, counts);
        let end = self.move_clamped_in_archive(Direction::Forwards, ahead, counts);
        proof {
            lemma_absolute_number(
                counts@,
                *self,
                if self.page_index() >= behind {
                    (self.page_index() - behind) as nat
                } else {
                    0
                },
            );
        }
        collect_wrapped(self, start, end, initial, counts)
    }

    /// What leaves the range round the current position when that becomes another one: the
    /// numbers of the first and the last position.
    pub open spec fn left_behind(
        self,
        new: PageIndices,
        counts: Seq<usize>,
        behind: nat,
        ahead: nat,
    ) -> Option<(nat, nat)> {
        let o = self.number(counts);
        let n = new.number(counts);
        if n > o && n >= behind + 1 {
            let before = (n - behind - 1) as nat;
            let end = self.later_number(counts, ahead);
            Some(
                (
                    self.earlier_number(counts, behind),
                    if before < end {
                        before
                    } else {
                        end
                    },
                ),
            )
        } else if n < o && n + ahead + 1 < total_places(counts) {
            let after = n + ahead + 1;
            let start = self.earlier_number(counts, behind);
            Some(
                (
                    if after > start {
                        after
                    } else {
                        start
                    },
                    self.later_number(counts, ahead),
                ),
            )
        } else {
            None
        }
    }

    /// The positions that leave the range round the current position when that becomes another
    /// one.
    pub fn diff_range_with_new(
        &self,
        new: &Self,
        behind: usize,
        ahead: usize,
        counts: &[usize],
    ) -> (r: Vec<Self>)
        requires
            self.valid(counts@),
            new.valid(counts@),
            behind < usize::MAX,
            ahead < usize::MAX,
        ensures
            r@ == match self.left_behind(*new, counts@, behind as nat, ahead as nat) {
                Some((start, end)) => positions_up(counts@, start, end),
                None => Seq::<PageIndices>::empty(),
            },
    {
        proof {
            assert(counts.len() <= usize::MAX);
            law_order(counts@, *self, *new);
            law_order(counts@, *new, *self);
            law_number_round_trip(counts@, *self);
            law_number_round_trip(counts@, *new);
            law_position_round_trip(counts@, self.earlier_number(counts@, behind as nat));
            law_position_round_trip(counts@, self.later_number(counts@, ahead as nat));
            if new.number(counts@) > behind {
                law_position_round_trip(counts@, (new.number(counts@) - behind - 1) as nat);
            }
            if new.number(counts@) + ahead + 1 < total_places(counts@) {
                law_position_round_trip(counts@, new.number(counts@) + ahead as nat + 1);
            }
        }
        let old_start = self.move_clamped(Direction::Backwards, behind, counts);
        let old_end = self.move_clamped(Direction::Forwards, ahead, counts);
        let (start, end): (PageIndices, PageIndices) = if self.before(new) {
            let before = match new.try_move_pages(Direction::Backwards, behind + 1, counts) {
                Some(p) => p,
                None => return Vec::new(),
            };
            proof {
                law_order(counts@, before, old_end);
            }
            (
                old_start,
                if before.before(&old_end) {
                    before
                } else {
                    old_end
                },
            )
        } else if new.before(self) {
            let after = match new.try_move_pages(Direction::Forwards, ahead + 1, counts) {
                Some(p) => p,
                None => return Vec::new(),
            };
            proof {
                law_order(counts@, old_start, after);
            }
            (
                if old_start.before(&after) {
                    after
                } else {
                    old_start
                },
                old_end,
            )
        } else {
            return Vec::new();
        };
        let v = collect_wrapped(&start, start, end, &start, counts);
        proof {
            assert(positions_down(counts@, start.number(counts@), start.number(counts@)) =~= Seq::<
                PageIndices,
            >::empty());
            assert(v@ =~= positions_up(counts@, start.number(counts@), end.number(counts@)));
        }
        v
    }
}

/// What leaves a range is what lies in the old one and not in the new one.
pub proof fn law_left_behind(
    counts: Seq<usize>,
    old: PageIndices,
    new: PageIndices,
    behind: nat,
    ahead: nat,
    k: nat,
)
    requires
        old.valid(counts),
        new.valid(counts),
    ensures
        (old.left_behind(new, counts, behind, ahead) matches Some((start, end)) && start <= k <= end)
            <==> (old.earlier_number(counts, behind) <= k <= old.later_number(counts, ahead) && !(
        new.earlier_number(counts, behind) <= k <= new.later_number(counts, ahead))),
{
    law_number_round_trip(counts, old);
    law_number_round_trip(counts, new);
}

/// Positions stay where they are, and keep their order, when an archive is put before all others.
pub proof fn law_prepended_archive(counts: Seq<usize>, count: usize, i: PageIndices, j: PageIndices)
    requires
        i.valid(counts),
        j.archive_index() == i.archive_index() + 1,
        j.page_index() == i.page_index(),
        j.indices is Empty <==> i.indices is Empty,
    ensures
        j.valid(seq![count] + counts),
        j.number(seq![count] + counts) == places(count) + i.number(counts),
{
    lemma_places_before_prepended(counts, count, i.archive_index());
    assert((seq![count] + counts)[j.archive_index()] == counts[i.archive_index()]);
}

pub proof fn lemma_places_before_prepended(counts: Seq<usize>, count: usize, a: int)
    requires
        0 <= a <= counts.len(),
    ensures
        places_before(seq![count] + counts, a + 1) == places(count) + places_before(counts, a),
    decreases a,
{
    let more = seq![count] + counts;
    if a == 0 {
        assert(places_before(more, 0) == 0);
        assert(more[0] == count);
    } else {
        lemma_places_before_prepended(counts, count, a - 1);
        assert(more[a] == counts[a - 1]);
    }
}

impl PageIndices {
    /// The page that is shown some places after or before this one, if there is one. Outside of
    /// manga mode pages of other archives are not shown together with it.
    pub open spec fn display_page(
        self,
        counts: Seq<usize>,
        manga: bool,
        d: Direction,
        k: nat,
    ) -> Option<PageIndices> {
        if manga {
            self.moved(counts, d, k)
        } else {
            let at = match d {
                Direction::Forwards => self.page_index() + k,
                Direction::Backwards => self.page_index() - k,
                Direction::Absolute => k as int,
            };
            if 0 <= at < counts[self.archive_index()] {
                Some(position_in(counts, self.archive_index(), at as nat))
            } else {
                None
            }
        }
    }

    /// The next page that is shown after or before this one, if there is one.
    pub fn next_display_page(&self, manga: bool, d: Direction, counts: &[usize]) -> (r: Option<Self>)
        requires
            self.valid(counts@),
            !(d is Absolute),
        ensures
            r == self.display_page(counts@, manga, d, 1),
            r matches Some(q) ==> q.valid(counts@),
    {
        if manga {
            self.try_move_pages(d, 1, counts)
        } else {
            let np = self.move_clamped_in_archive(d, 1, counts);
            if !(*self == np) {
                Some(np)
            } else {
                None
            }
        }
    }
}

/// The next page after the page some places on is the page one place further on.
pub proof fn law_display_pages_follow(
    counts: Seq<usize>,
    i: PageIndices,
    manga: bool,
    d: Direction,
    k: nat,
)
    requires
        i.valid(counts),
        counts.len() <= usize::MAX,
        !(d is Absolute),
        k > 0,
        i.display_page(counts, manga, d, k) is Some,
    ensures
        i.display_page(counts, manga, d, k)->0.valid(counts),
        i.display_page(counts, manga, d, k)->0.display_page(counts, manga, d, 1)
            == i.display_page(counts, manga, d, k + 1),
{
    let j = i.display_page(counts, manga, d, k)->0;
    if manga {
        match d {
            Direction::Forwards => law_position_round_trip(counts, i.number(counts) + k),
            _ => {
                law_number_round_trip(counts, i);
                law_position_round_trip(counts, (i.number(counts) - k) as nat);
            },
        }
    }
}

/// The positions of a range are all there, and each comes once.
pub proof fn lemma_positions_up(counts: Seq<usize>, from: nat, to: nat)
    requires
        from <= to < total_places(counts),
        counts.len() <= usize::MAX,
    ensures
        positions_up(counts, from, to).no_duplicates(),
        forall|k: int|
            0 <= k < positions_up(counts, from, to).len() ==> (#[trigger] positions_up(
                counts,
                from,
                to,
            )[k]).valid(counts),
{
    let v = positions_up(counts, from, to);
    assert forall|k: int| 0 <= k < v.len() implies (#[trigger] v[k]).valid(counts) && v[k].number(
        counts,
    ) == from + k by {
        law_position_round_trip(counts, (from + k) as nat);
    }
}

/// Positions stay where they are when an archive is put after all others.
pub proof fn law_appended_archive(counts: Seq<usize>, count: usize, i: PageIndices)
    requires
        i.valid(counts),
    ensures
        i.valid(counts.push(count)),
        i.number(counts.push(count)) == i.number(counts),
        total_places(counts.push(count)) == total_places(counts) + places(count),
{
    lemma_places_before_appended(counts, count, i.archive_index());
    lemma_places_before_appended(counts, count, counts.len() as int);
}

proof fn lemma_places_before_appended(counts: Seq<usize>, count: usize, a: int)
    requires
        0 <= a <= counts.len(),
    ensures
        places_before(counts.push(count), a) == places_before(counts, a),
    decreases a,
{
    if a > 0 {
        lemma_places_before_appended(counts, count, a - 1);
    }
}

/// A position that lies within some places of another one still does when an archive is put before
/// all others.
pub proof fn lemma_prepended_range(
    counts: Seq<usize>,
    count: usize,
    c: PageIndices,
    d: PageIndices,
    i: PageIndices,
    j: PageIndices,
    behind: nat,
    ahead: nat,
)
    requires
        c.valid(counts),
        i.valid(counts),
        c.shifted(d, 1),
        i.shifted(j, 1),
        c.earlier_number(counts, behind) <= i.number(counts) <= c.later_number(counts, ahead),
    ensures
        d.valid(seq![count] + counts),
        j.valid(seq![count] + counts),
        d.earlier_number(seq![count] + counts, behind) <= j.number(seq![count] + counts)
            <= d.later_number(seq![count] + counts, ahead),
{
    law_prepended_archive(counts, count, c, d);
    law_prepended_archive(counts, count, i, j);
    law_number_round_trip(counts, c);
    lemma_places_before_prepended(counts, count, counts.len() as int);
}

/// The same where places are counted within an archive.
pub proof fn lemma_prepended_archive_range(
    counts: Seq<usize>,
    count: usize,
    c: PageIndices,
    d: PageIndices,
    i: PageIndices,
    j: PageIndices,
    behind: nat,
    ahead: nat,
)
    requires
        c.valid(counts),
        i.valid(counts),
        c.shifted(d, 1),
        i.shifted(j, 1),
        c.moved_in_archive(counts, Direction::Backwards, behind).number(counts) <= i.number(counts)
            <= c.moved_in_archive(counts, Direction::Forwards, ahead).number(counts),
    ensures
        d.valid(seq![count] + counts),
        j.valid(seq![count] + counts),
        d.moved_in_archive(seq![count] + counts, Direction::Backwards, behind).number(
            seq![count] + counts,
        ) <= j.number(seq![count] + counts) <= d.moved_in_archive(
            seq![count] + counts,
            Direction::Forwards,
            ahead,
        ).number(seq![count] + counts),
{
    let new = seq![count] + counts;
    law_prepended_archive(counts, count, c, d);
    law_prepended_archive(counts, count, i, j);
    assert(new[d.archive_index()] == counts[c.archive_index()]);
    lemma_places_before_prepended(counts, count, c.archive_index());
    let p = if c.page_index() >= behind {
        (c.page_index() - behind) as nat
    } else {
        0
    };
    let q = (c.page_index() + ahead) as nat;
    lemma_absolute_number(counts, c, p);
    lemma_absolute_number(new, d, p);
    lemma_absolute_number(counts, c, q);
    lemma_absolute_number(new, d, q);
}

/// A position that lies within some places of another one still does when an archive is put after
/// all others.
pub proof fn lemma_appended_range(
    counts: Seq<usize>,
    count: usize,
    c: PageIndices,
    i: PageIndices,
    behind: nat,
    ahead: nat,
)
    requires
        c.valid(counts),
        i.valid(counts),
    ensures
        c.valid(counts.push(count)),
        i.valid(counts.push(count)),
        c.earlier_number(counts, behind) <= i.number(counts) <= c.later_number(counts, ahead)
            ==> c.earlier_number(counts.push(count), behind) <= i.number(counts.push(count))
            <= c.later_number(counts.push(count), ahead),
        c.moved_in_archive(counts, Direction::Backwards, behind).number(counts) <= i.number(counts)
            <= c.moved_in_archive(counts, Direction::Forwards, ahead).number(counts)
            ==> c.moved_in_archive(counts.push(count), Direction::Backwards, behind).number(
            counts.push(count),
        ) <= i.number(counts.push(count)) <= c.moved_in_archive(
            counts.push(count),
            Direction::Forwards,
            ahead,
        ).number(counts.push(count)),
{
    law_appended_archive(counts, count, c);
    law_appended_archive(counts, count, i);
    law_number_round_trip(counts, c);
    assert(counts.push(count)[c.archive_index()] == counts[c.archive_index()]);
    law_appended_archive(counts, count, c.moved_in_archive(counts, Direction::Backwards, behind));
    law_appended_archive(counts, count, c.moved_in_archive(counts, Direction::Forwards, ahead));
}

/// The place after a page is the next page of its archive. After the last page of an archive it is the
/// first page of the next one, and there is none after the last page of the last archive. The place
/// before it is found the same way.
pub proof fn law_next_place(counts: Seq<usize>, i: PageIndices)
    requires
        i.valid(counts),
        counts.len() <= usize::MAX,
    ensures
        ({
            let a = i.archive_index();
            let p = i.page_index();
            match i.later(counts, 1) {
                Some(j) => {
                    &&& p + 1 < counts[a] ==> j.archive_index() == a && j.page_index() == p + 1
                    &&& p + 1 >= counts[a] ==> j.archive_index() == a + 1 && j.page_index() == 0
                    &&& j.indices is Empty <==> counts[j.archive_index()] == 0
                },
                None => a + 1 == counts.len() && p + 1 >= counts[a],
            }
        }),
        ({
            let a = i.archive_index();
            let p = i.page_index();
            match i.earlier(counts, 1) {
                Some(j) => {
                    &&& p > 0 ==> j.archive_index() == a && j.page_index() == p - 1
                    &&& p == 0 ==> j.archive_index() == a - 1 && (j.page_index() + 1
                        == counts[a - 1] || counts[a - 1] == 0 && j.indices is Empty)
                    &&& j.indices is Empty <==> counts[j.archive_index()] == 0
                },
                None => a == 0 && p == 0,
            }
        }),
{
    let a = i.archive_index();
    let p = i.page_index();
    law_number_round_trip(counts, i);
    lemma_places_before_monotone(counts, a, counts.len() as int);
    if p + 1 < counts[a] {
        lemma_position_at(counts, a, (p + 1) as nat);
    } else if a + 1 < counts.len() {
        lemma_position_at(counts, a + 1, 0);
        assert(places_before(counts, a + 1) == places_before(counts, a) + places(counts[a]));
    } else {
        assert(places_before(counts, a + 1) == places_before(counts, a) + places(counts[a]));
    }
    if p > 0 {
        lemma_position_at(counts, a, (p - 1) as nat);
    } else if a > 0 {
        lemma_position_at(counts, a - 1, (places(counts[a - 1]) - 1) as nat);
        assert(places_before(counts, a) == places_before(counts, a - 1) + places(counts[a - 1]));
    }
}

/// Moving by some places is moving by one place that many times.
pub proof fn law_moves_add_up(counts: Seq<usize>, i: PageIndices, n: nat)
    requires
        i.valid(counts),
        counts.len() <= usize::MAX,
    ensures
        i.later(counts, 0) == Some(i),
        i.earlier(counts, 0) == Some(i),
        match i.later(counts, n) {
            Some(j) => j.valid(counts) && i.later(counts, n + 1) == j.later(counts, 1),
            None => i.later(counts, n + 1) is None,
        },
        match i.earlier(counts, n) {
            Some(j) => j.valid(counts) && i.earlier(counts, n + 1) == j.earlier(counts, 1),
            None => i.earlier(counts, n + 1) is None,
        },
{
    law_number_round_trip(counts, i);
    let m = i.number(counts);
    if m + n < total_places(counts) {
        law_position_round_trip(counts, m + n);
    }
    if m >= n {
        law_position_round_trip(counts, (m - n) as nat);
    }
}

/// A move within an archive goes as many pages on or back as it is asked to, but not past its ends.
/// An absolute one goes to the page of that index, or to the last one.
pub proof fn law_moves_in_archive(counts: Seq<usize>, i: PageIndices, d: Direction, n: nat)
    requires
        i.valid(counts),
        counts.len() <= usize::MAX,
    ensures
        ({
            let j = i.moved_in_archive(counts, d, n);
            let last = counts[i.archive_index()] - 1;
            let wanted: int = match d {
                Direction::Forwards => i.page_index() + n,
                Direction::Backwards => i.page_index() - n,
                Direction::Absolute => n as int,
            };
            &&& j.valid(counts)
            &&& j.archive_index() == i.archive_index()
            &&& 0 <= wanted <= last ==> j.page_index() == wanted
            &&& wanted < 0 ==> j.page_index() == 0
            &&& wanted > last && last >= 0 ==> j.page_index() == last
        }),
{
}

/// A move that stops at the ends of the queue goes where it is asked to where there is such a place,
/// and to the first or the last place otherwise.
pub proof fn law_clamped_moves(counts: Seq<usize>, i: PageIndices, n: nat)
    requires
        i.valid(counts),
        counts.len() <= usize::MAX,
    ensures
        ({
            let j = i.moved_clamped(counts, Direction::Forwards, n);
            &&& j.valid(counts)
            &&& i.later(counts, n) matches Some(k) ==> j == k
            &&& i.later(counts, n) is None ==> j.archive_index() + 1 == counts.len()
                && j.page_index() + 1 >= counts[j.archive_index()]
        }),
        ({
            let j = i.moved_clamped(counts, Direction::Backwards, n);
            &&& j.valid(counts)
            &&& i.earlier(counts, n) matches Some(k) ==> j == k
            &&& i.earlier(counts, n) is None ==> j.archive_index() == 0 && j.page_index() == 0
        }),
{
    law_number_round_trip(counts, i);
    let l = (counts.len() - 1) as int;
    lemma_position_at(counts, 0, 0);
    lemma_position_at(counts, l, (places(counts[l]) - 1) as nat);
    assert(places_before(counts, l + 1) == places_before(counts, l) + places(counts[l]));
    assert(places_before(counts, 0) == 0);
    law_position_round_trip(counts, i.later_number(counts, n));
    law_position_round_trip(counts, i.earlier_number(counts, n));
}

/// Outside of manga mode the next page that is shown is the next page of the archive, if it has one.
/// In manga mode it may be the first one of the next archive.
pub proof fn law_next_shown_page(counts: Seq<usize>, i: PageIndices, manga: bool)
    requires
        i.valid(counts),
        counts.len() <= usize::MAX,
    ensures
        ({
            let a = i.archive_index();
            let p = i.page_index();
            let next = i.display_page(counts, manga, Direction::Forwards, 1);
            let prev = i.display_page(counts, manga, Direction::Backwards, 1);
            &&& p + 1 < counts[a] ==> (next matches Some(j) && j.archive_index() == a
                && j.page_index() == p + 1)
            &&& p + 1 >= counts[a] && !manga ==> next is None
            &&& p + 1 >= counts[a] && manga && a + 1 < counts.len() ==> (next matches Some(j)
                && j.archive_index() == a + 1 && j.page_index() == 0)
            &&& p + 1 >= counts[a] && a + 1 == counts.len() ==> next is None
            &&& p > 0 ==> (prev matches Some(j) && j.archive_index() == a && j.page_index() == p - 1)
            &&& p == 0 && !manga ==> prev is None
            &&& p == 0 && manga && a > 0 ==> (prev matches Some(j) && j.archive_index() == a - 1)
            &&& p == 0 && a == 0 ==> prev is None
        }),
{
    law_next_place(counts, i);
}

} // verus!
