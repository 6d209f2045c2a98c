//! Numbers that are found by name.
use vstd::prelude::*;

verus! {

/// The numbers of names in a map.
pub uninterp spec fn numbers_of(m: ahash::AHashMap<String, usize>) -> Map<Seq<char>, usize>;

/// `ahash::AHashMap::new` makes an empty map.
#[verifier::external_body]
fn new_numbers() -> (m: ahash::AHashMap<String, usize>)
    ensures
        forall|k: Seq<char>| !(#[trigger] numbers_of(m).dom().contains(k)),
{
    ahash::AHashMap::new()
}

/// `ahash::AHashMap::insert` gives a key a value, in place of the one that it had.
#[verifier::external_body]
fn insert_number(m: &mut ahash::AHashMap<String, usize>, k: String, v: usize)
    ensures
        numbers_of(*final(m)) == numbers_of(*old(m)).insert(k@, v),
{
    m.insert(k, v);
}

/// `ahash::AHashMap::get` finds the value of a key, if the map has one.
#[verifier::external_body]
fn find_number(m: &ahash::AHashMap<String, usize>, k: &String) -> (r: Option<usize>)
    ensures
        r == if numbers_of(*m).dom().contains(k@) {
            Some(numbers_of(*m)[k@])
        } else {
            None::<usize>
        },
{
    m.get(k).copied()
}

/// `ahash::AHashMap::remove` takes a key out of the map, and gives the value that it had, if it
/// had one.
#[verifier::external_body]
fn remove_number(m: &mut ahash::AHashMap<String, usize>, k: &String) -> (r: Option<usize>)
    ensures
        numbers_of(*final(m)) == numbers_of(*old(m)).remove(k@),
        r == if numbers_of(*old(m)).dom().contains(k@) {
            Some(numbers_of(*old(m))[k@])
        } else {
            None::<usize>
        },
{
    m.remove(k)
}

/// Names with a number each.
pub struct Names {
    numbers: ahash::AHashMap<String, usize>,
}

impl View for Names {
    type V = Map<Seq<char>, usize>;

    closed spec fn view(&self) -> Map<Seq<char>, usize> {
        numbers_of(self.numbers)
    }
}

impl Names {
    /// No names.
    pub fn new() -> (r: Self)
        ensures
            r@ == Map::<Seq<char>, usize>::empty(),
    {
        let r = Names { numbers: new_numbers() };
        assert(r@ =~= Map::<Seq<char>, usize>::empty());
        r
    }

    /// Gives a name a number, in place of the one that it had.
    pub fn insert(&mut self, name: String, number: usize)
        ensures
            final(self)@ == old(self)@.insert(name@, number),
    {
        insert_number(&mut self.numbers, name, number);
    }

    /// The number of a name, if it has one.
    pub fn find(&self, name: &String) -> (r: Option<usize>)
        ensures
            r == if self@.dom().contains(name@) {
                Some(self@[name@])
            } else {
                None::<usize>
            },
    {
        find_number(&self.numbers, name)
    }

    /// Takes a name out, with its number.
    pub fn remove(&mut self, name: &String) -> (r: Option<usize>)
        ensures
            final(self)@ == old(self)@.remove(name@),
            r == if old(self)@.dom().contains(name@) {
                Some(old(self)@[name@])
            } else {
                None::<usize>
            },
    {
        remove_number(&mut self.numbers, name)
    }
}

} // verus!
