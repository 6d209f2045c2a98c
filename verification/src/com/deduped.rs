//! A sequence of items of which equal ones are kept once.
use vstd::prelude::*;

verus! {

/// A sequence of items of which equal ones are kept once.
#[derive(Debug)]
pub struct DedupedVec<T> {
    pub deduped: Vec<T>,
    pub indices: Vec<usize>,
}

impl<T> DedupedVec<T> {
    /// Whether every item is there.
    pub open spec fn wf(self) -> bool {
        forall|i: int| 0 <= i < self.indices@.len() ==> #[trigger] self.indices@[i] < self.deduped@.len()
    }

    /// The items.
    pub open spec fn items(self) -> Seq<T> {
        Seq::new(self.indices@.len(), |i: int| self.deduped@[self.indices@[i] as int])
    }

    /// How many items there are, equal ones included.
    pub fn len(&self) -> (r: usize)
        ensures
            r == self.items().len(),
    {
        self.indices.len()
    }

    /// The item at a place.
    pub fn index(&self, i: usize) -> (r: &T)
        requires
            self.wf(),
            i < self.items().len(),
        ensures
            *r == self.items()[i as int],
    {
        &self.deduped[self.indices[i]]
    }

    /// The items that are kept, each once.
    pub fn iter_deduped_mut(&mut self) -> (r: &mut [T])
        ensures
            r@ == old(self).deduped@,
            final(self).deduped@ == final(r)@,
            final(self).indices == old(self).indices,
    {
        self.deduped.as_mut_slice()
    }

    /// The sequence of what a function makes of the items. It is called once for each that is
    /// kept.
    pub fn map<U, F: Fn(&T) -> U>(&self, f: F) -> (r: DedupedVec<U>)
        requires
            forall|i: int| 0 <= i < self.deduped@.len() ==> f.requires((&#[trigger] self.deduped@[i],)),
        ensures
            r.indices@ == self.indices@,
            r.deduped@.len() == self.deduped@.len(),
            forall|i: int|
                0 <= i < self.deduped@.len() ==> f.ensures(
                    (&self.deduped@[i],),
                    #[trigger] r.deduped@[i],
                ),
    {
        let mut deduped: Vec<U> = Vec::new();
        let mut i: usize = 0;
        while i < self.deduped.len()
            invariant
                i <= self.deduped@.len(),
                deduped@.len() == i,
                forall|i: int|
                    0 <= i < self.deduped@.len() ==> f.requires((&#[trigger] self.deduped@[i],)),
                forall|j: int|
                    0 <= j < i ==> f.ensures((&self.deduped@[j],), #[trigger] deduped@[j]),
            decreases self.deduped.len() - i,
        {
            deduped.push(f(&self.deduped[i]));
            i += 1;
        }
        let mut indices: Vec<usize> = Vec::new();
        let mut k: usize = 0;
        while k < self.indices.len()
            invariant
                k <= self.indices@.len(),
                indices@ == self.indices@.take(k as int),
            decreases self.indices.len() - k,
        {
            indices.push(self.indices[k]);
            k += 1;
            assert(self.indices@.take(k as int) =~= self.indices@.take(k - 1).push(
                self.indices@[k - 1],
            ));
        }
        assert(self.indices@.take(k as int) =~= self.indices@);
        DedupedVec { deduped, indices }
    }
}

} // verus!
