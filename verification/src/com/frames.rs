//! Animations.
use std::sync::Arc;

use vstd::prelude::*;

use crate::com::deduped::DedupedVec;
use crate::com::image::Image;

verus! {

/// `ahash::AHashMap`, a hash map.
#[verifier::external_type_specification]
#[verifier::external_body]
#[verifier::reject_recursive_types(K)]
#[verifier::reject_recursive_types(V)]
#[verifier::reject_recursive_types(S)]
pub struct ExAHashMap<K, V, S>(ahash::AHashMap<K, V, S>);

/// `ahash::RandomState`, what a hash map is seeded with.
#[verifier::external_type_specification]
#[verifier::external_body]
pub struct ExAHashState(ahash::RandomState);

/// What a map from hashes to places holds.
pub uninterp spec fn places_of(m: ahash::AHashMap<u64, usize>) -> Map<u64, usize>;

/// `ahash::AHashMap::new` makes an empty map.
#[verifier::external_body]
fn new_places() -> (m: ahash::AHashMap<u64, usize>)
    ensures
        forall|k: u64| !(#[trigger] places_of(m).dom().contains(k)),
{
    ahash::AHashMap::new()
}

/// `ahash::AHashMap::get` finds the value of a key, if the map has one.
#[verifier::external_body]
fn find_place(m: &ahash::AHashMap<u64, usize>, k: u64) -> (r: Option<usize>)
    ensures
        r == if places_of(*m).dom().contains(k) {
            Some(places_of(*m)[k])
        } else {
            None::<usize>
        },
{
    m.get(&k).copied()
}

/// `ahash::AHashMap::insert` gives a key a value.
#[verifier::external_body]
fn insert_place(m: &mut ahash::AHashMap<u64, usize>, k: u64, v: usize)
    ensures
        places_of(*final(m)) == places_of(*old(m)).insert(k, v),
{
    m.insert(k, v);
}

/// A length of time in nanoseconds.
pub type Nanos = u128;

/// The longest time that std's `Duration` holds.
pub const LONGEST: u128 = 18_446_744_073_709_551_615_999_999_999;

/// Both times one after the other, or the longest time.
pub open spec fn saturating_sum(a: nat, b: nat) -> nat {
    if a + b <= LONGEST {
        a + b
    } else {
        LONGEST as nat
    }
}

/// Both times one after the other, or the longest time.
pub fn add_times(a: Nanos, b: Nanos) -> (r: Nanos)
    requires
        a <= LONGEST,
        b <= LONGEST,
    ensures
        r == saturating_sum(a as nat, b as nat),
        r <= LONGEST,
{
    if a + b <= LONGEST {
        a + b
    } else {
        LONGEST
    }
}

/// How long a frame is shown. As in browsers, no time is a tenth of a second.
pub open spec fn shown_for(dur: Nanos) -> Nanos {
    if dur == 0 {
        100_000_000
    } else {
        dur
    }
}

/// A frame, how long it is shown, and a hash of it.
pub type HashedFrame = (Image, Nanos, u64);

/// When a frame of an animation begins.
pub open spec fn begins_at(frames: Seq<HashedFrame>, n: int) -> nat
    decreases n,
{
    if n <= 0 {
        0
    } else {
        saturating_sum(begins_at(frames, n - 1), shown_for(frames[n - 1].1) as nat)
    }
}

/// Whether no earlier frame has the same hash.
pub open spec fn is_first(frames: Seq<HashedFrame>, i: int) -> bool {
    forall|j: int| 0 <= j < i ==> (#[trigger] frames[j]).2 != frames[i].2
}

/// Which of the first frames are the first with their hash.
pub open spec fn firsts(frames: Seq<HashedFrame>, n: int) -> Seq<int>
    decreases n,
{
    if n <= 0 {
        seq![]
    } else if is_first(frames, n - 1) {
        firsts(frames, n - 1).push(n - 1)
    } else {
        firsts(frames, n - 1)
    }
}

proof fn lemma_begins_in_order(frames: Seq<HashedFrame>, i: int, j: int)
    requires
        0 <= i <= j,
    ensures
        begins_at(frames, i) <= begins_at(frames, j) <= LONGEST,
    decreases j,
{
    if i < j {
        lemma_begins_in_order(frames, i, j - 1);
    } else if j > 0 {
        lemma_begins_in_order(frames, j - 1, j - 1);
    }
}

proof fn lemma_firsts_inside(frames: Seq<HashedFrame>, n: int, k: int)
    requires
        0 <= n <= frames.len(),
        0 <= k < firsts(frames, n).len(),
    ensures
        0 <= firsts(frames, n)[k] < n,
    decreases n,
{
    if n > 0 && !(is_first(frames, n - 1) && k == firsts(frames, n).len() - 1) {
        lemma_firsts_inside(frames, n - 1, k);
    }
}

/// A frame of an animation and how long it is shown.
pub type Frame = (Image, Nanos);

/// The frames of an animation and when each begins.
#[derive(Debug)]
pub struct Frames {
    pub frames: DedupedVec<Frame>,
    pub cumulative_dur: Vec<Nanos>,
}

/// An animation. Copies of one animation share its frames and its serial number.
#[derive(Debug)]
pub struct AnimatedImage {
    pub frames: Arc<Frames>,
    pub dur: Nanos,
    pub serial: u64,
}

impl AnimatedImage {
    /// Whether there is a frame, every frame is there, and each has a time.
    pub open spec fn wf(self) -> bool {
        &&& self.frames.frames.wf()
        &&& self.frames.frames.items().len() > 0
        &&& self.frames.cumulative_dur@.len() == self.frames.frames.items().len()
        &&& self.dur <= LONGEST
        &&& self.well_timed()
    }

    /// Whether frames begin one after another from the start, and each is shown for a time.
    pub open spec fn well_timed(self) -> bool {
        let c = self.frames.cumulative_dur@;
        &&& c[0] == 0
        &&& forall|i: int, j: int| 0 <= i <= j < c.len() ==> #[trigger] c[i] <= #[trigger] c[j]
        &&& forall|i: int| 0 <= i < c.len() ==> #[trigger] c[i] <= LONGEST
        &&& forall|i: int|
            0 <= i < self.frames.frames.deduped@.len() ==> 0 < (
            #[trigger] self.frames.frames.deduped@[i]).1 <= LONGEST
    }

    /// Whether two animations are copies of one another.
    pub open spec fn same(self, other: AnimatedImage) -> bool {
        self.serial == other.serial
    }

    /// Whether it is the animation of some frames: each begins when those before it are over, and
    /// of frames with the same hash only the first is kept.
    pub open spec fn is_of(self, frames: Seq<HashedFrame>) -> bool {
        &&& self.dur == begins_at(frames, frames.len() as int)
        &&& self.frames.cumulative_dur@.len() == frames.len()
        &&& forall|i: int|
            0 <= i < frames.len() ==> #[trigger] self.frames.cumulative_dur@[i] == begins_at(
                frames,
                i,
            )
        &&& self.frames.frames.deduped@ == firsts(frames, frames.len() as int).map_values(
            |i: int| (frames[i].0, shown_for(frames[i].1)),
        )
        &&& forall|i: int|
            #![trigger self.frames.frames.indices@[i]]
            0 <= i < frames.len() ==> frames[firsts(
                frames,
                frames.len() as int,
            )[self.frames.frames.indices@[i] as int]].2 == frames[i].2
    }

    /// The animation of some frames. Of frames with the same hash only the first is kept.
    pub fn new(frames: Vec<HashedFrame>, serial: u64) -> (r: AnimatedImage)
        requires
            frames@.len() > 0,
            forall|i: int| 0 <= i < frames@.len() ==> (#[trigger] frames@[i]).1 <= LONGEST,
        ensures
            r.wf(),
            r.serial == serial,
            r.is_of(frames@),
    {
        let mut hashed = new_places();
        let mut deduped: Vec<Frame> = Vec::new();
        let mut indices: Vec<usize> = Vec::new();
        let mut dur: Nanos = 0;
        let mut cumulative_dur: Vec<Nanos> = Vec::new();
        let ghost keep = |i: int| (frames@[i].0, shown_for(frames@[i].1));
        let mut n: usize = 0;
        assert(deduped@ =~= firsts(frames@, 0).map_values(keep));
        while n < frames.len()
            invariant
                n <= frames@.len(),
                forall|i: int| 0 <= i < frames@.len() ==> (#[trigger] frames@[i]).1 <= LONGEST,
                keep == (|i: int| (frames@[i].0, shown_for(frames@[i].1))),
                dur == begins_at(frames@, n as int),
                dur <= LONGEST,
                cumulative_dur@.len() == n,
                forall|i: int| 0 <= i < n ==> #[trigger] cumulative_dur@[i] == begins_at(frames@, i),
                deduped@ == firsts(frames@, n as int).map_values(keep),
                deduped@.len() <= n,
                indices@.len() == n,
                forall|i: int| 0 <= i < n ==> #[trigger] indices@[i] < deduped@.len(),
                forall|i: int|
                    #![trigger indices@[i]]
                    0 <= i < n ==> frames@[firsts(frames@, n as int)[indices@[i] as int]].2
                        == frames@[i].2,
                forall|i: int|
                    0 <= i < n ==> places_of(hashed).dom().contains((#[trigger] frames@[i]).2),
                forall|h: u64| #[trigger]
                    places_of(hashed).dom().contains(h) ==> places_of(hashed)[h] < deduped@.len()
                        && 0 <= firsts(frames@, n as int)[places_of(hashed)[h] as int] < n
                        && frames@[firsts(frames@, n as int)[places_of(hashed)[h] as int]].2 == h,
            decreases frames.len() - n,
        {
            let (img, raw, hash): (&Image, Nanos, u64) = (&frames[n].0, frames[n].1, frames[n].2);
            let frame_dur: Nanos = if raw == 0 {
                100_000_000
            } else {
                raw
            };
            cumulative_dur.push(dur);
            dur = add_times(dur, frame_dur);
            let ghost before = firsts(frames@, n as int);
            assert(before.len() == deduped@.len());
            match find_place(&hashed, hash) {
                Some(place) => {
                    proof {
                        let j = before[place as int];
                        assert(frames@[j].2 == hash);
                        assert(!is_first(frames@, n as int));
                    }
                    indices.push(place);
                },
                None => {
                    let place: usize = deduped.len();
                    proof {
                        assert(is_first(frames@, n as int));
                        assert(firsts(frames@, n + 1) == before.push(n as int));
                    }
                    indices.push(place);
                    deduped.push((img.share(), frame_dur));
                    insert_place(&mut hashed, hash, place);
                    proof {
                        assert(deduped@ =~= firsts(frames@, n + 1).map_values(keep));
                        let after = firsts(frames@, n + 1);
                        assert forall|i: int| #![trigger indices@[i]] 0 <= i < n + 1 implies frames@[after[indices@[i] as int]].2
                            == frames@[i].2 by {
                            if i < n {
                                assert(after[indices@[i] as int] == before[indices@[i] as int]);
                            }
                        }
                        assert forall|h: u64| #[trigger] places_of(hashed).dom().contains(h) implies places_of(
                            hashed,
                        )[h] < deduped@.len() && 0 <= after[places_of(hashed)[h] as int] < n + 1
                            && frames@[after[places_of(hashed)[h] as int]].2 == h by {
                            if h != hash {
                                let p = places_of(hashed)[h] as int;
                                assert(after[p] == before[p]);
                            }
                        }
                    }
                },
            }
            n += 1;
        }
        proof {
            assert forall|i: int, j: int| 0 <= i <= j < frames@.len() implies #[trigger] cumulative_dur@[i]
                <= #[trigger] cumulative_dur@[j] by {
                lemma_begins_in_order(frames@, i, j);
            }
            assert forall|i: int| 0 <= i < frames@.len() implies #[trigger] cumulative_dur@[i]
                <= LONGEST by {
                lemma_begins_in_order(frames@, i, i);
            }
            let f = firsts(frames@, frames@.len() as int);
            assert forall|i: int| 0 <= i < deduped@.len() implies 0 < (#[trigger] deduped@[i]).1
                <= LONGEST by {
                lemma_firsts_inside(frames@, frames@.len() as int, i);
                assert(deduped@[i] == keep(f[i]));
            }
        }
        let frames_kept = Frames { frames: DedupedVec { deduped, indices }, cumulative_dur };
        AnimatedImage { frames: Arc::new(frames_kept), dur, serial }
    }

    /// The frames.
    pub fn frames(&self) -> (r: &Arc<Frames>)
        ensures
            *r == self.frames,
    {
        &self.frames
    }

    /// How long the animation takes.
    pub fn dur(&self) -> (r: Nanos)
        ensures
            r == self.dur,
    {
        self.dur
    }

    /// A copy that shares the frames.
    pub fn share(&self) -> (r: AnimatedImage)
        ensures
            r == *self,
    {
        AnimatedImage { frames: self.frames.clone(), dur: self.dur, serial: self.serial }
    }
}

/// Each frame begins when the one before it is over. A frame without a time is shown for a tenth
/// of a second.
pub proof fn law_frames_begin_one_after_another(frames: Seq<HashedFrame>, i: int)
    requires
        0 <= i < frames.len(),
    ensures
        begins_at(frames, 0) == 0,
        frames[i].1 > 0 && begins_at(frames, i) + frames[i].1 <= LONGEST ==> begins_at(
            frames,
            i + 1,
        ) - begins_at(frames, i) == frames[i].1,
        frames[i].1 == 0 && begins_at(frames, i) + 100_000_000 <= LONGEST ==> begins_at(
            frames,
            i + 1,
        ) - begins_at(frames, i) == 100_000_000,
        begins_at(frames, i) <= begins_at(frames, i + 1) <= LONGEST,
{
    lemma_begins_in_order(frames, i, i + 1);
}

/// A frame of an animation is the first one with its hash, and is shown for the time that this one
/// has.
pub proof fn law_frames_are_kept(a: AnimatedImage, frames: Seq<HashedFrame>, i: int)
    requires
        a.wf(),
        a.is_of(frames),
        0 <= i < frames.len(),
        forall|j: int| 0 <= j < i ==> (#[trigger] frames[j]).2 != frames[i].2,
    ensures
        a.frames.frames.items().len() == frames.len(),
        a.frames.frames.items()[i].0 == frames[i].0,
        frames[i].1 > 0 ==> a.frames.frames.items()[i].1 == frames[i].1,
        frames[i].1 == 0 ==> a.frames.frames.items()[i].1 == 100_000_000,
{
    let n = frames.len() as int;
    let at = a.frames.frames.indices@[i] as int;
    let f = firsts(frames, n);
    assert(at < a.frames.frames.deduped@.len());
    lemma_firsts_inside(frames, n, at);
    lemma_firsts_are_first(frames, n, at);
    assert(frames[f[at]].2 == frames[i].2);
    if f[at] < i {
        assert(frames[f[at]].2 != frames[i].2);
    }
    if i < f[at] {
        assert(frames[i].2 != frames[f[at]].2);
    }
}

proof fn lemma_firsts_are_first(frames: Seq<HashedFrame>, n: int, k: int)
    requires
        0 <= n <= frames.len(),
        0 <= k < firsts(frames, n).len(),
    ensures
        is_first(frames, firsts(frames, n)[k]),
    decreases n,
{
    if n > 0 {
        if k < firsts(frames, n - 1).len() {
            lemma_firsts_are_first(frames, n - 1, k);
        }
    }
}

} // verus!
