//! Which frame of an animation is shown, and for how long.
use vstd::prelude::*;

use crate::com::frames::{AnimatedImage, Nanos, LONGEST};

verus! {

/// The last point in time that std's `Instant` holds, in nanoseconds from the first one.
pub const LAST_INSTANT: u128 = 9_223_372_036_854_775_807_999_999_999;

/// A second in nanoseconds.
pub const SECOND: u128 = 1_000_000_000;

/// Whether an animation is shown, until when its frame is, and where it is otherwise.
#[derive(Clone, Copy, Debug, PartialEq, Eq, Structural)]
pub enum AnimationStatus {
    Paused(Nanos),
    Playing(Nanos),
}

/// Which frame of an animation is shown.
#[derive(Clone, Copy, Debug, PartialEq, Eq, Structural)]
pub struct Player {
    pub index: usize,
    pub status: AnimationStatus,
}

/// What a change of playing comes to.
#[derive(Clone, Copy, Debug, PartialEq, Eq, Structural)]
pub enum PlayChange {
    Nothing,
    /// Stopped, and where the animation is.
    Paused(Nanos),
    /// Started, and after what time the next frame is due.
    Started(Nanos),
}

/// A point in time some time after another one, or a second from now if there is no such.
pub open spec fn later_instant(from: Nanos, dur: Nanos, now: Nanos) -> Nanos {
    if from + dur <= LAST_INSTANT {
        (from + dur) as Nanos
    } else {
        (now + SECOND) as Nanos
    }
}

fn add_instant(from: Nanos, dur: Nanos, now: Nanos) -> (r: Nanos)
    requires
        from <= LAST_INSTANT,
        dur <= LONGEST,
        now + SECOND <= LAST_INSTANT,
    ensures
        r == later_instant(from, dur, now),
        r <= LAST_INSTANT,
{
    if from + dur <= LAST_INSTANT {
        from + dur
    } else {
        now + SECOND
    }
}

/// What is left of a time when another one is taken away.
pub open spec fn rest_of(a: int, b: int) -> Nanos {
    if a > b {
        (a - b) as Nanos
    } else {
        0
    }
}

impl AnimatedImage {
    /// How long a frame is shown.
    pub open spec fn frame_time(self, i: int) -> Nanos {
        self.frames.frames.items()[i].1
    }

    /// When a frame ends.
    pub open spec fn frame_end(self, i: int) -> int {
        self.frames.cumulative_dur@[i] + self.frame_time(i)
    }

    fn get_frame_time(&self, i: usize) -> (r: Nanos)
        requires
            self.wf(),
            i < self.frames.frames.items().len(),
        ensures
            r == self.frame_time(i as int),
            0 < r <= LONGEST,
    {
        proof {
            let k = self.frames.frames.indices@[i as int];
            assert(self.frames.frames.deduped@[k as int].1 > 0);
        }
        self.frames.frames.index(i).1
    }
}

impl Player {
    /// Whether the frame is one of the animation, and ends when time does at the latest.
    pub open spec fn wf(self, a: AnimatedImage) -> bool {
        &&& a.wf()
        &&& self.index < a.frames.frames.items().len()
        &&& self.status matches AnimationStatus::Playing(t) ==> t <= LAST_INSTANT
    }

    /// An animation from its first frame on.
    pub open spec fn started(a: AnimatedImage, play: bool, now: Nanos) -> Player {
        Player {
            index: 0,
            status: if play {
                AnimationStatus::Playing(later_instant(now, a.frame_time(0), now))
            } else {
                AnimationStatus::Paused(0)
            },
        }
    }

    /// An animation from its first frame on.
    pub fn new(a: &AnimatedImage, play: bool, now: Nanos) -> (r: Player)
        requires
            a.wf(),
            now + SECOND <= LAST_INSTANT,
        ensures
            r.wf(*a),
            r == Self::started(*a, play, now),
    {
        let status = if play {
            AnimationStatus::Playing(add_instant(now, a.get_frame_time(0), now))
        } else {
            AnimationStatus::Paused(0)
        };
        Player { index: 0, status }
    }

    /// Where the animation is.
    pub open spec fn elapsed(self, a: AnimatedImage, now: Nanos) -> Nanos {
        match self.status {
            AnimationStatus::Playing(t) => rest_of(
                a.frame_end(self.index as int),
                rest_of(t as int, now as int) as int,
            ),
            AnimationStatus::Paused(e) => e,
        }
    }

    /// Where the animation is.
    pub fn get_elapsed(&self, a: &AnimatedImage, now: Nanos) -> (r: Nanos)
        requires
            self.wf(*a),
        ensures
            r == self.elapsed(*a, now),
    {
        match self.status {
            AnimationStatus::Playing(t) => {
                let remaining: Nanos = if t > now {
                    t - now
                } else {
                    0
                };
                let begin: Nanos = a.frames.cumulative_dur[self.index];
                assert(begin <= LONGEST);
                let end: Nanos = begin + a.get_frame_time(self.index);
                if end > remaining {
                    end - remaining
                } else {
                    0
                }
            },
            AnimationStatus::Paused(e) => e,
        }
    }

    /// The animation after it was played or paused.
    pub open spec fn played(self, a: AnimatedImage, play: bool, now: Nanos) -> Player {
        match self.status {
            AnimationStatus::Playing(_) => if play {
                self
            } else {
                Player { status: AnimationStatus::Paused(self.elapsed(a, now)), ..self }
            },
            AnimationStatus::Paused(e) => if play {
                let left = rest_of(a.frame_end(self.index as int), e as int);
                Player {
                    status: AnimationStatus::Playing(later_instant(now, left, now)),
                    ..self
                }
            } else {
                self
            },
        }
    }

    /// What playing or pausing the animation comes to.
    pub open spec fn play_change(self, a: AnimatedImage, play: bool, now: Nanos) -> PlayChange {
        match self.status {
            AnimationStatus::Playing(_) => if play {
                PlayChange::Nothing
            } else {
                PlayChange::Paused(self.elapsed(a, now))
            },
            AnimationStatus::Paused(e) => if play {
                PlayChange::Started(rest_of(a.frame_end(self.index as int), e as int))
            } else {
                PlayChange::Nothing
            },
        }
    }

    /// Plays or pauses the animation.
    pub fn set_playing(&mut self, a: &AnimatedImage, play: bool, now: Nanos) -> (r: PlayChange)
        requires
            old(self).wf(*a),
            now + SECOND <= LAST_INSTANT,
        ensures
            final(self).wf(*a),
            *final(self) == old(self).played(*a, play, now),
            r == old(self).play_change(*a, play, now),
    {
        match self.status {
            AnimationStatus::Playing(_) => {
                if play {
                    return PlayChange::Nothing;
                }
                let e: Nanos = self.get_elapsed(a, now);
                self.status = AnimationStatus::Paused(e);
                PlayChange::Paused(e)
            },
            AnimationStatus::Paused(e) => {
                if !play {
                    return PlayChange::Nothing;
                }
                let begin: Nanos = a.frames.cumulative_dur[self.index];
                assert(begin <= LONGEST);
                let end: Nanos = begin + a.get_frame_time(self.index);
                let left: Nanos = if end > e {
                    end - e
                } else {
                    0
                };
                self.status = AnimationStatus::Playing(
                    if left <= LAST_INSTANT && now + left <= LAST_INSTANT {
                        now + left
                    } else {
                        now + SECOND
                    },
                );
                PlayChange::Started(left)
            },
        }
    }

    /// The frame that is due, and until when it is shown.
    pub open spec fn advanced(self, a: AnimatedImage, target: Nanos, now: Nanos) -> (int, Nanos)
        decreases rest_of(now as int, target as int),
    {
        if target >= now || now + SECOND > LAST_INSTANT {
            (self.index as int, target)
        } else {
            let next = (self.index + 1) % a.frames.frames.items().len() as int;
            let then = later_instant(target, a.frame_time(next), now);
            if then <= target {
                (next, then)
            } else {
                (Player { index: next as usize, status: self.status }).advanced(a, then, now)
            }
        }
    }

    /// Goes on to the frame that is due, and says after what time the next one is.
    pub fn advance_animation(&mut self, a: &AnimatedImage, now: Nanos) -> (r: Nanos)
        requires
            old(self).wf(*a),
            old(self).status is Playing,
            now + SECOND <= LAST_INSTANT,
        ensures
            final(self).wf(*a),
            final(self).index == old(self).advanced(*a, old(self).status->Playing_0, now).0,
            final(self).status == AnimationStatus::Playing(
                old(self).advanced(*a, old(self).status->Playing_0, now).1,
            ),
            r == rest_of(
                old(self).advanced(*a, old(self).status->Playing_0, now).1 as int,
                now as int,
            ),
            old(self).advanced(*a, old(self).status->Playing_0, now).1 >= now,
    {
        let mut target: Nanos = match self.status {
            AnimationStatus::Playing(t) => t,
            AnimationStatus::Paused(_) => return 0,
        };
        let count: usize = a.frames.frames.len();
        let ghost start = *self;
        let ghost result = self.advanced(*a, target, now);
        let mut index: usize = self.index;
        while target < now
            invariant
                a.wf(),
                count == a.frames.frames.items().len(),
                index < count,
                target <= LAST_INSTANT,
                now + SECOND <= LAST_INSTANT,
                (Player { index, status: start.status }).advanced(*a, target, now) == result,
            decreases rest_of(now as int, target as int),
        {
            let i: usize = if index + 1 < count {
                index + 1
            } else {
                0
            };
            assert(i == (index + 1) % count as int) by (nonlinear_arith)
                requires
                    index < count,
                    i == if index + 1 < count {
                        index + 1
                    } else {
                        0
                    },
            ;
            target = add_instant(target, a.get_frame_time(i), now);
            index = i;
        }
        self.index = index;
        self.status = AnimationStatus::Playing(target);
        if target > now {
            target - now
        } else {
            0
        }
    }

    /// The frame that is shown at a point of an animation: the last one that has begun.
    pub open spec fn is_frame_at(a: AnimatedImage, dur: Nanos, i: int) -> bool {
        let c = a.frames.cumulative_dur@;
        &&& 0 <= i < c.len()
        &&& c[i] <= dur
        &&& i + 1 < c.len() ==> c[i + 1] > dur
    }

    /// Whether another animation is this one at some point of it, and after what time the next
    /// frame is due then, if the animation is played.
    pub open spec fn sought(
        self,
        a: AnimatedImage,
        dur: Nanos,
        now: Nanos,
        after: Player,
        due: Option<Nanos>,
    ) -> bool {
        &&& Self::is_frame_at(a, dur, after.index as int)
        &&& match self.status {
            AnimationStatus::Paused(_) => due is None && after.status == AnimationStatus::Paused(
                dur,
            ),
            AnimationStatus::Playing(_) => {
                let left = rest_of(a.frame_end(after.index as int), dur as int);
                let t = later_instant(now, left, now);
                &&& after.status == AnimationStatus::Playing(t)
                &&& due == Some(rest_of(t as int, now as int))
            },
        }
    }

    /// Goes to a point of the animation, and says after what time the next frame is due, if the
    /// animation is played.
    pub fn seek_animation(&mut self, a: &AnimatedImage, dur: Nanos, now: Nanos) -> (r: Option<Nanos>)
        requires
            old(self).wf(*a),
            dur <= LONGEST,
            now + SECOND <= LAST_INSTANT,
        ensures
            final(self).wf(*a),
            old(self).sought(*a, dur, now, *final(self), r),
    {
        let count: usize = a.frames.cumulative_dur.len();
        let mut i: usize = 0;
        while i + 1 < count && a.frames.cumulative_dur[i + 1] <= dur
            invariant
                i < count,
                count == a.frames.cumulative_dur@.len(),
                a.frames.cumulative_dur@[i as int] <= dur,
            decreases count - i,
        {
            i += 1;
        }
        self.index = i;
        match self.status {
            AnimationStatus::Paused(_) => {
                self.status = AnimationStatus::Paused(dur);
                None
            },
            AnimationStatus::Playing(_) => {
                let begin: Nanos = a.frames.cumulative_dur[i];
                assert(begin <= LONGEST);
                let end: Nanos = begin + a.get_frame_time(i);
                let left: Nanos = if end > dur {
                    end - dur
                } else {
                    0
                };
                let t: Nanos = if left <= LAST_INSTANT && now + left <= LAST_INSTANT {
                    now + left
                } else {
                    now + SECOND
                };
                self.status = AnimationStatus::Playing(t);
                Some(
                    if t > now {
                        t - now
                    } else {
                        0
                    },
                )
            },
        }
    }
}

/// Only one frame is shown at a point of an animation.
pub proof fn law_one_frame_at(a: AnimatedImage, dur: Nanos, i: int, j: int)
    requires
        a.wf(),
        Player::is_frame_at(a, dur, i),
        Player::is_frame_at(a, dur, j),
    ensures
        i == j,
{
    let c = a.frames.cumulative_dur@;
    if i < j {
        assert(c[i + 1] <= c[j]);
    } else if j < i {
        assert(c[j + 1] <= c[i]);
    }
}

/// Pausing keeps the place, and playing from there gives the frame the time that was left of it.
pub proof fn law_pause_keeps_place(a: AnimatedImage, p: Player, now: Nanos, later: Nanos)
    requires
        p.wf(a),
        p.status matches AnimationStatus::Playing(t) && now <= t,
        rest_of(p.status->Playing_0 as int, now as int) <= a.frame_end(p.index as int),
        later + rest_of(p.status->Playing_0 as int, now as int) <= LAST_INSTANT,
    ensures
        p.played(a, false, now).played(a, true, later) == (Player {
            status: AnimationStatus::Playing((later + (p.status->Playing_0 - now)) as Nanos),
            ..p
        }),
{
}

spec fn frame_count(a: AnimatedImage) -> int {
    a.frames.frames.items().len() as int
}

/// How long some frames take, one after another, from the one behind a given one on.
pub open spec fn time_of_next(a: AnimatedImage, i: int, n: nat) -> int
    decreases n,
{
    if n == 0 {
        0
    } else {
        time_of_next(a, i, (n - 1) as nat) + a.frames.frames.items()[(i + n)
            % a.frames.frames.items().len() as int].1
    }
}

proof fn lemma_time_of_next(a: AnimatedImage, i: int, n: nat)
    requires
        0 <= i < a.frames.frames.items().len(),
    ensures
        time_of_next(a, i, n + 1) == a.frames.frames.items()[(i + 1)
            % a.frames.frames.items().len() as int].1 + time_of_next(
            a,
            (i + 1) % a.frames.frames.items().len() as int,
            n,
        ),
    decreases n,
{
    let len = frame_count(a);
    let j = (i + 1) % len;
    if n == 0 {
        assert(time_of_next(a, i, 0) == 0);
        assert(time_of_next(a, j, 0) == 0);
        assert(time_of_next(a, i, 1) == time_of_next(a, i, 0) + a.frames.frames.items()[(i + 1)
            % len].1);
    } else {
        lemma_time_of_next(a, i, (n - 1) as nat);
        assert((i + (n + 1)) % len == (j + n) % len) by {
            vstd::arithmetic::div_mod::lemma_add_mod_noop(i + 1, n as int, len);
            vstd::arithmetic::div_mod::lemma_add_mod_noop(j, n as int, len);
            vstd::arithmetic::div_mod::lemma_small_mod(j as nat, len as nat);
            assert(i + (n + 1) == (i + 1) + n);
        }
    }
}

/// While an animation is played its frames follow one another, from the last one on to the first
/// one, each for its time. The frame that is shown began before now and ends no earlier than now.
pub proof fn law_frames_follow_one_another(
    a: AnimatedImage,
    p: Player,
    target: Nanos,
    now: Nanos,
) -> (n: nat)
    requires
        p.wf(a),
        a.frames.frames.items().len() <= usize::MAX,
        now + SECOND <= LAST_INSTANT,
        forall|i: int|
            0 <= i < a.frames.frames.items().len() ==> now + (
            #[trigger] a.frames.frames.items()[i]).1 <= LAST_INSTANT,
    ensures
        p.advanced(a, target, now).0 == (p.index + n) % a.frames.frames.items().len() as int,
        p.advanced(a, target, now).1 == target + time_of_next(a, p.index as int, n),
        p.advanced(a, target, now).1 >= now,
        n == 0 <==> target >= now,
        n > 0 ==> p.advanced(a, target, now).1 - a.frames.frames.items()[p.advanced(
            a,
            target,
            now,
        ).0].1 < now,
    decreases rest_of(now as int, target as int),
{
    let len = frame_count(a);
    if target >= now {
        vstd::arithmetic::div_mod::lemma_small_mod(p.index as nat, len as nat);
        0
    } else {
        let next = (p.index + 1) % len;
        assert(0 <= next < len);
        assert(a.frames.frames.items()[next].1 > 0) by {
            assert(a.frames.frames.deduped@[a.frames.frames.indices@[next] as int].1 > 0);
        }
        assert(now + a.frames.frames.items()[next].1 <= LAST_INSTANT);
        let then = later_instant(target, a.frame_time(next), now);
        assert(then == target + a.frames.frames.items()[next].1);
        let q = Player { index: next as usize, status: p.status };
        assert(p.advanced(a, target, now) == q.advanced(a, then, now));
        let m = law_frames_follow_one_another(a, q, then, now);
        lemma_time_of_next(a, p.index as int, m);
        assert((q.index + m) % len == (p.index + (m + 1)) % len) by {
            vstd::arithmetic::div_mod::lemma_add_mod_noop(p.index + 1, m as int, len);
            vstd::arithmetic::div_mod::lemma_add_mod_noop(next, m as int, len);
            vstd::arithmetic::div_mod::lemma_small_mod(next as nat, len as nat);
            assert(p.index + (m + 1) == (p.index + 1) + m);
        }
        if m == 0 {
            assert(p.advanced(a, target, now) == (next, then));
        }
        m + 1
    }
}

/// While a frame is shown the place in the animation goes on with the time, up to the point where
/// the frame ends. A paused animation stays where it is.
pub proof fn law_time_goes_on(a: AnimatedImage, p: Player, now: Nanos, later: Nanos)
    requires
        p.wf(a),
        now <= later,
    ensures
        p.status is Paused ==> p.elapsed(a, later) == p.elapsed(a, now),
        p.status matches AnimationStatus::Playing(t) ==> {
            let end = a.frames.cumulative_dur@[p.index as int]
                + a.frames.frames.items()[p.index as int].1;
            &&& later >= t ==> p.elapsed(a, later) == end
            &&& later <= t <= now + end ==> p.elapsed(a, later) - p.elapsed(a, now) == later - now
        },
{
    assert(a.frames.cumulative_dur@[p.index as int] <= LONGEST);
    let i = p.index as int;
    assert(a.frames.frames.deduped@[a.frames.frames.indices@[i] as int].1 <= LONGEST);
}

/// An animation begins with its first frame. Played, it is over with it when its time is; paused,
/// it stays at its beginning.
pub proof fn law_animations_begin_at_the_start(
    a: AnimatedImage,
    play: bool,
    now: Nanos,
    later: Nanos,
)
    requires
        a.wf(),
        now <= later,
    ensures
        Player::started(a, play, now).index == 0,
        Player::started(a, play, now).status is Playing <==> play,
        !play ==> Player::started(a, play, now).elapsed(a, later) == 0,
        play && later <= now + a.frames.frames.items()[0].1 <= LAST_INSTANT ==> Player::started(
            a,
            play,
            now,
        ).elapsed(a, later) == later - now,
{
    assert(a.frames.cumulative_dur@[0] == 0);
    assert(a.frames.frames.deduped@[a.frames.frames.indices@[0] as int].1 <= LONGEST);
}

/// Playing and pausing keep the frame, and change nothing where nothing is asked for. What is said
/// of a change is where the animation is, or what is left of its frame.
pub proof fn law_play_and_pause(a: AnimatedImage, p: Player, now: Nanos)
    requires
        p.wf(a),
    ensures
        p.played(a, true, now).status is Playing,
        p.played(a, false, now).status is Paused,
        p.played(a, true, now).index == p.index,
        p.played(a, false, now).index == p.index,
        p.status is Playing ==> p.played(a, true, now) == p && p.play_change(a, true, now)
            is Nothing,
        p.status is Paused ==> p.played(a, false, now) == p && p.play_change(a, false, now)
            is Nothing,
        p.status is Playing ==> p.play_change(a, false, now) == PlayChange::Paused(
            p.elapsed(a, now),
        ) && p.played(a, false, now).elapsed(a, now) == p.elapsed(a, now),
        p.status matches AnimationStatus::Paused(e) ==> {
            let end = a.frames.cumulative_dur@[p.index as int]
                + a.frames.frames.items()[p.index as int].1;
            e <= end && now + (end - e) <= LAST_INSTANT ==> {
                &&& p.play_change(a, true, now) == PlayChange::Started((end - e) as Nanos)
                &&& p.played(a, true, now).elapsed(a, now) == e
            }
        },
{
    let i = p.index as int;
    assert(a.frames.cumulative_dur@[i] <= LONGEST);
    assert(a.frames.frames.deduped@[a.frames.frames.indices@[i] as int].1 <= LONGEST);
}

/// Where one goes to in an animation is where it is then, on the frame that has begun last. A
/// played animation goes on from there, a paused one stays.
pub proof fn law_seeking(
    a: AnimatedImage,
    p: Player,
    dur: Nanos,
    now: Nanos,
    after: Player,
    due: Option<Nanos>,
)
    requires
        p.wf(a),
        dur <= LONGEST,
        p.sought(a, dur, now, after, due),
    ensures
        after.index < a.frames.cumulative_dur@.len(),
        a.frames.cumulative_dur@[after.index as int] <= dur,
        forall|j: int|
            after.index < j < a.frames.cumulative_dur@.len()
                ==> #[trigger] a.frames.cumulative_dur@[j] > dur,
        after.status is Playing <==> p.status is Playing,
        due is Some <==> p.status is Playing,
        ({
            let end = a.frames.cumulative_dur@[after.index as int]
                + a.frames.frames.items()[after.index as int].1;
            dur <= end && now + (end - dur) <= LAST_INSTANT ==> {
                &&& after.elapsed(a, now) == dur
                &&& due matches Some(d) ==> d == end - dur
            }
        }),
{
    let i = after.index as int;
    let c = a.frames.cumulative_dur@;
    assert(c[i] <= LONGEST);
    assert(a.frames.frames.deduped@[a.frames.frames.indices@[i] as int].1 <= LONGEST);
    assert forall|j: int| i < j < c.len() implies #[trigger] c[j] > dur by {
        assert(c[i + 1] <= c[j]);
    }
}

/// A point in time is as much later as it is said to be. Where time does not go that far, it is a
/// second from now.
pub proof fn law_later_points_in_time(from: Nanos, dur: Nanos, now: Nanos)
    requires
        now + 1_000_000_000 <= LAST_INSTANT,
    ensures
        from + dur <= 9_223_372_036_854_775_807 * 1_000_000_000 + 999_999_999 ==> later_instant(
            from,
            dur,
            now,
        ) - from == dur,
        from + dur > 9_223_372_036_854_775_807 * 1_000_000_000 + 999_999_999 ==> later_instant(
            from,
            dur,
            now,
        ) - now == 1_000_000_000,
{
}

} // verus!
