//! What is drawn of all pages that are shown.
use vstd::prelude::*;

use crate::com::content::{GuiContent, OffscreenContent};
use crate::com::displayable::Displayable;
use crate::com::frames::{Nanos, LONGEST};
use crate::com::one_or_two::OneOrTwo;
use crate::gui::player::{PlayChange, LAST_INSTANT, SECOND};
use crate::gui::renderable::{Animation, Preloadable, Renderable};
use crate::gui::static_image::{
    AllocatedTextures, AllocatedTexturesView, DrawPlan, Placement, PreloadTask,
};

verus! {

/// What is drawn.
#[derive(Debug)]
pub enum DisplayedContent<T> {
    Single(Renderable<T>),
    Multiple(Vec<Renderable<T>>),
}

/// What the progress bar shows.
#[derive(Clone, Copy, Debug, PartialEq, Eq, Structural)]
pub enum ProgressKind {
    Video,
    Animation,
    Hidden,
}

impl<T> DisplayedContent<T> {
    /// What is drawn of each page.
    pub open spec fn items(self) -> Seq<Renderable<T>> {
        match self {
            DisplayedContent::Single(r) => seq![r],
            DisplayedContent::Multiple(v) => v@,
        }
    }

    pub open spec fn wf(self) -> bool {
        &&& self.items().len() > 0
        &&& forall|i: int| 0 <= i < self.items().len() ==> (#[trigger] self.items()[i]).wf()
    }

    /// What the progress bar shows: a single page that moves.
    pub fn progress(&self) -> (r: ProgressKind)
        ensures
            r == match *self {
                DisplayedContent::Single(Renderable::Video(_)) => ProgressKind::Video,
                DisplayedContent::Single(Renderable::Animation(_)) => ProgressKind::Animation,
                _ => ProgressKind::Hidden,
            },
    {
        match self {
            DisplayedContent::Single(Renderable::Video(_)) => ProgressKind::Video,
            DisplayedContent::Single(Renderable::Animation(_)) => ProgressKind::Animation,
            _ => ProgressKind::Hidden,
        }
    }

    /// Plays or pauses everything that moves, and says what that comes to for each page.
    pub fn set_playing(&mut self, play: bool, now: Nanos) -> (changes: Vec<PlayChange>)
        requires
            old(self).wf(),
            now + SECOND <= LAST_INSTANT,
        ensures
            final(self).wf(),
            final(self).items() == old(self).items().map_values(
                |r: Renderable<T>| r.played(play, now),
            ),
            *final(self) is Single <==> *old(self) is Single,
            changes@ == old(self).items().map_values(
                |r: Renderable<T>| r.play_change(play, now),
            ),
    {
        let ghost before = self.items();
        let ghost wanted = before.map_values(|r: Renderable<T>| r.played(play, now));
        assert(before[0].wf());
        let mut changes: Vec<PlayChange> = Vec::new();
        match self {
            DisplayedContent::Single(r) => {
                changes.push(r.set_playing(play, now));
                assert(seq![*r] =~= wanted);
            },
            DisplayedContent::Multiple(v) => {
                let n: usize = v.len();
                let mut i: usize = 0;
                while i < n
                    invariant
                        i <= n,
                        n > 0,
                        v@.len() == n,
                        before.len() == n,
                        now + SECOND <= LAST_INSTANT,
                        forall|j: int| 0 <= j < n ==> (#[trigger] v@[j]).wf(),
                        forall|j: int| 0 <= j < i ==> #[trigger] v@[j] == before[j].played(play, now),
                        forall|j: int| i <= j < n ==> #[trigger] v@[j] == before[j],
                        changes@.len() == i,
                        forall|j: int|
                            0 <= j < i ==> #[trigger] changes@[j] == before[j].play_change(play, now),
                    decreases n - i,
                {
                    assert(v@[i as int] == before[i as int]);
                    let change = v[i].set_playing(play, now);
                    changes.push(change);
                    i += 1;
                }
                assert(v@ =~= wanted);
            },
        }
        assert(changes@ =~= before.map_values(|r: Renderable<T>| r.play_change(play, now)));
        changes
    }

    /// Lets go of all textures.
    pub fn drop_textures(&mut self)
        requires
            old(self).wf(),
        ensures
            final(self).wf(),
            final(self).items().len() == old(self).items().len(),
            *final(self) is Single <==> *old(self) is Single,
            forall|i: int|
                #![trigger final(self).items()[i]]
                0 <= i < final(self).items().len() ==> old(self).items()[i].cleared(
                    final(self).items()[i],
                ),
    {
        let ghost before = self.items();
        assert(before[0].wf());
        match self {
            DisplayedContent::Single(r) => {
                assert(before[0] == *r);
                r.invalidate();
            },
            DisplayedContent::Multiple(v) => {
                let n: usize = v.len();
                let mut i: usize = 0;
                while i < n
                    invariant
                        i <= n,
                        n > 0,
                        v@.len() == n,
                        before.len() == n,
                        forall|j: int| 0 <= j < n ==> (#[trigger] v@[j]).wf(),
                        forall|j: int|
                            #![trigger v@[j]]
                            0 <= j < i ==> before[j].cleared(v@[j]),
                        forall|j: int| i <= j < n ==> #[trigger] v@[j] == before[j],
                    decreases n - i,
                {
                    v[i].invalidate();
                    i += 1;
                }
            },
        }
    }

    /// Goes to a point of the animation that is shown, and says after what time its next frame is
    /// due, if it is played.
    pub fn seek_animation(&mut self, dur: Nanos, now: Nanos) -> (r: Option<Nanos>)
        requires
            old(self).wf(),
            *old(self) matches DisplayedContent::Single(Renderable::Animation(_)),
            dur <= LONGEST,
            now + SECOND <= LAST_INSTANT,
        ensures
            final(self).wf(),
            *old(self) matches DisplayedContent::Single(Renderable::Animation(a)) && *final(self)
                matches DisplayedContent::Single(Renderable::Animation(b)) && b == (Animation {
                player: b.player,
                ..a
            }) && a.player.sought(a.animated, dur, now, b.player, r),
    {
        assert(self.items()[0].wf());
        match self {
            DisplayedContent::Single(Renderable::Animation(a)) => a.player.seek_animation(
                &a.animated,
                dur,
                now,
            ),
            _ => None,
        }
    }
}

/// What is drawn, and what is uploaded in advance.
#[derive(Debug)]
pub struct Renderer<T> {
    pub displayed: DisplayedContent<T>,
    pub next_page: Preloadable<T>,
}

impl<T> Renderer<T> {
    /// Whether something is to be loaded in advance once the pages were drawn: what one of them
    /// asks for, or the next page.
    pub fn wants_preload(&self, tasks: &Vec<PreloadTask>) -> (r: bool)
        ensures
            r == (self.next_page is Pending || exists|i: int|
                0 <= i < tasks@.len() && !(#[trigger] tasks@[i] is Nothing)),
    {
        if self.next_page.needs_preload() {
            return true;
        }
        let mut i: usize = 0;
        while i < tasks.len()
            invariant
                i <= tasks@.len(),
                forall|j: int| 0 <= j < i ==> #[trigger] tasks@[j] is Nothing,
            decreases tasks.len() - i,
        {
            match tasks[i] {
                PreloadTask::Nothing => {},
                _ => {
                    assert(!(tasks@[i as int] is Nothing));
                    return true;
                },
            }
            i += 1;
        }
        false
    }
}

/// The place of the first of several that can be kept for a page, or their number.
pub open spec fn first_match<T>(was: Seq<Renderable<T>>, d: Displayable) -> int
    decreases was.len(),
{
    if was.len() == 0 {
        0
    } else if first_match(was.drop_last(), d) < was.len() - 1 {
        first_match(was.drop_last(), d)
    } else if was.last().spec_matches(d) {
        was.len() - 1
    } else {
        was.len() as int
    }
}

/// What is left when one is taken out and the last one is put in its place.
pub open spec fn taken_out<T>(was: Seq<Renderable<T>>, i: int) -> Seq<Renderable<T>> {
    was.update(i, was.last()).drop_last()
}

/// What can be kept for some pages, one after another, and what is left then: the next page first,
/// then what was drawn, each for one page.
pub open spec fn kept_for<T>(
    was: Seq<Renderable<T>>,
    next: Preloadable<T>,
    pages: Seq<Displayable>,
) -> (Seq<Option<Renderable<T>>>, Seq<Renderable<T>>, Preloadable<T>)
    decreases pages.len(),
{
    if pages.len() == 0 {
        (seq![], was, next)
    } else {
        let before = kept_for(was, next, pages.drop_last());
        let i = first_match(before.1, pages.last());
        if before.2.spec_matches(pages.last()) {
            (before.0.push(Some(before.2.renderable())), before.1, Preloadable::Nothing)
        } else if i < before.1.len() {
            (before.0.push(Some(before.1[i])), taken_out(before.1, i), before.2)
        } else {
            (before.0.push(None), before.1, before.2)
        }
    }
}

/// Whether what is drawn is what was kept, or is new for its page with textures to use again.
pub open spec fn drawn_for<T>(
    r: Renderable<T>,
    d: Displayable,
    kept: Option<Renderable<T>>,
    at: AllocatedTexturesView<T>,
    play: bool,
    now: Nanos,
) -> bool {
    match kept {
        Some(k) => r == k,
        None => r.is_new(d, at, play, now),
    }
}

/// The textures of what is left, one after another from the last on.
pub open spec fn spare<T>(left: Seq<Renderable<T>>, n: int) -> AllocatedTexturesView<T> {
    if n < left.len() {
        left[left.len() - 1 - n].textures()
    } else {
        AllocatedTexturesView::Nothing
    }
}

/// For how many of the first pages nothing was kept.
pub open spec fn unkept<T>(kept: Seq<Option<Renderable<T>>>, n: int) -> int
    decreases n,
{
    if n <= 0 {
        0
    } else {
        unkept(kept, n - 1) + if kept[n - 1] is None {
            1int
        } else {
            0
        }
    }
}

/// Takes what can be kept for a page.
fn take_old<T>(next: &mut Preloadable<T>, was: &mut Vec<Renderable<T>>, d: &Displayable) -> (r:
    Option<Renderable<T>>)
    requires
        old(next).wf(),
        forall|i: int| 0 <= i < old(was)@.len() ==> (#[trigger] old(was)@[i]).wf(),
    ensures
        final(next).wf(),
        forall|i: int| 0 <= i < final(was)@.len() ==> (#[trigger] final(was)@[i]).wf(),
        r matches Some(x) ==> x.wf() && x.shows(*d),
        r is None ==> final(was)@ == old(was)@ && *final(next) == *old(next),
        ({
            let i = first_match(old(was)@, *d);
            if old(next).spec_matches(*d) {
                &&& r == Some(old(next).renderable())
                &&& *final(next) is Nothing
                &&& final(was)@ == old(was)@
            } else if i < old(was)@.len() {
                &&& r == Some(old(was)@[i])
                &&& *final(next) == *old(next)
                &&& final(was)@ == taken_out(old(was)@, i)
            } else {
                r is None
            }
        }),
{
    if next.matches(d) {
        return Some(next.take_renderable());
    }
    let ghost before = was@;
    let mut i: usize = 0;
    while i < was.len()
        invariant
            i <= was@.len(),
            was@ == before,
            before == old(was)@,
            *next == *old(next),
            next.wf(),
            !old(next).spec_matches(*d),
            forall|j: int| 0 <= j < before.len() ==> (#[trigger] before[j]).wf(),
            forall|j: int| 0 <= j < i ==> !(#[trigger] before[j]).spec_matches(*d),
        decreases was.len() - i,
    {
        if was[i].matches(d) {
            proof {
                lemma_first_match(before, *d, i as int);
                assert(before[i as int].wf());
            }
            let r = was.swap_remove(i);
            proof {
                assert forall|j: int| 0 <= j < was@.len() implies (#[trigger] was@[j]).wf() by {
                    if j == i {
                        assert(was@[j] == before.last());
                        assert(before[before.len() - 1].wf());
                    } else {
                        assert(was@[j] == before[j]);
                    }
                }
            }
            return Some(r);
        }
        i += 1;
    }
    proof {
        lemma_no_match(before, *d);
    }
    None
}

proof fn lemma_first_match<T>(was: Seq<Renderable<T>>, d: Displayable, i: int)
    requires
        0 <= i < was.len(),
        was[i].spec_matches(d),
        forall|j: int| 0 <= j < i ==> !(#[trigger] was[j]).spec_matches(d),
    ensures
        first_match(was, d) == i,
    decreases was.len(),
{
    let front = was.drop_last();
    if i < was.len() - 1 {
        assert(front[i] == was[i]);
        lemma_first_match(front, d, i);
    } else {
        assert forall|j: int| 0 <= j < front.len() implies !(#[trigger] front[j]).spec_matches(d) by {
            assert(front[j] == was[j]);
        }
        lemma_no_match(front, d);
    }
}

proof fn lemma_no_match<T>(was: Seq<Renderable<T>>, d: Displayable)
    requires
        forall|j: int| 0 <= j < was.len() ==> !(#[trigger] was[j]).spec_matches(d),
    ensures
        first_match(was, d) == was.len(),
    decreases was.len(),
{
    if was.len() > 0 {
        let front = was.drop_last();
        assert forall|j: int| 0 <= j < front.len() implies !(#[trigger] front[j]).spec_matches(d) by {
            assert(front[j] == was[j]);
        }
        lemma_no_match(front, d);
        assert(!was[was.len() - 1].spec_matches(d));
    }
}

/// Takes textures of something that is not drawn any more.
fn take_spare<T>(was: &mut Vec<Renderable<T>>) -> (r: AllocatedTextures<T>)
    requires
        forall|i: int| 0 <= i < old(was)@.len() ==> (#[trigger] old(was)@[i]).wf(),
    ensures
        forall|i: int| 0 <= i < final(was)@.len() ==> (#[trigger] final(was)@[i]).wf(),
        r@ == spare(old(was)@, 0),
        final(was)@ == if old(was)@.len() > 0 {
            old(was)@.drop_last()
        } else {
            old(was)@
        },
{
    match was.pop() {
        Some(r) => {
            let mut r = r;
            r.take_textures()
        },
        None => AllocatedTextures::Nothing,
    }
}

/// The textures for each page for which nothing was kept.
fn hand_out<T>(was: &mut Vec<Renderable<T>>, kept: &Vec<Option<Renderable<T>>>) -> (r: Vec<
    AllocatedTextures<T>,
>)
    requires
        forall|i: int| 0 <= i < old(was)@.len() ==> (#[trigger] old(was)@[i]).wf(),
    ensures
        r@.len() == kept@.len(),
        forall|i: int|
            #![trigger r@[i]]
            0 <= i < r@.len() && kept@[i] is None ==> r@[i]@ == spare(
                old(was)@,
                unkept(kept@, i),
            ),
{
    let ghost left = was@;
    let mut r: Vec<AllocatedTextures<T>> = Vec::new();
    let mut m: usize = 0;
    assert(left.take(left.len() as int) =~= left);
    while m < kept.len()
        invariant
            m <= kept@.len(),
            r@.len() == m,
            0 <= unkept(kept@, m as int),
            was@ == left.take(
                (if unkept(kept@, m as int) <= left.len() {
                    left.len() - unkept(kept@, m as int)
                } else {
                    0
                }),
            ),
            forall|i: int| 0 <= i < was@.len() ==> (#[trigger] was@[i]).wf(),
            forall|i: int|
                #![trigger r@[i]]
                0 <= i < m && kept@[i] is None ==> r@[i]@ == spare(left, unkept(kept@, i)),
        decreases kept.len() - m,
    {
        let ghost k = unkept(kept@, m as int);
        let t: AllocatedTextures<T> = if kept[m].is_none() {
            let ghost before = was@;
            let t = take_spare(was);
            proof {
                assert(spare(before, 0) == spare(left, k));
                assert(was@ =~= left.take(
                    (if k + 1 <= left.len() {
                        left.len() - (k + 1)
                    } else {
                        0
                    }),
                ));
            }
            t
        } else {
            AllocatedTextures::Nothing
        };
        r.push(t);
        m += 1;
        assert(unkept(kept@, m as int) == k + if kept@[m - 1] is None {
            1int
        } else {
            0
        });
    }
    r
}

/// Whether pages are drawn where several others were before: what can be kept is, and the textures
/// of the others are used again.
pub open spec fn redrawn<T>(
    was: Seq<Renderable<T>>,
    next: Preloadable<T>,
    pages: Seq<Displayable>,
    play: bool,
    now: Nanos,
    r: Seq<Renderable<T>>,
) -> bool {
    let kept = kept_for(was, next, pages);
    &&& r.len() == pages.len()
    &&& forall|i: int|
        #![trigger r[i]]
        0 <= i < r.len() ==> drawn_for(
            r[i],
            pages[i],
            kept.0[i],
            spare(kept.1, unkept(kept.0, i)),
            play,
            now,
        )
}

/// Draws pages where several others were drawn before, keeping what can be kept.
fn redraw<T>(
    was: &mut Vec<Renderable<T>>,
    next: &mut Preloadable<T>,
    pages: &Vec<Displayable>,
    play: bool,
    now: Nanos,
) -> (r: Vec<Renderable<T>>)
    requires
        old(next).wf(),
        forall|i: int| 0 <= i < old(was)@.len() ==> (#[trigger] old(was)@[i]).wf(),
        forall|i: int| 0 <= i < pages@.len() ==> (#[trigger] pages@[i]).wf(),
        now + SECOND <= LAST_INSTANT,
    ensures
        redrawn(old(was)@, *old(next), pages@, play, now, r@),
        forall|i: int|
            #![trigger r@[i]]
            0 <= i < r@.len() ==> r@[i].wf() && r@[i].shows(pages@[i]),
{
    let ghost o = was@;
    let ghost n = *next;
    let mut kept: Vec<Option<Renderable<T>>> = Vec::new();
    let mut i: usize = 0;
    assert(pages@.take(0) =~= Seq::<Displayable>::empty());
    assert(kept@ =~= kept_for(o, n, pages@.take(0)).0);
    while i < pages.len()
        invariant
            i <= pages@.len(),
            next.wf(),
            forall|i: int| 0 <= i < was@.len() ==> (#[trigger] was@[i]).wf(),
            kept@.len() == i,
            (kept@, was@, *next) == kept_for(o, n, pages@.take(i as int)),
            forall|j: int|
                #![trigger kept@[j]]
                0 <= j < i ==> (kept@[j] matches Some(x) ==> x.wf() && x.shows(pages@[j])),
        decreases pages.len() - i,
    {
        let k = take_old(next, was, &pages[i]);
        kept.push(k);
        proof {
            assert(pages@.take(i + 1).drop_last() =~= pages@.take(i as int));
            assert(pages@.take(i + 1).last() == pages@[i as int]);
        }
        i += 1;
    }
    assert(pages@.take(i as int) =~= pages@);
    let ghost all = kept@;
    let ghost left = was@;
    let mut textures = hand_out(was, &kept);
    let ghost handed = textures@;
    let mut back: Vec<Renderable<T>> = Vec::new();
    let mut j: usize = pages.len();
    assert(all.take(j as int) =~= all);
    assert(handed.take(j as int) =~= handed);
    while j > 0
        invariant
            j <= pages@.len(),
            all.len() == pages@.len(),
            handed.len() == pages@.len(),
            kept@ == all.take(j as int),
            textures@ == handed.take(j as int),
            back@.len() == pages@.len() - j,
            now + SECOND <= LAST_INSTANT,
            forall|i: int| 0 <= i < pages@.len() ==> (#[trigger] pages@[i]).wf(),
            forall|j: int|
                #![trigger all[j]]
                0 <= j < pages@.len() ==> (all[j] matches Some(x) ==> x.wf() && x.shows(pages@[j])),
            forall|i: int|
                #![trigger handed[i]]
                0 <= i < handed.len() && all[i] is None ==> handed[i]@ == spare(
                    left,
                    unkept(all, i),
                ),
            forall|i: int|
                #![trigger back@[i]]
                0 <= i < back@.len() ==> back@[i].wf() && back@[i].shows(
                    pages@[pages@.len() - 1 - i],
                ) && drawn_for(
                    back@[i],
                    pages@[pages@.len() - 1 - i],
                    all[pages@.len() - 1 - i],
                    spare(left, unkept(all, pages@.len() - 1 - i)),
                    play,
                    now,
                ),
        decreases j,
    {
        let k = kept.pop().unwrap();
        let t = textures.pop().unwrap();
        j -= 1;
        assert(k == all[j as int]);
        assert(t == handed[j as int]);
        assert(kept@ =~= all.take(j as int));
        assert(textures@ =~= handed.take(j as int));
        let r = match k {
            Some(r) => r,
            None => Renderable::new(&pages[j], t, play, now),
        };
        back.push(r);
    }
    let mut r: Vec<Renderable<T>> = Vec::new();
    let ghost b = back@;
    while back.len() > 0
        invariant
            b == back@ + r@.reverse(),
        decreases back.len(),
    {
        let ghost before = back@;
        let ghost done = r@;
        let x = back.pop().unwrap();
        r.push(x);
        assert(r@.reverse() =~= seq![x] + done.reverse());
        assert(back@ + r@.reverse() =~= before + done.reverse());
    }
    proof {
        assert(r@.reverse() =~= b);
        assert forall|i: int| #![trigger r@[i]] 0 <= i < r@.len() implies r@[i] == b[r@.len() - 1
            - i] by {
            assert(r@.reverse()[r@.len() - 1 - i] == r@[i]);
        }
    }
    r
}

/// The pages that contents show.
pub open spec fn shown_pages(content: GuiContent) -> Seq<Displayable> {
    match content {
        GuiContent::Single { current, .. } => seq![current],
        GuiContent::Dual { visible, .. } => match visible {
            OneOrTwo::One(a) => seq![a],
            OneOrTwo::Two(a, b) => seq![a, b],
        },
        GuiContent::Strip { visible, .. } => visible@,
    }
}

/// The page after those that contents show, if they say which it is.
pub open spec fn page_after(content: GuiContent) -> Option<Displayable> {
    match content {
        GuiContent::Single { preload, .. } => preload,
        _ => None,
    }
}

impl<T> Renderer<T> {
    pub open spec fn wf(self) -> bool {
        self.displayed.wf() && self.next_page.wf()
    }

    /// Whether what is drawn is what contents show, and the next page is uploaded in advance.
    pub open spec fn draws(self, content: GuiContent) -> bool {
        let pages = shown_pages(content);
        &&& self.displayed.items().len() == pages.len()
        &&& forall|i: int|
            #![trigger self.displayed.items()[i]]
            0 <= i < pages.len() ==> self.displayed.items()[i].shows(pages[i])
        &&& self.displayed is Single <==> (pages.len() == 1 && !(content is Strip))
        &&& self.next_page.shows(page_after(content))
    }

    /// Whether a single page is followed by another one. What is drawn or uploaded already is kept,
    /// be it as the page that is shown or as the one after it, and the textures of what is not are
    /// used again.
    pub open spec fn turned(
        self,
        was: Renderable<T>,
        c: Displayable,
        p: Option<Displayable>,
        play: bool,
        now: Nanos,
        after: Renderer<T>,
    ) -> bool {
        let next = self.next_page.renderable();
        &&& after.displayed matches DisplayedContent::Single(r)
        &&& if was.spec_matches(c) {
            &&& r == was
            &&& if p is Some && self.next_page.spec_matches(p->0) {
                after.next_page == self.next_page
            } else {
                after.next_page.is_new(p, next.textures())
            }
        } else if p is Some && was.spec_matches(p->0) {
            &&& r.is_new(c, next.textures(), play, now)
            &&& after.next_page == Preloadable::spec_from(was)
        } else if self.next_page.spec_matches(c) {
            r == next && after.next_page.is_new(p, was.textures())
        } else {
            &&& r.is_new(c, was.textures(), play, now)
            &&& after.next_page.is_new(p, next.textures())
        }
    }

    /// Shows a single page where a single page was shown.
    fn turn_page(
        &mut self,
        was: Renderable<T>,
        c: &Displayable,
        p: &Option<Displayable>,
        play: bool,
        now: Nanos,
    )
        requires
            was.wf(),
            old(self).next_page.wf(),
            c.wf(),
            now + SECOND <= LAST_INSTANT,
        ensures
            final(self).wf(),
            final(self).displayed matches DisplayedContent::Single(r) && r.shows(*c),
            final(self).next_page.shows(*p),
            old(self).turned(was, *c, *p, play, now, *final(self)),
    {
        let mut was = was;
        if was.matches(c) {
            if let Some(pl) = p {
                if self.next_page.matches(pl) {
                    self.displayed = DisplayedContent::Single(was);
                    return;
                }
            }
            let mut r = self.next_page.take_renderable();
            self.next_page = Preloadable::new(p, r.take_textures());
            self.displayed = DisplayedContent::Single(was);
            return;
        }
        let back: bool = match p {
            Some(pl) => was.matches(pl),
            None => false,
        };
        if back {
            let mut r = self.next_page.take_renderable();
            self.displayed = DisplayedContent::Single(
                Renderable::new(c, r.take_textures(), play, now),
            );
            self.next_page = Preloadable::from_renderable(was);
        } else if self.next_page.matches(c) {
            let textures = was.take_textures();
            self.displayed = DisplayedContent::Single(self.next_page.take_renderable());
            self.next_page = Preloadable::new(p, textures);
        } else {
            let textures = was.take_textures();
            self.displayed = DisplayedContent::Single(Renderable::new(c, textures, play, now));
            let mut r = self.next_page.take_renderable();
            self.next_page = Preloadable::new(p, r.take_textures());
        }
    }

    /// Whether one or two pages are drawn where several others were before. The second one is the
    /// first to get textures of what is not kept.
    pub open spec fn paired(
        self,
        was: Seq<Renderable<T>>,
        visible: OneOrTwo<Displayable>,
        play: bool,
        now: Nanos,
        after: DisplayedContent<T>,
    ) -> bool {
        match visible {
            OneOrTwo::One(a) => {
                let kept = kept_for(was, self.next_page, seq![a]);
                &&& after matches DisplayedContent::Single(r)
                &&& drawn_for(r, a, kept.0[0], spare(kept.1, 0), play, now)
            },
            OneOrTwo::Two(a, b) => {
                let kept = kept_for(was, self.next_page, seq![a, b]);
                let first = if kept.0[1] is None {
                    1int
                } else {
                    0
                };
                &&& after matches DisplayedContent::Multiple(v)
                &&& v@.len() == 2
                &&& drawn_for(v@[0], a, kept.0[0], spare(kept.1, first), play, now)
                &&& drawn_for(v@[1], b, kept.0[1], spare(kept.1, 0), play, now)
            },
        }
    }

    /// Shows one or two pages where several were shown.
    fn redraw_dual(
        &mut self,
        was: Vec<Renderable<T>>,
        visible: &OneOrTwo<Displayable>,
        play: bool,
        now: Nanos,
    )
        requires
            forall|i: int| 0 <= i < was@.len() ==> (#[trigger] was@[i]).wf(),
            old(self).next_page.wf(),
            match *visible {
                OneOrTwo::One(a) => a.wf(),
                OneOrTwo::Two(a, b) => a.wf() && b.wf(),
            },
            now + SECOND <= LAST_INSTANT,
        ensures
            final(self).wf(),
            final(self).next_page is Nothing,
            old(self).paired(was@, *visible, play, now, final(self).displayed),
            match *visible {
                OneOrTwo::One(a) => final(self).displayed.items()[0].shows(a),
                OneOrTwo::Two(a, b) => final(self).displayed.items()[0].shows(a)
                    && final(self).displayed.items()[1].shows(b),
            },
    {
        let mut was = was;
        let ghost w = was@;
        let ghost n = self.next_page;
        let ghost f = visible.spec_first();
        proof {
            assert(seq![f].drop_last() =~= Seq::<Displayable>::empty());
            assert(kept_for(w, n, seq![]).0 =~= seq![]);
        }
        let kept = take_old(&mut self.next_page, &mut was, visible.first());
        assert((seq![kept], was@, self.next_page) == kept_for(w, n, seq![f]));
        let ghost mut left = was@;
        let second: Option<Renderable<T>> = match visible {
            OneOrTwo::One(_) => None,
            OneOrTwo::Two(_, s) => {
                proof {
                    assert(seq![f, *s].drop_last() =~= seq![f]);
                    assert(kept_for(w, n, seq![f, *s]).0[0] == kept);
                }
                let k = take_old(&mut self.next_page, &mut was, s);
                assert(kept_for(w, n, seq![f, *s]).0[1] == k);
                assert(kept_for(w, n, seq![f, *s]).1 == was@);
                proof {
                    left = was@;
                }
                Some(
                    match k {
                        Some(r) => r,
                        None => {
                            let t = take_spare(&mut was);
                            assert(spare(was@, 0) == spare(left, 1));
                            Renderable::new(s, t, play, now)
                        },
                    },
                )
            },
        };
        let first = match kept {
            Some(r) => r,
            None => {
                let t = take_spare(&mut was);
                Renderable::new(visible.first(), t, play, now)
            },
        };
        self.next_page = Preloadable::Nothing;
        self.displayed = match second {
            Some(s) => {
                let mut v: Vec<Renderable<T>> = Vec::new();
                v.push(first);
                v.push(s);
                DisplayedContent::Multiple(v)
            },
            None => DisplayedContent::Single(first),
        };
    }

    /// Whether one or two pages are drawn where a single one was before. The page that was shown is
    /// kept as the first one, and the next page as the second one, or their textures are.
    pub open spec fn split(
        self,
        was: Renderable<T>,
        visible: OneOrTwo<Displayable>,
        play: bool,
        now: Nanos,
        after: DisplayedContent<T>,
    ) -> bool {
        let next = self.next_page.renderable();
        let first = |r: Renderable<T>, a: Displayable|
            if was.spec_matches(a) {
                r == was
            } else {
                r.is_new(a, was.textures(), play, now)
            };
        match visible {
            OneOrTwo::One(a) => after matches DisplayedContent::Single(r) && first(r, a),
            OneOrTwo::Two(a, b) => {
                &&& after matches DisplayedContent::Multiple(v)
                &&& v@.len() == 2
                &&& first(v@[0], a)
                &&& if self.next_page.spec_matches(b) {
                    v@[1] == next
                } else {
                    v@[1].is_new(b, next.textures(), play, now)
                }
            },
        }
    }

    /// Shows one or two pages where a single one was shown.
    fn redraw_dual_from_single(
        &mut self,
        was: Renderable<T>,
        visible: &OneOrTwo<Displayable>,
        play: bool,
        now: Nanos,
    )
        requires
            was.wf(),
            old(self).next_page.wf(),
            match *visible {
                OneOrTwo::One(a) => a.wf(),
                OneOrTwo::Two(a, b) => a.wf() && b.wf(),
            },
            now + SECOND <= LAST_INSTANT,
        ensures
            final(self).wf(),
            final(self).next_page is Nothing,
            old(self).split(was, *visible, play, now, final(self).displayed),
            match *visible {
                OneOrTwo::One(a) => final(self).displayed.items()[0].shows(a),
                OneOrTwo::Two(a, b) => final(self).displayed.items()[0].shows(a)
                    && final(self).displayed.items()[1].shows(b),
            },
    {
        let mut was = was;
        let first = if was.matches(visible.first()) {
            was
        } else {
            let t = was.take_textures();
            Renderable::new(visible.first(), t, play, now)
        };
        let displayed = match visible {
            OneOrTwo::One(_) => DisplayedContent::Single(first),
            OneOrTwo::Two(_, s) => {
                let second = if self.next_page.matches(s) {
                    self.next_page.take_renderable()
                } else {
                    let mut r = self.next_page.take_renderable();
                    let t = r.take_textures();
                    Renderable::new(s, t, play, now)
                };
                let mut v: Vec<Renderable<T>> = Vec::new();
                v.push(first);
                v.push(second);
                DisplayedContent::Multiple(v)
            },
        };
        self.displayed = displayed;
        self.next_page = Preloadable::Nothing;
    }

    /// Whether a strip is drawn where a single page was before. That page is kept where it occurs
    /// first. Its textures go to the first page of the strip, unless it is that page.
    pub open spec fn unrolled(
        was: Renderable<T>,
        pages: Seq<Displayable>,
        play: bool,
        now: Nanos,
        r: Seq<Renderable<T>>,
    ) -> bool {
        &&& r.len() == pages.len()
        &&& forall|i: int|
            #![trigger r[i]]
            0 <= i < r.len() ==> if was.spec_matches(pages[i]) && first_page(was, pages, i) {
                if i == 0 {
                    r[i] == was
                } else {
                    was.emptied(r[i])
                }
            } else {
                r[i].is_new(
                    pages[i],
                    if i == 0 {
                        was.textures()
                    } else {
                        AllocatedTexturesView::Nothing
                    },
                    play,
                    now,
                )
            }
    }

    /// Shows a strip where a single page was shown.
    fn redraw_strip_from_single(
        was: Renderable<T>,
        pages: &Vec<Displayable>,
        play: bool,
        now: Nanos,
    ) -> (r: Vec<Renderable<T>>)
        requires
            was.wf(),
            forall|i: int| 0 <= i < pages@.len() ==> (#[trigger] pages@[i]).wf(),
            now + SECOND <= LAST_INSTANT,
        ensures
            Self::unrolled(was, pages@, play, now, r@),
            forall|i: int|
                #![trigger r@[i]]
                0 <= i < r@.len() ==> r@[i].wf() && r@[i].shows(pages@[i]),
    {
        let ghost start = was;
        let mut was = was;
        let mut r: Vec<Renderable<T>> = Vec::new();
        let mut i: usize = 0;
        while i < pages.len()
            invariant
                i <= pages@.len(),
                was.wf(),
                i == 0 ==> was == start,
                i > 0 && first_page(start, pages@, i as int) ==> start.emptied(was),
                i > 0 && !first_page(start, pages@, i as int) ==> was is Nothing,
                now + SECOND <= LAST_INSTANT,
                forall|i: int| 0 <= i < pages@.len() ==> (#[trigger] pages@[i]).wf(),
                Self::unrolled(start, pages@.take(i as int), play, now, r@),
                r@.len() == i,
                forall|i: int|
                    #![trigger r@[i]]
                    0 <= i < r@.len() ==> r@[i].wf() && r@[i].shows(pages@[i]),
            decreases pages.len() - i,
        {
            proof {
                lemma_emptied(start, was);
                lemma_first_page(start, pages@, i as int);
                assert(pages@.take(i + 1).take(i as int) =~= pages@.take(i as int));
                assert forall|k: int| 0 <= k <= i implies first_page(
                    start,
                    pages@.take(i as int),
                    k,
                ) == #[trigger] first_page(start, pages@, k) by {
                    lemma_first_page_take(start, pages@, i as int, k);
                }
                assert forall|k: int| 0 <= k <= i implies first_page(
                    start,
                    pages@.take(i + 1),
                    k,
                ) == #[trigger] first_page(start, pages@, k) by {
                    lemma_first_page_take(start, pages@, i + 1, k);
                }
            }
            if was.matches(&pages[i]) {
                let mut same: Renderable<T> = Renderable::Nothing;
                std::mem::swap(&mut same, &mut was);
                r.push(same);
            } else {
                let t = was.take_textures();
                r.push(Renderable::new(&pages[i], t, play, now));
            }
            i += 1;
        }
        assert(pages@.take(i as int) =~= pages@);
        r
    }

    /// Whether other contents are drawn, and what becomes of what was drawn before.
    pub open spec fn updated(
        self,
        content: GuiContent,
        play: bool,
        now: Nanos,
        after: Renderer<T>,
    ) -> bool {
        match (content, self.displayed) {
            (
                GuiContent::Single { current, preload },
                DisplayedContent::Single(was),
            ) => self.turned(was, current, preload, play, now, after),
            (GuiContent::Single { current, preload }, DisplayedContent::Multiple(was)) => {
                let kept = kept_for(was@, self.next_page, seq![current]).0[0];
                &&& after.displayed matches DisplayedContent::Single(r)
                &&& drawn_for(r, current, kept, was@[0].textures(), play, now)
                &&& after.next_page.is_new(preload, AllocatedTexturesView::Nothing)
            },
            (GuiContent::Dual { visible, .. }, DisplayedContent::Single(was)) => {
                &&& self.split(was, visible, play, now, after.displayed)
                &&& after.next_page is Nothing
            },
            (GuiContent::Dual { visible, .. }, DisplayedContent::Multiple(was)) => {
                &&& self.paired(was@, visible, play, now, after.displayed)
                &&& after.next_page is Nothing
            },
            (GuiContent::Strip { visible, .. }, DisplayedContent::Single(was)) => {
                &&& after.displayed matches DisplayedContent::Multiple(v)
                &&& Self::unrolled(was, visible@, play, now, v@)
                &&& after.next_page is Nothing
            },
            (GuiContent::Strip { visible, .. }, DisplayedContent::Multiple(was)) => {
                &&& after.displayed matches DisplayedContent::Multiple(v)
                &&& redrawn(was@, self.next_page, visible@, play, now, v@)
                &&& after.next_page is Nothing
            },
        }
    }

    /// Shows other contents. What is drawn or uploaded already is kept where it can be, and textures
    /// are used again.
    pub fn update_displayed(&mut self, content: &GuiContent, play: bool, now: Nanos)
        requires
            old(self).wf(),
            content.wf(),
            now + SECOND <= LAST_INSTANT,
        ensures
            final(self).wf(),
            final(self).draws(*content),
            old(self).updated(*content, play, now, *final(self)),
    {
        let mut was: DisplayedContent<T> = DisplayedContent::Single(Renderable::Nothing);
        std::mem::swap(&mut self.displayed, &mut was);
        proof {
            assert(was.items()[0].wf());
            assert forall|v: Vec<Renderable<T>>, i: int|
                was == DisplayedContent::Multiple(v) && 0 <= i < v@.len() implies (
            #[trigger] v@[i]).wf() by {
                assert(was.items()[i].wf());
            }
        }
        match content {
            GuiContent::Single { current, preload } => match was {
                DisplayedContent::Single(r) => self.turn_page(r, current, preload, play, now),
                DisplayedContent::Multiple(v) => {
                    let mut v = v;
                    let ghost w = v@;
                    let ghost n = self.next_page;
                    proof {
                        assert(seq![*current].drop_last() =~= Seq::<Displayable>::empty());
                        assert(kept_for(w, n, seq![]).0 =~= seq![]);
                        assert(kept_for(w, n, seq![]).1 == w);
                    }
                    let kept = take_old(&mut self.next_page, &mut v, current);
                    assert(kept_for(w, n, seq![*current]).0 =~= seq![kept]);
                    let r = match kept {
                        Some(r) => r,
                        None => {
                            let t = v[0].take_textures();
                            Renderable::new(current, t, play, now)
                        },
                    };
                    self.displayed = DisplayedContent::Single(r);
                    self.next_page = Preloadable::new(preload, AllocatedTextures::Nothing);
                },
            },
            GuiContent::Dual { visible, .. } => match was {
                DisplayedContent::Single(r) => {
                    self.redraw_dual_from_single(r, visible, play, now);
                },
                DisplayedContent::Multiple(v) => {
                    self.redraw_dual(v, visible, play, now);
                },
            },
            GuiContent::Strip { visible, .. } => match was {
                DisplayedContent::Single(r) => {
                    let v = Self::redraw_strip_from_single(r, visible, play, now);
                    self.displayed = DisplayedContent::Multiple(v);
                    self.next_page = Preloadable::Nothing;
                },
                DisplayedContent::Multiple(v) => {
                    let mut v = v;
                    let r = redraw(&mut v, &mut self.next_page, visible, play, now);
                    self.displayed = DisplayedContent::Multiple(r);
                    self.next_page = Preloadable::Nothing;
                },
            },
        }
    }

    /// Lets go of all textures.
    pub fn drop_textures(&mut self)
        requires
            old(self).wf(),
        ensures
            final(self).wf(),
            final(self).displayed.items().len() == old(self).displayed.items().len(),
            final(self).displayed is Single <==> old(self).displayed is Single,
            forall|i: int|
                #![trigger final(self).displayed.items()[i]]
                0 <= i < final(self).displayed.items().len() ==> old(
                    self,
                ).displayed.items()[i].cleared(final(self).displayed.items()[i]),
            match old(self).next_page {
                Preloadable::Nothing => final(self).next_page is Nothing,
                Preloadable::Pending(i) | Preloadable::Loaded(i) => final(self).next_page
                    matches Preloadable::Pending(j) && i.cleared(j),
            },
    {
        self.displayed.drop_textures();
        self.next_page.drop_textures();
    }
}

/// Whether none of the pages before one is the page that is drawn.
pub open spec fn first_page<T>(was: Renderable<T>, pages: Seq<Displayable>, i: int) -> bool {
    forall|j: int| 0 <= j < i ==> !was.spec_matches(#[trigger] pages[j])
}

proof fn lemma_first_page<T>(was: Renderable<T>, pages: Seq<Displayable>, i: int)
    requires
        0 <= i < pages.len(),
    ensures
        first_page(was, pages, i + 1) <==> first_page(was, pages, i) && !was.spec_matches(pages[i]),
{
}

proof fn lemma_first_page_take<T>(was: Renderable<T>, pages: Seq<Displayable>, n: int, i: int)
    requires
        0 <= i <= n <= pages.len(),
    ensures
        first_page(was, pages.take(n), i) == first_page(was, pages, i),
{
    assert forall|j: int| 0 <= j < i implies #[trigger] pages.take(n)[j] == pages[j] by {}
    if first_page(was, pages.take(n), i) {
        assert forall|j: int| 0 <= j < i implies !was.spec_matches(#[trigger] pages[j]) by {
            assert(pages.take(n)[j] == pages[j]);
        }
    }
}

/// What is left after textures were taken is drawn for the same pages, and has none.
proof fn lemma_emptied<T>(was: Renderable<T>, after: Renderable<T>)
    ensures
        was.emptied(after) ==> {
            &&& after.textures() is Nothing
            &&& forall|d: Displayable| #[trigger] after.spec_matches(d) == was.spec_matches(d)
            &&& forall|x: Renderable<T>| #[trigger] after.emptied(x) ==> was.emptied(x)
        },
{
}

impl<T> DisplayedContent<T> {
    /// Finds out how to draw each page, by where it is on the display.
    pub fn draw(&mut self, at: &Vec<Placement>) -> (plans: Vec<DrawPlan<T>>)
        requires
            old(self).wf(),
            at@.len() == old(self).items().len(),
            forall|i: int|
                #![trigger old(self).items()[i]]
                0 <= i < at@.len() ==> (old(self).items()[i].drawn_image() matches Some(x)
                    ==> x.placed(at@[i])),
        ensures
            final(self).wf(),
            final(self).items().len() == old(self).items().len(),
            *final(self) is Single <==> *old(self) is Single,
            plans@.len() == at@.len(),
            forall|i: int|
                #![trigger plans@[i]]
                0 <= i < at@.len() ==> old(self).items()[i].drawn(
                    at@[i],
                    plans@[i],
                    final(self).items()[i],
                ),
    {
        let ghost items = self.items();
        assert(items[0].wf());
        let mut plans: Vec<DrawPlan<T>> = Vec::new();
        match self {
            DisplayedContent::Single(r) => {
                assert(items[0] == *r);
                plans.push(r.draw(&at[0]));
            },
            DisplayedContent::Multiple(v) => {
                let n: usize = v.len();
                let mut i: usize = 0;
                while i < n
                    invariant
                        i <= n,
                        n > 0,
                        v@.len() == n,
                        at@.len() == n,
                        items.len() == n,
                        plans@.len() == i,
                        forall|j: int| 0 <= j < n ==> (#[trigger] v@[j]).wf(),
                        forall|j: int| i <= j < n ==> #[trigger] v@[j] == items[j],
                        forall|j: int|
                            #![trigger items[j]]
                            0 <= j < n ==> (items[j].drawn_image() matches Some(x) ==> x.placed(
                                at@[j],
                            )),
                        forall|j: int|
                            #![trigger plans@[j]]
                            0 <= j < i ==> items[j].drawn(at@[j], plans@[j], v@[j]),
                    decreases n - i,
                {
                    assert(v@[i as int] == items[i as int]);
                    let plan = v[i].draw(&at[i]);
                    plans.push(plan);
                    i += 1;
                }
            },
        }
        plans
    }
}

/// A single page that is drawn already is not drawn anew when it is shown again, nor is the next
/// page when it was uploaded in advance. A page that is gone back from becomes the next one.
pub proof fn law_nothing_is_drawn_twice<T>(
    r: Renderer<T>,
    was: Renderable<T>,
    current: Displayable,
    preload: Option<Displayable>,
    play: bool,
    now: Nanos,
    after: Renderer<T>,
)
    requires
        r.displayed == DisplayedContent::Single(was),
        r.updated(GuiContent::Single { current, preload }, play, now, after),
    ensures
        after.displayed is Single,
        was.spec_matches(current) ==> after.displayed == r.displayed,
        was.spec_matches(current) && (preload matches Some(p) && r.next_page.spec_matches(p))
            ==> after.next_page == r.next_page,
        !was.spec_matches(current) && (preload matches Some(p) && was.spec_matches(p))
            ==> after.next_page == Preloadable::spec_from(was),
        !was.spec_matches(current) && !(preload matches Some(p) && was.spec_matches(p))
            && r.next_page.spec_matches(current) ==> after.displayed == DisplayedContent::Single(
            r.next_page.renderable(),
        ),
{
}

/// Textures are used again: where the page that was drawn is not kept, the new one gets its
/// textures, unless it is to be the next page.
pub proof fn law_textures_are_used_again<T>(
    r: Renderer<T>,
    was: Renderable<T>,
    current: Displayable,
    preload: Option<Displayable>,
    play: bool,
    now: Nanos,
    after: Renderer<T>,
)
    requires
        r.displayed == DisplayedContent::Single(was),
        r.updated(GuiContent::Single { current, preload }, play, now, after),
        !was.spec_matches(current),
        !r.next_page.spec_matches(current),
        !(preload matches Some(p) && was.spec_matches(p)),
    ensures
        after.displayed matches DisplayedContent::Single(x) && x.is_new(
            current,
            was.textures(),
            play,
            now,
        ),
        after.next_page.is_new(preload, r.next_page.renderable().textures()),
{
}

/// When two pages are shown in place of a single one, those that are drawn or uploaded already are
/// kept, the one as the first and the other as the second.
pub proof fn law_pages_are_kept_for_pairs<T>(
    r: Renderer<T>,
    was: Renderable<T>,
    prev: OffscreenContent,
    next: OffscreenContent,
    a: Displayable,
    b: Displayable,
    play: bool,
    now: Nanos,
    after: Renderer<T>,
)
    requires
        r.displayed == DisplayedContent::Single(was),
        r.updated(GuiContent::Dual { prev, visible: OneOrTwo::Two(a, b), next }, play, now, after),
    ensures
        after.next_page is Nothing,
        after.displayed matches DisplayedContent::Multiple(v) && v@.len() == 2 && (
        was.spec_matches(a) ==> v@[0] == was) && (r.next_page.spec_matches(b) ==> v@[1]
            == r.next_page.renderable()),
{
}

/// The pages that are drawn are those that are shown, in their order. Only a single page says which
/// one comes next.
pub proof fn law_pages_in_order(
    current: Displayable,
    preload: Option<Displayable>,
    a: Displayable,
    b: Displayable,
    prev: OffscreenContent,
    next: OffscreenContent,
    i: usize,
    v: Vec<Displayable>,
)
    ensures
        shown_pages(GuiContent::Single { current, preload }) == seq![current],
        page_after(GuiContent::Single { current, preload }) == preload,
        shown_pages(GuiContent::Dual { prev, visible: OneOrTwo::One(a), next }) == seq![a],
        shown_pages(GuiContent::Dual { prev, visible: OneOrTwo::Two(a, b), next }) == seq![a, b],
        page_after(GuiContent::Dual { prev, visible: OneOrTwo::Two(a, b), next }) is None,
        shown_pages(GuiContent::Strip { prev, current_index: i, visible: v, next }) == v@,
        page_after(GuiContent::Strip { prev, current_index: i, visible: v, next }) is None,
{
}

/// Of what was drawn before, something that shows a page is kept for it, unless the next page does.
/// The first of several is.
pub proof fn law_first_match<T>(was: Seq<Renderable<T>>, d: Displayable, i: int)
    requires
        0 <= i < was.len(),
    ensures
        0 <= first_match(was, d) <= was.len(),
        was[i].spec_matches(d) ==> first_match(was, d) <= i,
        first_match(was, d) < was.len() ==> was[first_match(was, d)].spec_matches(d),
    decreases was.len(),
{
    if was.len() > 1 {
        let rest = was.drop_last();
        if i < rest.len() {
            assert(rest[i] == was[i]);
            law_first_match(rest, d, i);
        } else {
            law_first_match(rest, d, 0);
        }
    } else {
        assert(was.drop_last().len() == 0);
        assert(first_match(was.drop_last(), d) == 0);
    }
}

proof fn lemma_taken_out<T>(was: Seq<Renderable<T>>, i: int, w: Renderable<T>)
    requires
        0 <= i < was.len(),
        was.contains(w),
        was[i] != w,
    ensures
        taken_out(was, i).contains(w),
{
    let j = was.index_of(w);
    let left = taken_out(was, i);
    if j == was.len() - 1 {
        assert(left[i] == w);
    } else {
        assert(left[j] == w);
    }
}

proof fn lemma_left_contained<T>(was: Seq<Renderable<T>>, i: int, w: Renderable<T>)
    requires
        0 <= i < was.len(),
        taken_out(was, i).contains(w),
    ensures
        was.contains(w),
{
    let left = taken_out(was, i);
    let j = left.index_of(w);
    if j == i {
        assert(was[was.len() - 1] == w);
    } else {
        assert(was[j] == w);
    }
}

proof fn lemma_first_match_fits<T>(was: Seq<Renderable<T>>, d: Displayable)
    ensures
        0 <= first_match(was, d) <= was.len(),
        first_match(was, d) < was.len() ==> was[first_match(was, d)].spec_matches(d),
{
    if was.len() > 0 {
        law_first_match(was, d, 0);
    }
}

/// What is kept for pages is something that was drawn or uploaded before and shows the page.
pub proof fn law_what_is_kept_shows_the_page<T>(
    was: Seq<Renderable<T>>,
    next: Preloadable<T>,
    pages: Seq<Displayable>,
    i: int,
)
    requires
        0 <= i < pages.len(),
    ensures
        kept_for(was, next, pages).0.len() == pages.len(),
        kept_for(was, next, pages).0[i] matches Some(x) ==> x.shows(pages[i]) && (was.contains(x)
            || x == next.renderable()),
    decreases pages.len(),
{
    let rest = pages.drop_last();
    let before = kept_for(was, next, rest);
    lemma_kept(was, next, rest);
    lemma_first_match_fits(before.1, pages.last());
    let n = pages.len() - 1;
    if i < n {
        law_what_is_kept_shows_the_page(was, next, rest, i);
        assert(rest[i] == pages[i]);
        assert(kept_for(was, next, pages).0[i] == before.0[i]);
    } else {
        let k = first_match(before.1, pages.last());
        if k < before.1.len() {
            assert(before.1.contains(before.1[k]));
            lemma_kept_before(was, next, rest, before.1[k]);
        }
        if before.2.spec_matches(pages.last()) {
            assert(before.2 == next);
        }
    }
}

proof fn lemma_kept<T>(was: Seq<Renderable<T>>, next: Preloadable<T>, pages: Seq<Displayable>)
    ensures
        kept_for(was, next, pages).0.len() == pages.len(),
        kept_for(was, next, pages).2 == next || kept_for(was, next, pages).2 is Nothing,
    decreases pages.len(),
{
    if pages.len() > 0 {
        lemma_kept(was, next, pages.drop_last());
    }
}

proof fn lemma_kept_before<T>(
    was: Seq<Renderable<T>>,
    next: Preloadable<T>,
    pages: Seq<Displayable>,
    w: Renderable<T>,
)
    requires
        kept_for(was, next, pages).1.contains(w),
    ensures
        was.contains(w),
    decreases pages.len(),
{
    if pages.len() > 0 {
        let before = kept_for(was, next, pages.drop_last());
        let k = first_match(before.1, pages.last());
        lemma_first_match_fits(before.1, pages.last());
        if !before.2.spec_matches(pages.last()) && k < before.1.len() {
            lemma_left_contained(before.1, k, w);
        }
        lemma_kept_before(was, next, pages.drop_last(), w);
    }
}

proof fn lemma_still_there<T>(
    was: Seq<Renderable<T>>,
    next: Preloadable<T>,
    pages: Seq<Displayable>,
    w: Renderable<T>,
)
    requires
        was.contains(w),
        forall|k: int| 0 <= k < pages.len() ==> !w.spec_matches(#[trigger] pages[k]),
    ensures
        kept_for(was, next, pages).1.contains(w),
    decreases pages.len(),
{
    if pages.len() > 0 {
        let rest = pages.drop_last();
        let l = pages.len() - 1;
        assert forall|k: int| 0 <= k < rest.len() implies !w.spec_matches(#[trigger] rest[k]) by {
            assert(rest[k] == pages[k]);
        }
        lemma_still_there(was, next, rest, w);
        let before = kept_for(was, next, rest);
        let k = first_match(before.1, pages.last());
        lemma_first_match_fits(before.1, pages.last());
        assert(!w.spec_matches(pages[l]));
        if !before.2.spec_matches(pages.last()) && k < before.1.len() {
            lemma_taken_out(before.1, k, w);
        }
    }
}

/// Something that shows a page, and none of the pages before it, is kept for that page: nothing
/// that is drawn already is drawn anew.
pub proof fn law_what_shows_a_page_is_kept<T>(
    was: Seq<Renderable<T>>,
    next: Preloadable<T>,
    pages: Seq<Displayable>,
    i: int,
    w: Renderable<T>,
)
    requires
        0 <= i < pages.len(),
        was.contains(w),
        w.spec_matches(pages[i]),
        forall|k: int| 0 <= k < i ==> !w.spec_matches(#[trigger] pages[k]),
    ensures
        kept_for(was, next, pages).0[i] is Some,
    decreases pages.len(),
{
    let rest = pages.drop_last();
    let l = pages.len() - 1;
    let before = kept_for(was, next, rest);
    lemma_kept(was, next, rest);
    if i < l {
        assert forall|k: int| 0 <= k < i implies !w.spec_matches(#[trigger] rest[k]) by {
            assert(rest[k] == pages[k]);
        }
        law_what_shows_a_page_is_kept(was, next, rest, i, w);
        assert(kept_for(was, next, pages).0[i] == before.0[i]);
    } else {
        assert forall|k: int| 0 <= k < rest.len() implies !w.spec_matches(#[trigger] rest[k]) by {
            assert(rest[k] == pages[k]);
        }
        lemma_still_there(was, next, rest, w);
        let j = before.1.index_of(w);
        law_first_match(before.1, pages.last(), j);
    }
}

/// Where several pages were shown, a strip keeps what is drawn already: a page that something drawn
/// before shows, and that none of the pages before it is shown by, is one of those drawn before.
pub proof fn law_strips_keep_what_is_drawn<T>(
    r: Renderer<T>,
    was: Vec<Renderable<T>>,
    prev: OffscreenContent,
    next: OffscreenContent,
    current: usize,
    visible: Vec<Displayable>,
    play: bool,
    now: Nanos,
    after: Renderer<T>,
    i: int,
    w: Renderable<T>,
)
    requires
        r.displayed == DisplayedContent::Multiple(was),
        r.updated(
            GuiContent::Strip { prev, current_index: current, visible, next },
            play,
            now,
            after,
        ),
        0 <= i < visible@.len(),
        was@.contains(w),
        w.spec_matches(visible@[i]),
        forall|k: int| 0 <= k < i ==> !w.spec_matches(#[trigger] visible@[k]),
    ensures
        after.next_page is Nothing,
        after.displayed matches DisplayedContent::Multiple(v) && v@.len() == visible@.len()
            && v@[i].shows(visible@[i]) && (was@.contains(v@[i]) || v@[i]
            == r.next_page.renderable()),
{
    law_what_shows_a_page_is_kept(was@, r.next_page, visible@, i, w);
    law_what_is_kept_shows_the_page(was@, r.next_page, visible@, i);
}

/// Where a single page was shown, a strip keeps it where it occurs, and the pages of the strip are
/// all there.
pub proof fn law_strips_keep_the_single_page<T>(
    r: Renderer<T>,
    was: Renderable<T>,
    prev: OffscreenContent,
    next: OffscreenContent,
    current: usize,
    visible: Vec<Displayable>,
    play: bool,
    now: Nanos,
    after: Renderer<T>,
    i: int,
)
    requires
        r.displayed == DisplayedContent::Single(was),
        r.updated(
            GuiContent::Strip { prev, current_index: current, visible, next },
            play,
            now,
            after,
        ),
        0 <= i < visible@.len(),
        was.spec_matches(visible@[i]),
        forall|k: int| 0 <= k < i ==> !was.spec_matches(#[trigger] visible@[k]),
    ensures
        after.next_page is Nothing,
        after.displayed matches DisplayedContent::Multiple(v) && v@.len() == visible@.len() && (i
            == 0 ==> v@[i] == was) && (i > 0 ==> was.emptied(v@[i])),
{
    match after.displayed {
        DisplayedContent::Multiple(v) => {
            assert(first_page(was, visible@, i));
            assert(v@[i] == v@[i]);
        },
        _ => {},
    }
}

/// Where several pages were shown, a single one or a pair that was among them is kept.
pub proof fn law_single_pages_are_kept<T>(
    r: Renderer<T>,
    was: Vec<Renderable<T>>,
    current: Displayable,
    preload: Option<Displayable>,
    play: bool,
    now: Nanos,
    after: Renderer<T>,
    w: Renderable<T>,
)
    requires
        r.displayed == DisplayedContent::Multiple(was),
        r.updated(GuiContent::Single { current, preload }, play, now, after),
        was@.contains(w),
        w.spec_matches(current),
    ensures
        after.displayed matches DisplayedContent::Single(x) && x.shows(current) && (was@.contains(x)
            || x == r.next_page.renderable()),
        after.next_page.is_new(preload, AllocatedTexturesView::Nothing),
{
    let pages = seq![current];
    law_what_shows_a_page_is_kept(was@, r.next_page, pages, 0, w);
    law_what_is_kept_shows_the_page(was@, r.next_page, pages, 0);
}

/// Where several pages were shown, the first of a pair that was among them is kept, and so is the
/// second, unless it is the same as the first.
pub proof fn law_pairs_are_kept<T>(
    r: Renderer<T>,
    was: Vec<Renderable<T>>,
    prev: OffscreenContent,
    next: OffscreenContent,
    a: Displayable,
    b: Displayable,
    play: bool,
    now: Nanos,
    after: Renderer<T>,
    w: Renderable<T>,
)
    requires
        r.displayed == DisplayedContent::Multiple(was),
        r.updated(GuiContent::Dual { prev, visible: OneOrTwo::Two(a, b), next }, play, now, after),
        was@.contains(w),
    ensures
        after.next_page is Nothing,
        after.displayed matches DisplayedContent::Multiple(v) && v@.len() == 2 && (w.spec_matches(a)
            ==> v@[0].shows(a) && (was@.contains(v@[0]) || v@[0] == r.next_page.renderable())) && (
        w.spec_matches(b) && !w.spec_matches(a) ==> v@[1].shows(b) && (was@.contains(v@[1]) || v@[1]
            == r.next_page.renderable())),
{
    let pages = seq![a, b];
    law_what_is_kept_shows_the_page(was@, r.next_page, pages, 0);
    law_what_is_kept_shows_the_page(was@, r.next_page, pages, 1);
    if w.spec_matches(a) {
        law_what_shows_a_page_is_kept(was@, r.next_page, pages, 0, w);
    } else if w.spec_matches(b) {
        assert forall|k: int| 0 <= k < 1 implies !w.spec_matches(#[trigger] pages[k]) by {
            assert(pages[0] == a);
        }
        law_what_shows_a_page_is_kept(was@, r.next_page, pages, 1, w);
    }
}

} // verus!
