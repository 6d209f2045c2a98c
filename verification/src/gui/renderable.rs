//! What is drawn of pages, and how their textures are used again when other pages are shown.
use vstd::prelude::*;

use crate::com::deduped::DedupedVec;
use crate::com::displayable::{Displayable, ImageWithRes};
use crate::com::frames::{AnimatedImage, Nanos};
use crate::com::res::Res;
use crate::gui::player::{PlayChange, Player, LAST_INSTANT, SECOND};
use crate::gui::static_image::{
    AllocatedTextures, AllocatedTexturesView, DrawPlan, Placement, PreloadTask, StaticImage,
};
use crate::text::same_text;

verus! {

/// Whether two images are the same.
pub open spec fn same_image(a: ImageWithRes, b: ImageWithRes) -> bool {
    a.img.same(b.img) && a.file_res == b.file_res && a.original_res == b.original_res
}

fn is_same_image(a: &ImageWithRes, b: &ImageWithRes) -> (r: bool)
    ensures
        r == same_image(*a, *b),
{
    a.img.is_same(&b.img) && a.file_res == b.file_res && a.original_res == b.original_res
}

fn share_image(a: &ImageWithRes) -> (r: ImageWithRes)
    ensures
        r == *a,
{
    ImageWithRes { img: a.img.share(), file_res: a.file_res, original_res: a.original_res }
}

/// An animation with the textures of its frames.
#[derive(Debug)]
pub struct Animation<T> {
    pub animated: AnimatedImage,
    pub textures: DedupedVec<StaticImage<T>>,
    pub preload_textures: AllocatedTextures<T>,
    pub player: Player,
}

impl<T> Animation<T> {
    /// Whether every frame has its textures.
    pub open spec fn wf(self) -> bool {
        &&& self.player.wf(self.animated)
        &&& self.textures.wf()
        &&& self.textures.indices@ == self.animated.frames.frames.indices@
        &&& self.textures.deduped@.len() == self.animated.frames.frames.deduped@.len()
        &&& forall|i: int|
            0 <= i < self.textures.deduped@.len() ==> (#[trigger] self.textures.deduped@[i]).wf()
                && self.textures.deduped@[i].image.img
                == self.animated.frames.frames.deduped@[i].0
    }

    /// The image of a frame.
    pub open spec fn frame_image(a: AnimatedImage, i: int) -> ImageWithRes {
        let img = a.frames.frames.deduped@[i].0;
        ImageWithRes { img, file_res: img.res, original_res: img.res }
    }

    /// Whether it is an animation of which nothing was uploaded, from its first frame on. That
    /// frame has the textures to use again.
    pub open spec fn is_new(
        self,
        a: AnimatedImage,
        at: AllocatedTexturesView<T>,
        play: bool,
        now: Nanos,
    ) -> bool {
        &&& self.animated == a
        &&& self.preload_textures is Nothing
        &&& self.player == Player::started(a, play, now)
        &&& self.textures.indices@ == a.frames.frames.indices@
        &&& self.textures.deduped@.len() == a.frames.frames.deduped@.len()
        &&& forall|i: int|
            #![trigger self.textures.deduped@[i]]
            0 <= i < self.textures.deduped@.len() ==> self.textures.deduped@[i].is_new(
                Self::frame_image(a, i),
                if i == 0 {
                    at
                } else {
                    AllocatedTexturesView::Nothing
                },
            )
    }

    /// An animation, with textures to use again for its first frame.
    pub fn new(a: &AnimatedImage, allocated: AllocatedTextures<T>, play: bool, now: Nanos) -> (r:
        Self)
        requires
            a.wf(),
            now + SECOND <= LAST_INSTANT,
        ensures
            r.wf(),
            r.is_new(*a, allocated@, play, now),
    {
        let frames = &a.frames.frames;
        let mut deduped: Vec<StaticImage<T>> = Vec::new();
        let ghost at = allocated@;
        let mut allocated = allocated;
        let mut i: usize = 0;
        while i < frames.deduped.len()
            invariant
                i <= frames.deduped@.len(),
                frames == &a.frames.frames,
                deduped@.len() == i,
                allocated@ == if i == 0 {
                    at
                } else {
                    AllocatedTexturesView::Nothing
                },
                forall|j: int|
                    #![trigger deduped@[j]]
                    0 <= j < i ==> deduped@[j].wf() && deduped@[j].is_new(
                        Self::frame_image(*a, j),
                        if j == 0 {
                            at
                        } else {
                            AllocatedTexturesView::Nothing
                        },
                    ),
            decreases frames.deduped.len() - i,
        {
            let img = &frames.deduped[i].0;
            let mut textures: AllocatedTextures<T> = AllocatedTextures::Nothing;
            std::mem::swap(&mut textures, &mut allocated);
            deduped.push(
                StaticImage::new(
                    ImageWithRes { img: img.share(), file_res: img.res, original_res: img.res },
                    textures,
                ),
            );
            i += 1;
        }
        let mut indices: Vec<usize> = Vec::new();
        let mut k: usize = 0;
        while k < frames.indices.len()
            invariant
                k <= frames.indices@.len(),
                indices@ == frames.indices@.take(k as int),
            decreases frames.indices.len() - k,
        {
            indices.push(frames.indices[k]);
            k += 1;
            assert(frames.indices@.take(k as int) =~= frames.indices@.take(k - 1).push(
                frames.indices@[k - 1],
            ));
        }
        assert(frames.indices@.take(k as int) =~= frames.indices@);
        Animation {
            animated: a.share(),
            textures: DedupedVec { deduped, indices },
            preload_textures: AllocatedTextures::Nothing,
            player: Player::new(a, play, now),
        }
    }

    /// The place of the textures of a frame.
    pub open spec fn place(self, frame: int) -> int {
        self.textures.indices@[frame] as int
    }

    /// The frame after the one that is shown.
    pub open spec fn next_frame(self) -> int {
        if self.player.index + 1 < self.textures.indices@.len() {
            self.player.index + 1
        } else {
            0
        }
    }

    /// The frame before the one that is shown.
    pub open spec fn previous_frame(self) -> int {
        if self.player.index == 0 {
            self.textures.indices@.len() - 1
        } else {
            self.player.index - 1
        }
    }

    /// Whether the next frame is to be uploaded after the current one was drawn or not.
    pub open spec fn needs_next(self, drew: bool) -> bool {
        drew && self.textures.deduped@[self.place(self.next_frame())].spec_needs_preload()
    }

    /// Whether another animation is this one after a frame was drawn or not. The textures of the
    /// frame before are taken for the next one.
    pub open spec fn drawn(self, drew: bool, after: Animation<T>) -> bool {
        let previous = self.previous_frame();
        let at = self.place(previous);
        let was = self.textures.deduped@;
        let now = after.textures.deduped@;
        &&& after.animated == self.animated
        &&& after.player == self.player
        &&& if self.needs_next(drew) && previous != self.next_frame() && previous
            != self.player.index {
            &&& after.preload_textures@ == was[at].textures()
            &&& after.textures.indices == self.textures.indices
            &&& now.len() == was.len()
            &&& was[at].emptied(now[at])
            &&& forall|i: int| 0 <= i < was.len() && i != at ==> #[trigger] now[i] == was[i]
        } else {
            after.preload_textures == self.preload_textures && after.textures == self.textures
        }
    }

    /// What to load in advance once a frame was drawn: the next one, unless it was uploaded
    /// already. It gets the textures of the previous one.
    pub fn after_draw(&mut self, drew: bool) -> (r: PreloadTask)
        requires
            old(self).wf(),
        ensures
            final(self).wf(),
            old(self).drawn(drew, *final(self)),
            r == if old(self).needs_next(drew) {
                PreloadTask::AnimationFrame(old(self).next_frame() as usize)
            } else {
                PreloadTask::Nothing
            },
    {
        if !drew {
            return PreloadTask::Nothing;
        }
        let n: usize = self.textures.indices.len();
        let index: usize = self.player.index;
        let next: usize = if index + 1 < n {
            index + 1
        } else {
            0
        };
        let at: usize = self.textures.indices[next];
        if !self.textures.deduped[at].needs_preload() {
            return PreloadTask::Nothing;
        }
        let previous: usize = if index == 0 {
            n - 1
        } else {
            index - 1
        };
        if previous != next && previous != index {
            let from: usize = self.textures.indices[previous];
            let taken = self.textures.deduped[from].take_textures();
            self.preload_textures = taken;
        }
        PreloadTask::AnimationFrame(next)
    }

    /// Whether another animation is this one after the textures for the next frame were given to
    /// a frame.
    pub open spec fn attached(self, frame: int, after: Animation<T>) -> bool {
        let at = self.place(frame);
        let was = self.textures.deduped@;
        let now = after.textures.deduped@;
        &&& after.animated == self.animated
        &&& after.player == self.player
        &&& after.preload_textures is Nothing
        &&& after.textures.indices == self.textures.indices
        &&& now.len() == was.len()
        &&& was[at].attached(self.preload_textures, now[at])
        &&& forall|i: int| 0 <= i < was.len() && i != at ==> #[trigger] now[i] == was[i]
    }

    /// Gives a frame the textures that were taken for it.
    pub fn attach_to(&mut self, frame: usize)
        requires
            old(self).wf(),
            frame < old(self).textures.indices@.len(),
        ensures
            final(self).wf(),
            old(self).attached(frame as int, *final(self)),
    {
        let mut taken: AllocatedTextures<T> = AllocatedTextures::Nothing;
        std::mem::swap(&mut taken, &mut self.preload_textures);
        let at: usize = self.textures.indices[frame];
        self.textures.deduped[at].attach_textures(taken);
    }

    /// Whether another animation is this one after it let go of its textures.
    pub open spec fn cleared(self, after: Animation<T>) -> bool {
        let was = self.textures.deduped@;
        let now = after.textures.deduped@;
        &&& after.animated == self.animated
        &&& after.player == self.player
        &&& after.preload_textures is Nothing
        &&& after.textures.indices == self.textures.indices
        &&& now.len() == was.len()
        &&& forall|i: int| #![trigger now[i]] 0 <= i < was.len() ==> was[i].cleared(now[i])
    }

    /// Lets go of all textures.
    pub fn invalidate(&mut self)
        requires
            old(self).wf(),
        ensures
            final(self).wf(),
            old(self).cleared(*final(self)),
    {
        self.preload_textures = AllocatedTextures::Nothing;
        let mut i: usize = 0;
        while i < self.textures.deduped.len()
            invariant
                self.wf(),
                old(self).wf(),
                i <= self.textures.deduped@.len(),
                self.animated == old(self).animated,
                self.player == old(self).player,
                self.preload_textures is Nothing,
                self.textures.indices == old(self).textures.indices,
                self.textures.deduped@.len() == old(self).textures.deduped@.len(),
                forall|j: int|
                    #![trigger self.textures.deduped@[j]]
                    0 <= j < i ==> old(self).textures.deduped@[j].cleared(
                        self.textures.deduped@[j],
                    ),
                forall|j: int|
                    i <= j < self.textures.deduped@.len() ==> #[trigger] self.textures.deduped@[j]
                        == old(self).textures.deduped@[j],
            decreases self.textures.deduped.len() - i,
        {
            self.textures.deduped[i].invalidate();
            i += 1;
        }
    }
}

/// What is drawn of a page.
#[derive(Debug)]
pub enum Renderable<T> {
    Nothing,
    Pending(Res),
    Image(StaticImage<T>),
    Animation(Animation<T>),
    /// The path of a video.
    Video(String),
    Error(String),
}

impl<T> Renderable<T> {
    pub open spec fn wf(self) -> bool {
        match self {
            Renderable::Image(i) => i.wf(),
            Renderable::Animation(a) => a.wf(),
            _ => true,
        }
    }

    /// Whether it is drawn for a page.
    pub open spec fn shows(self, d: Displayable) -> bool {
        match (self, d) {
            (Renderable::Image(i), Displayable::Image(j)) => same_image(i.image, j),
            (Renderable::Animation(a), Displayable::Animation(b)) => a.animated.same(b),
            (Renderable::Video(a), Displayable::Video(b)) => a@ == b@,
            (Renderable::Error(a), Displayable::Error(b)) => a@ == b@,
            (Renderable::Pending(r), Displayable::Loading { file_res, .. }) => r == file_res,
            (Renderable::Nothing, Displayable::Pending) => true,
            _ => false,
        }
    }

    /// Whether it can be kept for a page. A video never is.
    pub open spec fn spec_matches(self, d: Displayable) -> bool {
        self.shows(d) && !(self is Video)
    }

    /// Whether it is drawn for a page for the first time, with textures to use again.
    pub open spec fn is_new(
        self,
        d: Displayable,
        at: AllocatedTexturesView<T>,
        play: bool,
        now: Nanos,
    ) -> bool {
        match d {
            Displayable::Image(i) => self matches Renderable::Image(s) && s.is_new(i, at),
            Displayable::Animation(a) => self matches Renderable::Animation(x) && x.is_new(
                a,
                at,
                play,
                now,
            ),
            Displayable::Video(v) => self matches Renderable::Video(x) && x@ == v@,
            Displayable::Error(e) => self matches Renderable::Error(x) && x@ == e@,
            Displayable::Pending => self is Nothing,
            Displayable::Loading { file_res, .. } => self == Renderable::<T>::Pending(file_res),
        }
    }

    /// What is drawn of a page, with textures to use again.
    pub fn new(d: &Displayable, at: AllocatedTextures<T>, play: bool, now: Nanos) -> (r: Self)
        requires
            d.wf(),
            now + SECOND <= LAST_INSTANT,
        ensures
            r.wf(),
            r.is_new(*d, at@, play, now),
            r.shows(*d),
    {
        match d {
            Displayable::Image(i) => Renderable::Image(StaticImage::new(share_image(i), at)),
            Displayable::Animation(a) => Renderable::Animation(Animation::new(a, at, play, now)),
            Displayable::Video(v) => Renderable::Video(v.clone()),
            Displayable::Error(e) => Renderable::Error(e.clone()),
            Displayable::Pending => Renderable::Nothing,
            Displayable::Loading { file_res, .. } => Renderable::Pending(*file_res),
        }
    }

    /// Whether it can be kept for a page.
    pub fn matches(&self, d: &Displayable) -> (r: bool)
        ensures
            r == self.spec_matches(*d),
    {
        match (self, d) {
            (Renderable::Image(i), Displayable::Image(j)) => is_same_image(&i.image, j),
            (Renderable::Animation(a), Displayable::Animation(b)) => a.animated.serial == b.serial,
            (Renderable::Video(_), _) => false,
            (Renderable::Error(a), Displayable::Error(b)) => same_text(a.as_str(), b.as_str()),
            (Renderable::Pending(r), Displayable::Loading { file_res, .. }) => *r == *file_res,
            (Renderable::Nothing, Displayable::Pending) => true,
            _ => false,
        }
    }

    /// What is drawn after it was played or paused. Only animations change.
    pub open spec fn played(self, play: bool, now: Nanos) -> Renderable<T> {
        match self {
            Renderable::Animation(a) => Renderable::Animation(
                Animation { player: a.player.played(a.animated, play, now), ..a },
            ),
            other => other,
        }
    }

    /// What playing or pausing it comes to.
    pub open spec fn play_change(self, play: bool, now: Nanos) -> PlayChange {
        match self {
            Renderable::Animation(a) => a.player.play_change(a.animated, play, now),
            _ => PlayChange::Nothing,
        }
    }

    /// Plays or pauses what moves.
    pub fn set_playing(&mut self, play: bool, now: Nanos) -> (r: PlayChange)
        requires
            old(self).wf(),
            now + SECOND <= LAST_INSTANT,
        ensures
            final(self).wf(),
            *final(self) == old(self).played(play, now),
            r == old(self).play_change(play, now),
    {
        match self {
            Renderable::Animation(a) => a.player.set_playing(&a.animated, play, now),
            _ => PlayChange::Nothing,
        }
    }

    /// Whether something is this after it let go of its textures.
    pub open spec fn cleared(self, after: Renderable<T>) -> bool {
        match self {
            Renderable::Image(i) => after matches Renderable::Image(j) && i.cleared(j),
            Renderable::Animation(a) => after matches Renderable::Animation(b) && a.cleared(b),
            other => after == other,
        }
    }

    /// Lets go of all textures.
    pub fn invalidate(&mut self)
        requires
            old(self).wf(),
        ensures
            final(self).wf(),
            old(self).cleared(*final(self)),
    {
        match self {
            Renderable::Image(i) => i.invalidate(),
            Renderable::Animation(a) => a.invalidate(),
            _ => {},
        }
    }

    /// The textures that can be used for something else.
    pub open spec fn textures(self) -> AllocatedTexturesView<T> {
        match self {
            Renderable::Image(i) => i.textures(),
            Renderable::Animation(a) => a.preload_textures@,
            _ => AllocatedTexturesView::Nothing,
        }
    }

    /// Whether something is this after its textures were taken.
    pub open spec fn emptied(self, after: Renderable<T>) -> bool {
        match self {
            Renderable::Image(i) => after matches Renderable::Image(j) && i.emptied(j),
            Renderable::Animation(a) => after == Renderable::Animation(
                Animation { preload_textures: AllocatedTextures::Nothing, ..a },
            ),
            other => after == other,
        }
    }

    /// Takes textures for something else.
    pub fn take_textures(&mut self) -> (r: AllocatedTextures<T>)
        requires
            old(self).wf(),
        ensures
            final(self).wf(),
            r@ == old(self).textures(),
            old(self).emptied(*final(self)),
    {
        match self {
            Renderable::Image(i) => i.take_textures(),
            Renderable::Animation(a) => {
                let mut taken: AllocatedTextures<T> = AllocatedTextures::Nothing;
                std::mem::swap(&mut taken, &mut a.preload_textures);
                taken
            },
            _ => AllocatedTextures::Nothing,
        }
    }
}

impl<T> Renderable<T> {
    /// The image with the textures that are drawn now, if there are any.
    pub open spec fn drawn_image(self) -> Option<StaticImage<T>> {
        match self {
            Renderable::Image(i) => Some(i),
            Renderable::Animation(a) => Some(
                a.textures.deduped@[a.place(a.player.index as int)],
            ),
            _ => None,
        }
    }

    /// Whether a plan is how to draw it, and something is this then.
    pub open spec fn drawn(self, at: Placement, plan: DrawPlan<T>, after: Renderable<T>) -> bool {
        match self {
            Renderable::Image(i) => {
                &&& after matches Renderable::Image(j)
                &&& j.image == i.image
                &&& i.drawn(at, plan, j.texture)
            },
            Renderable::Animation(a) => {
                let k = a.place(a.player.index as int);
                let was = a.textures.deduped@;
                &&& after matches Renderable::Animation(b)
                &&& b == (Animation { textures: b.textures, ..a })
                &&& b.textures.indices == a.textures.indices
                &&& b.textures.deduped@.len() == was.len()
                &&& b.textures.deduped@[k].image == was[k].image
                &&& was[k].drawn(at, plan, b.textures.deduped@[k].texture)
                &&& forall|i: int|
                    0 <= i < was.len() && i != k ==> #[trigger] b.textures.deduped@[i] == was[i]
            },
            other => plan matches DrawPlan::Skip(PreloadTask::Nothing) && after == other,
        }
    }

    /// Finds out how to draw it.
    pub fn draw(&mut self, at: &Placement) -> (plan: DrawPlan<T>)
        requires
            old(self).wf(),
            old(self).drawn_image() matches Some(i) ==> i.placed(*at),
        ensures
            final(self).wf(),
            old(self).drawn(*at, plan, *final(self)),
    {
        match self {
            Renderable::Image(i) => i.draw(at),
            Renderable::Animation(a) => {
                let frame: usize = a.textures.indices[a.player.index];
                a.textures.deduped[frame].draw(at)
            },
            _ => DrawPlan::Skip(PreloadTask::Nothing),
        }
    }

    /// What to load in advance once a plan was followed.
    pub fn finish_draw(&mut self, plan: DrawPlan<T>) -> (task: PreloadTask)
        requires
            old(self).wf(),
        ensures
            final(self).wf(),
            match *old(self) {
                Renderable::Image(_) => *final(self) == *old(self) && match plan {
                    DrawPlan::Skip(t) => task == t,
                    DrawPlan::Whole(_) => task is Nothing,
                    DrawPlan::Tiles(_, p) => if p@.len() > 0 {
                        task == PreloadTask::Tiles(p)
                    } else {
                        task is Nothing
                    },
                },
                Renderable::Animation(a) => {
                    &&& *final(self) matches Renderable::Animation(b)
                    &&& a.drawn(!(plan is Skip), b)
                    &&& task == if a.needs_next(!(plan is Skip)) {
                        PreloadTask::AnimationFrame(a.next_frame() as usize)
                    } else {
                        PreloadTask::Nothing
                    }
                },
                _ => *final(self) == *old(self) && task is Nothing,
            },
    {
        let drew: bool = match &plan {
            DrawPlan::Skip(_) => false,
            _ => true,
        };
        match self {
            Renderable::Image(_) => match plan {
                DrawPlan::Skip(t) => t,
                DrawPlan::Whole(_) => PreloadTask::Nothing,
                DrawPlan::Tiles(_, p) => if p.len() > 0 {
                    PreloadTask::Tiles(p)
                } else {
                    PreloadTask::Nothing
                },
            },
            Renderable::Animation(a) => a.after_draw(drew),
            _ => PreloadTask::Nothing,
        }
    }
}

/// The next page, if it is a still image that is uploaded in advance.
#[derive(Debug)]
pub enum Preloadable<T> {
    Nothing,
    Pending(StaticImage<T>),
    Loaded(StaticImage<T>),
}

impl<T> Preloadable<T> {
    pub open spec fn wf(self) -> bool {
        match self {
            Preloadable::Nothing => true,
            Preloadable::Pending(i) => i.wf(),
            Preloadable::Loaded(i) => i.wf(),
        }
    }

    /// What is drawn of it.
    pub open spec fn renderable(self) -> Renderable<T> {
        match self {
            Preloadable::Nothing => Renderable::Nothing,
            Preloadable::Pending(i) => Renderable::Image(i),
            Preloadable::Loaded(i) => Renderable::Image(i),
        }
    }

    /// Whether it is the image of a page.
    pub open spec fn spec_matches(self, d: Displayable) -> bool {
        self.renderable() is Image && self.renderable().shows(d)
    }

    /// Whether it is what is uploaded in advance for a next page.
    pub open spec fn shows(self, next: Option<Displayable>) -> bool {
        match next {
            Some(Displayable::Image(i)) => self.spec_matches(Displayable::Image(i)),
            _ => self is Nothing,
        }
    }

    /// Something that was drawn, as the next page.
    pub open spec fn spec_from(r: Renderable<T>) -> Preloadable<T> {
        match r {
            Renderable::Image(i) => if i.spec_needs_preload() {
                Preloadable::Pending(i)
            } else {
                Preloadable::Loaded(i)
            },
            _ => Preloadable::Nothing,
        }
    }

    /// Something that was drawn, as the next page.
    pub fn from_renderable(r: Renderable<T>) -> (p: Self)
        requires
            r.wf(),
        ensures
            p == Self::spec_from(r),
            p.wf(),
    {
        match r {
            Renderable::Image(i) => if i.needs_preload() {
                Preloadable::Pending(i)
            } else {
                Preloadable::Loaded(i)
            },
            _ => Preloadable::Nothing,
        }
    }

    /// Whether it is the next page, of which nothing was uploaded, with textures to use again.
    pub open spec fn is_new(
        self,
        next: Option<Displayable>,
        at: AllocatedTexturesView<T>,
    ) -> bool {
        match next {
            Some(Displayable::Image(i)) => self matches Preloadable::Pending(s) && s.is_new(i, at),
            _ => self is Nothing,
        }
    }

    /// The next page, with textures to use again.
    pub fn new(next: &Option<Displayable>, at: AllocatedTextures<T>) -> (p: Self)
        ensures
            p.wf(),
            p.is_new(*next, at@),
            p.shows(*next),
    {
        match next {
            Some(Displayable::Image(i)) => Preloadable::Pending(
                StaticImage::new(share_image(i), at),
            ),
            _ => Preloadable::Nothing,
        }
    }

    /// Takes it to be drawn.
    pub fn take_renderable(&mut self) -> (r: Renderable<T>)
        requires
            old(self).wf(),
        ensures
            r == old(self).renderable(),
            r.wf(),
            *final(self) is Nothing,
    {
        let mut old: Preloadable<T> = Preloadable::Nothing;
        std::mem::swap(self, &mut old);
        match old {
            Preloadable::Nothing => Renderable::Nothing,
            Preloadable::Pending(i) => Renderable::Image(i),
            Preloadable::Loaded(i) => Renderable::Image(i),
        }
    }

    /// Lets go of its textures.
    pub fn drop_textures(&mut self)
        requires
            old(self).wf(),
        ensures
            final(self).wf(),
            match *old(self) {
                Preloadable::Nothing => *final(self) is Nothing,
                Preloadable::Pending(i) | Preloadable::Loaded(i) => *final(self)
                    matches Preloadable::Pending(j) && i.cleared(j),
            },
    {
        let mut r = self.take_renderable();
        r.invalidate();
        if let Renderable::Image(i) = r {
            *self = Preloadable::Pending(i);
        }
    }

    /// Whether it is still to be uploaded.
    pub fn needs_preload(&self) -> (r: bool)
        ensures
            r == (self is Pending),
    {
        match self {
            Preloadable::Nothing | Preloadable::Loaded(_) => false,
            Preloadable::Pending(_) => true,
        }
    }

    /// It was uploaded, as far as that is done in advance.
    pub fn preload(&mut self)
        ensures
            *final(self) == (match *old(self) {
                Preloadable::Pending(i) => Preloadable::Loaded(i),
                other => other,
            }),
    {
        let mut now: Preloadable<T> = Preloadable::Nothing;
        std::mem::swap(self, &mut now);
        *self = match now {
            Preloadable::Pending(i) => Preloadable::Loaded(i),
            Preloadable::Loaded(i) => Preloadable::Loaded(i),
            Preloadable::Nothing => Preloadable::Nothing,
        };
    }

    /// Whether it is the image of a page.
    pub fn matches(&self, d: &Displayable) -> (r: bool)
        ensures
            r == self.spec_matches(*d),
    {
        match (self, d) {
            (Preloadable::Pending(i), Displayable::Image(j)) => is_same_image(&i.image, j),
            (Preloadable::Loaded(i), Displayable::Image(j)) => is_same_image(&i.image, j),
            _ => false,
        }
    }
}

/// The frames of an animation follow one another round and round: the one before the next is the
/// one that is shown.
pub proof fn law_frames_go_round<T>(a: Animation<T>)
    requires
        a.wf(),
    ensures
        ({
            let n = a.textures.indices@.len() as int;
            &&& a.next_frame() == (a.player.index + 1) % n
            &&& a.previous_frame() == (a.player.index + n - 1) % n
            &&& a.previous_frame() == a.next_frame() <==> n <= 2
        }),
{
    let n = a.textures.indices@.len() as int;
    let i = a.player.index as int;
    assert(a.animated.frames.frames.items().len() == n);
    if i + 1 < n {
        vstd::arithmetic::div_mod::lemma_small_mod((i + 1) as nat, n as nat);
    } else {
        vstd::arithmetic::div_mod::lemma_mod_self_0(n);
    }
    if i == 0 {
        vstd::arithmetic::div_mod::lemma_small_mod((n - 1) as nat, n as nat);
    } else {
        vstd::arithmetic::div_mod::lemma_mod_add_multiples_vanish(i - 1, n);
        vstd::arithmetic::div_mod::lemma_small_mod((i - 1) as nat, n as nat);
        assert(i + n - 1 == n + (i - 1));
    }
}

/// The next frame is loaded in advance once a frame was drawn, unless it was before. It gets the
/// textures of the frame before the one that is shown, and no others change.
pub proof fn law_next_frame_is_loaded<T>(a: Animation<T>, drew: bool, after: Animation<T>, i: int)
    requires
        a.wf(),
        a.drawn(drew, after),
        0 <= i < a.textures.deduped@.len(),
    ensures
        after.animated == a.animated,
        after.player == a.player,
        !drew ==> !a.needs_next(drew) && after.textures == a.textures,
        drew ==> a.needs_next(drew) == a.textures.deduped@[a.textures.indices@[a.next_frame()] as int].spec_needs_preload(),
        i != a.textures.indices@[a.previous_frame()] ==> after.textures.deduped@[i]
            == a.textures.deduped@[i],
{
}

/// What is drawn for the first time of a page is of the kind that the page is.
pub proof fn law_kinds_of_pages<T>(
    r: Renderable<T>,
    d: Displayable,
    at: AllocatedTexturesView<T>,
    play: bool,
    now: Nanos,
)
    requires
        r.is_new(d, at, play, now),
    ensures
        r is Image <==> d is Image,
        r is Animation <==> d is Animation,
        r is Video <==> d is Video,
        r is Error <==> d is Error,
        r is Nothing <==> d is Pending,
        r is Pending <==> d is Loading,
        match (r, d) {
            (Renderable::Image(x), Displayable::Image(y)) => x.image == y,
            (Renderable::Animation(x), Displayable::Animation(y)) => x.animated == y
                && x.player.index == 0,
            (Renderable::Video(x), Displayable::Video(y)) => x@ == y@,
            (Renderable::Error(x), Displayable::Error(y)) => x@ == y@,
            (Renderable::Pending(x), Displayable::Loading { file_res, .. }) => x == file_res,
            _ => true,
        },
{
}

/// What is drawn is kept for a page that shows the same, but a video never is.
pub proof fn law_what_can_be_kept<T>(r: Renderable<T>, d: Displayable, e: Displayable)
    ensures
        r is Video ==> !r.spec_matches(d),
        r.spec_matches(d) && d.same(e) && !(d is Image) ==> r.spec_matches(e),
        match (r, d) {
            (Renderable::Image(x), Displayable::Image(y)) => r.spec_matches(d) == (x.image.img.same(
                y.img,
            ) && x.image.file_res == y.file_res && x.image.original_res == y.original_res),
            (Renderable::Animation(x), Displayable::Animation(y)) => r.spec_matches(d) == (
            x.animated.serial == y.serial),
            (Renderable::Error(x), Displayable::Error(y)) => r.spec_matches(d) == (x@ == y@),
            (
                Renderable::Pending(x),
                Displayable::Loading { file_res, .. },
            ) => r.spec_matches(d) == (x == file_res),
            (Renderable::Nothing, Displayable::Pending) => r.spec_matches(d),
            _ => !r.spec_matches(d),
        },
{
}

/// Only still images are uploaded in advance, and they are until they have been.
pub proof fn law_pages_uploaded_in_advance<T>(
    p: Preloadable<T>,
    next: Option<Displayable>,
    at: AllocatedTexturesView<T>,
    r: Renderable<T>,
)
    ensures
        p.is_new(next, at) ==> (p is Pending <==> (next matches Some(d) && d is Image)) && (p
            is Nothing <==> !(p is Pending)),
        !(r is Image) ==> Preloadable::spec_from(r) is Nothing,
        r is Image ==> Preloadable::spec_from(r).renderable() == r,
        r matches Renderable::Image(i) ==> (Preloadable::spec_from(r) is Pending
            <==> i.spec_needs_preload()),
        p is Nothing ==> p.renderable() is Nothing,
        p matches Preloadable::Pending(i) ==> p.renderable() == Renderable::Image(i),
        p matches Preloadable::Loaded(i) ==> p.renderable() == Renderable::Image(i),
{
}

/// Playing and pausing change nothing but the player of an animation, and textures can be taken
/// of what has them.
pub proof fn law_only_animations_play<T>(r: Renderable<T>, play: bool, now: Nanos)
    ensures
        !(r is Animation) ==> r.played(play, now) == r && r.play_change(play, now) is Nothing,
        r matches Renderable::Animation(a) ==> (r.played(play, now) matches Renderable::Animation(b)
            && b.player == a.player.played(a.animated, play, now) && b.animated == a.animated
            && b.textures == a.textures && b.preload_textures == a.preload_textures),
        r matches Renderable::Image(i) ==> r.textures() == i.textures(),
        r matches Renderable::Animation(a) ==> r.textures() == a.preload_textures@,
        !(r is Image) && !(r is Animation) ==> r.textures() is Nothing,
{
}

/// What let go of its textures is drawn for the same pages, and has none to give away.
pub proof fn law_cleared_pages<T>(before: Renderable<T>, after: Renderable<T>, d: Displayable)
    requires
        before.cleared(after),
    ensures
        after.spec_matches(d) == before.spec_matches(d),
        after.textures() is Nothing,
        match (before, after) {
            (Renderable::Animation(a), Renderable::Animation(b)) => b.player == a.player
                && b.animated == a.animated,
            (Renderable::Image(i), Renderable::Image(j)) => j.image == i.image && j.textures()
                is Nothing,
            _ => after == before,
        },
{
}

/// Textures are attached to the frame that they are meant for and to no other.
pub proof fn law_textures_of_frames<T>(a: Animation<T>, frame: int, after: Animation<T>, i: int)
    requires
        a.attached(frame, after),
        0 <= i < a.textures.deduped@.len(),
        i != a.textures.indices@[frame],
    ensures
        after.textures.deduped@[i] == a.textures.deduped@[i],
        after.preload_textures is Nothing,
        after.player == a.player,
        after.animated == a.animated,
{
}

} // verus!
