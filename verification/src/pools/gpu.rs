//! Whether a page is scaled down on the graphics card.
use vstd::prelude::*;

use crate::com::res::Res;
use crate::manager::work::WorkParams;
use crate::pools::scanning::TaskEnd;
use crate::text::{chars_of, same_chars};

verus! {

/// How many megabytes some bytes fill.
pub open spec fn megabytes(bytes: int) -> int {
    bytes / 1_048_576
}

/// How many megabytes of memory of the graphics card it takes to scale an image down: for the
/// image, for an image in between with a float for each channel, and for the result.
pub open spec fn vram_mb(start: Res, target: Res) -> int {
    megabytes(start.w * start.h * 4) + megabytes(start.w * target.h * 4 * 4) + megabytes(
        target.w * target.h * 4,
    )
}

/// Whether the bytes that it takes to scale an image down can be counted.
pub open spec fn countable(start: Res, target: Res) -> bool {
    &&& start.w * start.h * 4 <= usize::MAX
    &&& start.w * target.h * 4 * 4 <= usize::MAX
    &&& target.w * target.h * 4 <= usize::MAX
}

/// How many megabytes of memory of the graphics card it takes to scale an image down.
pub fn estimate_vram_mb(start: Res, target: Res) -> (r: usize)
    requires
        countable(start, target),
    ensures
        r == vram_mb(start, target),
{
    let (sw, sh) = (start.w as u128, start.h as u128);
    let (tw, th) = (target.w as u128, target.h as u128);
    assert(sw * sh <= 0xffff_ffffu128 * 0xffff_ffff && sw * th <= 0xffff_ffffu128 * 0xffff_ffff
        && tw * th <= 0xffff_ffffu128 * 0xffff_ffff) by (nonlinear_arith)
        requires
            sw <= 0xffff_ffff,
            sh <= 0xffff_ffff,
            tw <= 0xffff_ffff,
            th <= 0xffff_ffff,
    ;
    let sum: u128 = sw * sh * 4 / 1_048_576 + sw * th * 16 / 1_048_576 + tw * th * 4 / 1_048_576;
    assert(start.w * target.h * 4 * 4 == sw * th * 16);
    sum as usize
}

/// How many megabytes of memory of the graphics card may be used.
pub fn vram_limit_mb(gigabytes: Option<u16>) -> (r: u32)
    ensures
        r == match gigabytes {
            Some(g) => g * 1024,
            None => 0,
        },
{
    match gigabytes {
        Some(g) => g as u32 * 1024,
        None => 0,
    }
}

/// What an image is scaled down with.
#[derive(Clone, Copy, Debug, PartialEq, Eq, Structural)]
pub enum Device {
    /// The processor, as the graphics card is not to be used.
    Processor,
    /// The processor, as the image takes more memory than may be used.
    TooLarge,
    /// The graphics card, but only if it is ready.
    CardIfReady,
    /// The graphics card, once it is ready.
    CardWhenReady,
}

/// What an image is scaled down with. The current one does not wait for the graphics card.
pub fn choose_device(limit_mb: u32, estimate_mb: usize, jump_queue: bool) -> (r: Device)
    ensures
        r == if limit_mb == 0 {
            Device::Processor
        } else if estimate_mb > limit_mb {
            Device::TooLarge
        } else if jump_queue {
            Device::CardIfReady
        } else {
            Device::CardWhenReady
        },
{
    if limit_mb == 0 {
        Device::Processor
    } else if estimate_mb as u64 > limit_mb as u64 {
        Device::TooLarge
    } else if jump_queue {
        Device::CardIfReady
    } else {
        Device::CardWhenReady
    }
}

/// How far the graphics card is.
#[derive(Clone, Copy, Debug, PartialEq, Eq, Structural)]
pub enum OpenCLQueue {
    Uninitialized,
    Initializing,
    Ready,
    Failed,
}

impl Default for OpenCLQueue {
    fn default() -> (r: Self)
        ensures
            r == OpenCLQueue::Uninitialized,
    {
        OpenCLQueue::Uninitialized
    }
}

/// How making the graphics card ready goes.
#[derive(Clone, Copy, Debug, PartialEq, Eq, Structural)]
pub enum Progress {
    Pending,
    Ready,
    Failed,
}

impl OpenCLQueue {
    /// Says whether to start making the card ready, which happens unless it was started before.
    pub fn init(&mut self) -> (r: bool)
        ensures
            r == (*old(self) == OpenCLQueue::Uninitialized),
            *final(self) == (if r {
                OpenCLQueue::Initializing
            } else {
                *old(self)
            }),
    {
        if *self == OpenCLQueue::Uninitialized {
            *self = OpenCLQueue::Initializing;
            true
        } else {
            false
        }
    }

    /// Lets go of the card. One that cannot be used is not tried again.
    pub fn unload(&mut self)
        ensures
            *final(self) == (match *old(self) {
                OpenCLQueue::Failed => OpenCLQueue::Failed,
                _ => OpenCLQueue::Uninitialized,
            }),
    {
        match *self {
            OpenCLQueue::Initializing | OpenCLQueue::Ready => *self = OpenCLQueue::Uninitialized,
            OpenCLQueue::Failed | OpenCLQueue::Uninitialized => {},
        }
    }

    /// Whether the card can be used now, by how making it ready goes. Does not start that.
    pub fn get_if_init(&mut self, progress: Progress) -> (r: bool)
        ensures
            *final(self) == (if *old(self) == OpenCLQueue::Initializing {
                match progress {
                    Progress::Pending => OpenCLQueue::Initializing,
                    Progress::Ready => OpenCLQueue::Ready,
                    Progress::Failed => OpenCLQueue::Failed,
                }
            } else {
                *old(self)
            }),
            r == (*final(self) == OpenCLQueue::Ready),
    {
        match *self {
            OpenCLQueue::Uninitialized | OpenCLQueue::Failed => false,
            OpenCLQueue::Initializing => match progress {
                Progress::Ready => {
                    *self = OpenCLQueue::Ready;
                    true
                },
                Progress::Failed => {
                    *self = OpenCLQueue::Failed;
                    false
                },
                Progress::Pending => false,
            },
            OpenCLQueue::Ready => true,
        }
    }

    /// Whether the card can be used after waiting for it, by whether making it ready succeeds. To
    /// start with, that is to be begun with `init`.
    pub fn await_queue(&mut self, success: bool) -> (r: bool)
        requires
            *old(self) != OpenCLQueue::Uninitialized,
        ensures
            *final(self) == (if *old(self) == OpenCLQueue::Initializing {
                if success {
                    OpenCLQueue::Ready
                } else {
                    OpenCLQueue::Failed
                }
            } else {
                *old(self)
            }),
            r == (*final(self) == OpenCLQueue::Ready),
    {
        self.get_if_init(
            if success {
                Progress::Ready
            } else {
                Progress::Failed
            },
        )
    }
}

/// Whether a text begins with another one.
pub open spec fn begins_with(s: Seq<char>, prefix: Seq<char>) -> bool {
    prefix.len() <= s.len() && s.take(prefix.len() as int) == prefix
}

fn has_prefix(s: &str, prefix: &[char]) -> (r: bool)
    ensures
        r == begins_with(s@, prefix@),
{
    let v = chars_of(s);
    if prefix.len() > v.len() {
        return false;
    }
    let start = vstd::slice::slice_subrange(v.as_slice(), 0, prefix.len());
    assert(start@ =~= s@.take(prefix@.len() as int));
    same_chars(start, prefix)
}

/// The names of the graphics cards of some platforms.
pub open spec fn name_at(platforms: Seq<Vec<String>>, p: int, d: int) -> Seq<char> {
    platforms[p]@[d]@
}

/// Whether there is a card of some number on a platform of some number.
pub open spec fn is_card(platforms: Seq<Vec<String>>, p: int, d: int) -> bool {
    0 <= p < platforms.len() && 0 <= d < platforms[p]@.len()
}

/// Whether one card comes before another.
pub open spec fn comes_before(p: int, d: int, q: int, e: int) -> bool {
    p < q || (p == q && d < e)
}

/// The first graphics card with a name that begins with a given text, by its platform and its
/// number there. A card without a name counts as one with an empty name.
pub fn find_best_opencl_device(platforms: &Vec<Vec<String>>, gpu_prefix: &str) -> (r: Option<
    (usize, usize),
>)
    ensures
        match r {
            Some((p, d)) => {
                &&& is_card(platforms@, p as int, d as int)
                &&& begins_with(name_at(platforms@, p as int, d as int), gpu_prefix@)
                &&& forall|q: int, e: int| #[trigger]
                    is_card(platforms@, q, e) && comes_before(q, e, p as int, d as int)
                        ==> !begins_with(name_at(platforms@, q, e), gpu_prefix@)
            },
            None => forall|q: int, e: int| #[trigger]
                is_card(platforms@, q, e) ==> !begins_with(
                    name_at(platforms@, q, e),
                    gpu_prefix@,
                ),
        },
{
    let prefix = chars_of(gpu_prefix);
    let mut p: usize = 0;
    while p < platforms.len()
        invariant
            p <= platforms@.len(),
            prefix@ == gpu_prefix@,
            forall|q: int, e: int| #[trigger]
                is_card(platforms@, q, e) && q < p ==> !begins_with(
                    name_at(platforms@, q, e),
                    gpu_prefix@,
                ),
        decreases platforms.len() - p,
    {
        let names = &platforms[p];
        let mut d: usize = 0;
        while d < names.len()
            invariant
                p < platforms@.len(),
                *names == platforms@[p as int],
                d <= names@.len(),
                prefix@ == gpu_prefix@,
                forall|q: int, e: int| #[trigger]
                    is_card(platforms@, q, e) && comes_before(q, e, p as int, d as int)
                        ==> !begins_with(name_at(platforms@, q, e), gpu_prefix@),
            decreases names.len() - d,
        {
            if has_prefix(names[d].as_str(), prefix.as_slice()) {
                assert(is_card(platforms@, p as int, d as int));
                return Some((p, d));
            }
            assert(!begins_with(name_at(platforms@, p as int, d as int), gpu_prefix@));
            d += 1;
        }
        p += 1;
    }
    None
}

/// What is said where no graphics card has a name that begins with a given text, unless any would
/// have done.
pub fn no_device_message(gpu_prefix: &str) -> (r: Option<String>)
    ensures
        gpu_prefix@.len() == 0 ==> r is None,
        gpu_prefix@.len() > 0 ==> (r matches Some(s) && s@
            == "Could not find matching GPU for prefix \""@ + gpu_prefix@
            + "\", try --show-gpus"@),
{
    if chars_of(gpu_prefix).len() == 0 {
        return None;
    }
    let mut s = "Could not find matching GPU for prefix \"".to_owned();
    s.append(gpu_prefix);
    s.append("\", try --show-gpus");
    Some(s)
}

/// How a page is scaled down.
#[derive(Clone, Copy, Debug, PartialEq, Eq, Structural)]
pub enum DownscaleStart {
    /// Not now: the current page goes first.
    Park,
    /// To a resolution, after waiting for a turn or not.
    To { res: Res, waits: bool },
}

/// How a page is scaled down. The current one does not wait for its turn.
pub fn start_downscale(params: &WorkParams, res: Res, jump_queue: bool) -> (r: DownscaleStart)
    ensures
        r == if params.park_before_scale {
            DownscaleStart::Park
        } else {
            DownscaleStart::To { res: res.fitted(params.target_res), waits: !jump_queue }
        },
{
    if params.park_before_scale {
        DownscaleStart::Park
    } else {
        DownscaleStart::To { res: res.fit_inside(params.target_res), waits: !jump_queue }
    }
}

/// What to do next to scale an image down.
#[derive(Clone, Copy, Debug, PartialEq, Eq, Structural)]
pub enum ScaleStep {
    Stop,
    UseCard,
    UseProcessor,
    Finish,
}

/// What to do next to scale an image down, by whether it was cancelled before anything was done,
/// whether there is a graphics card for it, and whether that succeeded if it was tried. Where it
/// did not, the processor does it.
pub fn scale_step(cancelled: bool, card: bool, card_succeeded: Option<bool>) -> (r: ScaleStep)
    ensures
        r == match card_succeeded {
            None => if cancelled {
                ScaleStep::Stop
            } else if card {
                ScaleStep::UseCard
            } else {
                ScaleStep::UseProcessor
            },
            Some(true) => ScaleStep::Finish,
            Some(false) => ScaleStep::UseProcessor,
        },
{
    match card_succeeded {
        None => if cancelled {
            ScaleStep::Stop
        } else if card {
            ScaleStep::UseCard
        } else {
            ScaleStep::UseProcessor
        },
        Some(true) => ScaleStep::Finish,
        Some(false) => ScaleStep::UseProcessor,
    }
}

/// What is said of scaling down that failed.
pub fn downscaling_result<T>(end: TaskEnd<T>) -> (r: Result<T, String>)
    ensures
        match end {
            TaskEnd::Done(t) => r == Ok::<T, String>(t),
            TaskEnd::Cancelled => r matches Err(e) && e@ == "Cancelled"@,
            TaskEnd::Failed(x) => r matches Err(e) && e@ == "Error downscaling file "@ + x@,
            TaskEnd::Lost(x) => r == Err::<T, String>(x),
        },
{
    match end {
        TaskEnd::Done(t) => Ok(t),
        TaskEnd::Cancelled => Err("Cancelled".to_owned()),
        TaskEnd::Failed(x) => {
            let mut e = "Error downscaling file ".to_owned();
            e.append(x.as_str());
            Err(e)
        },
        TaskEnd::Lost(x) => Err(x),
    }
}

/// The estimate is that of all bytes: four for each pixel of the image and of the result, and sixteen for
/// each of the image in between, which is as wide as the one and as high as the other. At most three
/// megabytes are left out by rounding.
pub proof fn law_memory_for_scaling(start: Res, target: Res)
    ensures
        ({
            let bytes = 4 * (start.w * start.h) + 16 * (start.w * target.h) + 4 * (target.w
                * target.h);
            vram_mb(start, target) * 1_048_576 <= bytes < (vram_mb(start, target) + 3) * 1_048_576
        }),
{
    let a = start.w * start.h;
    let b = start.w * target.h;
    let c = target.w * target.h;
    assert(start.w * target.h * 4 * 4 == 16 * b);
}

/// A card is found by any beginning of its name, and every one by an empty one.
pub proof fn law_beginnings_of_names(prefix: Seq<char>, rest: Seq<char>, other: Seq<char>)
    ensures
        begins_with(prefix + rest, prefix),
        begins_with(rest, seq![]),
        begins_with(other, prefix) ==> exists|end: Seq<char>| other == #[trigger] (prefix + end),
{
    assert((prefix + rest).take(prefix.len() as int) =~= prefix);
    assert(rest.take(0) =~= seq![]);
    if begins_with(other, prefix) {
        assert(other =~= prefix + other.skip(prefix.len() as int));
    }
}

/// Cards come in the order of their platforms, and on each in the order of their numbers.
pub proof fn law_order_of_cards(p: int, d: int, q: int, e: int)
    ensures
        p < q ==> comes_before(p, d, q, e),
        p == q ==> (comes_before(p, d, q, e) <==> d < e),
        p > q ==> !comes_before(p, d, q, e),
{
}

} // verus!
