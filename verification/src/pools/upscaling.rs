//! Which pages are upscaled, and how large they are expected to be then.
use vstd::arithmetic::div_mod::lemma_fundamental_div_mod;
use vstd::arithmetic::power2::{lemma_pow2_pos, pow2};
use vstd::prelude::*;

use crate::com::res::Res;

verus! {

/// Whether a page of some resolution is upscaled: where it is below the minimum in either
/// direction, or below the target in every direction that has one. Without a target nothing is.
pub open spec fn is_upscaled(res: Res, target: Res, minimum: Option<Res>) -> bool {
    &&& target.w != 0 || target.h != 0
    &&& {
        ||| minimum matches Some(m) && (res.w < m.w || res.h < m.h)
        ||| (res.w < target.w || target.w == 0) && (res.h < target.h || target.h == 0)
    }
}

/// Whether a page of some resolution is upscaled.
pub fn should_upscale(res: Res, target: Res, minimum: Option<Res>) -> (r: bool)
    ensures
        r == is_upscaled(res, target, minimum),
{
    if target.w == 0 && target.h == 0 {
        return false;
    }
    if let Some(m) = minimum {
        if res.w < m.w || res.h < m.h {
            return true;
        }
    }
    (res.w < target.w || target.w == 0) && (res.h < target.h || target.h == 0)
}

/// How often a size fits in another one, counting a rest as once more.
pub open spec fn times_to_reach(size: u32, wanted: u32) -> nat {
    ((wanted + size - 1) / size as int) as nat
}

/// By how much a resolution is scaled to come near the target without passing it, and to the
/// minimum in any case.
pub open spec fn wanted_scale(source: Res, target: Res, minimum: Option<Res>) -> nat {
    let across = (target.w / source.w) as nat;
    let down = (target.h / source.h) as nat;
    let scale = if target.w != 0 && target.h != 0 {
        if across <= down {
            across
        } else {
            down
        }
    } else if target.w != 0 {
        across
    } else {
        down
    };
    match minimum {
        Some(m) => greater(
            times_to_reach(source.h, m.h),
            greater(times_to_reach(source.w, m.w), scale),
        ),
        None => scale,
    }
}

/// The greater of two numbers.
pub open spec fn greater(a: nat, b: nat) -> nat {
    if a >= b {
        a
    } else {
        b
    }
}

/// Whether a power of two is the least one that is not less than a number.
pub open spec fn is_next_power_of_two(n: nat, k: nat) -> bool {
    &&& n <= pow2(k)
    &&& k > 0 ==> pow2((k - 1) as nat) < n
}

/// A size scaled by a factor, or the size itself if that is too large.
pub open spec fn scaled_size(size: u32, scale: nat) -> int {
    if size * scale <= u32::MAX {
        size * scale
    } else {
        size as int
    }
}

/// What a resolution is expected to be after upscaling, given that sizes are doubled some number
/// of times. A factor that is too large counts as none.
pub open spec fn is_estimate(source: Res, target: Res, minimum: Option<Res>, r: Res) -> bool {
    if source.spec_is_empty() || (target.w == 0 && target.h == 0) {
        r == source
    } else {
        exists|k: nat| #[trigger]
            is_next_power_of_two(wanted_scale(source, target, minimum), k) && {
                let scale = if k < 32 {
                    pow2(k)
                } else {
                    1
                };
                r.w == scaled_size(source.w, scale) && r.h == scaled_size(source.h, scale)
            }
    }
}

/// The least power of two that is not less than a number, if it is below the limit.
fn next_power_of_two(n: u32) -> (r: Option<u32>)
    ensures
        match r {
            Some(p) => exists|k: nat| #[trigger]
                is_next_power_of_two(n as nat, k) && k < 32 && p == pow2(k),
            None => is_next_power_of_two(n as nat, 32),
        },
{
    proof {
        vstd::arithmetic::power2::lemma2_to64();
    }
    let mut p: u64 = 1;
    let mut k: u32 = 0;
    while p < n as u64
        invariant
            k <= 32,
            p == pow2(k as nat),
            pow2(32) == 0x1_0000_0000,
            k > 0 ==> pow2((k - 1) as nat) < n,
        decreases 32 - k,
    {
        proof {
            if k == 32 {
                assert(p == 0x1_0000_0000);
            }
            vstd::arithmetic::power2::lemma_pow2_unfold((k + 1) as nat);
            vstd::arithmetic::power2::lemma_pow2_strictly_increases(k as nat, 32);
        }
        p = p * 2;
        k = k + 1;
    }
    assert(is_next_power_of_two(n as nat, k as nat));
    if k < 32 {
        proof {
            vstd::arithmetic::power2::lemma_pow2_strictly_increases(k as nat, 32);
        }
        Some(p as u32)
    } else {
        None
    }
}

/// A size that is reached by a number of times another one.
fn times_needed(size: u32, wanted: u32) -> (r: u32)
    requires
        size > 0,
    ensures
        r == times_to_reach(size, wanted),
{
    let n: u64 = (wanted as u64 + size as u64 - 1) / size as u64;
    proof {
        let (w, s) = (wanted as int, size as int);
        assert((w + s - 1) / s <= w) by (nonlinear_arith)
            requires
                s >= 1,
                w >= 0,
        ;
    }
    n as u32
}

/// What a resolution is expected to be after upscaling.
pub fn estimate_upscaled_resolution(source: Res, target: Res, minimum: Option<Res>) -> (r: Res)
    ensures
        is_estimate(source, target, minimum, r),
{
    if source.is_empty() {
        return source;
    }
    if target.w == 0 && target.h == 0 {
        return source;
    }
    let across: u32 = target.w / source.w;
    let down: u32 = target.h / source.h;
    let mut scale: u32 = if target.w != 0 && target.h != 0 {
        if across <= down {
            across
        } else {
            down
        }
    } else if target.w != 0 {
        across
    } else {
        down
    };
    if let Some(m) = minimum {
        let x: u32 = times_needed(source.w, m.w);
        if x > scale {
            scale = x;
        }
        let y: u32 = times_needed(source.h, m.h);
        if y > scale {
            scale = y;
        }
    }
    assert(scale == wanted_scale(source, target, minimum));
    let factor: u32 = match next_power_of_two(scale) {
        Some(p) => p,
        None => 1,
    };
    Res {
        w: match source.w.checked_mul(factor) {
            Some(w) => w,
            None => source.w,
        },
        h: match source.h.checked_mul(factor) {
            Some(h) => h,
            None => source.h,
        },
    }
}

/// A page is upscaled if it is smaller than the target in each direction that there is one for, and in
/// any case if it is smaller than the minimum in any direction. It is not where there is no target, nor
/// where it is as large as the target in one direction and as large as the minimum in both.
pub proof fn law_pages_that_are_upscaled(res: Res, target: Res, minimum: Option<Res>)
    ensures
        target.w == 0 && target.h == 0 ==> !is_upscaled(res, target, minimum),
        target.w > 0 && target.h > 0 && res.w < target.w && res.h < target.h ==> is_upscaled(
            res,
            target,
            minimum,
        ),
        target.w > 0 && target.h == 0 && res.w < target.w ==> is_upscaled(res, target, minimum),
        target.h > 0 && target.w == 0 && res.h < target.h ==> is_upscaled(res, target, minimum),
        match minimum {
            Some(m) => (res.w < m.w || res.h < m.h) && (target.w > 0 || target.h > 0) ==> is_upscaled(
                res,
                target,
                minimum,
            ),
            None => true,
        },
        (target.w > 0 && res.w >= target.w || target.h > 0 && res.h >= target.h) && match minimum {
            Some(m) => res.w >= m.w && res.h >= m.h,
            None => true,
        } ==> !is_upscaled(res, target, minimum),
{
}

/// Where a page is upscaled, so is any smaller one.
pub proof fn law_smaller_pages_are_upscaled_too(
    res: Res,
    smaller: Res,
    target: Res,
    minimum: Option<Res>,
)
    requires
        is_upscaled(res, target, minimum),
        smaller.w <= res.w,
        smaller.h <= res.h,
    ensures
        is_upscaled(smaller, target, minimum),
{
}

/// What is expected of a page after upscaling: it keeps its shape, is no smaller than before, and is
/// scaled by the least power of two that is enough. A direction that would become too large stays.
pub proof fn law_upscaled_pages_keep_their_shape(
    source: Res,
    target: Res,
    minimum: Option<Res>,
    r: Res,
)
    requires
        is_estimate(source, target, minimum, r),
        source.w > 0,
        source.h > 0,
        target.w > 0 || target.h > 0,
    ensures
        exists|k: nat|
            #![trigger pow2(k)]
            {
                &&& r.w == source.w * pow2(k) || r.w == source.w && (k >= 32 || source.w * pow2(k)
                    > u32::MAX)
                &&& r.h == source.h * pow2(k) || r.h == source.h && (k >= 32 || source.h * pow2(k)
                    > u32::MAX)
                &&& pow2(k) >= wanted_scale(source, target, minimum)
                &&& k > 0 ==> pow2((k - 1) as nat) < wanted_scale(source, target, minimum)
            },
        r.w >= source.w,
        r.h >= source.h,
{
    let n = wanted_scale(source, target, minimum);
    let k = choose|k: nat| #[trigger]
        is_next_power_of_two(n, k) && {
            let scale = if k < 32 {
                pow2(k)
            } else {
                1
            };
            r.w == scaled_size(source.w, scale) && r.h == scaled_size(source.h, scale)
        };
    lemma_pow2_pos(k);
    let p = pow2(k);
    let (w, h) = (source.w as int, source.h as int);
    assert(w * p >= w && h * p >= h) by (nonlinear_arith)
        requires
            p >= 1,
            w > 0,
            h > 0,
    ;
    assert(w * 1 == w && h * 1 == h);
}

/// By how much a page is wanted to be scaled: by as much as stays within the target, and once more would
/// not. The minimum is reached in any case.
pub proof fn law_scale_comes_near_the_target(source: Res, target: Res, minimum: Option<Res>)
    requires
        source.w > 0,
        source.h > 0,
        target.w > 0 || target.h > 0,
    ensures
        ({
            let n = wanted_scale(source, target, minimum);
            &&& minimum is None && target.w > 0 ==> source.w * n <= target.w
            &&& minimum is None && target.h > 0 ==> source.h * n <= target.h
            &&& (target.w > 0 && source.w * (n + 1) > target.w) || (target.h > 0 && source.h * (n
                + 1) > target.h)
            &&& match minimum {
                Some(m) => source.w * n >= m.w && source.h * n >= m.h,
                None => true,
            }
        }),
{
    let n = wanted_scale(source, target, minimum);
    let (w, h) = (source.w as int, source.h as int);
    let (tw, th) = (target.w as int, target.h as int);
    let across = tw / w;
    let down = th / h;
    lemma_fundamental_div_mod(tw, w);
    lemma_fundamental_div_mod(th, h);
    assert(w * across <= tw < w * (across + 1)) by (nonlinear_arith)
        requires
            w > 0,
            tw == w * across + tw % w,
            0 <= tw % w < w,
    ;
    assert(h * down <= th < h * (down + 1)) by (nonlinear_arith)
        requires
            h > 0,
            th == h * down + th % h,
            0 <= th % h < h,
    ;
    let scale = if tw != 0 && th != 0 {
        if across <= down {
            across
        } else {
            down
        }
    } else if tw != 0 {
        across
    } else {
        down
    };
    assert(scale <= n);
    assert(tw > 0 ==> w * scale <= tw) by (nonlinear_arith)
        requires
            w > 0,
            w * across <= tw,
            tw > 0 ==> scale <= across,
    ;
    assert(th > 0 ==> h * scale <= th) by (nonlinear_arith)
        requires
            h > 0,
            h * down <= th,
            th > 0 ==> scale <= down,
    ;
    assert(scale == across ==> w * (n + 1) > tw) by (nonlinear_arith)
        requires
            w > 0,
            scale <= n,
            tw < w * (across + 1),
    ;
    assert(scale == down ==> h * (n + 1) > th) by (nonlinear_arith)
        requires
            h > 0,
            scale <= n,
            th < h * (down + 1),
    ;
    match minimum {
        Some(m) => {
            lemma_times_reach(source.w, m.w, n);
            lemma_times_reach(source.h, m.h, n);
        },
        None => {},
    }
}

proof fn lemma_times_reach(size: u32, wanted: u32, n: nat)
    requires
        size > 0,
        n >= times_to_reach(size, wanted),
    ensures
        size * n >= wanted,
{
    let (s, w) = (size as int, wanted as int);
    let q = (w + s - 1) / s;
    lemma_fundamental_div_mod(w + s - 1, s);
    assert(q >= 0) by (nonlinear_arith)
        requires
            s > 0,
            w + s - 1 == s * q + (w + s - 1) % s,
            0 <= (w + s - 1) % s < s,
            w >= 0,
    ;
    assert(s * n >= w) by (nonlinear_arith)
        requires
            s > 0,
            n >= q,
            w + s - 1 == s * q + (w + s - 1) % s,
            0 <= (w + s - 1) % s < s,
    ;
}

} // verus!
