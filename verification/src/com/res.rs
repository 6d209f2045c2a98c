//! Resolutions, and how they are fitted to the space that is there.
use vstd::arithmetic::div_mod::lemma_fundamental_div_mod_converse;
use vstd::arithmetic::power2::lemma_pow2_pos;
use vstd::math::min;
use vstd::prelude::*;

use crate::com::mode::{DisplayMode, Fit};
use crate::double::{
    double_units, lemma_below_one, lemma_double_units_monotone, lemma_double_whole,
    lemma_double_zero, lemma_round_half_up_monotone, lemma_scale_exact, lemma_scale_near, one,
    round_half_up, unit_exp, Fraction,
};
use crate::number::{decimal, lemma_decimal_round_trip, parse_decimal, parse_u32, push_decimal};
use crate::text::{chars_of, position, position_of};

verus! {

/// A width and a height.
#[derive(Clone, Copy, Debug, PartialEq, Eq, Structural)]
pub struct Res {
    pub w: u32,
    pub h: u32,
}

impl Default for Res {
    fn default() -> (r: Self)
        ensures
            r == (Res { w: 0, h: 0 }),
    {
        Res { w: 0, h: 0 }
    }
}

impl From<(u32, u32)> for Res {
    fn from(wh: (u32, u32)) -> (r: Self) {
        Res { w: wh.0, h: wh.1 }
    }
}

impl vstd::std_specs::convert::FromSpecImpl<(u32, u32)> for Res {
    open spec fn obeys_from_spec() -> bool {
        true
    }

    open spec fn from_spec(wh: (u32, u32)) -> Self {
        Res { w: wh.0, h: wh.1 }
    }
}

/// What a text that is no resolution is answered.
#[derive(Clone, Copy, Debug, PartialEq, Eq, Structural)]
pub struct InvalidRes;

impl InvalidRes {
    /// The words shown to the user.
    pub fn message(self) -> (s: &'static str)
        ensures
            s@ == "Expected a string of the form WIDTHxHEIGHT. Example: 3840x2160"@,
    {
        "Expected a string of the form WIDTHxHEIGHT. Example: 3840x2160"
    }
}

/// The resolution that a text of the form WIDTHxHEIGHT stands for.
pub open spec fn parse_res(s: Seq<char>) -> Option<Res> {
    let x = position(s, 'x') as int;
    if x >= s.len() {
        None
    } else {
        match (
            parse_decimal(s.take(x), u32::MAX as nat),
            parse_decimal(s.skip(x + 1), u32::MAX as nat),
        ) {
            (Ok(w), Ok(h)) => Some(Res { w: w as u32, h: h as u32 }),
            _ => None,
        }
    }
}

impl Res {
    /// From a width and a height that are signed but not negative.
    pub fn from_signed(w: i32, h: i32) -> (r: Self)
        requires
            w >= 0,
            h >= 0,
        ensures
            r.w == w,
            r.h == h,
    {
        Res { w: w as u32, h: h as u32 }
    }

    /// Reads a text of the form WIDTHxHEIGHT.
    pub fn from_str(s: &str) -> (r: Result<Res, InvalidRes>)
        ensures
            match parse_res(s@) {
                Some(x) => r == Ok::<Res, InvalidRes>(x),
                None => r == Err::<Res, InvalidRes>(InvalidRes),
            },
    {
        let v = chars_of(s);
        let x: usize = position_of(v.as_slice(), 'x');
        if x < v.len() {
            let a = vstd::slice::slice_subrange(v.as_slice(), 0, x);
            let b = vstd::slice::slice_subrange(v.as_slice(), x + 1, v.len());
            assert(a@ =~= s@.take(x as int));
            assert(b@ =~= s@.skip(x + 1));
            match (parse_u32(a), parse_u32(b)) {
                (Ok(w), Ok(h)) => return Ok(Res { w, h }),
                _ => {}
            }
        }
        Err(InvalidRes)
    }

    /// The text of the form WIDTHxHEIGHT.
    pub open spec fn spec_text(self) -> Seq<char> {
        decimal(self.w as nat) + seq!['x'] + decimal(self.h as nat)
    }

    /// The text of the form WIDTHxHEIGHT.
    pub fn text(self) -> (s: String)
        ensures
            s@ == self.spec_text(),
    {
        let mut s = String::new();
        push_decimal(&mut s, self.w as u64);
        s.push('x');
        push_decimal(&mut s, self.h as u64);
        assert(s@ =~= self.spec_text());
        s
    }

    pub open spec fn spec_is_empty(self) -> bool {
        self.w == 0 || self.h == 0
    }

    /// Whether there is nothing in it.
    pub fn is_empty(self) -> (r: bool)
        ensures
            r == self.spec_is_empty(),
    {
        self.w == 0 || self.h == 0
    }
}

/// The space that a page is fitted to.
#[derive(Clone, Copy, Debug, PartialEq, Eq, Structural)]
pub struct TargetRes {
    pub res: Res,
    pub fit: Fit,
    /// Whether each page has half of the width to itself.
    pub half_width: bool,
}

impl Default for TargetRes {
    fn default() -> (r: Self)
        ensures
            r == (TargetRes { res: Res { w: 0, h: 0 }, fit: Fit::Container, half_width: false }),
    {
        TargetRes { res: Res { w: 0, h: 0 }, fit: Fit::Container, half_width: false }
    }
}

impl From<(u32, u32, Fit, DisplayMode)> for TargetRes {
    fn from(t: (u32, u32, Fit, DisplayMode)) -> (r: Self) {
        TargetRes { res: Res { w: t.0, h: t.1 }, fit: t.2, half_width: t.3.half_width_pages() }
    }
}

impl vstd::std_specs::convert::FromSpecImpl<(u32, u32, Fit, DisplayMode)> for TargetRes {
    open spec fn obeys_from_spec() -> bool {
        true
    }

    open spec fn from_spec(t: (u32, u32, Fit, DisplayMode)) -> Self {
        TargetRes { res: Res { w: t.0, h: t.1 }, fit: t.2, half_width: t.3.is_dual_page() }
    }
}

impl From<(Res, Fit, DisplayMode)> for TargetRes {
    fn from(t: (Res, Fit, DisplayMode)) -> (r: Self) {
        TargetRes { res: t.0, fit: t.1, half_width: t.2.half_width_pages() }
    }
}

impl vstd::std_specs::convert::FromSpecImpl<(Res, Fit, DisplayMode)> for TargetRes {
    open spec fn obeys_from_spec() -> bool {
        true
    }

    open spec fn from_spec(t: (Res, Fit, DisplayMode)) -> Self {
        TargetRes { res: t.0, fit: t.1, half_width: t.2.is_dual_page() }
    }
}

impl TargetRes {
    /// From a size that is signed but not negative.
    pub fn from_signed(w: i32, h: i32, fit: Fit, d: DisplayMode) -> (r: Self)
        requires
            w >= 0,
            h >= 0,
        ensures
            r == (TargetRes {
                res: Res { w: w as u32, h: h as u32 },
                fit,
                half_width: d.is_dual_page(),
            }),
    {
        TargetRes { res: Res::from_signed(w, h), fit, half_width: d.half_width_pages() }
    }

    /// The width that one page has.
    pub open spec fn page_width(self) -> u32 {
        if self.half_width {
            (self.res.w / 2) as u32
        } else {
            self.res.w
        }
    }
}

/// The ratio of a target size to a size, as a double, in units. There is none for an empty size.
pub open spec fn ratio(target: u32, size: u32) -> Option<nat> {
    if size == 0 {
        None
    } else {
        Some(double_units(target as nat, size as nat))
    }
}

/// The lesser of two ratios, or the only one.
pub open spec fn least_ratio(a: Option<nat>, b: Option<nat>) -> Option<nat> {
    match (a, b) {
        (Some(x), Some(y)) => if x <= y {
            a
        } else {
            b
        },
        (Some(_), None) => a,
        _ => b,
    }
}

/// A size times a ratio in units, rounded to a double and then to a whole number.
pub open spec fn scale_size(size: u32, units: nat) -> nat {
    round_half_up(double_units(size as nat * units, one()) as int, one() as int) as nat
}

/// A scaled size, but never less than one pixel where there is space for one.
pub open spec fn visible_size(size: nat, target: u32) -> nat {
    if size == 0 && target > 0 {
        1
    } else {
        size
    }
}

impl Res {
    /// By what a size is scaled, in units, where it is at all.
    pub open spec fn fit_ratio(self, t: TargetRes) -> Option<nat> {
        match t.fit {
            Fit::Container => least_ratio(ratio(t.page_width(), self.w), ratio(t.res.h, self.h)),
            Fit::Height => ratio(t.res.h, self.h),
            Fit::Width => ratio(t.page_width(), self.w),
            Fit::FullSize => None,
        }
    }

    /// The size scaled down to fit. A size is never scaled up.
    pub open spec fn fitted(self, t: TargetRes) -> Res {
        match self.fit_ratio(t) {
            Some(u) => if 0 < u < one() {
                Res {
                    w: visible_size(scale_size(self.w, u), t.page_width()) as u32,
                    h: visible_size(scale_size(self.h, u), t.res.h) as u32,
                }
            } else {
                self
            },
            None => self,
        }
    }

    /// The size scaled down to fit.
    pub fn fit_inside(self, t: TargetRes) -> (r: Self)
        ensures
            r == self.fitted(t),
    {
        let tw: u32 = if t.half_width {
            t.res.w / 2
        } else {
            t.res.w
        };
        let th: u32 = t.res.h;
        // The target and the size of the direction that decides.
        let (target, size): (u32, u32) = match t.fit {
            Fit::Container => {
                proof {
                    if self.w > 0 && self.h > 0 {
                        if tw * self.h <= th * self.w {
                            lemma_double_units_monotone(tw as nat, self.w as nat, th as nat, self.h as nat);
                        } else {
                            lemma_double_units_monotone(th as nat, self.h as nat, tw as nat, self.w as nat);
                        }
                    }
                    assert(tw * self.h <= 0xffff_ffff * 0xffff_ffff) by (nonlinear_arith)
                        requires
                            tw <= 0xffff_ffff,
                            self.h <= 0xffff_ffff,
                    ;
                    assert(th * self.w <= 0xffff_ffff * 0xffff_ffff) by (nonlinear_arith)
                        requires
                            th <= 0xffff_ffff,
                            self.w <= 0xffff_ffff,
                    ;
                }
                if self.h == 0 || (self.w != 0 && (tw as u64) * (self.h as u64) <= (th as u64)
                    * (self.w as u64)) {
                    (tw, self.w)
                } else {
                    (th, self.h)
                }
            },
            Fit::Height => (th, self.h),
            Fit::Width => (tw, self.w),
            Fit::FullSize => return self,
        };
        assert(self.fit_ratio(t) == ratio(target, size));
        if size == 0 {
            return self;
        }
        if target == 0 || target >= size {
            proof {
                lemma_ratio_outside(target, size);
            }
            return self;
        }
        let f = Fraction::new(target, size);
        let w: u64 = f.scale(self.w);
        let h: u64 = f.scale(self.h);
        proof {
            lemma_ratio_inside(target, size);
        }
        Res {
            w: if w == 0 && tw > 0 {
                1
            } else {
                w as u32
            },
            h: if h == 0 && th > 0 {
                1
            } else {
                h as u32
            },
        }
    }
}

/// A target that is empty or no smaller than a size gives no ratio that shrinks it.
proof fn lemma_ratio_outside(target: u32, size: u32)
    requires
        size > 0,
        target == 0 || target >= size,
    ensures
        !(0 < double_units(target as nat, size as nat) < one()),
{
    if target == 0 {
        lemma_double_zero(size as nat);
    } else {
        lemma_double_units_monotone(1, 1, target as nat, size as nat);
        lemma_double_whole(1);
    }
}

/// A target below a size gives a ratio below one.
proof fn lemma_ratio_inside(target: u32, size: u32)
    requires
        0 < target < size,
    ensures
        0 < double_units(target as nat, size as nat) < one(),
{
    lemma_below_one(target as nat, size as nat);
}

/// A resolution survives being written down and read again.
pub proof fn law_text_round_trip(r: Res)
    ensures
        parse_res(r.spec_text()) == Some(r),
{
    let a = decimal(r.w as nat);
    let b = decimal(r.h as nat);
    lemma_decimal_round_trip(r.w as nat, u32::MAX as nat);
    lemma_decimal_round_trip(r.h as nat, u32::MAX as nat);
    let s = r.spec_text();
    lemma_position_skips(a, seq!['x'] + b, 'x');
    assert(s =~= a + (seq!['x'] + b));
    assert(s.take(a.len() as int) =~= a);
    assert(s.skip(a.len() as int + 1) =~= b);
}

/// A character is looked for past those that differ from it.
pub proof fn lemma_position_skips(a: Seq<char>, b: Seq<char>, c: char)
    requires
        forall|i: int| 0 <= i < a.len() ==> #[trigger] a[i] != c,
    ensures
        position(a + b, c) == a.len() + position(b, c),
    decreases a.len(),
{
    if a.len() == 0 {
        assert(a + b =~= b);
    } else {
        assert((a + b).skip(1) =~= a.skip(1) + b);
        assert((a + b)[0] == a[0]);
        lemma_position_skips(a.skip(1), b, c);
    }
}

/// A ratio below one never makes a size larger.
proof fn lemma_scale_size_bound(size: u32, u: nat)
    requires
        u < one(),
    ensures
        scale_size(size, u) <= size,
{
    let o = one();
    lemma_pow2_pos(unit_exp());
    assert((size as nat * u) * 1 <= size as nat * o) by (nonlinear_arith)
        requires
            u < o,
    ;
    lemma_double_units_monotone(size as nat * u, o, size as nat, 1);
    lemma_double_whole(size as nat);
    lemma_round_half_up_monotone(
        double_units(size as nat * u, o) as int,
        (size as nat * o) as int,
        o as int,
    );
    assert(size * (2 * o) == 2 * (size * o)) by (nonlinear_arith);
    lemma_fundamental_div_mod_converse(2 * (size * o) + o, (2 * o) as int, size as int, o as int);
}

/// A lesser ratio gives no larger a size.
proof fn lemma_scale_size_monotone(size: u32, u: nat, v: nat)
    requires
        u <= v,
    ensures
        scale_size(size, u) <= scale_size(size, v),
{
    let o = one();
    lemma_pow2_pos(unit_exp());
    assert((size as nat * u) * o <= (size as nat * v) * o) by (nonlinear_arith)
        requires
            u <= v,
    ;
    lemma_double_units_monotone(size as nat * u, o, size as nat * v, o);
    let a = double_units(size as nat * u, o) as int;
    lemma_round_half_up_monotone(a, double_units(size as nat * v, o) as int, o as int);
    lemma_round_half_up_monotone(0, a, o as int);
    lemma_fundamental_div_mod_converse(o as int, (2 * o) as int, 0, o as int);
}

/// A size that is scaled by no more than the ratio of a target to it fits in the target.
proof fn lemma_scale_size_fits(size: u32, target: u32, u: nat)
    requires
        size > 0,
        target > 0,
        u < one(),
        u <= double_units(target as nat, size as nat),
    ensures
        visible_size(scale_size(size, u), target) <= target,
{
    if target >= size {
        lemma_scale_size_bound(size, u);
    } else {
        lemma_scale_exact(target as nat, size as nat);
        lemma_scale_size_monotone(size, u, double_units(target as nat, size as nat));
    }
}

/// A fitted size is no larger than the size, but for an empty one that becomes visible.
pub proof fn lemma_fitted_bound(r: Res, t: TargetRes)
    ensures
        r.fitted(t).w <= r.w || r.fitted(t).w == 1,
        r.fitted(t).h <= r.h || r.fitted(t).h == 1,
{
    match r.fit_ratio(t) {
        Some(u) => {
            if 0 < u < one() {
                lemma_scale_size_bound(r.w, u);
                lemma_scale_size_bound(r.h, u);
            }
        },
        None => {},
    }
}

/// Fitting never makes a page larger, and never makes it vanish.
pub proof fn law_fit_shrinks(r: Res, t: TargetRes)
    requires
        !r.spec_is_empty(),
    ensures
        r.fitted(t).w <= r.w,
        r.fitted(t).h <= r.h,
        !t.res.spec_is_empty() && t.page_width() > 0 ==> !r.fitted(t).spec_is_empty(),
{
    match r.fit_ratio(t) {
        Some(u) => {
            if 0 < u < one() {
                lemma_scale_size_bound(r.w, u);
                lemma_scale_size_bound(r.h, u);
            }
        },
        None => {},
    }
}

/// A page that is fitted to its container fits in it. One that is fitted to a width or to a height
/// fits in that direction, and fills it if it is large enough.
pub proof fn law_fit_fits(r: Res, t: TargetRes)
    requires
        !r.spec_is_empty(),
        t.page_width() > 0,
        t.res.h > 0,
    ensures
        t.fit is Container ==> r.fitted(t).w <= t.page_width() && r.fitted(t).h <= t.res.h,
        t.fit is Container ==> r.fitted(t).w == min(r.w as int, t.page_width() as int) || r.fitted(
            t,
        ).h == min(r.h as int, t.res.h as int),
        t.fit is Width ==> r.fitted(t).w == min(r.w as int, t.page_width() as int),
        t.fit is Height ==> r.fitted(t).h == min(r.h as int, t.res.h as int),
        t.fit is FullSize ==> r.fitted(t) == r,
{
    let tw = t.page_width();
    let th = t.res.h;
    let uw = double_units(tw as nat, r.w as nat);
    let uh = double_units(th as nat, r.h as nat);
    lemma_fill(r.w, tw);
    lemma_fill(r.h, th);
    if t.fit is Container {
        let u = if uw <= uh {
            uw
        } else {
            uh
        };
        if u < one() {
            lemma_scale_size_fits(r.w, tw, u);
            lemma_scale_size_fits(r.h, th, u);
        }
    }
}

/// Two pages that are shown side by side have half of the width each, and a page that is shown
/// alone has all of it. Fitted to its container or to the width, a page is no wider than that, and
/// fitted to the width it is just as wide, unless it is narrower from the start. Fitted to its
/// container or to the height, it is no higher than the space is.
pub proof fn law_pages_have_their_space(r: Res, t: TargetRes)
    requires
        r.w > 0,
        r.h > 0,
        t.res.w > 0,
        t.half_width ==> t.res.w / 2 > 0,
        t.res.h > 0,
    ensures
        t.half_width && (t.fit is Container || t.fit is Width) ==> r.fitted(t).w <= t.res.w / 2,
        !t.half_width && (t.fit is Container || t.fit is Width) ==> r.fitted(t).w <= t.res.w,
        t.half_width && t.fit is Width ==> r.fitted(t).w == min(r.w as int, t.res.w as int / 2),
        !t.half_width && t.fit is Width ==> r.fitted(t).w == min(r.w as int, t.res.w as int),
        t.fit is Container || t.fit is Height ==> r.fitted(t).h <= t.res.h,
        t.fit is Height ==> r.fitted(t).h == min(r.h as int, t.res.h as int),
        t.fit is Container && !t.half_width ==> r.fitted(t).w == min(r.w as int, t.res.w as int)
            || r.fitted(t).h == min(r.h as int, t.res.h as int),
        t.fit is Container && t.half_width ==> r.fitted(t).w == min(r.w as int, t.res.w as int / 2)
            || r.fitted(t).h == min(r.h as int, t.res.h as int),
        t.fit is FullSize ==> r.fitted(t) == r,
{
    law_fit_fits(r, t);
}

/// Two pages side by side fit in the window together.
pub proof fn law_two_pages_fit(a: Res, b: Res, t: TargetRes)
    requires
        a.w > 0,
        a.h > 0,
        b.w > 0,
        b.h > 0,
        t.half_width,
        t.res.w >= 2,
        t.res.h > 0,
        t.fit is Container || t.fit is Width,
    ensures
        a.fitted(t).w + b.fitted(t).w <= t.res.w,
{
    law_pages_have_their_space(a, t);
    law_pages_have_their_space(b, t);
}

/// A page that fits as it is stays as it is.
pub proof fn law_small_page_is_kept(r: Res, t: TargetRes)
    requires
        r.w > 0,
        r.h > 0,
        t.half_width ==> r.w <= t.res.w / 2,
        r.w <= t.res.w,
        r.h <= t.res.h,
    ensures
        r.fitted(t) == r,
{
    lemma_fill(r.w, t.page_width());
    lemma_fill(r.h, t.res.h);
}

/// Fitting keeps the shape of a page: its width and its height are scaled alike, but for the
/// rounding to whole pixels.
pub proof fn law_fit_keeps_shape(r: Res, t: TargetRes)
    requires
        r.w > 0,
        r.h > 0,
        t.res.w > 0,
        t.half_width ==> t.res.w / 2 > 0,
        t.res.h > 0,
    ensures
        -(r.w + r.h) <= r.fitted(t).w * r.h - r.fitted(t).h * r.w <= r.w + r.h,
{
    let tw = t.page_width();
    let th = t.res.h;
    let f = r.fitted(t);
    lemma_fill(r.w, tw);
    lemma_fill(r.h, th);
    if let Some(u) = r.fit_ratio(t) {
        if 0 < u < one() {
            let by_width = t.fit is Width || (t.fit is Container && double_units(
                tw as nat,
                r.w as nat,
            ) <= double_units(th as nat, r.h as nat));
            let (n, d): (nat, nat) = if by_width {
                (tw as nat, r.w as nat)
            } else {
                (th as nat, r.h as nat)
            };
            assert(u == double_units(n, d));
            assert(n < d);
            lemma_scale_size_bound(r.w, u);
            lemma_scale_size_bound(r.h, u);
            lemma_scale_near(r.w as nat, n, d);
            lemma_scale_near(r.h as nat, n, d);
            lemma_visible_near(r.w, tw, n, d);
            lemma_visible_near(r.h, th, n, d);
            let (w, h) = (f.w as int, f.h as int);
            let (rw, rh) = (r.w as int, r.h as int);
            let a = w * d - rw * n;
            let b = h * d - rh * n;
            let c = w * rh - h * rw;
            assert(c * d == rh * a - rw * b) by (nonlinear_arith)
                requires
                    c == w * rh - h * rw,
                    a == w * d - rw * n,
                    b == h * d - rh * n,
            ;
            assert(-(rh * d) <= rh * a <= rh * d) by (nonlinear_arith)
                requires
                    -d <= a <= d,
                    rh > 0,
            ;
            assert(-(rw * d) <= rw * b <= rw * d) by (nonlinear_arith)
                requires
                    -d <= b <= d,
                    rw > 0,
            ;
            assert(-(rw + rh) <= c <= rw + rh) by (nonlinear_arith)
                requires
                    c * d == rh * a - rw * b,
                    -(rh * d) <= rh * a <= rh * d,
                    -(rw * d) <= rw * b <= rw * d,
                    d > 0,
            ;
        }
    }
    assert(r.w * r.h == r.h * r.w) by (nonlinear_arith);
}

/// Making a size visible keeps it within one pixel of what was wanted.
proof fn lemma_visible_near(size: u32, target: u32, n: nat, d: nat)
    requires
        0 < n < d <= 0xffff_ffff,
    ensures
        -d <= visible_size(scale_size(size, double_units(n, d)), target) * d - size * n <= d,
{
    lemma_scale_near(size as nat, n, d);
    let s = scale_size(size, double_units(n, d));
    if s == 0 {
        assert(0 * d == 0) by (nonlinear_arith);
        assert(1 * d == d) by (nonlinear_arith);
        assert(size * n >= 0) by (nonlinear_arith);
    }
}

/// The ratio of a target to a size fills the target where the size is larger.
proof fn lemma_fill(size: u32, target: u32)
    requires
        size > 0,
        target > 0,
    ensures
        target < size ==> 0 < double_units(target as nat, size as nat) < one() && visible_size(
            scale_size(size, double_units(target as nat, size as nat)),
            target,
        ) == target,
        target >= size ==> double_units(target as nat, size as nat) >= one(),
{
    if target < size {
        lemma_scale_exact(target as nat, size as nat);
        lemma_below_one(target as nat, size as nat);
    } else {
        lemma_double_units_monotone(1, 1, target as nat, size as nat);
        lemma_double_whole(1);
    }
}

/// Fitting twice is fitting once.
pub proof fn law_fit_idempotent(r: Res, t: TargetRes)
    ensures
        r.fitted(t).fitted(t) == r.fitted(t),
{
    let tw = t.page_width();
    let th = t.res.h;
    let f = r.fitted(t);
    if r.w > 0 && tw == 0 {
        lemma_double_zero(r.w as nat);
    }
    if r.h > 0 && th == 0 {
        lemma_double_zero(r.h as nat);
    }
    if r.w > 0 && tw > 0 {
        lemma_fill(r.w, tw);
    }
    if r.h > 0 && th > 0 {
        lemma_fill(r.h, th);
    }
    if f.w > 0 && tw > 0 {
        lemma_fill(f.w, tw);
    }
    if f.h > 0 && th > 0 {
        lemma_fill(f.h, th);
    }
    if let Some(u) = r.fit_ratio(t) {
        if 0 < u < one() {
            lemma_scale_size_bound(r.w, u);
            lemma_scale_size_bound(r.h, u);
            if t.fit is Container && r.w > 0 && r.h > 0 {
                lemma_scale_size_fits(r.w, tw, u);
                lemma_scale_size_fits(r.h, th, u);
            }
        }
    }
}

} // verus!
