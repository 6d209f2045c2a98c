//! How messages are logged.
use vstd::prelude::*;

use crate::number::{decimal, decimal_text};
use crate::text::{chars_of, same_chars, string_of};

verus! {

/// Whether there are two colons at a place of a text.
pub open spec fn colons_at(s: Seq<char>, i: int) -> bool {
    0 <= i && i + 1 < s.len() && s[i] == ':' && s[i + 1] == ':'
}

/// The last place of two colons that ends before a given one, or less than zero where there is
/// none.
pub open spec fn last_colons(s: Seq<char>, before: int) -> int
    decreases before,
{
    if before < 2 {
        -1
    } else if colons_at(s, before - 2) {
        before - 2
    } else {
        last_colons(s, before - 1)
    }
}

/// The last two modules of the path of a module.
pub open spec fn shrunk(s: Seq<char>) -> Seq<char> {
    let last = last_colons(s, s.len() as int);
    if last < 0 {
        s
    } else {
        let second = last_colons(s, last);
        if second < 0 {
            s
        } else {
            s.skip(second + 2)
        }
    }
}

fn find_colons(v: &[char], before: usize) -> (r: Option<usize>)
    requires
        before <= v@.len(),
    ensures
        match r {
            Some(i) => i == last_colons(v@, before as int) && i + 2 <= before,
            None => last_colons(v@, before as int) < 0,
        },
{
    let mut at: usize = before;
    while at >= 2
        invariant
            at <= before,
            before <= v@.len(),
            last_colons(v@, before as int) == last_colons(v@, at as int),
        decreases at,
    {
        if v[at - 2] == ':' && v[at - 1] == ':' {
            return Some(at - 2);
        }
        at -= 1;
    }
    None
}

/// The last two modules of the path of a module.
pub fn shrink_target(target: &[char]) -> (r: &[char])
    ensures
        r@ == shrunk(target@),
{
    if let Some(last) = find_colons(target, target.len()) {
        if let Some(second) = find_colons(target, last) {
            let r = vstd::slice::slice_subrange(target, second + 2, target.len());
            assert(r@ =~= target@.skip(second + 2));
            return r;
        }
    }
    target
}

/// How the module that a message comes from is shown: only its last two parts, if it is one of this
/// crate.
pub open spec fn shown_target(target: Seq<char>, prefix: Seq<char>) -> Seq<char> {
    if prefix.len() <= target.len() && target.take(prefix.len() as int) == prefix {
        shrunk(target.skip(prefix.len() as int))
    } else {
        target
    }
}

/// How the module that a message comes from is shown.
pub fn show_target(target: &str, prefix: &str) -> (r: String)
    ensures
        r@ == shown_target(target@, prefix@),
{
    let t = chars_of(target);
    let p = chars_of(prefix);
    if p.len() <= t.len() {
        let start = vstd::slice::slice_subrange(t.as_slice(), 0, p.len());
        assert(start@ =~= t@.take(p@.len() as int));
        if same_chars(start, p.as_slice()) {
            let rest = vstd::slice::slice_subrange(t.as_slice(), p.len(), t.len());
            assert(rest@ =~= t@.skip(p@.len() as int));
            return string_of(shrink_target(rest));
        }
    }
    target.to_owned()
}

/// A number with zeros before it, so that it has at least a given number of digits.
pub open spec fn padded(n: nat, width: nat) -> Seq<char> {
    let d = decimal(n);
    Seq::new((if d.len() < width {
        width - d.len()
    } else {
        0
    }) as nat, |i: int| '0') + d
}

/// When a message came: the seconds and milliseconds since the start.
pub open spec fn stamp_text(millis: nat) -> Seq<char> {
    padded(millis / 1000, 4) + "."@ + padded(millis % 1000, 3)
}

fn push_padded(s: &mut String, n: u64, width: usize)
    ensures
        final(s)@ == old(s)@ + padded(n as nat, width as nat),
{
    let d = decimal_text(n);
    let v = chars_of(d.as_str());
    let ghost before = s@;
    let mut have: usize = v.len();
    assert(s@ =~= before + Seq::new(0, |i: int| '0'));
    while have < width
        invariant
            v@.len() <= have,
            have <= width || have == v@.len(),
            s@ == before + Seq::new((have - v@.len()) as nat, |i: int| '0'),
        decreases width - have,
    {
        s.push('0');
        have += 1;
        assert(s@ =~= before + Seq::new((have - v@.len()) as nat, |i: int| '0'));
    }
    s.append(d.as_str());
    assert(s@ =~= before + padded(n as nat, width as nat));
}

/// When a message came: the seconds and milliseconds since the start.
pub fn stamp(millis: u64) -> (r: String)
    ensures
        r@ == stamp_text(millis as nat),
{
    let mut s = String::new();
    push_padded(&mut s, millis / 1000, 4);
    s.append(".");
    push_padded(&mut s, millis % 1000, 3);
    assert(s@ =~= stamp_text(millis as nat));
    s
}

/// Whether a text has no colon.
pub open spec fn without_colons(s: Seq<char>) -> bool {
    forall|i: int| 0 <= i < s.len() ==> #[trigger] s[i] != ':'
}

proof fn lemma_colons_found(s: Seq<char>, at: int, before: int)
    requires
        0 <= at,
        at + 2 <= before <= s.len(),
        colons_at(s, at),
        forall|i: int| at < i < before - 1 ==> !colons_at(s, i),
    ensures
        last_colons(s, before) == at,
    decreases before,
{
    if before - 2 != at {
        assert(!colons_at(s, before - 2));
        lemma_colons_found(s, at, before - 1);
    }
}

proof fn lemma_no_colons_found(s: Seq<char>, before: int)
    requires
        before <= s.len(),
        forall|i: int| 0 <= i < before - 1 ==> !colons_at(s, i),
    ensures
        last_colons(s, before) < 0,
    decreases before,
{
    if before >= 2 {
        assert(!colons_at(s, before - 2));
        lemma_no_colons_found(s, before - 1);
    }
}

/// Of the path of a module its last two parts are left, and all of it where there are no more.
pub proof fn law_last_two_modules(a: Seq<char>, b: Seq<char>, c: Seq<char>)
    requires
        without_colons(b),
        without_colons(c),
        b.len() > 0,
    ensures
        shrunk(a + seq![':', ':'] + b + seq![':', ':'] + c) == b + seq![':', ':'] + c,
        shrunk(b + seq![':', ':'] + c) == b + seq![':', ':'] + c,
        shrunk(b) == b,
{
    let s = a + seq![':', ':'] + b + seq![':', ':'] + c;
    let at = a.len() as int;
    let last = (a.len() + 2 + b.len()) as int;
    assert(s[at] == ':' && s[at + 1] == ':');
    assert(s[last] == ':' && s[last + 1] == ':');
    assert forall|i: int| last < i < s.len() - 1 implies !colons_at(s, i) by {
        if i >= last + 2 {
            assert(s[i] == c[i - last - 2]);
        } else {
            assert(s[i + 1] == c[0]);
        }
    }
    lemma_colons_found(s, last, s.len() as int);
    assert forall|i: int| at < i < last - 1 implies !colons_at(s, i) by {
        if i >= at + 2 {
            assert(s[i] == b[i - at - 2]);
        } else {
            assert(s[i + 1] == b[0]);
        }
    }
    lemma_colons_found(s, at, last);
    assert(s.skip(at + 2) =~= b + seq![':', ':'] + c);
    let t = b + seq![':', ':'] + c;
    let only = b.len() as int;
    assert(t[only] == ':' && t[only + 1] == ':');
    assert forall|i: int| only < i < t.len() - 1 implies !colons_at(t, i) by {
        if i >= only + 2 {
            assert(t[i] == c[i - only - 2]);
        } else {
            assert(t[i + 1] == c[0]);
        }
    }
    lemma_colons_found(t, only, t.len() as int);
    assert forall|i: int| 0 <= i < only - 1 implies !colons_at(t, i) by {
        assert(t[i] == b[i]);
    }
    lemma_no_colons_found(t, only);
    assert forall|i: int| 0 <= i < b.len() - 1 implies !colons_at(b, i) by {
        assert(b[i] != ':');
    }
    lemma_no_colons_found(b, b.len() as int);
}

/// Only modules of this crate are shortened, and others are shown in full.
pub proof fn law_modules_of_others(prefix: Seq<char>, rest: Seq<char>, other: Seq<char>)
    ensures
        shown_target(prefix + rest, prefix) == shrunk(rest),
        (other.len() < prefix.len() || other.take(prefix.len() as int) != prefix)
            ==> shown_target(other, prefix) == other,
{
    assert((prefix + rest).take(prefix.len() as int) =~= prefix);
    assert((prefix + rest).skip(prefix.len() as int) =~= rest);
}

/// A padded number is the number with noughts before it, as many as it takes to make it wide
/// enough.
pub proof fn law_padded_numbers(n: nat, width: nat)
    ensures
        padded(n, width).len() == if decimal(n).len() < width {
            width
        } else {
            decimal(n).len()
        },
        padded(n, width).skip(padded(n, width).len() - decimal(n).len()) == decimal(n),
        forall|i: int|
            0 <= i < padded(n, width).len() - decimal(n).len() ==> #[trigger] padded(n, width)[i]
                == '0',
{
    assert(padded(n, width).skip(padded(n, width).len() - decimal(n).len()) =~= decimal(n));
}

/// A time is shown as seconds and a thousandth part of them, in four and in three places.
pub proof fn law_times_of_messages(seconds: nat, millis: nat)
    requires
        millis < 1000,
    ensures
        stamp_text(1000 * seconds + millis) == padded(seconds, 4) + seq!['.'] + padded(millis, 3),
        seconds < 10 ==> stamp_text(1000 * seconds + millis).len() == 8,
{
    reveal_strlit(".");
    assert("."@ =~= seq!['.']);
    assert((1000 * seconds + millis) / 1000 == seconds);
    assert((1000 * seconds + millis) % 1000 == millis);
    if seconds < 10 {
        assert(decimal(seconds).len() == 1);
        let h = millis / 10;
        assert(decimal(millis).len() <= 3) by {
            if millis >= 10 {
                assert(decimal(millis).len() == decimal(h).len() + 1);
                if h >= 10 {
                    assert(decimal(h).len() == decimal(h / 10).len() + 1);
                    assert(decimal(h / 10).len() == 1);
                }
            }
        }
    }
}

} // verus!
