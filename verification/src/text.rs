//! Text handling on sequences of characters.
use vstd::prelude::*;
use vstd::utf8::{decode_utf8, valid_utf8};

verus! {

/// Whether a character beyond ASCII has Unicode's `White_Space` property.
pub uninterp spec fn wide_white_space(c: char) -> bool;

/// Whether a character has Unicode's `White_Space` property. In ASCII those are the space and the
/// five control characters from the tabulator to the carriage return.
pub open spec fn white_space(c: char) -> bool {
    if c <= '\u{7f}' {
        c == ' ' || '\u{9}' <= c <= '\u{d}'
    } else {
        wide_white_space(c)
    }
}

/// `char::is_whitespace` of std tells whether a character has Unicode's `White_Space` property.
/// What it says of characters beyond ASCII depends on the character alone, and is named by
/// `wide_white_space`.
#[verifier::external_body]
pub(crate) fn is_white_space(c: char) -> (r: bool)
    ensures
        r == white_space(c),
        c > '\u{7f}' ==> r == wide_white_space(c),
{
    c.is_whitespace()
}

/// What is wrong with bytes that are no UTF-8, in the words of std.
pub uninterp spec fn utf8_error(bytes: Seq<u8>) -> Seq<char>;

/// `std::str::from_utf8` gives the text of bytes that are UTF-8. For others it gives an error,
/// which depends on the bytes alone: its `Debug` form is named by `utf8_error`.
#[verifier::external_body]
pub(crate) fn utf8_text(bytes: &[u8]) -> (r: Result<String, String>)
    ensures
        match r {
            Ok(s) => valid_utf8(bytes@) && s@ == decode_utf8(bytes@),
            Err(e) => !valid_utf8(bytes@) && e@ == utf8_error(bytes@),
        },
{
    std::str::from_utf8(bytes).map(|s| s.to_owned()).map_err(|e| format!("{e:?}"))
}

/// `String::push` of std appends one character.
pub assume_specification[ String::push ](s: &mut String, c: char)
    ensures
        final(s)@ == old(s)@.push(c),
;

/// The characters of a string.
pub fn chars_of(s: &str) -> (v: Vec<char>)
    ensures
        v@ == s@,
{
    let mut v: Vec<char> = Vec::new();
    for c in it: s.chars()
        invariant
            it.seq() == s@,
            v@ == s@.take(it.index() as int),
    {
        proof {
            assert(s@.take(it.index() as int + 1) =~= s@.take(it.index() as int).push(c));
        }
        v.push(c);
    }
    assert(s@.take(s@.len() as int) =~= s@);
    v
}

/// The string of some characters.
pub fn string_of(v: &[char]) -> (s: String)
    ensures
        s@ == v@,
{
    let mut s = String::new();
    let mut i: usize = 0;
    while i < v.len()
        invariant
            i <= v.len(),
            s@ == v@.take(i as int),
        decreases v.len() - i,
    {
        s.push(v[i]);
        i += 1;
        assert(v@.take(i as int) =~= v@.take(i - 1).push(v@[i - 1]));
    }
    assert(v@.take(i as int) =~= v@);
    s
}

/// Whether two runs of characters are the same.
pub fn same_chars(a: &[char], b: &[char]) -> (r: bool)
    ensures
        r == (a@ == b@),
{
    if a.len() != b.len() {
        return false;
    }
    let mut i: usize = 0;
    while i < a.len()
        invariant
            i <= a.len(),
            a.len() == b.len(),
            a@.take(i as int) == b@.take(i as int),
        decreases a.len() - i,
    {
        if a[i] != b[i] {
            return false;
        }
        i += 1;
        assert(a@.take(i as int) =~= a@.take(i - 1).push(a@[i - 1]));
        assert(b@.take(i as int) =~= b@.take(i - 1).push(b@[i - 1]));
    }
    assert(a@.take(i as int) =~= a@);
    assert(b@.take(i as int) =~= b@);
    true
}

/// Whether two strings are the same.
pub fn same_text(a: &str, b: &str) -> (r: bool)
    ensures
        r == (a@ == b@),
{
    let a = chars_of(a);
    let b = chars_of(b);
    same_chars(a.as_slice(), b.as_slice())
}

/// `s` without its leading white space.
pub open spec fn trim_start(s: Seq<char>) -> Seq<char>
    decreases s.len(),
{
    if s.len() > 0 && white_space(s[0]) {
        trim_start(s.skip(1))
    } else {
        s
    }
}

/// `s` without its trailing white space.
pub open spec fn trim_end(s: Seq<char>) -> Seq<char>
    decreases s.len(),
{
    if s.len() > 0 && white_space(s.last()) {
        trim_end(s.drop_last())
    } else {
        s
    }
}

/// `s` without its leading and its trailing white space.
pub open spec fn trim(s: Seq<char>) -> Seq<char> {
    trim_end(trim_start(s))
}

/// The place of the first `c` in `s`, or the length of `s` where there is none.
pub open spec fn position(s: Seq<char>, c: char) -> nat
    decreases s.len(),
{
    if s.len() == 0 || s[0] == c {
        0
    } else {
        1 + position(s.skip(1), c)
    }
}

/// An upper case ASCII letter in lower case, any other character as it is.
pub open spec fn ascii_lower(c: char) -> char {
    if 'A' <= c <= 'Z' {
        (c as int + 32) as char
    } else {
        c
    }
}

/// Whether two runs of characters differ in the case of ASCII letters at most.
pub open spec fn equal_ignoring_case(a: Seq<char>, b: Seq<char>) -> bool {
    &&& a.len() == b.len()
    &&& forall|i: int| 0 <= i < a.len() ==> ascii_lower(#[trigger] a[i]) == ascii_lower(b[i])
}

/// The part of a run of characters after its leading white space.
pub fn trimmed_start(v: &[char]) -> (r: &[char])
    ensures
        r@ == trim_start(v@),
{
    let mut i: usize = 0;
    assert(v@.skip(0) =~= v@);
    while i < v.len() && is_white_space(v[i])
        invariant
            i <= v.len(),
            trim_start(v@) == trim_start(v@.skip(i as int)),
        ensures
            i <= v.len(),
            trim_start(v@) == v@.skip(i as int),
        decreases v.len() - i,
    {
        i += 1;
        assert(v@.skip(i - 1).skip(1) =~= v@.skip(i as int));
    }
    vstd::slice::slice_subrange(v, i, v.len())
}

/// The part of a run of characters before its trailing white space.
pub fn trimmed_end(v: &[char]) -> (r: &[char])
    ensures
        r@ == trim_end(v@),
{
    let mut i: usize = v.len();
    assert(v@.take(i as int) =~= v@);
    while i > 0 && is_white_space(v[i - 1])
        invariant
            i <= v.len(),
            trim_end(v@) == trim_end(v@.take(i as int)),
        ensures
            i <= v.len(),
            trim_end(v@) == v@.take(i as int),
        decreases i,
    {
        assert(v@.take(i as int).drop_last() =~= v@.take(i - 1));
        i -= 1;
    }
    vstd::slice::slice_subrange(v, 0, i)
}

/// A run of characters without the white space round it.
pub fn trimmed(v: &[char]) -> (r: &[char])
    ensures
        r@ == trim(v@),
{
    trimmed_end(trimmed_start(v))
}

/// The place of the first `c`, or the length where there is none.
pub fn position_of(v: &[char], c: char) -> (i: usize)
    ensures
        i == position(v@, c),
        i <= v.len(),
        i < v.len() ==> v@[i as int] == c,
{
    let mut i: usize = 0;
    assert(v@.skip(0) =~= v@);
    while i < v.len() && v[i] != c
        invariant
            i <= v.len(),
            position(v@, c) == i + position(v@.skip(i as int), c),
        decreases v.len() - i,
    {
        i += 1;
        assert(v@.skip(i - 1).skip(1) =~= v@.skip(i as int));
    }
    i
}

/// A character occurs in a text if there is a first place of it.
pub proof fn lemma_position(s: Seq<char>, c: char)
    ensures
        position(s, c) <= s.len(),
        position(s, c) < s.len() <==> s.contains(c),
        forall|i: int| 0 <= i < position(s, c) ==> #[trigger] s[i] != c,
        position(s, c) < s.len() ==> s[position(s, c) as int] == c,
    decreases s.len(),
{
    if s.len() > 0 && s[0] != c {
        lemma_position(s.skip(1), c);
        let t = s.skip(1);
        assert forall|i: int| 0 <= i < position(s, c) implies #[trigger] s[i] != c by {
            if i > 0 {
                assert(s[i] == t[i - 1]);
            }
        }
        if s.contains(c) {
            let i = s.index_of(c);
            assert(t[i - 1] == c);
        }
        if position(s, c) < s.len() {
            assert(s[position(s, c) as int] == c);
        }
    }
}

/// A character with an upper case ASCII letter made lower case.
fn to_ascii_lower(c: char) -> (r: char)
    ensures
        r == ascii_lower(c),
{
    if 'A' <= c && c <= 'Z' {
        ((c as u8) + 32) as char
    } else {
        c
    }
}

/// Whether two runs of characters differ in the case of ASCII letters at most.
pub fn same_ignoring_case(a: &[char], b: &[char]) -> (r: bool)
    ensures
        r == equal_ignoring_case(a@, b@),
{
    if a.len() != b.len() {
        return false;
    }
    let mut i: usize = 0;
    while i < a.len()
        invariant
            i <= a.len(),
            a.len() == b.len(),
            forall|j: int| 0 <= j < i ==> ascii_lower(#[trigger] a@[j]) == ascii_lower(b@[j]),
        decreases a.len() - i,
    {
        if to_ascii_lower(a[i]) != to_ascii_lower(b[i]) {
            return false;
        }
        i += 1;
    }
    true
}

/// White space round a text goes, all of it and nothing else.
pub proof fn law_white_space_goes(a: Seq<char>, s: Seq<char>, b: Seq<char>)
    requires
        forall|i: int| 0 <= i < a.len() ==> white_space(#[trigger] a[i]),
        forall|i: int| 0 <= i < b.len() ==> white_space(#[trigger] b[i]),
        s.len() > 0,
        !white_space(s[0]),
        !white_space(s.last()),
    ensures
        trim_start(a + s + b) == s + b,
        trim_end(a + s + b) == a + s,
        trim(a + s + b) == s,
{
    lemma_trim_start(a, s + b);
    assert(a + s + b =~= a + (s + b));
    assert((s + b)[0] == s[0]);
    lemma_trim_end(a + s, b);
    assert((a + s).last() == s.last());
    lemma_trim_end(s, b);
}

proof fn lemma_trim_start(a: Seq<char>, s: Seq<char>)
    requires
        forall|i: int| 0 <= i < a.len() ==> white_space(#[trigger] a[i]),
        s.len() > 0,
        !white_space(s[0]),
    ensures
        trim_start(a + s) == s,
    decreases a.len(),
{
    if a.len() == 0 {
        assert(a + s =~= s);
    } else {
        assert((a + s)[0] == a[0]);
        assert((a + s).skip(1) =~= a.skip(1) + s);
        lemma_trim_start(a.skip(1), s);
    }
}

proof fn lemma_trim_end(s: Seq<char>, b: Seq<char>)
    requires
        forall|i: int| 0 <= i < b.len() ==> white_space(#[trigger] b[i]),
        s.len() > 0,
        !white_space(s.last()),
    ensures
        trim_end(s + b) == s,
    decreases b.len(),
{
    if b.len() == 0 {
        assert(s + b =~= s);
    } else {
        assert((s + b).last() == b.last());
        assert((s + b).drop_last() =~= s + b.drop_last());
        lemma_trim_end(s, b.drop_last());
    }
}

/// The white space of ASCII.
pub proof fn law_white_space_of_ascii(c: char)
    requires
        c <= '\u{7f}',
    ensures
        white_space(c) <==> c == ' ' || c == '\t' || c == '\n' || c == '\u{b}' || c == '\u{c}' || c
            == '\r',
{
}

/// Letters of ASCII are the same in either case, and no two other characters are.
pub proof fn law_same_in_any_case(a: Seq<char>, b: Seq<char>, i: int)
    requires
        equal_ignoring_case(a, b),
        0 <= i < a.len(),
    ensures
        a.len() == b.len(),
        a[i] != b[i] ==> {
            ||| 'A' <= a[i] <= 'Z' && 'a' <= b[i] <= 'z' && b[i] as int - a[i] as int == 32
            ||| 'A' <= b[i] <= 'Z' && 'a' <= a[i] <= 'z' && a[i] as int - b[i] as int == 32
        },
{
    assert(ascii_lower(a[i]) == ascii_lower(b[i]));
}

/// A text is the same as itself, and as itself with the case of a letter changed.
pub proof fn law_case_makes_no_difference(a: Seq<char>, i: int)
    ensures
        equal_ignoring_case(a, a),
        0 <= i < a.len() && 'A' <= a[i] <= 'Z' ==> equal_ignoring_case(
            a,
            a.update(i, (a[i] as int + 32) as char),
        ) && equal_ignoring_case(a.update(i, (a[i] as int + 32) as char), a),
{
}

} // verus!
