//! Names of files as text, whatever bytes they are made of.
//!
//! Most names are UTF-8 and are the text that they look like. Bytes that are not are held as marks:
//! characters from the end of the last private plane, each of which stands for one byte. So every
//! name is text, and its bytes can be told from that.
use vstd::prelude::*;
use vstd::utf8::{
    decode_first_scalar, decode_utf8, decode_utf8_first_scalar, encode_scalar,
    encode_utf8, length_of_first_scalar, pop_first_scalar, take_first_scalar, valid_first_scalar,
    valid_utf8,
};

use crate::text::{chars_of, utf8_text};

verus! {

/// Whether a character stands for a byte.
pub open spec fn is_mark(c: char) -> bool {
    c >= '\u{10ff80}'
}

/// The character that stands for a byte that is not ASCII.
pub open spec fn mark(b: u8) -> char {
    ((0x10ff00 + b) as u32) as char
}

/// The bytes of a character in a name.
pub open spec fn char_bytes(c: char) -> Seq<u8> {
    if is_mark(c) {
        seq![(c as u32 - 0x10ff00) as u8]
    } else {
        encode_scalar(c as u32)
    }
}

/// The bytes of a name.
pub open spec fn name_bytes(name: Seq<char>) -> Seq<u8>
    decreases name.len(),
{
    if name.len() == 0 {
        seq![]
    } else {
        name_bytes(name.drop_last()) + char_bytes(name.last())
    }
}

/// Whether bytes begin with a character that stands for itself.
pub open spec fn plain_first(bytes: Seq<u8>) -> bool {
    valid_first_scalar(bytes) && !is_mark(decode_first_scalar(bytes) as char)
}

/// The name that some bytes are.
pub open spec fn name_text(bytes: Seq<u8>) -> Seq<char>
    decreases bytes.len(),
{
    if bytes.len() == 0 {
        seq![]
    } else if plain_first(bytes) {
        seq![decode_first_scalar(bytes) as char] + name_text(pop_first_scalar(bytes))
    } else {
        seq![mark(bytes[0])] + name_text(bytes.skip(1))
    }
}

/// Whether there are no marks in a text.
pub open spec fn unmarked(s: Seq<char>) -> bool {
    forall|i: int| 0 <= i < s.len() ==> !is_mark(#[trigger] s[i])
}

/// What std shows in place of bytes that are no UTF-8.
pub uninterp spec fn replaced(bytes: Seq<u8>) -> Seq<char>;

/// The text that bytes are shown as.
pub open spec fn lossy(bytes: Seq<u8>) -> Seq<char> {
    if valid_utf8(bytes) {
        decode_utf8(bytes)
    } else {
        replaced(bytes)
    }
}

/// The text that a name is shown as.
pub open spec fn shown(name: Seq<char>) -> Seq<char> {
    lossy(name_bytes(name))
}

/// `char::from_u32` of std gives the character of a number, unless that is a surrogate or greater
/// than all characters.
pub assume_specification[ char::from_u32 ](n: u32) -> (r: Option<char>)
    ensures
        match r {
            Some(c) => c as u32 == n,
            None => 0xd800 <= n <= 0xdfff || n > 0x10ffff,
        },
;

/// `String::from_utf8_lossy` of std gives the text of bytes that are UTF-8. For others it puts
/// something in place of what is not: the result depends on the bytes alone, and is named by
/// `replaced`.
#[verifier::external_body]
pub(crate) fn lossy_text(bytes: &[u8]) -> (r: String)
    ensures
        r@ == lossy(bytes@),
        !valid_utf8(bytes@) ==> r@ == replaced(bytes@),
{
    String::from_utf8_lossy(bytes).into_owned()
}

/// The bytes of names that follow one another do so too.
pub proof fn lemma_bytes_add(a: Seq<char>, b: Seq<char>)
    ensures
        name_bytes(a + b) == name_bytes(a) + name_bytes(b),
    decreases b.len(),
{
    if b.len() == 0 {
        assert(a + b =~= a);
        assert(name_bytes(a) + name_bytes(b) =~= name_bytes(a));
    } else {
        lemma_bytes_add(a, b.drop_last());
        assert((a + b).drop_last() =~= a + b.drop_last());
        assert(name_bytes(a) + (name_bytes(b.drop_last()) + char_bytes(b.last())) =~= (name_bytes(a)
            + name_bytes(b.drop_last())) + char_bytes(b.last()));
    }
}

proof fn lemma_bytes_of_one(c: char)
    ensures
        name_bytes(seq![c]) == char_bytes(c),
{
    assert(seq![c].drop_last() =~= seq![]);
    assert(name_bytes(seq![]) =~= seq![]);
    assert(name_bytes(seq![c]) =~= char_bytes(c));
}

/// What the first bytes of a name come to.
proof fn lemma_first(bytes: Seq<u8>)
    requires
        bytes.len() > 0,
    ensures
        plain_first(bytes) ==> char_bytes(decode_first_scalar(bytes) as char) == take_first_scalar(
            bytes,
        ),
        !plain_first(bytes) ==> bytes[0] >= 0x80 && char_bytes(mark(bytes[0])) == seq![bytes[0]],
{
    if valid_first_scalar(bytes) {
        let first = take_first_scalar(bytes);
        assert(valid_first_scalar(first));
        assert(pop_first_scalar(first) =~= seq![]);
        assert(valid_utf8(pop_first_scalar(first)));
        decode_utf8_first_scalar(first);
        assert(take_first_scalar(first) =~= first);
        assert(decode_first_scalar(first) == decode_first_scalar(bytes));
    }
    if bytes[0] < 0x80 {
        let b = bytes[0];
        assert((b & 0x7f) as u32 == b as u32) by (bit_vector)
            requires
                b < 0x80,
        ;
        assert(decode_first_scalar(bytes) == b as u32);
        assert(plain_first(bytes));
    }
}

/// The bytes of a name are those that it was made of.
pub proof fn law_bytes_come_back(bytes: Seq<u8>)
    ensures
        name_bytes(name_text(bytes)) == bytes,
    decreases bytes.len(),
{
    if bytes.len() > 0 {
        lemma_first(bytes);
        if plain_first(bytes) {
            let rest = pop_first_scalar(bytes);
            let c = decode_first_scalar(bytes) as char;
            law_bytes_come_back(rest);
            lemma_bytes_add(seq![c], name_text(rest));
            lemma_bytes_of_one(c);
            assert(take_first_scalar(bytes) + rest =~= bytes);
        } else {
            let rest = bytes.skip(1);
            law_bytes_come_back(rest);
            lemma_bytes_add(seq![mark(bytes[0])], name_text(rest));
            lemma_bytes_of_one(mark(bytes[0]));
            assert(seq![bytes[0]] + rest =~= bytes);
        }
    }
}

/// Names that are UTF-8 are the text that they look like, unless there are marks in that.
pub proof fn law_text_is_itself(bytes: Seq<u8>)
    requires
        valid_utf8(bytes),
        unmarked(decode_utf8(bytes)),
    ensures
        name_text(bytes) == decode_utf8(bytes),
    decreases bytes.len(),
{
    if bytes.len() > 0 {
        let text = decode_utf8(bytes);
        let rest = pop_first_scalar(bytes);
        assert(text[0] == decode_first_scalar(bytes) as char);
        assert(text.skip(1) =~= decode_utf8(rest));
        assert forall|i: int| 0 <= i < decode_utf8(rest).len() implies !is_mark(
            #[trigger] decode_utf8(rest)[i],
        ) by {
            assert(decode_utf8(rest)[i] == text[i + 1]);
        }
        law_text_is_itself(rest);
    }
}

/// A path is the path of its directory and its last component with a slash between them, whatever
/// bytes either holds.
pub proof fn law_joined(a: Seq<u8>, b: Seq<u8>)
    ensures
        name_text(a + seq![0x2f] + b) == name_text(a) + seq!['/'] + name_text(b),
    decreases a.len(),
{
    let w = a + seq![0x2f] + b;
    if a.len() == 0 {
        assert(0x2fu8 & 0x7f == 0x2f) by (bit_vector);
        assert(w[0] == 0x2f);
        assert(decode_first_scalar(w) == 0x2f);
        assert(plain_first(w));
        assert(pop_first_scalar(w) =~= b);
        assert(name_text(a) + seq!['/'] + name_text(b) =~= seq!['/'] + name_text(b));
    } else {
        assert(forall|i: int| 0 <= i < a.len() ==> w[i] == a[i]);
        assert(w[a.len() as int] == 0x2f);
        assert(valid_first_scalar(w) == valid_first_scalar(a));
        if plain_first(a) {
            let rest = pop_first_scalar(a);
            law_joined(rest, b);
            assert(pop_first_scalar(w) =~= rest + seq![0x2f] + b);
            let c = decode_first_scalar(a) as char;
            assert(seq![c] + (name_text(rest) + seq!['/'] + name_text(b)) =~= (seq![c] + name_text(
                rest,
            )) + seq!['/'] + name_text(b));
        } else {
            let rest = a.skip(1);
            law_joined(rest, b);
            assert(w.skip(1) =~= rest + seq![0x2f] + b);
            let c = mark(a[0]);
            assert(seq![c] + (name_text(rest) + seq!['/'] + name_text(b)) =~= (seq![c] + name_text(
                rest,
            )) + seq!['/'] + name_text(b));
        }
    }
}

/// A text without marks is a name that is shown as it is.
pub proof fn law_text_is_shown(s: Seq<char>)
    requires
        unmarked(s),
    ensures
        name_bytes(s) == encode_utf8(s),
        shown(s) == s,
    decreases s.len(),
{
    lemma_plain_bytes(s);
    vstd::utf8::encode_utf8_valid_utf8(s);
    vstd::utf8::encode_utf8_decode_utf8(s);
}

proof fn lemma_plain_bytes(s: Seq<char>)
    requires
        unmarked(s),
    ensures
        name_bytes(s) == encode_utf8(s),
    decreases s.len(),
{
    if s.len() > 0 {
        let rest = s.drop_first();
        assert forall|i: int| 0 <= i < rest.len() implies !is_mark(#[trigger] rest[i]) by {
            assert(rest[i] == s[i + 1]);
        }
        lemma_plain_bytes(rest);
        lemma_bytes_add(seq![s[0]], rest);
        lemma_bytes_of_one(s[0]);
        assert(seq![s[0]] + rest =~= s);
        assert(!is_mark(s[0]));
    }
}

/// The byte that a mark stands for.
fn byte_of(c: char) -> (b: u8)
    requires
        is_mark(c),
    ensures
        seq![b] == char_bytes(c),
{
    (c as u32 - 0x10ff00) as u8
}

/// The bytes of a name.
pub fn bytes_of(name: &str) -> (r: Vec<u8>)
    ensures
        r@ == name_bytes(name@),
{
    let v = chars_of(name);
    let mut r: Vec<u8> = Vec::new();
    let mut i: usize = 0;
    assert(v@.take(0) =~= seq![]);
    assert(r@ =~= name_bytes(v@.take(0)));
    while i < v.len()
        invariant
            i <= v@.len(),
            v@ == name@,
            r@ == name_bytes(v@.take(i as int)),
        decreases v.len() - i,
    {
        let c: char = v[i];
        proof {
            assert(v@.take(i + 1).drop_last() =~= v@.take(i as int));
            assert(v@.take(i + 1).last() == c);
        }
        if c >= '\u{10ff80}' {
            r.push(byte_of(c));
            assert(r@ =~= name_bytes(v@.take(i + 1)));
        } else {
            let mut one = String::new();
            one.push(c);
            let mut bytes = vstd::slice::slice_to_vec(one.as_str().as_bytes());
            proof {
                assert(one@ =~= seq![c]);
                assert(one@.drop_first() =~= seq![]);
                assert(encode_utf8(one@.drop_first()) =~= seq![]);
                assert(encode_utf8(one@) =~= encode_scalar(c as u32));
            }
            r.append(&mut bytes);
            assert(r@ =~= name_bytes(v@.take(i + 1)));
        }
        i += 1;
    }
    assert(v@.take(i as int) =~= v@);
    r
}

/// The text that a name is shown as.
pub fn shown_name(name: &str) -> (r: String)
    ensures
        r@ == shown(name@),
{
    lossy_text(bytes_of(name).as_slice())
}

/// The first character of some bytes, if it stands for itself, and how many bytes it takes.
fn first_plain(bytes: &[u8], at: usize) -> (r: Option<(char, usize)>)
    requires
        at < bytes@.len(),
    ensures
        ({
            let rest = bytes@.skip(at as int);
            match r {
                Some((c, n)) => plain_first(rest) && c == decode_first_scalar(rest) as char && n
                    == length_of_first_scalar(rest) && 1 <= n <= rest.len(),
                None => !plain_first(rest),
            }
        }),
{
    let b: u8 = bytes[at];
    let n: usize = if b <= 0x7f {
        1
    } else if 0xc0 <= b && b <= 0xdf {
        2
    } else if 0xe0 <= b && b <= 0xef {
        3
    } else if 0xf0 <= b && b <= 0xf7 {
        4
    } else {
        return None;
    };
    if n > bytes.len() - at {
        return None;
    }
    let part = vstd::slice::slice_subrange(bytes, at, at + n);
    let ghost rest = bytes@.skip(at as int);
    assert(forall|i: int| 0 <= i < n ==> part@[i] == rest[i]);
    assert(valid_first_scalar(rest) == valid_first_scalar(part@));
    assert(pop_first_scalar(part@) =~= seq![]);
    assert(valid_utf8(pop_first_scalar(part@)));
    match utf8_text(part) {
        Ok(s) => {
            let v = chars_of(s.as_str());
            proof {
                assert(decode_utf8(pop_first_scalar(part@)) =~= seq![]);
                assert(v@ =~= seq![decode_first_scalar(part@) as char]);
            }
            let c: char = v[0];
            if c >= '\u{10ff80}' {
                None
            } else {
                Some((c, n))
            }
        },
        Err(_) => None,
    }
}

/// The name that some bytes are.
pub fn text_of(bytes: &[u8]) -> (r: String)
    ensures
        r@ == name_text(bytes@),
        name_bytes(r@) == bytes@,
{
    let mut r = String::new();
    let mut i: usize = 0;
    assert(bytes@.skip(0) =~= bytes@);
    assert(r@ + name_text(bytes@) =~= name_text(bytes@));
    while i < bytes.len()
        invariant
            i <= bytes@.len(),
            r@ + name_text(bytes@.skip(i as int)) == name_text(bytes@),
        decreases bytes.len() - i,
    {
        let ghost rest = bytes@.skip(i as int);
        let ghost before = r@;
        proof {
            lemma_first(rest);
        }
        match first_plain(bytes, i) {
            Some((c, n)) => {
                r.push(c);
                i += n;
                proof {
                    assert(pop_first_scalar(rest) =~= bytes@.skip(i as int));
                    assert(r@ + name_text(bytes@.skip(i as int)) =~= before + (seq![c] + name_text(
                        bytes@.skip(i as int),
                    )));
                }
            },
            None => {
                let c: char = mark_of(bytes[i]);
                r.push(c);
                i += 1;
                proof {
                    assert(rest.skip(1) =~= bytes@.skip(i as int));
                    assert(r@ + name_text(bytes@.skip(i as int)) =~= before + (seq![c] + name_text(
                        bytes@.skip(i as int),
                    )));
                }
            },
        }
    }
    proof {
        assert(bytes@.skip(i as int) =~= seq![]);
        assert(r@ + name_text(bytes@.skip(i as int)) =~= r@);
        law_bytes_come_back(bytes@);
    }
    r
}

/// The name that a text is, such as one that was typed.
pub open spec fn typed(s: Seq<char>) -> Seq<char> {
    name_text(encode_utf8(s))
}

/// The name that a text is, such as one that was typed.
pub fn typed_name(s: &str) -> (r: String)
    ensures
        r@ == typed(s@),
{
    text_of(s.as_bytes())
}

/// A text without marks is the name that it looks like.
pub proof fn law_typed_is_itself(s: Seq<char>)
    requires
        unmarked(s),
    ensures
        typed(s) == s,
{
    vstd::utf8::encode_utf8_valid_utf8(s);
    vstd::utf8::encode_utf8_decode_utf8(s);
    law_text_is_itself(encode_utf8(s));
}

/// The character that stands for a byte that is not ASCII.
fn mark_of(b: u8) -> (c: char)
    requires
        b >= 0x80,
    ensures
        c == mark(b),
{
    match char::from_u32(0x10ff00 + b as u32) {
        Some(c) => {
            proof {
                vstd::utf8::char_u32_cast(c, (0x10ff00 + b) as u32);
            }
            c
        },
        None => ' ',
    }
}

} // verus!
