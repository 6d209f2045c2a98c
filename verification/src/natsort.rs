//! Natural order of file names: numbers in names are compared by value, and case only matters
//! where names are equal otherwise. Names can be any bytes: those that are no UTF-8 are compared by
//! the text that they are shown as.
use vstd::prelude::*;
use vstd::utf8::{encode_utf8, is_ascii_chars};

use crate::decimal::{
    decimal_bits, infinity_bits, law_decimal_order, lemma_units_positive, parse_decimal,
    parse_double,
};
use crate::pattern::{
    any_digit, digits_end, group_inside, group_of, group_text, lemma_end_behind, lemma_stop_behind,
    next_stop, segment_end, segment_match, segment_matches, segment_source, Group, Pattern,
};
use crate::filenames::{bytes_of, lossy, lossy_text, name_bytes};
use crate::path::texts;
use crate::number::is_digit;
use crate::text::{ascii_lower, chars_of, equal_ignoring_case, string_of};

verus! {

/// A character beyond ASCII in lower case. It may become several characters.
pub uninterp spec fn wide_lower(c: char) -> Seq<char>;

/// A text with a capital sigma in lower case.
pub uninterp spec fn sigma_lowercase(s: Seq<char>) -> Seq<char>;

/// A character in lower case.
pub open spec fn lower_of(c: char) -> Seq<char> {
    if c <= '\u{7f}' {
        seq![ascii_lower(c)]
    } else {
        wide_lower(c)
    }
}

/// A text whose characters are each in lower case.
pub open spec fn lowered(s: Seq<char>) -> Seq<char>
    decreases s.len(),
{
    if s.len() == 0 {
        seq![]
    } else {
        lowered(s.drop_last()) + lower_of(s.last())
    }
}

/// The one letter whose lower case depends on where in a word it stands.
pub open spec fn has_sigma(s: Seq<char>) -> bool {
    exists|i: int| 0 <= i < s.len() && #[trigger] s[i] == '\u{3a3}'
}

/// A text in lower case.
pub open spec fn lowercase(s: Seq<char>) -> Seq<char> {
    if has_sigma(s) {
        sigma_lowercase(s)
    } else {
        lowered(s)
    }
}

/// `str::to_lowercase` of std puts each character in lower case. In ASCII the letters from A to Z
/// become those from a to z. What other characters become depends on the character alone, and is
/// named by `wide_lower`, but for the capital sigma, which becomes another letter at the end of a
/// word. What a text with a sigma becomes depends on the text alone, and is named by
/// `sigma_lowercase`.
#[verifier::external_body]
pub(crate) fn to_lowercase(s: &str) -> (r: String)
    ensures
        r@ == lowercase(s@),
        has_sigma(s@) ==> r@ == sigma_lowercase(s@),
        s@.len() == 1 && s@[0] > '\u{7f}' && !has_sigma(s@) ==> r@ == wide_lower(s@[0]),
{
    s.to_lowercase()
}

/// How two things are ordered.
#[derive(Clone, Copy, Debug, PartialEq, Eq, Structural)]
pub enum Order {
    Less,
    Equal,
    Greater,
}

impl Order {
    /// The order the other way round.
    pub open spec fn reversed(self) -> Order {
        match self {
            Order::Less => Order::Greater,
            Order::Equal => Order::Equal,
            Order::Greater => Order::Less,
        }
    }

    /// The order as std has it.
    pub fn ordering(self) -> (r: std::cmp::Ordering)
        ensures
            self is Less <==> r is Less,
            self is Equal <==> r is Equal,
            self is Greater <==> r is Greater,
    {
        match self {
            Order::Less => std::cmp::Ordering::Less,
            Order::Equal => std::cmp::Ordering::Equal,
            Order::Greater => std::cmp::Ordering::Greater,
        }
    }
}

/// A part of a name: a run of text with the number that follows it, or the text behind the last
/// number. The number is held as the bits of a double that is not negative, so that numbers are
/// ordered as their bits are.
#[derive(Debug)]
pub enum Segment {
    Seg(String, u64),
    Last(String),
}

/// What a part of a name is.
pub enum SegmentView {
    Seg(Seq<char>, u64),
    Last(Seq<char>),
}

impl View for Segment {
    type V = SegmentView;

    open spec fn view(&self) -> SegmentView {
        match self {
            Segment::Seg(s, d) => SegmentView::Seg(s@, *d),
            Segment::Last(s) => SegmentView::Last(s@),
        }
    }
}

/// The order of texts, by their characters from left to right.
pub open spec fn compare_chars(a: Seq<char>, b: Seq<char>) -> Order
    decreases a.len(),
{
    if a.len() == 0 && b.len() == 0 {
        Order::Equal
    } else if a.len() == 0 {
        Order::Less
    } else if b.len() == 0 {
        Order::Greater
    } else if a[0] < b[0] {
        Order::Less
    } else if a[0] > b[0] {
        Order::Greater
    } else {
        compare_chars(a.skip(1), b.skip(1))
    }
}

/// The order of names that are the same otherwise, by their bytes from left to right.
pub open spec fn compare_bytes(a: Seq<u8>, b: Seq<u8>) -> Order
    decreases a.len(),
{
    if a.len() == 0 && b.len() == 0 {
        Order::Equal
    } else if a.len() == 0 {
        Order::Less
    } else if b.len() == 0 {
        Order::Greater
    } else if a[0] < b[0] {
        Order::Less
    } else if a[0] > b[0] {
        Order::Greater
    } else {
        compare_bytes(a.skip(1), b.skip(1))
    }
}

/// The order of two numbers.
pub open spec fn compare_numbers(a: u64, b: u64) -> Order {
    if a < b {
        Order::Less
    } else if a > b {
        Order::Greater
    } else {
        Order::Equal
    }
}

/// The first order that tells two things apart.
pub open spec fn and_then(first: Order, second: Order) -> Order {
    if first == Order::Equal {
        second
    } else {
        first
    }
}

/// The order of two parts: by their text, then a part without a number first, then by number.
pub open spec fn compare_segments(a: SegmentView, b: SegmentView) -> Order {
    match (a, b) {
        (SegmentView::Seg(s, d), SegmentView::Seg(t, e)) => and_then(
            compare_chars(s, t),
            compare_numbers(d, e),
        ),
        (SegmentView::Seg(s, _), SegmentView::Last(t)) => and_then(
            compare_chars(s, t),
            Order::Greater,
        ),
        (SegmentView::Last(s), SegmentView::Last(t)) => compare_chars(s, t),
        (SegmentView::Last(s), SegmentView::Seg(t, _)) => and_then(
            compare_chars(s, t),
            Order::Less,
        ),
    }
}

/// The order of the first parts that differ.
pub open spec fn compare_lists(a: Seq<SegmentView>, b: Seq<SegmentView>) -> Order
    decreases a.len(),
{
    if a.len() == 0 || b.len() == 0 {
        Order::Equal
    } else {
        and_then(compare_segments(a[0], b[0]), compare_lists(a.skip(1), b.skip(1)))
    }
}

/// The part of a name that a match stands for.
pub open spec fn segment_of(text: Seq<char>, groups: Seq<Group>) -> SegmentView {
    let whole = group_text(groups, 0, text).unwrap_or(Seq::empty());
    let run = group_text(groups, 1, text).unwrap_or(Seq::empty());
    let number = group_text(groups, 2, text).unwrap_or(Seq::empty());
    if number == seq!['.'] {
        SegmentView::Seg(run, 0)
    } else {
        match decimal_bits(number) {
            Some(bits) => if bits < infinity_bits() {
                SegmentView::Seg(run, bits as u64)
            } else {
                SegmentView::Seg(whole, 0)
            },
            None => SegmentView::Seg(whole, 0),
        }
    }
}

/// Where the last match ends.
pub open spec fn last_end(matches: Seq<Seq<Group>>) -> nat {
    if matches.len() > 0 && matches.last().len() > 0 {
        match matches.last()[0] {
            Some((_, end)) => end as nat,
            None => 0,
        }
    } else {
        0
    }
}

/// The parts of a name in lower case: one for each match, and the text behind the last one.
pub open spec fn segments(text: Seq<char>, matches: Seq<Seq<Group>>) -> Seq<SegmentView> {
    Seq::new(matches.len(), |i: int| segment_of(text, matches[i])).push(
        SegmentView::Last(text.skip(last_end(matches) as int)),
    )
}

/// The text that a name is ordered by.
pub open spec fn folded(original: Seq<u8>) -> Seq<char> {
    lowercase(lossy(original))
}

/// The parts of a name.
pub open spec fn parsed(original: Seq<u8>) -> Seq<SegmentView> {
    segments(folded(original), segment_matches(folded(original), 0))
}

/// A name with the key that it is sorted by.
#[derive(Debug)]
pub struct ParsedString {
    original: Vec<u8>,
    segs: Vec<Segment>,
}

impl ParsedString {
    /// The bytes of the name.
    pub closed spec fn original(self) -> Seq<u8> {
        self.original@
    }

    /// The parts of the name in lower case.
    pub closed spec fn segs(self) -> Seq<SegmentView> {
        self.segs@.map_values(|s: Segment| s@)
    }

    /// Whether the parts are those of the name.
    pub open spec fn wf(self) -> bool {
        self.segs() == parsed(self.original())
    }

    /// The order of two names: by their parts, then by the names themselves.
    pub open spec fn compare(self, other: ParsedString) -> Order {
        and_then(
            compare_lists(self.segs(), other.segs()),
            compare_bytes(self.original(), other.original()),
        )
    }
}

/// Compares two texts from a place on.
fn order_chars(a: &[char], b: &[char]) -> (r: Order)
    ensures
        r == compare_chars(a@, b@),
{
    let mut i: usize = 0;
    assert(a@.skip(0) =~= a@);
    assert(b@.skip(0) =~= b@);
    while i < a.len() && i < b.len()
        invariant
            i <= a.len(),
            i <= b.len(),
            compare_chars(a@, b@) == compare_chars(a@.skip(i as int), b@.skip(i as int)),
        decreases a.len() - i,
    {
        if a[i] < b[i] {
            return Order::Less;
        }
        if a[i] > b[i] {
            return Order::Greater;
        }
        i += 1;
        assert(a@.skip(i - 1).skip(1) =~= a@.skip(i as int));
        assert(b@.skip(i - 1).skip(1) =~= b@.skip(i as int));
    }
    if i < b.len() {
        Order::Less
    } else if i < a.len() {
        Order::Greater
    } else {
        Order::Equal
    }
}

/// Compares two runs of bytes.
fn order_bytes(a: &[u8], b: &[u8]) -> (r: Order)
    ensures
        r == compare_bytes(a@, b@),
{
    let mut i: usize = 0;
    assert(a@.skip(0) =~= a@);
    assert(b@.skip(0) =~= b@);
    while i < a.len() && i < b.len()
        invariant
            i <= a.len(),
            i <= b.len(),
            compare_bytes(a@, b@) == compare_bytes(a@.skip(i as int), b@.skip(i as int)),
        decreases a.len() - i,
    {
        if a[i] < b[i] {
            return Order::Less;
        }
        if a[i] > b[i] {
            return Order::Greater;
        }
        i += 1;
        assert(a@.skip(i - 1).skip(1) =~= a@.skip(i as int));
        assert(b@.skip(i - 1).skip(1) =~= b@.skip(i as int));
    }
    if i < b.len() {
        Order::Less
    } else if i < a.len() {
        Order::Greater
    } else {
        Order::Equal
    }
}

/// Compares two texts.
pub fn order_texts(a: &str, b: &str) -> (r: Order)
    ensures
        r == compare_chars(a@, b@),
{
    let a = chars_of(a);
    let b = chars_of(b);
    order_chars(a.as_slice(), b.as_slice())
}

/// Compares two parts.
fn order_segments(a: &Segment, b: &Segment) -> (r: Order)
    ensures
        r == compare_segments(a@, b@),
{
    match (a, b) {
        (Segment::Seg(s, d), Segment::Seg(t, e)) => {
            let c = order_texts(s.as_str(), t.as_str());
            match c {
                Order::Equal => {},
                _ => return c,
            }
            if *d < *e {
                Order::Less
            } else if *d > *e {
                Order::Greater
            } else {
                Order::Equal
            }
        },
        (Segment::Seg(s, _), Segment::Last(t)) => {
            match order_texts(s.as_str(), t.as_str()) {
                Order::Less => Order::Less,
                _ => Order::Greater,
            }
        },
        (Segment::Last(s), Segment::Last(t)) => order_texts(s.as_str(), t.as_str()),
        (Segment::Last(s), Segment::Seg(t, _)) => {
            match order_texts(s.as_str(), t.as_str()) {
                Order::Greater => Order::Greater,
                _ => Order::Less,
            }
        },
    }
}

/// The part of a name that a match stands for.
fn read_segment(text: &[char], groups: &[Group]) -> (r: Segment)
    requires
        forall|j: int| 0 <= j < groups@.len() ==> group_inside(#[trigger] groups@[j], text@),
    ensures
        r@ == segment_of(text@, groups@),
{
    let none: Vec<char> = Vec::new();
    assert(none@ =~= Seq::<char>::empty());
    let whole: &[char] = match group_of(groups, 0, text) {
        Some(g) => g,
        None => none.as_slice(),
    };
    let run: &[char] = match group_of(groups, 1, text) {
        Some(g) => g,
        None => none.as_slice(),
    };
    let number: &[char] = match group_of(groups, 2, text) {
        Some(g) => g,
        None => none.as_slice(),
    };
    if number.len() == 1 && number[0] == '.' {
        assert(number@ =~= seq!['.']);
        return Segment::Seg(string_of(run), 0);
    }
    match parse_double(number) {
        Some(bits) => if bits < 0x7ff0_0000_0000_0000 {
            Segment::Seg(string_of(run), bits)
        } else {
            Segment::Seg(string_of(whole), 0)
        },
        None => Segment::Seg(string_of(whole), 0),
    }
}

impl ParsedString {
    /// The key of a name, given the name in lower case and the matches of the segment expression
    /// in that.
    pub fn from_matches(
        original: Vec<u8>,
        lower: &str,
        matches: &Vec<Vec<Group>>,
    ) -> (r: ParsedString)
        requires
            forall|i: int, j: int|
                0 <= i < matches@.len() && 0 <= j < matches@[i]@.len() ==> group_inside(
                    #[trigger] matches@[i]@[j],
                    lower@,
                ),
        ensures
            r.original() == original@,
            r.segs() == segments(lower@, matches@.map_values(|m: Vec<Group>| m@)),
    {
        let text = chars_of(lower);
        let ghost ms = matches@.map_values(|m: Vec<Group>| m@);
        let mut segs: Vec<Segment> = Vec::new();
        let mut end: usize = 0;
        let mut i: usize = 0;
        while i < matches.len()
            invariant
                i <= matches.len(),
                text@ == lower@,
                ms == matches@.map_values(|m: Vec<Group>| m@),
                end <= text@.len(),
                end == last_end(ms.take(i as int)),
                segs@.len() == i,
                forall|k: int| 0 <= k < i ==> (#[trigger] segs@[k])@ == segment_of(lower@, ms[k]),
                forall|i: int, j: int|
                    0 <= i < matches@.len() && 0 <= j < matches@[i]@.len() ==> group_inside(
                        #[trigger] matches@[i]@[j],
                        lower@,
                    ),
            decreases matches.len() - i,
        {
            let groups = &matches[i];
            segs.push(read_segment(text.as_slice(), groups.as_slice()));
            proof {
                assert(ms.take(i + 1).last() == groups@);
            }
            if groups.len() > 0 {
                assert(group_inside(matches@[i as int]@[0], lower@));
                end = match groups[0] {
                    Some((_, e)) => e,
                    None => 0,
                };
            } else {
                end = 0;
            }
            i += 1;
        }
        let last = vstd::slice::slice_subrange(text.as_slice(), end, text.len());
        segs.push(Segment::Last(string_of(last)));
        let r = ParsedString { original, segs };
        proof {
            assert(ms.take(i as int) =~= ms);
            assert(last@ =~= lower@.skip(end as int));
            assert(r.segs() =~= segments(lower@, ms));
        }
        r
    }

    /// The name, as it was given.
    pub fn into_original(self) -> (r: Vec<u8>)
        ensures
            r@ == self.original(),
    {
        self.original
    }

    /// Compares two names, as std's sorting wants it.
    pub fn cmp(&self, other: &Self) -> (r: std::cmp::Ordering)
        ensures
            r is Less <==> self.compare(*other) is Less,
            r is Equal <==> self.compare(*other) is Equal,
            r is Greater <==> self.compare(*other) is Greater,
    {
        self.order(other).ordering()
    }

    /// Compares two names.
    pub fn order(&self, other: &Self) -> (r: Order)
        ensures
            r == self.compare(*other),
    {
        let ghost a = self.segs();
        let ghost b = other.segs();
        let mut i: usize = 0;
        assert(a.skip(0) =~= a);
        assert(b.skip(0) =~= b);
        while i < self.segs.len() && i < other.segs.len()
            invariant
                i <= self.segs.len(),
                i <= other.segs.len(),
                a == self.segs(),
                b == other.segs(),
                compare_lists(a, b) == compare_lists(a.skip(i as int), b.skip(i as int)),
            decreases self.segs.len() - i,
        {
            let c = order_segments(&self.segs[i], &other.segs[i]);
            match c {
                Order::Equal => {},
                _ => return c,
            }
            i += 1;
            assert(a.skip(i - 1).skip(1) =~= a.skip(i as int));
            assert(b.skip(i - 1).skip(1) =~= b.skip(i as int));
        }
        order_bytes(self.original.as_slice(), other.original.as_slice())
    }
}

/// The key of a name, by a compiled segment expression.
pub fn key_with(segment: &Pattern, s: &[u8]) -> (r: ParsedString)
    requires
        segment.source() == segment_source(),
    ensures
        r.original() == s@,
        r.wf(),
{
    let text = lossy_text(s);
    let lower = to_lowercase(text.as_str());
    let matches = segment.matches(lower.as_str());
    ParsedString::from_matches(vstd::slice::slice_to_vec(s), lower.as_str(), &matches)
}

/// The key of a name, by its bytes.
pub fn key(s: &[u8]) -> (r: ParsedString)
    ensures
        r.original() == s@,
        r.wf(),
{
    key_with(&Pattern::segment(), s)
}

/// Whether the orders of a first and a second, of the second and a third, and of the first and the
/// third thing agree.
pub open spec fn orders_agree(ab: Order, bc: Order, ac: Order) -> bool {
    &&& ab is Less && !(bc is Greater) ==> ac is Less
    &&& !(ab is Greater) && bc is Less ==> ac is Less
    &&& ab is Equal && bc is Equal ==> ac is Equal
}

proof fn lemma_chars_antisymmetric(a: Seq<char>, b: Seq<char>)
    ensures
        compare_chars(b, a) == compare_chars(a, b).reversed(),
        compare_chars(a, b) is Equal <==> a == b,
    decreases a.len(),
{
    if a.len() > 0 && b.len() > 0 {
        lemma_chars_antisymmetric(a.skip(1), b.skip(1));
        if a[0] == b[0] && a.skip(1) == b.skip(1) {
            assert(a =~= seq![a[0]] + a.skip(1));
            assert(b =~= seq![b[0]] + b.skip(1));
        }
    } else if a.len() == 0 && b.len() == 0 {
        assert(a =~= b);
    }
}

proof fn lemma_chars_transitive(a: Seq<char>, b: Seq<char>, c: Seq<char>)
    ensures
        orders_agree(compare_chars(a, b), compare_chars(b, c), compare_chars(a, c)),
    decreases a.len(),
{
    if a.len() > 0 && b.len() > 0 && c.len() > 0 {
        lemma_chars_transitive(a.skip(1), b.skip(1), c.skip(1));
    }
}

proof fn lemma_bytes_antisymmetric(a: Seq<u8>, b: Seq<u8>)
    ensures
        compare_bytes(b, a) == compare_bytes(a, b).reversed(),
        compare_bytes(a, b) is Equal <==> a == b,
    decreases a.len(),
{
    if a.len() > 0 && b.len() > 0 {
        lemma_bytes_antisymmetric(a.skip(1), b.skip(1));
        if a[0] == b[0] && a.skip(1) == b.skip(1) {
            assert(a =~= seq![a[0]] + a.skip(1));
            assert(b =~= seq![b[0]] + b.skip(1));
        }
    } else if a.len() == 0 && b.len() == 0 {
        assert(a =~= b);
    }
}

proof fn lemma_bytes_transitive(a: Seq<u8>, b: Seq<u8>, c: Seq<u8>)
    ensures
        orders_agree(compare_bytes(a, b), compare_bytes(b, c), compare_bytes(a, c)),
    decreases a.len(),
{
    if a.len() > 0 && b.len() > 0 && c.len() > 0 {
        lemma_bytes_transitive(a.skip(1), b.skip(1), c.skip(1));
    }
}

/// The text of a part.
spec fn segment_text(s: SegmentView) -> Seq<char> {
    match s {
        SegmentView::Seg(t, _) => t,
        SegmentView::Last(t) => t,
    }
}

proof fn lemma_segments_antisymmetric(a: SegmentView, b: SegmentView)
    ensures
        compare_segments(b, a) == compare_segments(a, b).reversed(),
        compare_segments(a, b) is Equal <==> a == b,
{
    lemma_chars_antisymmetric(segment_text(a), segment_text(b));
}

proof fn lemma_segments_transitive(a: SegmentView, b: SegmentView, c: SegmentView)
    ensures
        orders_agree(compare_segments(a, b), compare_segments(b, c), compare_segments(a, c)),
{
    lemma_chars_transitive(segment_text(a), segment_text(b), segment_text(c));
    lemma_chars_antisymmetric(segment_text(a), segment_text(b));
    lemma_chars_antisymmetric(segment_text(b), segment_text(c));
    lemma_chars_antisymmetric(segment_text(a), segment_text(c));
}

/// Whether the parts are those of a name: the last one, and no other, is without a number.
pub open spec fn terminated(s: Seq<SegmentView>) -> bool {
    &&& s.len() > 0
    &&& s.last() is Last
    &&& forall|i: int| 0 <= i < s.len() - 1 ==> #[trigger] s[i] is Seg
}

proof fn lemma_lists_antisymmetric(a: Seq<SegmentView>, b: Seq<SegmentView>)
    requires
        terminated(a),
        terminated(b),
    ensures
        compare_lists(b, a) == compare_lists(a, b).reversed(),
        compare_lists(a, b) is Equal <==> a == b,
    decreases a.len(),
{
    lemma_segments_antisymmetric(a[0], b[0]);
    if a[0] == b[0] {
        if a.len() > 1 {
            assert(terminated(a.skip(1)));
            assert(terminated(b.skip(1)));
            lemma_lists_antisymmetric(a.skip(1), b.skip(1));
            if a.skip(1) == b.skip(1) {
                assert(a =~= seq![a[0]] + a.skip(1));
                assert(b =~= seq![b[0]] + b.skip(1));
            }
        } else {
            assert(b.len() == 1);
            assert(a =~= b);
            assert(compare_lists(a.skip(1), b.skip(1)) is Equal);
            assert(compare_lists(b.skip(1), a.skip(1)) is Equal);
        }
    }
}

proof fn lemma_lists_transitive(
    a: Seq<SegmentView>,
    b: Seq<SegmentView>,
    c: Seq<SegmentView>,
)
    requires
        terminated(a),
        terminated(b),
        terminated(c),
    ensures
        orders_agree(compare_lists(a, b), compare_lists(b, c), compare_lists(a, c)),
    decreases a.len(),
{
    lemma_segments_transitive(a[0], b[0], c[0]);
    lemma_segments_antisymmetric(a[0], b[0]);
    lemma_segments_antisymmetric(b[0], c[0]);
    lemma_segments_antisymmetric(a[0], c[0]);
    if a[0] == b[0] && b[0] == c[0] && a.len() > 1 {
        assert(terminated(a.skip(1)));
        assert(terminated(b.skip(1)));
        assert(terminated(c.skip(1)));
        lemma_lists_transitive(a.skip(1), b.skip(1), c.skip(1));
    } else if a[0] == b[0] && b[0] == c[0] {
        assert(b.len() == 1 && c.len() == 1);
        assert(compare_lists(a.skip(1), b.skip(1)) is Equal);
        assert(compare_lists(b.skip(1), c.skip(1)) is Equal);
        assert(compare_lists(a.skip(1), c.skip(1)) is Equal);
    }
}

proof fn lemma_parsed_terminated(s: ParsedString)
    requires
        s.wf(),
    ensures
        terminated(s.segs()),
{
}

/// Names are in the opposite order the other way round, and only the same name is equal.
pub proof fn law_antisymmetric(a: ParsedString, b: ParsedString)
    requires
        a.wf(),
        b.wf(),
    ensures
        b.compare(a) == a.compare(b).reversed(),
        a.compare(b) is Equal <==> a.original() == b.original(),
{
    lemma_parsed_terminated(a);
    lemma_parsed_terminated(b);
    lemma_lists_antisymmetric(a.segs(), b.segs());
    lemma_bytes_antisymmetric(a.original(), b.original());
}

/// The order of names is transitive.
pub proof fn law_transitive(a: ParsedString, b: ParsedString, c: ParsedString)
    requires
        a.wf(),
        b.wf(),
        c.wf(),
    ensures
        orders_agree(a.compare(b), b.compare(c), a.compare(c)),
{
    lemma_parsed_terminated(a);
    lemma_parsed_terminated(b);
    lemma_parsed_terminated(c);
    lemma_lists_transitive(a.segs(), b.segs(), c.segs());
    lemma_lists_antisymmetric(a.segs(), b.segs());
    lemma_lists_antisymmetric(b.segs(), c.segs());
    lemma_lists_antisymmetric(a.segs(), c.segs());
    lemma_bytes_transitive(a.original(), b.original(), c.original());
}

/// Whether one of several names goes before another: it is lesser, or equal and was before it.
pub open spec fn goes_before(keys: Seq<ParsedString>, i: int, j: int) -> bool {
    ||| keys[i].compare(keys[j]) is Less
    ||| keys[i].compare(keys[j]) is Equal && i < j
}

proof fn lemma_goes_before_transitive(keys: Seq<ParsedString>, i: int, j: int, k: int)
    requires
        0 <= i < keys.len(),
        0 <= j < keys.len(),
        0 <= k < keys.len(),
        keys[i].wf() && keys[j].wf() && keys[k].wf(),
        goes_before(keys, i, j),
        goes_before(keys, j, k),
    ensures
        goes_before(keys, i, k),
{
    law_transitive(keys[i], keys[j], keys[k]);
}

/// Whether the places of names are in the order of the names.
pub open spec fn in_order(keys: Seq<ParsedString>, v: Seq<usize>) -> bool {
    forall|i: int, j: int| 0 <= i < j < v.len() ==> goes_before(keys, #[trigger] v[i] as int, #[trigger] v[j] as int)
}

/// Whether places lie in a range.
pub open spec fn in_range(v: Seq<usize>, lo: int, hi: int) -> bool {
    forall|i: int| 0 <= i < v.len() ==> lo <= #[trigger] v[i] < hi
}

/// Merges the places of two adjacent ranges of names, each in order.
fn merge(keys: &Vec<ParsedString>, left: Vec<usize>, right: Vec<usize>, mid: usize) -> (v: Vec<usize>)
    requires
        forall|i: int| 0 <= i < keys@.len() ==> (#[trigger] keys@[i]).wf(),
        mid <= keys@.len(),
        in_range(left@, 0, mid as int),
        in_range(right@, mid as int, keys@.len() as int),
        in_order(keys@, left@),
        in_order(keys@, right@),
        left@.len() + right@.len() <= usize::MAX,
    ensures
        v@.len() == left@.len() + right@.len(),
        in_order(keys@, v@),
        forall|k: int|
            0 <= k < v@.len() ==> left@.contains(#[trigger] v@[k]) || right@.contains(v@[k]),
{
    let mut v: Vec<usize> = Vec::new();
    let mut i: usize = 0;
    let mut j: usize = 0;
    while i < left.len() || j < right.len()
        invariant
            i <= left@.len(),
            j <= right@.len(),
            v@.len() == i + j,
            forall|i: int| 0 <= i < keys@.len() ==> (#[trigger] keys@[i]).wf(),
            mid <= keys@.len(),
            in_range(left@, 0, mid as int),
            in_range(right@, mid as int, keys@.len() as int),
            in_order(keys@, left@),
            in_order(keys@, right@),
            in_order(keys@, v@),
            left@.len() + right@.len() <= usize::MAX,
            forall|k: int| 0 <= k < v@.len() ==> left@.contains(#[trigger] v@[k]) || right@.contains(v@[k]),
            forall|k: int, m: int|
                0 <= k < v@.len() && i <= m < left@.len() ==> goes_before(
                    keys@,
                    #[trigger] v@[k] as int,
                    #[trigger] left@[m] as int,
                ),
            forall|k: int, m: int|
                0 <= k < v@.len() && j <= m < right@.len() ==> goes_before(
                    keys@,
                    #[trigger] v@[k] as int,
                    #[trigger] right@[m] as int,
                ),
        decreases left.len() + right.len() - i - j,
    {
        let take_left: bool = if i == left.len() {
            false
        } else if j == right.len() {
            true
        } else {
            match keys[right[j]].order(&keys[left[i]]) {
                Order::Less => false,
                _ => true,
            }
        };
        let ghost old_v = v@;
        if take_left {
            let x: usize = left[i];
            proof {
                if j < right.len() {
                    let y = right@[j as int] as int;
                    law_antisymmetric(keys@[x as int], keys@[y]);
                    assert(goes_before(keys@, x as int, y));
                }
                assert forall|m: int| j <= m < right@.len() implies goes_before(
                    keys@,
                    x as int,
                    #[trigger] right@[m] as int,
                ) by {
                    if m > j {
                        lemma_goes_before_transitive(
                            keys@,
                            x as int,
                            right@[j as int] as int,
                            right@[m] as int,
                        );
                    }
                }
                assert(left@.contains(x));
            }
            v.push(x);
            i += 1;
        } else {
            let y: usize = right[j];
            proof {
                if i < left.len() {
                    assert(goes_before(keys@, y as int, left@[i as int] as int));
                }
                assert forall|m: int| i <= m < left@.len() implies goes_before(
                    keys@,
                    y as int,
                    #[trigger] left@[m] as int,
                ) by {
                    if m > i {
                        lemma_goes_before_transitive(
                            keys@,
                            y as int,
                            left@[i as int] as int,
                            left@[m] as int,
                        );
                    }
                }
                assert(right@.contains(y));
            }
            v.push(y);
            j += 1;
        }
        proof {
            assert forall|k: int| 0 <= k < v@.len() implies left@.contains(#[trigger] v@[k])
                || right@.contains(v@[k]) by {
                if k < old_v.len() {
                    assert(v@[k] == old_v[k]);
                }
            }
        }
    }
    v
}

/// The places of a range of names in the order of the names.
fn order_range(keys: &Vec<ParsedString>, lo: usize, hi: usize) -> (v: Vec<usize>)
    requires
        forall|i: int| 0 <= i < keys@.len() ==> (#[trigger] keys@[i]).wf(),
        lo <= hi <= keys@.len(),
    ensures
        v@.len() == hi - lo,
        in_range(v@, lo as int, hi as int),
        in_order(keys@, v@),
    decreases hi - lo,
{
    let mut v: Vec<usize> = Vec::new();
    if lo == hi {
        return v;
    }
    if hi - lo == 1 {
        v.push(lo);
        return v;
    }
    let mid: usize = lo + (hi - lo) / 2;
    let left = order_range(keys, lo, mid);
    let right = order_range(keys, mid, hi);
    merge(keys, left, right, mid)
}

/// The places of names in the order of the names. Every place occurs once, and names that are
/// equal keep their order.
pub fn sorted_places(keys: &Vec<ParsedString>) -> (v: Vec<usize>)
    requires
        forall|i: int| 0 <= i < keys@.len() ==> (#[trigger] keys@[i]).wf(),
    ensures
        v@.len() == keys@.len(),
        in_range(v@, 0, keys@.len() as int),
        in_order(keys@, v@),
        v@.no_duplicates(),
{
    let v = order_range(keys, 0, keys.len());
    proof {
        assert forall|i: int, j: int| 0 <= i < j < v@.len() implies v@[i] != v@[j] by {
            assert(goes_before(keys@, v@[i] as int, v@[j] as int));
            law_antisymmetric(keys@[v@[i] as int], keys@[v@[i] as int]);
        }
    }
    v
}

/// The order of two names by their bytes: by their parts, then by the bytes themselves.
pub open spec fn compare_raw(a: Seq<u8>, b: Seq<u8>) -> Order {
    and_then(compare_lists(parsed(a), parsed(b)), compare_bytes(a, b))
}

/// The order of two names.
pub open spec fn compare_names(a: Seq<char>, b: Seq<char>) -> Order {
    compare_raw(name_bytes(a), name_bytes(b))
}

/// The order of names is antisymmetric, and only the same name is equal.
pub proof fn law_names_antisymmetric(a: Seq<char>, b: Seq<char>)
    ensures
        compare_names(b, a) == compare_names(a, b).reversed(),
        compare_names(a, b) is Equal <==> name_bytes(a) == name_bytes(b),
{
    lemma_lists_antisymmetric(parsed(name_bytes(a)), parsed(name_bytes(b)));
    lemma_bytes_antisymmetric(name_bytes(a), name_bytes(b));
}

/// The number of a part of a name, as a double in units. There is none where the text is no
/// number, or one that is too large.
pub open spec fn number_units(number: Seq<char>) -> Option<nat> {
    if number == seq!['.'] {
        Some(0)
    } else {
        match (parse_decimal(number), decimal_bits(number)) {
            (Some(d), Some(bits)) => if bits < infinity_bits() {
                Some(d.units())
            } else {
                None
            },
            _ => None,
        }
    }
}

proof fn lemma_first_difference(a: Seq<SegmentView>, b: Seq<SegmentView>, k: int)
    requires
        0 <= k < a.len(),
        k < b.len(),
        forall|j: int| 0 <= j < k ==> #[trigger] a[j] == b[j],
        compare_segments(a[k], b[k]) is Less,
    ensures
        compare_lists(a, b) is Less,
    decreases k,
{
    if k > 0 {
        lemma_segments_antisymmetric(a[0], b[0]);
        assert(a[0] == b[0]);
        assert forall|j: int| 0 <= j < k - 1 implies #[trigger] a.skip(1)[j] == b.skip(1)[j] by {
            assert(a[j + 1] == b[j + 1]);
        }
        lemma_first_difference(a.skip(1), b.skip(1), k - 1);
    }
}

/// Names that are the same up to a number are ordered by the value of that number, and not by how
/// it is written.
pub proof fn law_ordered_by_number(a: Seq<u8>, b: Seq<u8>, k: int)
    requires
        ({
            let ma = segment_matches(folded(a), 0);
            let mb = segment_matches(folded(b), 0);
            &&& 0 <= k < ma.len() && k < mb.len()
            &&& forall|j: int| 0 <= j < k ==> #[trigger] parsed(a)[j] == parsed(b)[j]
            &&& group_text(ma[k], 1, folded(a)) == group_text(mb[k], 1, folded(b))
            &&& group_text(ma[k], 2, folded(a)) matches Some(n) && group_text(
                mb[k],
                2,
                folded(b),
            ) matches Some(m) && number_units(n) matches Some(u) && number_units(m) matches Some(v)
                && u < v
        }),
    ensures
        compare_raw(a, b) is Less,
        compare_raw(b, a) is Greater,
{
    let ma = segment_matches(folded(a), 0);
    let mb = segment_matches(folded(b), 0);
    let n = group_text(ma[k], 2, folded(a))->0;
    let m = group_text(mb[k], 2, folded(b))->0;
    let run = group_text(ma[k], 1, folded(a)).unwrap_or(Seq::empty());
    if n == seq!['.'] {
        lemma_units_positive(m);
    } else {
        law_decimal_order(n, m);
    }
    lemma_chars_antisymmetric(run, run);
    assert(parsed(a)[k] == segment_of(folded(a), ma[k]));
    assert(parsed(b)[k] == segment_of(folded(b), mb[k]));
    lemma_first_difference(parsed(a), parsed(b), k);
    lemma_lists_antisymmetric(parsed(a), parsed(b));
}

/// Whether a text is a decimal number: digits of ASCII, with or without a full stop and more digits
/// behind that.
pub open spec fn is_numeral(s: Seq<char>) -> bool {
    exists|k: int| #[trigger] is_numeral_at(s, k)
}

/// Whether a text is a decimal number whose digits before the full stop are so many.
pub open spec fn is_numeral_at(s: Seq<char>, k: int) -> bool {
    &&& 0 < k <= s.len()
    &&& forall|i: int| 0 <= i < s.len() && i != k ==> is_digit(#[trigger] s[i])
    &&& k < s.len() ==> s[k] == '.' && k + 1 < s.len()
}

/// Whether a number ends before a text: the text does not go on with a digit or a full stop.
pub open spec fn ends_number(s: Seq<char>) -> bool {
    s.len() > 0 ==> !any_digit(s[0]) && s[0] != '.'
}

/// What is found first in a text that begins with a number behind other text.
proof fn lemma_first_number(p: Seq<char>, m: Seq<char>, s: Seq<char>)
    requires
        forall|i: int| 0 <= i < p.len() ==> !any_digit(#[trigger] p[i]) && p[i] != '.',
        is_numeral(m),
        ends_number(s),
        (p + m + s).len() <= usize::MAX,
    ensures
        ({
            let text = p + m + s;
            let found = segment_matches(text, 0);
            &&& found.len() > 0
            &&& group_text(found[0], 1, text) == Some(p)
            &&& group_text(found[0], 2, text) == Some(m)
        }),
{
    let text = p + m + s;
    let k = choose|k: int| is_numeral_at(m, k);
    let at = p.len() as int;
    let end = at + m.len();
    assert(forall|i: int| 0 <= i < p.len() ==> text[i] == p[i]);
    assert(forall|i: int| 0 <= i < m.len() ==> text[at + i] == m[i]);
    assert(forall|i: int| at <= i < end ==> text[i] == m[i - at]);
    assert(end < text.len() ==> text[end] == s[0]);
    assert(is_digit(m[0]));
    lemma_stop_behind(text, 0, at);
    assert(k < m.len() ==> text[at + k] == '.');
    lemma_end_behind(text, at, at + k);
    if k < m.len() {
        assert(is_digit(m[k + 1]));
        assert(text[at + k + 1] == m[k + 1]);
        lemma_end_behind(text, at + k + 1, end);
    }
    assert(crate::pattern::number_ends(text, at).1 == end);
    assert(text.subrange(0, at) =~= p);
    assert(text.subrange(at, end) =~= m);
    assert(segment_matches(text, 0)[0] == crate::pattern::segment_match(text, 0, at));
}

/// After equal text, names are ordered by the value of the number that follows, whatever comes
/// behind it and however the number is written. The names are compared in lower case.
pub proof fn law_numbers_count_by_value(
    a: Seq<u8>,
    b: Seq<u8>,
    p: Seq<char>,
    m: Seq<char>,
    n: Seq<char>,
    s: Seq<char>,
    t: Seq<char>,
)
    requires
        folded(a) == p + m + s,
        folded(b) == p + n + t,
        folded(a).len() <= usize::MAX,
        folded(b).len() <= usize::MAX,
        forall|i: int| 0 <= i < p.len() ==> !any_digit(#[trigger] p[i]) && p[i] != '.',
        is_numeral(m),
        is_numeral(n),
        ends_number(s),
        ends_number(t),
        number_units(m) matches Some(u) && number_units(n) matches Some(v) && u < v,
    ensures
        compare_raw(a, b) is Less,
        compare_raw(b, a) is Greater,
{
    lemma_first_number(p, m, s);
    lemma_first_number(p, n, t);
    law_ordered_by_number(a, b, 0);
}

proof fn lemma_lowered_add(a: Seq<char>, b: Seq<char>)
    ensures
        lowered(a + b) == lowered(a) + lowered(b),
    decreases b.len(),
{
    if b.len() == 0 {
        assert(a + b =~= a);
        assert(lowered(a) + lowered(b) =~= lowered(a));
    } else {
        lemma_lowered_add(a, b.drop_last());
        assert((a + b).drop_last() =~= a + b.drop_last());
        assert(lowered(a) + (lowered(b.drop_last()) + lower_of(b.last())) =~= (lowered(a) + lowered(
            b.drop_last(),
        )) + lower_of(b.last()));
    }
}

proof fn lemma_lowered_ascii(s: Seq<char>)
    requires
        is_ascii_chars(s),
    ensures
        lowered(s) == s.map_values(|c: char| ascii_lower(c)),
    decreases s.len(),
{
    let low = s.map_values(|c: char| ascii_lower(c));
    if s.len() > 0 {
        assert(is_ascii_chars(s.drop_last()));
        lemma_lowered_ascii(s.drop_last());
        assert(s.last() <= '\u{7f}') by {
            assert(s[s.len() - 1] <= '\u{7f}');
        }
        assert(lowered(s) =~= low);
    } else {
        assert(lowered(s) =~= low);
    }
}

/// What a name with a number in it is ordered by.
proof fn lemma_folded(p: Seq<char>, m: Seq<char>, s: Seq<char>)
    requires
        !has_sigma(p),
        !has_sigma(s),
        is_numeral(m),
    ensures
        folded(encode_utf8(p + m + s)) == lowered(p) + m + lowered(s),
{
    let text = p + m + s;
    let k = choose|k: int| is_numeral_at(m, k);
    assert forall|i: int| 0 <= i < m.len() implies is_digit(#[trigger] m[i]) || m[i] == '.' by {}
    assert forall|i: int| 0 <= i < text.len() implies #[trigger] text[i] != '\u{3a3}' by {
        if i < p.len() {
            assert(text[i] == p[i]);
        } else if i < p.len() + m.len() {
            assert(text[i] == m[i - p.len()]);
        } else {
            assert(text[i] == s[i - p.len() - m.len()]);
        }
    }
    assert(!has_sigma(text));
    vstd::utf8::encode_utf8_valid_utf8(text);
    vstd::utf8::encode_utf8_decode_utf8(text);
    assert(is_ascii_chars(m));
    lemma_lowered_ascii(m);
    assert(lowered(m) =~= m);
    lemma_lowered_add(p + m, s);
    lemma_lowered_add(p, m);
}

/// Names are ordered by the value of the first number in them if the text before it is the same
/// but for the case of its letters. That there is no number in that text, and that the number ends
/// where it does, is said of the text in lower case. Names with a capital sigma are left out.
pub proof fn law_names_by_number(
    p: Seq<char>,
    q: Seq<char>,
    m: Seq<char>,
    n: Seq<char>,
    s: Seq<char>,
    t: Seq<char>,
)
    requires
        !has_sigma(p) && !has_sigma(q) && !has_sigma(s) && !has_sigma(t),
        lowered(p) == lowered(q),
        forall|i: int|
            0 <= i < lowered(p).len() ==> !any_digit(#[trigger] lowered(p)[i]) && lowered(p)[i]
                != '.',
        is_numeral(m),
        is_numeral(n),
        ends_number(lowered(s)),
        ends_number(lowered(t)),
        (lowered(p) + m + lowered(s)).len() <= usize::MAX,
        (lowered(q) + n + lowered(t)).len() <= usize::MAX,
        number_units(m) matches Some(u) && number_units(n) matches Some(v) && u < v,
    ensures
        compare_raw(encode_utf8(p + m + s), encode_utf8(q + n + t)) is Less,
{
    lemma_folded(p, m, s);
    lemma_folded(q, n, t);
    let (a, b) = (encode_utf8(p + m + s), encode_utf8(q + n + t));
    law_numbers_count_by_value(a, b, lowered(p), m, n, lowered(s), lowered(t));
}

/// Names of ASCII are ordered by the first number in them if the text before it is the same but
/// for the case of its letters.
pub proof fn law_ascii_names_by_number(
    p: Seq<char>,
    q: Seq<char>,
    m: Seq<char>,
    n: Seq<char>,
    s: Seq<char>,
    t: Seq<char>,
)
    requires
        is_ascii_chars(p) && is_ascii_chars(q) && is_ascii_chars(s) && is_ascii_chars(t),
        equal_ignoring_case(p, q),
        forall|i: int| 0 <= i < p.len() ==> !is_digit(#[trigger] p[i]) && p[i] != '.',
        is_numeral(m),
        is_numeral(n),
        s.len() > 0 ==> !is_digit(s[0]) && s[0] != '.',
        t.len() > 0 ==> !is_digit(t[0]) && t[0] != '.',
        (p + m + s).len() <= usize::MAX,
        (q + n + t).len() <= usize::MAX,
        number_units(m) matches Some(u) && number_units(n) matches Some(v) && u < v,
    ensures
        compare_raw(encode_utf8(p + m + s), encode_utf8(q + n + t)) is Less,
{
    lemma_lowered_ascii(p);
    lemma_lowered_ascii(q);
    lemma_lowered_ascii(s);
    lemma_lowered_ascii(t);
    let lp = lowered(p);
    assert(lp =~= lowered(q));
    assert forall|i: int| 0 <= i < lp.len() implies !any_digit(#[trigger] lp[i]) && lp[i] != '.' by {
        assert(!is_digit(p[i]) && p[i] != '.');
        assert(p[i] <= '\u{7f}');
    }
    if s.len() > 0 {
        assert(s[0] <= '\u{7f}');
        assert(lowered(s)[0] == ascii_lower(s[0]));
    }
    if t.len() > 0 {
        assert(t[0] <= '\u{7f}');
        assert(lowered(t)[0] == ascii_lower(t[0]));
    }
    law_names_by_number(p, q, m, n, s, t);
}

/// Whether places are those of names, given by their bytes, in the order of the names, each once.
pub open spec fn natural_order(names: Seq<Seq<u8>>, places: Seq<usize>) -> bool {
    &&& places.len() == names.len()
    &&& places.no_duplicates()
    &&& forall|i: int| 0 <= i < places.len() ==> #[trigger] places[i] < names.len()
    &&& forall|i: int, j: int|
        #![trigger places[i], places[j]]
        0 <= i < j < places.len() ==> {
            let c = compare_raw(names[places[i] as int], names[places[j] as int]);
            c is Less || c is Equal && places[i] < places[j]
        }
}

/// The bytes of some names.
pub open spec fn bytes_of_names(names: Seq<Seq<char>>) -> Seq<Seq<u8>> {
    names.map_values(|n: Seq<char>| name_bytes(n))
}

/// The bytes of some texts.
pub open spec fn bytes_of_texts(names: Seq<Seq<char>>) -> Seq<Seq<u8>> {
    names.map_values(|n: Seq<char>| encode_utf8(n))
}

/// The places of names that are given by their bytes, in the order of the names.
fn order_raw(names: &Vec<Vec<u8>>) -> (v: Vec<usize>)
    ensures
        natural_order(names@.map_values(|n: Vec<u8>| n@), v@),
{
    let pattern = Pattern::segment();
    let mut keys: Vec<ParsedString> = Vec::new();
    let mut i: usize = 0;
    while i < names.len()
        invariant
            i <= names@.len(),
            pattern.source() == segment_source(),
            keys@.len() == i,
            forall|j: int|
                0 <= j < i ==> (#[trigger] keys@[j]).wf() && keys@[j].original() == names@[j]@,
        decreases names.len() - i,
    {
        keys.push(key_with(&pattern, names[i].as_slice()));
        i += 1;
    }
    let v = sorted_places(&keys);
    proof {
        let t = names@.map_values(|n: Vec<u8>| n@);
        assert forall|i: int, j: int| #![trigger v@[i], v@[j]] 0 <= i < j < v@.len() implies {
            let c = compare_raw(t[v@[i] as int], t[v@[j] as int]);
            c is Less || c is Equal && v@[i] < v@[j]
        } by {
            assert(goes_before(keys@, v@[i] as int, v@[j] as int));
        }
    }
    v
}

/// The places of names in the order of the names.
pub fn order_names(names: &Vec<String>) -> (v: Vec<usize>)
    ensures
        natural_order(bytes_of_names(texts(names@)), v@),
{
    let mut raw: Vec<Vec<u8>> = Vec::new();
    let mut i: usize = 0;
    while i < names.len()
        invariant
            i <= names@.len(),
            raw@.len() == i,
            forall|j: int| 0 <= j < i ==> (#[trigger] raw@[j])@ == name_bytes(names@[j]@),
        decreases names.len() - i,
    {
        raw.push(bytes_of(names[i].as_str()));
        i += 1;
    }
    assert(raw@.map_values(|n: Vec<u8>| n@) =~= bytes_of_names(texts(names@)));
    order_raw(&raw)
}

/// The places of texts in natural order.
pub fn order_plain(names: &Vec<String>) -> (v: Vec<usize>)
    ensures
        natural_order(bytes_of_texts(texts(names@)), v@),
{
    let mut raw: Vec<Vec<u8>> = Vec::new();
    let mut i: usize = 0;
    while i < names.len()
        invariant
            i <= names@.len(),
            raw@.len() == i,
            forall|j: int| 0 <= j < i ==> (#[trigger] raw@[j])@ == encode_utf8(names@[j]@),
        decreases names.len() - i,
    {
        raw.push(vstd::slice::slice_to_vec(names[i].as_str().as_bytes()));
        i += 1;
    }
    assert(raw@.map_values(|n: Vec<u8>| n@) =~= bytes_of_texts(texts(names@)));
    order_raw(&raw)
}

/// Texts are ordered by the first character that differs, and a text comes before those that go on where
/// it ends.
pub proof fn law_texts_by_first_difference(
    p: Seq<char>,
    x: char,
    y: char,
    s: Seq<char>,
    t: Seq<char>,
)
    requires
        x < y,
    ensures
        compare_chars(p + seq![x] + s, p + seq![y] + t) is Less,
        compare_chars(p + seq![y] + t, p + seq![x] + s) is Greater,
        compare_chars(p, p + seq![y] + t) is Less,
        compare_chars(p + seq![y] + t, p) is Greater,
        compare_chars(p, p) is Equal,
    decreases p.len(),
{
    let a = p + seq![x] + s;
    let b = p + seq![y] + t;
    if p.len() == 0 {
        assert(a[0] == x);
        assert(b[0] == y);
    } else {
        let q = p.skip(1);
        law_texts_by_first_difference(q, x, y, s, t);
        assert(a[0] == p[0]);
        assert(b[0] == p[0]);
        assert(a.skip(1) =~= q + seq![x] + s);
        assert(b.skip(1) =~= q + seq![y] + t);
    }
}

/// Bytes are ordered in the same way.
pub proof fn law_bytes_by_first_difference(p: Seq<u8>, x: u8, y: u8, s: Seq<u8>, t: Seq<u8>)
    requires
        x < y,
    ensures
        compare_bytes(p + seq![x] + s, p + seq![y] + t) is Less,
        compare_bytes(p + seq![y] + t, p + seq![x] + s) is Greater,
        compare_bytes(p, p + seq![y] + t) is Less,
        compare_bytes(p + seq![y] + t, p) is Greater,
        compare_bytes(p, p) is Equal,
    decreases p.len(),
{
    let a = p + seq![x] + s;
    let b = p + seq![y] + t;
    if p.len() == 0 {
        assert(a[0] == x);
        assert(b[0] == y);
    } else {
        let q = p.skip(1);
        law_bytes_by_first_difference(q, x, y, s, t);
        assert(a[0] == p[0]);
        assert(b[0] == p[0]);
        assert(a.skip(1) =~= q + seq![x] + s);
        assert(b.skip(1) =~= q + seq![y] + t);
    }
}

/// Whether a character is neither a digit nor a full stop.
pub open spec fn plain_text(c: char) -> bool {
    !any_digit(c) && c != '.'
}

/// The text of a part of a name.
spec fn text_of(s: SegmentView) -> Seq<char> {
    match s {
        SegmentView::Seg(t, _) => t,
        SegmentView::Last(t) => t,
    }
}

proof fn lemma_stop_beyond(text: Seq<char>, i: int, n: int)
    requires
        0 <= i <= n <= text.len(),
        forall|j: int| i <= j < n ==> plain_text(#[trigger] text[j]),
    ensures
        next_stop(text, i) >= n,
        next_stop(text, i) <= text.len(),
    decreases text.len() - i,
{
    if i < text.len() && plain_text(text[i]) {
        if i < n {
            lemma_stop_beyond(text, i + 1, n);
        } else {
            lemma_stop_beyond(text, i + 1, i + 1);
        }
    }
}

/// The first part of a name begins as the name does, up to the first digit or full stop.
proof fn lemma_first_part(original: Seq<u8>, n: int)
    requires
        folded(original).len() <= usize::MAX,
        0 <= n <= folded(original).len(),
        forall|j: int| 0 <= j < n ==> plain_text(#[trigger] folded(original)[j]),
    ensures
        parsed(original).len() > 0,
        text_of(parsed(original)[0]).len() >= n,
        text_of(parsed(original)[0]).take(n) == folded(original).take(n),
{
    let text = folded(original);
    let found = segment_matches(text, 0);
    lemma_stop_beyond(text, 0, n);
    let stop = next_stop(text, 0);
    if stop < text.len() {
        assert(found[0] == segment_match(text, 0, stop));
        let end = segment_end(text, stop);
        lemma_ends_inside(text, stop);
        assert(text.subrange(0, stop).take(n) =~= text.take(n));
        assert(text.subrange(0, end).take(n) =~= text.take(n));
    } else {
        assert(found =~= Seq::<Seq<Group>>::empty());
        assert(text.skip(0) =~= text);
    }
}

proof fn lemma_ends_inside(text: Seq<char>, stop: int)
    requires
        0 <= stop < text.len(),
    ensures
        stop <= segment_end(text, stop) <= text.len(),
{
    lemma_digits_inside(text, stop);
    let whole = digits_end(text, stop);
    if whole + 1 < text.len() {
        lemma_digits_inside(text, whole + 1);
    }
}

proof fn lemma_digits_inside(text: Seq<char>, i: int)
    requires
        0 <= i <= text.len(),
    ensures
        i <= digits_end(text, i) <= text.len(),
    decreases text.len() - i,
{
    if i < text.len() && any_digit(text[i]) {
        lemma_digits_inside(text, i + 1);
    }
}

/// Names are ordered alphabetically, in lower case, up to the first number in them: by the first
/// character that differs, whatever follows.
pub proof fn law_names_in_alphabetical_order(
    a: Seq<u8>,
    b: Seq<u8>,
    p: Seq<char>,
    x: char,
    y: char,
    s: Seq<char>,
    t: Seq<char>,
)
    requires
        folded(a) == p + seq![x] + s,
        folded(b) == p + seq![y] + t,
        folded(a).len() <= usize::MAX,
        folded(b).len() <= usize::MAX,
        forall|i: int| 0 <= i < p.len() ==> plain_text(#[trigger] p[i]),
        plain_text(x),
        plain_text(y),
        x < y,
    ensures
        compare_raw(a, b) is Less,
        compare_raw(b, a) is Greater,
{
    let n = p.len() as int + 1;
    let (fa, fb) = (folded(a), folded(b));
    assert forall|j: int| 0 <= j < n implies plain_text(#[trigger] fa[j]) && plain_text(fb[j]) by {
        if j < p.len() {
            assert(fa[j] == p[j] && fb[j] == p[j]);
        }
    }
    lemma_first_part(a, n);
    lemma_first_part(b, n);
    let ta = text_of(parsed(a)[0]);
    let tb = text_of(parsed(b)[0]);
    assert(fa.take(n) =~= p + seq![x]);
    assert(fb.take(n) =~= p + seq![y]);
    assert(ta =~= p + seq![x] + ta.skip(n)) by {
        assert(ta =~= ta.take(n) + ta.skip(n));
    }
    assert(tb =~= p + seq![y] + tb.skip(n)) by {
        assert(tb =~= tb.take(n) + tb.skip(n));
    }
    law_texts_by_first_difference(p, x, y, ta.skip(n), tb.skip(n));
    assert(compare_segments(parsed(a)[0], parsed(b)[0]) is Less);
    lemma_first_difference(parsed(a), parsed(b), 0);
    lemma_lists_antisymmetric(parsed(a), parsed(b));
}

/// A name without a number comes before names that go on with one.
pub proof fn law_names_without_number_first(
    a: Seq<u8>,
    b: Seq<u8>,
    p: Seq<char>,
    n: Seq<char>,
    t: Seq<char>,
)
    requires
        folded(a) == p,
        folded(b) == p + n + t,
        folded(b).len() <= usize::MAX,
        forall|i: int| 0 <= i < p.len() ==> plain_text(#[trigger] p[i]),
        is_numeral(n),
        ends_number(t),
        number_units(n) is Some,
    ensures
        compare_raw(a, b) is Less,
        compare_raw(b, a) is Greater,
{
    lemma_first_number(p, n, t);
    lemma_stop_beyond(p, 0, p.len() as int);
    assert(segment_matches(p, 0) =~= Seq::<Seq<Group>>::empty());
    assert(p.skip(0) =~= p);
    assert(parsed(a)[0] == SegmentView::Last(p));
    let found = segment_matches(folded(b), 0);
    assert(parsed(b)[0] == segment_of(folded(b), found[0]));
    law_texts_by_first_difference(p, 'a', 'b', p, p);
    let k = choose|k: int| is_numeral_at(n, k);
    assert(is_digit(n[0]));
    assert(n != seq!['.']) by {
        assert(seq!['.'][0] == '.');
    }
    assert(parsed(b)[0] is Seg);
    assert(text_of(parsed(b)[0]) == p);
    lemma_first_difference(parsed(a), parsed(b), 0);
    lemma_lists_antisymmetric(parsed(a), parsed(b));
}

/// Names that are the same in lower case are ordered by their bytes.
pub proof fn law_names_that_differ_in_case(a: Seq<u8>, b: Seq<u8>)
    requires
        folded(a) == folded(b),
    ensures
        compare_raw(a, b) == compare_bytes(a, b),
{
    lemma_lists_antisymmetric(parsed(a), parsed(b));
    lemma_same_list(parsed(a));
}

proof fn lemma_same_list(v: Seq<SegmentView>)
    ensures
        compare_lists(v, v) is Equal,
    decreases v.len(),
{
    if v.len() > 0 {
        lemma_segments_antisymmetric(v[0], v[0]);
        lemma_same_list(v.skip(1));
    }
}

/// Names that are put in order are all there, each once, and none comes before a lesser one. Equal
/// ones stay in the order that they had.
pub proof fn law_names_are_put_in_order(names: Seq<Seq<u8>>, places: Seq<usize>, i: int, j: int)
    requires
        natural_order(names, places),
        0 <= i < j < places.len(),
    ensures
        places.len() == names.len(),
        places[i] != places[j],
        !(compare_raw(names[places[i] as int], names[places[j] as int]) is Greater),
        compare_raw(names[places[i] as int], names[places[j] as int]) is Equal ==> places[i]
            < places[j],
{
}

} // verus!
