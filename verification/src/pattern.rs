//! Regular expressions, which the `regex` crate matches.
use vstd::prelude::*;

verus! {

/// `regex::Regex`, a compiled regular expression.
#[verifier::external_type_specification]
#[verifier::external_body]
pub struct ExRegex(regex::Regex);

/// The part of a text that a group of an expression took, in characters, if it took any.
pub type Group = Option<(usize, usize)>;

/// Whether a character beyond ASCII is a decimal digit to an expression.
pub uninterp spec fn wide_digit(c: char) -> bool;

/// Whether a character is a decimal digit to an expression.
pub open spec fn any_digit(c: char) -> bool {
    if c <= '\u{7f}' {
        '0' <= c <= '9'
    } else {
        wide_digit(c)
    }
}

/// The first digit or full stop from a place on, or the end.
pub open spec fn next_stop(text: Seq<char>, i: int) -> int
    decreases text.len() - i,
{
    if i >= text.len() || any_digit(text[i]) || text[i] == '.' {
        i
    } else {
        next_stop(text, i + 1)
    }
}

/// The first character from a place on that is no digit, or the end.
pub open spec fn digits_end(text: Seq<char>, i: int) -> int
    decreases text.len() - i,
{
    if i >= text.len() || !any_digit(text[i]) {
        i
    } else {
        digits_end(text, i + 1)
    }
}

/// Where the digits of a number end, and where the number ends with the digits behind its full
/// stop, if it has such.
pub open spec fn number_ends(text: Seq<char>, i: int) -> (int, int) {
    let whole = digits_end(text, i);
    if whole + 1 < text.len() && text[whole] == '.' && any_digit(text[whole + 1]) {
        (whole, digits_end(text, whole + 1))
    } else {
        (whole, whole)
    }
}

/// A group that took a part of a text.
pub open spec fn taken(start: int, end: int) -> Group {
    Some((start as usize, end as usize))
}

/// The match of the segment expression that begins at a place, with a digit or a full stop at
/// another one.
pub open spec fn segment_match(text: Seq<char>, i: int, stop: int) -> Seq<Group> {
    if any_digit(text[stop]) {
        let (whole, end) = number_ends(text, stop);
        seq![
            taken(i, end),
            taken(i, stop),
            taken(stop, end),
            taken(stop, end),
            if whole < end {
                taken(whole, end)
            } else {
                None
            },
        ]
    } else {
        seq![taken(i, stop + 1), taken(i, stop), taken(stop, stop + 1), None, None]
    }
}

/// Where such a match ends.
pub open spec fn segment_end(text: Seq<char>, stop: int) -> int {
    if any_digit(text[stop]) {
        number_ends(text, stop).1
    } else {
        stop + 1
    }
}

/// All matches of the segment expression from a place on, each with its groups: what stands before
/// a number or a full stop, that number or full stop, the number, and what of it stands behind the
/// decimal point.
pub open spec fn segment_matches(text: Seq<char>, i: int) -> Seq<Seq<Group>>
    decreases text.len() - i,
    via segment_matches_decreases
{
    let stop = next_stop(text, i);
    if i < 0 || stop >= text.len() {
        seq![]
    } else {
        seq![segment_match(text, i, stop)] + segment_matches(text, segment_end(text, stop))
    }
}

#[via_fn]
proof fn segment_matches_decreases(text: Seq<char>, i: int) {
    let stop = next_stop(text, i);
    lemma_next_stop(text, i);
    if stop < text.len() {
        let whole = digits_end(text, stop);
        lemma_digits_end(text, stop);
        lemma_digits_end(text, stop + 1);
        if whole + 1 < text.len() {
            lemma_digits_end(text, whole + 1);
        }
    }
}

proof fn lemma_next_stop(text: Seq<char>, i: int)
    ensures
        next_stop(text, i) >= i,
    decreases text.len() - i,
{
    if i < text.len() && !(any_digit(text[i]) || text[i] == '.') {
        lemma_next_stop(text, i + 1);
    }
}

proof fn lemma_digits_end(text: Seq<char>, i: int)
    ensures
        digits_end(text, i) >= i,
        i <= text.len() ==> digits_end(text, i) <= text.len(),
    decreases text.len() - i,
{
    if i < text.len() && any_digit(text[i]) {
        lemma_digits_end(text, i + 1);
    }
}

/// The stop behind characters that are none.
pub proof fn lemma_stop_behind(text: Seq<char>, i: int, stop: int)
    requires
        0 <= i <= stop <= text.len(),
        forall|j: int| i <= j < stop ==> !any_digit(#[trigger] text[j]) && text[j] != '.',
        stop < text.len() ==> any_digit(text[stop]) || text[stop] == '.',
    ensures
        next_stop(text, i) == stop,
    decreases stop - i,
{
    if i < stop {
        lemma_stop_behind(text, i + 1, stop);
    }
}

/// The end behind characters that are digits.
pub proof fn lemma_end_behind(text: Seq<char>, i: int, end: int)
    requires
        0 <= i <= end <= text.len(),
        forall|j: int| i <= j < end ==> any_digit(#[trigger] text[j]),
        end < text.len() ==> !any_digit(text[end]),
    ensures
        digits_end(text, i) == end,
    decreases end - i,
{
    if i < end {
        lemma_end_behind(text, i + 1, end);
    }
}

/// The groups of the leftmost match in a text of an expression whose matches are not spelt out.
pub uninterp spec fn other_match(source: Seq<char>, text: Seq<char>) -> Option<Seq<Group>>;

/// Whether a text begins with another one.
pub open spec fn begins_with(text: Seq<char>, word: Seq<char>) -> bool {
    text.len() >= word.len() && text.take(word.len() as int) == word
}

/// Whether a character is a letter of ASCII.
pub open spec fn is_letter(c: char) -> bool {
    'a' <= c <= 'z' || 'A' <= c <= 'Z'
}

/// The match of the jump expression: the word `Jump` and a space, an optional sign, digits, and an
/// optional word of letters behind another space. The sign, the digits, the space with the word, and
/// the word are groups.
pub open spec fn jump_match(text: Seq<char>) -> Option<Seq<Group>> {
    let n = text.len() as int;
    let signed = n > 5 && (text[5] == '+' || text[5] == '-');
    let start: int = if signed {
        6
    } else {
        5
    };
    let sign = if signed {
        taken(5, 6)
    } else {
        None
    };
    let end = digits_end(text, start);
    if !begins_with(text, "Jump "@) || end == start {
        None
    } else if end == n {
        Some(seq![taken(0, n), sign, taken(start, end), None, None])
    } else if text[end] == ' ' && end + 1 < n && (forall|i: int|
        end < i < n ==> is_letter(#[trigger] text[i])) {
        Some(seq![taken(0, n), sign, taken(start, end), taken(end, n), taken(end + 1, n)])
    } else {
        None
    }
}

/// The match of the open expression: the word `Open` and a space, and whatever follows on the same
/// line, which is a group.
pub open spec fn open_match(text: Seq<char>) -> Option<Seq<Group>> {
    let n = text.len() as int;
    if begins_with(text, "Open "@) && n > 5 && (forall|i: int|
        5 <= i < n ==> #[trigger] text[i] != '\n') {
        Some(seq![taken(0, n), taken(5, n)])
    } else {
        None
    }
}

/// The groups of the leftmost match of an expression in a text.
pub open spec fn first_match(source: Seq<char>, text: Seq<char>) -> Option<Seq<Group>> {
    if source == jump_source() {
        jump_match(text)
    } else if source == open_source() {
        open_match(text)
    } else {
        other_match(source, text)
    }
}

/// A run of text up to a number or a full stop, with what ends it.
pub open spec fn segment_source() -> Seq<char> {
    r"([^\d.]*)((\d+(\.\d+)?)|\.)"@
}

/// The name of a file that holds a chapter, with its number in the third group.
pub open spec fn manga_source() -> Seq<char> {
    r"^(Vol\. [^ ]+ )?Ch\. (([^ a-zA-Z]+)[a-zA-Z]?) (.* )?- [a-zA-Z0-9_-]+\.[a-z]{0,3}$"@
}

/// A command to go to a page: a sign, a number and where to scroll to.
pub open spec fn jump_source() -> Seq<char> {
    r"^Jump (\+|-)?(\d+)( ([[:alpha:]]+))?$"@
}

/// A command to open files.
pub open spec fn open_source() -> Seq<char> {
    r"^Open (.+)$"@
}

/// A line in a listing of an archive: a size and a name.
pub open spec fn file_line_source() -> Seq<char> {
    r"^ *[^ ]+ +(\d+) +[^ ]+ +[^ ]+ +(.*)\n"@
}

/// The expressions that are used.
pub open spec fn known_source(source: Seq<char>) -> bool {
    ||| source == segment_source()
    ||| source == manga_source()
    ||| source == jump_source()
    ||| source == open_source()
    ||| source == file_line_source()
}

/// `regex::Regex::new` compiles an expression that follows the syntax of the crate, as those that
/// are used do. Nothing is claimed of the result.
#[verifier::external_body]
fn compile(source: &str) -> (r: regex::Regex)
    requires
        known_source(source@),
{
    regex::Regex::new(source).unwrap()
}

/// A compiled expression together with its source.
pub struct Pattern {
    regex: regex::Regex,
    source: String,
}

impl Pattern {
    /// The expression.
    pub closed spec fn source(self) -> Seq<char> {
        self.source@
    }

    fn new(source: &str) -> (p: Pattern)
        requires
            known_source(source@),
        ensures
            p.source() == source@,
    {
        Pattern { regex: compile(source), source: source.to_owned() }
    }

    pub fn segment() -> (p: Pattern)
        ensures
            p.source() == segment_source(),
    {
        Pattern::new(r"([^\d.]*)((\d+(\.\d+)?)|\.)")
    }

    pub fn manga() -> (p: Pattern)
        ensures
            p.source() == manga_source(),
    {
        Pattern::new(
            r"^(Vol\. [^ ]+ )?Ch\. (([^ a-zA-Z]+)[a-zA-Z]?) (.* )?- [a-zA-Z0-9_-]+\.[a-z]{0,3}$",
        )
    }

    pub fn jump() -> (p: Pattern)
        ensures
            p.source() == jump_source(),
    {
        Pattern::new(r"^Jump (\+|-)?(\d+)( ([[:alpha:]]+))?$")
    }

    pub fn open() -> (p: Pattern)
        ensures
            p.source() == open_source(),
    {
        Pattern::new(r"^Open (.+)$")
    }

    pub fn file_line() -> (p: Pattern)
        ensures
            p.source() == file_line_source(),
    {
        Pattern::new(r"^ *[^ ]+ +(\d+) +[^ ]+ +[^ ]+ +(.*)\n")
    }

    /// `regex::Regex::captures_iter` finds all matches from left to right, the longest runs first:
    /// those of the segment expression are `segment_matches`. Which characters beyond ASCII `\d`
    /// takes depends on the character alone, and is named by `wide_digit`. Every group that took
    /// part in a match took a part of the text. The expression was compiled from the source beside
    /// it, as `new` is the one way to make a pattern.
    #[verifier::external_body]
    pub(crate) fn matches(&self, text: &str) -> (r: Vec<Vec<Group>>)
        requires
            self.source() == segment_source(),
        ensures
            r@.map_values(|m: Vec<Group>| m@) == segment_matches(text@, 0),
            r@.len() == 0 ==> forall|j: int|
                0 <= j < text@.len() && #[trigger] text@[j] > '\u{7f}' ==> !wide_digit(text@[j]),
            forall|i: int, j: int|
                0 <= i < r@.len() && 0 <= j < r@[i]@.len() ==> group_inside(
                    #[trigger] r@[i]@[j],
                    text@,
                ),
    {
        let at = |b: usize| text[..b].chars().count();
        self.regex
            .captures_iter(text)
            .map(|c| c.iter().map(|g| g.map(|m| (at(m.start()), at(m.end())))).collect())
            .collect()
    }

    /// `regex::Regex::captures` finds the leftmost match, if there is one. That of the jump and of
    /// the open expression, which take the whole text, is `jump_match` or `open_match`. Which it is
    /// of others depends on the expression and the text alone, and is named by `other_match`. Every
    /// group that took part in it took a part of the text. The expression was compiled from the
    /// source beside it, as `new` is the one way to make a pattern.
    #[verifier::external_body]
    pub(crate) fn leftmost(&self, text: &str) -> (r: Option<Vec<Group>>)
        ensures
            match first_match(self.source(), text@) {
                Some(groups) => r matches Some(v) && v@ == groups,
                None => r is None,
            },
            self.source() != jump_source() && self.source() != open_source() ==> match other_match(
                self.source(),
                text@,
            ) {
                Some(groups) => r matches Some(v) && v@ == groups,
                None => r is None,
            },
            r matches Some(v) ==> forall|j: int|
                0 <= j < v@.len() ==> group_inside(#[trigger] v@[j], text@),
    {
        let at = |b: usize| text[..b].chars().count();
        self.regex
            .captures(text)
            .map(|c| c.iter().map(|g| g.map(|m| (at(m.start()), at(m.end())))).collect())
    }
}

/// Whether what a group took is a part of a text.
pub open spec fn group_inside(g: Group, text: Seq<char>) -> bool {
    g matches Some((start, end)) ==> start <= end <= text.len()
}

/// The text that the group of a given number took, if it took part in the match.
pub open spec fn group_text(groups: Seq<Group>, i: int, text: Seq<char>) -> Option<Seq<char>> {
    if 0 <= i < groups.len() {
        match groups[i] {
            Some((start, end)) => Some(text.subrange(start as int, end as int)),
            None => None,
        }
    } else {
        None
    }
}

/// The text that the group of a given number took, if it took part in the match.
pub fn group_of<'a>(groups: &[Group], i: usize, text: &'a [char]) -> (r: Option<&'a [char]>)
    requires
        forall|j: int| 0 <= j < groups@.len() ==> group_inside(#[trigger] groups@[j], text@),
    ensures
        match group_text(groups@, i as int, text@) {
            Some(s) => r matches Some(x) && x@ == s,
            None => r is None,
        },
{
    if i < groups.len() {
        match groups[i] {
            Some((start, end)) => {
                assert(group_inside(groups@[i as int], text@));
                Some(vstd::slice::slice_subrange(text, start, end))
            },
            None => None,
        }
    } else {
        None
    }
}

/// The expressions that lines, chapters and parts of names are found by.
pub proof fn law_expressions()
    ensures
        file_line_source() == r"^ *[^ ]+ +(\d+) +[^ ]+ +[^ ]+ +(.*)\n"@,
        manga_source()
            == r"^(Vol\. [^ ]+ )?Ch\. (([^ a-zA-Z]+)[a-zA-Z]?) (.* )?- [a-zA-Z0-9_-]+\.[a-z]{0,3}$"@,
        segment_source() == r"([^\d.]*)((\d+(\.\d+)?)|\.)"@,
{
}

} // verus!
