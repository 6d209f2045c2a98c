//! Whole numbers in decimal text.
use vstd::prelude::*;

verus! {

/// Why a text is not a whole number of the wanted type.
#[derive(Clone, Copy, Debug, PartialEq, Eq, Structural)]
pub enum ParseNumberError {
    Empty,
    InvalidDigit,
    TooLarge,
}

impl ParseNumberError {
    /// The words shown to the user.
    pub open spec fn words(self) -> Seq<char> {
        match self {
            ParseNumberError::Empty => "cannot parse integer from empty string"@,
            ParseNumberError::InvalidDigit => "invalid digit found in string"@,
            ParseNumberError::TooLarge => "number too large to fit in target type"@,
        }
    }

    /// The words shown to the user.
    pub fn message(self) -> (s: &'static str)
        ensures
            s@ == self.words(),
    {
        match self {
            ParseNumberError::Empty => "cannot parse integer from empty string",
            ParseNumberError::InvalidDigit => "invalid digit found in string",
            ParseNumberError::TooLarge => "number too large to fit in target type",
        }
    }
}

/// Whether a character is one of the ten ASCII digits.
pub open spec fn is_digit(c: char) -> bool {
    '0' <= c <= '9'
}

/// The value of an ASCII digit.
pub open spec fn digit_value(c: char) -> nat {
    (c as int - '0' as int) as nat
}

/// Reads digits from left to right behind a value that was read before them.
pub open spec fn parse_digits(s: Seq<char>, acc: nat, max: nat) -> Result<nat, ParseNumberError>
    decreases s.len(),
{
    if s.len() == 0 {
        Ok(acc)
    } else if !is_digit(s[0]) {
        Err(ParseNumberError::InvalidDigit)
    } else if acc * 10 + digit_value(s[0]) > max {
        Err(ParseNumberError::TooLarge)
    } else {
        parse_digits(s.skip(1), acc * 10 + digit_value(s[0]), max)
    }
}

/// What a text says as a decimal number of at most `max`: one or more digits, which a plus sign
/// may precede.
pub open spec fn parse_decimal(s: Seq<char>, max: nat) -> Result<nat, ParseNumberError> {
    if s.len() == 0 {
        Err(ParseNumberError::Empty)
    } else if s[0] == '+' && s.len() > 1 {
        parse_digits(s.skip(1), 0, max)
    } else {
        parse_digits(s, 0, max)
    }
}

/// The decimal digits of a number.
pub open spec fn decimal(n: nat) -> Seq<char>
    decreases n,
{
    if n < 10 {
        seq![digit_char(n)]
    } else {
        decimal(n / 10).push(digit_char(n % 10))
    }
}

/// The ASCII digit of a value below ten.
pub open spec fn digit_char(n: nat) -> char {
    ('0' as int + n) as char
}

/// Reads a number of at most `max`.
pub fn parse_number(v: &[char], max: u64) -> (r: Result<u64, ParseNumberError>)
    ensures
        match parse_decimal(v@, max as nat) {
            Ok(n) => r matches Ok(x) && x == n,
            Err(e) => r matches Err(x) && x == e,
        },
        r matches Ok(x) ==> x <= max,
{
    if v.len() == 0 {
        return Err(ParseNumberError::Empty);
    }
    let start: usize = if v[0] == '+' && v.len() > 1 {
        1
    } else {
        0
    };
    assert(v@.skip(0) =~= v@);
    let mut acc: u64 = 0;
    let mut i: usize = start;
    while i < v.len()
        invariant
            i <= v.len(),
            acc <= max,
            parse_decimal(v@, max as nat) == parse_digits(v@.skip(i as int), acc as nat, max as nat),
        decreases v.len() - i,
    {
        let c = v[i];
        if !('0' <= c && c <= '9') {
            return Err(ParseNumberError::InvalidDigit);
        }
        let d: u64 = ((c as u32) - 48) as u64;
        if d > max || acc > max / 10 || acc * 10 > max - d {
            return Err(ParseNumberError::TooLarge);
        }
        acc = acc * 10 + d;
        i += 1;
        assert(v@.skip(i - 1).skip(1) =~= v@.skip(i as int));
    }
    Ok(acc)
}

/// Reads a 32 bit number.
pub fn parse_u32(v: &[char]) -> (r: Result<u32, ParseNumberError>)
    ensures
        match parse_decimal(v@, u32::MAX as nat) {
            Ok(n) => r matches Ok(x) && x == n,
            Err(e) => r matches Err(x) && x == e,
        },
{
    match parse_number(v, u32::MAX as u64) {
        Ok(n) => Ok(n as u32),
        Err(e) => Err(e),
    }
}

/// Reads a number of the size of an index.
pub fn parse_usize(v: &[char]) -> (r: Result<usize, ParseNumberError>)
    ensures
        match parse_decimal(v@, usize::MAX as nat) {
            Ok(n) => r matches Ok(x) && x == n,
            Err(e) => r matches Err(x) && x == e,
        },
{
    match parse_number(v, usize::MAX as u64) {
        Ok(n) => Ok(n as usize),
        Err(e) => Err(e),
    }
}

/// Appends the decimal digits of a number.
pub fn push_decimal(s: &mut String, n: u64)
    ensures
        final(s)@ == old(s)@ + decimal(n as nat),
    decreases n,
{
    if n >= 10 {
        push_decimal(s, n / 10);
    }
    let d: u8 = (n % 10) as u8;
    s.push((48 + d) as char);
    proof {
        assert(final(s)@ =~= old(s)@ + decimal(n as nat));
    }
}

/// The decimal digits of a number.
pub fn decimal_text(n: u64) -> (s: String)
    ensures
        s@ == decimal(n as nat),
{
    let mut s = String::new();
    push_decimal(&mut s, n);
    assert(s@ =~= decimal(n as nat));
    s
}

/// Reading two runs of digits is reading the second behind the value of the first.
proof fn lemma_parse_digits_append(a: Seq<char>, b: Seq<char>, acc: nat, max: nat)
    requires
        parse_digits(a, acc, max) is Ok,
    ensures
        parse_digits(a + b, acc, max) == parse_digits(b, parse_digits(a, acc, max)->Ok_0, max),
    decreases a.len(),
{
    if a.len() == 0 {
        assert(a + b =~= b);
    } else {
        assert((a + b).skip(1) =~= a.skip(1) + b);
        lemma_parse_digits_append(a.skip(1), b, acc * 10 + digit_value(a[0]), max);
    }
}

/// Reading the decimal digits of a number gives the number back, unless it is too large.
pub proof fn lemma_decimal_round_trip(n: nat, max: nat)
    requires
        n <= max,
    ensures
        parse_decimal(decimal(n), max) == Ok::<nat, ParseNumberError>(n),
        decimal(n).len() > 0,
        forall|i: int| 0 <= i < decimal(n).len() ==> is_digit(#[trigger] decimal(n)[i]),
{
    lemma_decimal_digits(n, max);
}

proof fn lemma_decimal_digits(n: nat, max: nat)
    requires
        n <= max,
    ensures
        parse_digits(decimal(n), 0, max) == Ok::<nat, ParseNumberError>(n),
        decimal(n).len() > 0,
        forall|i: int| 0 <= i < decimal(n).len() ==> is_digit(#[trigger] decimal(n)[i]),
    decreases n,
{
    if n < 10 {
        assert(decimal(n).skip(1) =~= Seq::<char>::empty());
        assert(parse_digits(decimal(n).skip(1), n, max) == Ok::<nat, ParseNumberError>(n));
    } else {
        lemma_decimal_digits(n / 10, max);
        let last = seq![digit_char(n % 10)];
        assert(decimal(n) =~= decimal(n / 10) + last);
        lemma_parse_digits_append(decimal(n / 10), last, 0, max);
        assert(last.skip(1) =~= Seq::<char>::empty());
        assert(parse_digits(last.skip(1), n, max) == Ok::<nat, ParseNumberError>(n));
    }
}

/// What is said of a text that is no number.
pub proof fn law_words_for_bad_numbers()
    ensures
        ParseNumberError::Empty.words() == "cannot parse integer from empty string"@,
        ParseNumberError::InvalidDigit.words() == "invalid digit found in string"@,
        ParseNumberError::TooLarge.words() == "number too large to fit in target type"@,
{
}

/// A digit behind a number makes it ten times as large, and adds its value. What comes to more
/// than the most is too large, and a character that is no digit makes a number none.
pub proof fn law_one_more_digit(s: Seq<char>, c: char, max: nat)
    requires
        parse_decimal(s, max) is Ok,
    ensures
        parse_decimal(s, max)->Ok_0 <= max,
        '0' <= c <= '9' ==> {
            let n = parse_decimal(s, max)->Ok_0 * 10 + (c as int - '0' as int);
            parse_decimal(s.push(c), max) == if n <= max {
                Ok(n as nat)
            } else {
                Err(ParseNumberError::TooLarge)
            }
        },
        !('0' <= c <= '9') ==> parse_decimal(s.push(c), max) == Err::<nat, ParseNumberError>(
            ParseNumberError::InvalidDigit,
        ),
{
    let digits = if s[0] == '+' && s.len() > 1 {
        s.skip(1)
    } else {
        s
    };
    lemma_parsed_bound(digits, 0, max);
    lemma_parse_digits_append(digits, seq![c], 0, max);
    assert(s.push(c).skip(1) =~= s.skip(1) + seq![c]);
    assert(s.push(c) =~= s + seq![c]);
    assert(s.push(c)[0] == s[0]);
    assert(s[0] == '+' ==> s.len() > 1);
    assert(seq![c].skip(1) =~= Seq::<char>::empty());
    let n = parse_decimal(s, max)->Ok_0 * 10 + digit_value(c);
    assert(parse_digits(Seq::<char>::empty(), n, max) == Ok::<nat, ParseNumberError>(n));
}

proof fn lemma_parsed_bound(s: Seq<char>, acc: nat, max: nat)
    requires
        s.len() > 0,
    ensures
        parse_digits(s, acc, max) matches Ok(n) ==> n <= max,
    decreases s.len(),
{
    let next = acc * 10 + digit_value(s[0]);
    if is_digit(s[0]) && next <= max {
        if s.len() > 1 {
            lemma_parsed_bound(s.skip(1), next, max);
        } else {
            assert(s.skip(1).len() == 0);
        }
    }
}

/// A single digit is a number, with or without a plus sign before it. Nothing is not, nor is a
/// sign alone, nor a text that begins with another character.
pub proof fn law_numbers_begin(s: Seq<char>, c: char, max: nat)
    requires
        max >= 9,
    ensures
        parse_decimal(seq![], max) == Err::<nat, ParseNumberError>(ParseNumberError::Empty),
        parse_decimal(seq!['+'], max) == Err::<nat, ParseNumberError>(
            ParseNumberError::InvalidDigit,
        ),
        '0' <= c <= '9' ==> parse_decimal(seq![c], max) == Ok::<nat, ParseNumberError>(
            (c as int - '0' as int) as nat,
        ),
        '0' <= c <= '9' ==> parse_decimal(seq!['+', c] + s, max) == parse_decimal(
            seq![c] + s,
            max,
        ),
        !('0' <= c <= '9') && c != '+' ==> parse_decimal(seq![c] + s, max) == Err::<
            nat,
            ParseNumberError,
        >(ParseNumberError::InvalidDigit),
{
    assert(seq![c].skip(1) =~= Seq::<char>::empty());
    assert((seq!['+', c] + s).skip(1) =~= seq![c] + s);
    assert((seq!['+', c] + s)[0] == '+');
    assert((seq![c] + s)[0] == c);
    if '0' <= c <= '9' {
        assert(parse_digits(seq![c].skip(1), digit_value(c), max) == Ok::<nat, ParseNumberError>(
            digit_value(c),
        ));
        assert(0 * 10 + digit_value(c) == digit_value(c));
    }
}

/// The digits of a number have no nought before them, and the digits of ten times a number and a
/// digit are those of the number with the digit behind them.
pub proof fn law_digits_of_numbers(n: nat, d: nat)
    requires
        d < 10,
    ensures
        n > 0 ==> decimal(n)[0] != '0',
        n > 0 ==> decimal(10 * n + d) == decimal(n) + decimal(d),
        decimal(d) == seq![('0' as int + d) as char],
    decreases n,
{
    if n > 0 {
        assert((10 * n + d) / 10 == n);
        assert((10 * n + d) % 10 == d);
        assert(decimal(10 * n + d) =~= decimal(n) + decimal(d));
        if n >= 10 {
            law_digits_of_numbers(n / 10, n % 10);
            lemma_decimal_digits(n / 10, n);
            assert(decimal(n)[0] == decimal(n / 10)[0]);
        }
    }
}

} // verus!
