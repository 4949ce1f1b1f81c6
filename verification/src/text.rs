//! Decimal text: writing a count in digits, and reading a guess from a line.

use vstd::prelude::*;

verus! {

/// The character that stands for a single decimal digit.
pub open spec fn digit_char(d: nat) -> char
    recommends
        d < 10,
{
    if d == 0 {
        '0'
    } else if d == 1 {
        '1'
    } else if d == 2 {
        '2'
    } else if d == 3 {
        '3'
    } else if d == 4 {
        '4'
    } else if d == 5 {
        '5'
    } else if d == 6 {
        '6'
    } else if d == 7 {
        '7'
    } else if d == 8 {
        '8'
    } else {
        '9'
    }
}

/// A number written in base ten, most significant digit first, without
/// leading zeros; zero is written as the single digit `0`.
pub open spec fn decimal_text(n: nat) -> Seq<char>
    decreases n,
{
    if n < 10 {
        seq![digit_char(n)]
    } else {
        decimal_text(n / 10).push(digit_char(n % 10))
    }
}

fn digit_str(d: usize) -> (text: &'static str)
    requires
        d < 10,
    ensures
        text@ == seq![digit_char(d as nat)],
{
    proof {
        reveal_strlit("0");
        reveal_strlit("1");
        reveal_strlit("2");
        reveal_strlit("3");
        reveal_strlit("4");
        reveal_strlit("5");
        reveal_strlit("6");
        reveal_strlit("7");
        reveal_strlit("8");
        reveal_strlit("9");
    }
    let text = if d == 0 {
        "0"
    } else if d == 1 {
        "1"
    } else if d == 2 {
        "2"
    } else if d == 3 {
        "3"
    } else if d == 4 {
        "4"
    } else if d == 5 {
        "5"
    } else if d == 6 {
        "6"
    } else if d == 7 {
        "7"
    } else if d == 8 {
        "8"
    } else {
        "9"
    };
    assert(text@ =~= seq![digit_char(d as nat)]);
    text
}

/// Writes `n` in base ten.
pub fn decimal(n: usize) -> (text: String)
    ensures
        text@ == decimal_text(n as nat),
    decreases n,
{
    if n < 10 {
        String::from_str(digit_str(n))
    } else {
        let head = decimal(n / 10);
        let text = head.concat(digit_str(n % 10));
        assert(text@ =~= decimal_text(n as nat));
        text
    }
}

/// A signed number written in base ten: a minus sign before the digits of a
/// negative one.
pub open spec fn signed_text(n: int) -> Seq<char> {
    if n < 0 {
        seq!['-'] + decimal_text((-n) as nat)
    } else {
        decimal_text(n as nat)
    }
}

/// Writes the signed number `n` in base ten.
pub fn signed_decimal(n: i32) -> (text: String)
    ensures
        text@ == signed_text(n as int),
{
    if n < 0 {
        proof {
            reveal_strlit("-");
        }
        let magnitude: usize = (-(n as i64)) as usize;
        let digits = decimal(magnitude);
        let text = String::from_str("-").concat(digits.as_str());
        assert(text@ =~= signed_text(n as int));
        text
    } else {
        decimal(n as usize)
    }
}

/// The guess that stands for a line that is no number. It lies below every
/// secret a round may have.
pub const NO_GUESS: i32 = -1;

/// White space as `char::is_whitespace` has it.
pub open spec fn is_space(c: char) -> bool {
    let u = c as u32;
    ||| 0x09 <= u <= 0x0D
    ||| u == 0x20
    ||| u == 0x85
    ||| u == 0xA0
    ||| u == 0x1680
    ||| 0x2000 <= u <= 0x200A
    ||| u == 0x2028
    ||| u == 0x2029
    ||| u == 0x202F
    ||| u == 0x205F
    ||| u == 0x3000
}

/// A line without the white space at its two ends.
pub open spec fn trimmed(line: Seq<char>) -> Seq<char>
    decreases line.len(),
{
    if line.len() > 0 && is_space(line.first()) {
        trimmed(line.drop_first())
    } else if line.len() > 0 && is_space(line.last()) {
        trimmed(line.drop_last())
    } else {
        line
    }
}

/// One of the ten digits `0` to `9`.
pub open spec fn is_digit(c: char) -> bool {
    '0' <= c <= '9'
}

/// The number that a run of digits writes in base ten.
pub open spec fn digits_value(digits: Seq<char>) -> nat
    decreases digits.len(),
{
    if digits.len() == 0 {
        0
    } else {
        (digits_value(digits.drop_last()) * 10 + (digits.last() as u32 - '0' as u32)) as nat
    }
}

/// The digits of a number's text: what follows a sign, or the whole text
/// where it has no sign.
pub open spec fn digits_of(text: Seq<char>) -> Seq<char> {
    if text.len() > 0 && (text[0] == '-' || text[0] == '+') {
        text.drop_first()
    } else {
        text
    }
}

/// The number that a text writes: an optional sign, `+` or `-`, and then one
/// digit or more, nothing else. Other texts write no number.
pub open spec fn number_of(text: Seq<char>) -> Option<int> {
    let digits = digits_of(text);
    if digits.len() == 0 || exists|i: int| 0 <= i < digits.len() && !is_digit(#[trigger] digits[i]) {
        None
    } else if text[0] == '-' {
        Some(-(digits_value(digits) as int))
    } else {
        Some(digits_value(digits) as int)
    }
}

/// The guess that a line stands for: the number it writes between the white
/// space at its ends, where that number fits in an `i32`, and `NO_GUESS`
/// otherwise.
pub open spec fn guess_of(line: Seq<char>) -> int {
    match number_of(trimmed(line)) {
        Some(n) => if i32::MIN <= n <= i32::MAX {
            n
        } else {
            NO_GUESS as int
        },
        None => NO_GUESS as int,
    }
}

/// The number of a text as an `i32`, where the text writes one that fits.
pub open spec fn small_number_of(text: Seq<char>) -> Option<i32> {
    match number_of(text) {
        Some(n) => if i32::MIN <= n <= i32::MAX {
            Some(n as i32)
        } else {
            None
        },
        None => None,
    }
}

fn is_space_char(c: char) -> (space: bool)
    ensures
        space == is_space(c),
{
    let u: u32 = c as u32;
    (0x09 <= u && u <= 0x0D) || u == 0x20 || u == 0x85 || u == 0xA0 || u == 0x1680 || (0x2000 <= u
        && u <= 0x200A) || u == 0x2028 || u == 0x2029 || u == 0x202F || u == 0x205F || u == 0x3000
}

/// The part of a line between two indices is the trimmed line where only
/// white space lies outside it and none stands at its ends.
proof fn lemma_trimmed_is_subrange(line: Seq<char>, start: int, end: int)
    requires
        0 <= start <= end <= line.len(),
        forall|i: int| 0 <= i < start ==> is_space(#[trigger] line[i]),
        forall|i: int| end <= i < line.len() ==> is_space(#[trigger] line[i]),
        start < end ==> !is_space(line[start]) && !is_space(line[end - 1]),
    ensures
        trimmed(line) == line.subrange(start, end),
    decreases line.len(),
{
    if line.len() == 0 {
        assert(line.subrange(start, end) =~= line);
    } else if start > 0 {
        let rest = line.drop_first();
        assert forall|i: int| 0 <= i < start - 1 implies is_space(#[trigger] rest[i]) by {
            assert(rest[i] == line[i + 1]);
        }
        assert forall|i: int| end - 1 <= i < rest.len() implies is_space(#[trigger] rest[i]) by {
            assert(rest[i] == line[i + 1]);
        }
        lemma_trimmed_is_subrange(rest, start - 1, end - 1);
        assert(rest.subrange(start - 1, end - 1) =~= line.subrange(start, end));
    } else if end < line.len() {
        if end == 0 {
            assert(is_space(line[0]));
            let rest = line.drop_first();
            assert forall|i: int| 0 <= i < rest.len() implies is_space(#[trigger] rest[i]) by {
                assert(rest[i] == line[i + 1]);
            }
            lemma_trimmed_is_subrange(rest, 0, 0);
            assert(rest.subrange(0, 0) =~= line.subrange(start, end));
        } else {
            let rest = line.drop_last();
            assert(is_space(line[line.len() - 1]));
            assert forall|i: int| end <= i < rest.len() implies is_space(#[trigger] rest[i]) by {
                assert(rest[i] == line[i]);
            }
            lemma_trimmed_is_subrange(rest, 0, end);
            assert(rest.subrange(0, end) =~= line.subrange(start, end));
        }
    } else {
        assert(line.subrange(start, end) =~= line);
    }
}

/// Reads the number that the characters of `line` from `start` up to `end`
/// write, if they write one that fits in an `i32`.
fn parse_number(line: &str, start: usize, end: usize) -> (number: Option<i32>)
    requires
        start <= end <= line@.len(),
    ensures
        number == small_number_of(line@.subrange(start as int, end as int)),
{
    let ghost text = line@.subrange(start as int, end as int);
    if start == end {
        return None;
    }
    let first = line.get_char(start);
    assert(text[0] == first);
    let negative = first == '-';
    let from: usize = if first == '-' || first == '+' {
        start + 1
    } else {
        start
    };
    let ghost digits = digits_of(text);
    assert(digits =~= line@.subrange(from as int, end as int));
    if from == end {
        return None;
    }
    let mut magnitude: u64 = 0;
    let mut too_large = false;
    let mut i: usize = from;
    while i < end
        invariant
            from <= i <= end <= line@.len(),
            start <= end,
            digits == line@.subrange(from as int, end as int),
            digits == digits_of(line@.subrange(start as int, end as int)),
            forall|j: int| 0 <= j < i - from ==> is_digit(#[trigger] digits[j]),
            !too_large ==> magnitude == digits_value(digits.take(i - from)) && magnitude
                <= 2147483648,
            too_large ==> digits_value(digits.take(i - from)) > 2147483648,
        decreases end - i,
    {
        let c = line.get_char(i);
        assert(digits[i - from] == c);
        if !('0' <= c && c <= '9') {
            assert(!is_digit(digits[i - from]));
            return None;
        }
        let digit: u64 = (c as u32 - '0' as u32) as u64;
        assert(digits.take(i + 1 - from).drop_last() =~= digits.take(i - from));
        assert(digits.take(i + 1 - from).last() == c);
        if !too_large {
            magnitude = magnitude * 10 + digit;
            if magnitude > 2147483648 {
                too_large = true;
            }
        }
        i += 1;
    }
    assert(digits.take(end - from) =~= digits);
    if too_large {
        None
    } else if negative {
        Some((-(magnitude as i64)) as i32)
    } else if magnitude > 2147483647 {
        None
    } else {
        Some(magnitude as i32)
    }
}

/// Reads a guess from a line of text: the number it writes between the white
/// space at its ends, and `NO_GUESS` where it writes none that fits in an
/// `i32`.
pub fn parse_guess(line: &str) -> (guess: i32)
    ensures
        guess == guess_of(line@),
{
    let len: usize = line.unicode_len();
    let mut start: usize = 0;
    while start < len
        invariant
            start <= len == line@.len(),
            forall|i: int| 0 <= i < start ==> is_space(#[trigger] line@[i]),
        ensures
            start <= len,
            forall|i: int| 0 <= i < start ==> is_space(#[trigger] line@[i]),
            start < len ==> !is_space(line@[start as int]),
        decreases len - start,
    {
        if !is_space_char(line.get_char(start)) {
            break;
        }
        start += 1;
    }
    let mut end: usize = len;
    while end > start
        invariant
            start <= end <= len == line@.len(),
            forall|i: int| end <= i < len ==> is_space(#[trigger] line@[i]),
        ensures
            start <= end <= len,
            forall|i: int| end <= i < len ==> is_space(#[trigger] line@[i]),
            start < end ==> !is_space(line@[end - 1]),
        decreases end,
    {
        if !is_space_char(line.get_char(end - 1)) {
            break;
        }
        end -= 1;
    }
    proof {
        lemma_trimmed_is_subrange(line@, start as int, end as int);
    }
    match parse_number(line, start, end) {
        Some(number) => number,
        None => NO_GUESS,
    }
}

/// The digits of a number are digits, at least one, and write that number.
pub proof fn lemma_decimal_text_writes(n: nat)
    ensures
        decimal_text(n).len() >= 1,
        forall|i: int| 0 <= i < decimal_text(n).len() ==> is_digit(#[trigger] decimal_text(n)[i]),
        digits_value(decimal_text(n)) == n,
    decreases n,
{
    let text = decimal_text(n);
    if n < 10 {
        assert(text.drop_last() =~= Seq::<char>::empty());
        assert(digits_value(text.drop_last()) == 0);
        assert(text.last() == digit_char(n));
    } else {
        lemma_decimal_text_writes(n / 10);
        assert(text.drop_last() =~= decimal_text(n / 10));
        assert(text.last() == digit_char(n % 10));
    }
}

/// Reading gives back what writing wrote: the text of a number that fits in
/// an `i32` is read as that number.
pub proof fn lemma_read_back(n: int)
    requires
        i32::MIN <= n <= i32::MAX,
    ensures
        guess_of(signed_text(n)) == n,
{
    let text = signed_text(n);
    let magnitude: nat = if n < 0 {
        (-n) as nat
    } else {
        n as nat
    };
    let digits = decimal_text(magnitude);
    lemma_decimal_text_writes(magnitude);
    assert(is_digit(digits[0]));
    assert(is_digit(digits[digits.len() - 1]));
    if n < 0 {
        assert(text[0] == '-');
        assert(text.last() == digits.last());
        assert(text.drop_first() =~= digits);
    } else {
        assert(text == digits);
    }
    assert(!is_space(text.first()));
    assert(!is_space(text.last()));
    assert(trimmed(text) == text);
    assert(digits_of(text) == digits);
}

/// The text that `String::from_utf8_lossy` makes of a run of bytes.
pub uninterp spec fn lossy_text(bytes: Seq<u8>) -> Seq<char>;

/// Turns bytes into text with `String::from_utf8_lossy`. Believed of it, not
/// proved: the text depends on the bytes alone. Which text it is, and what
/// stands in for bytes that are not valid UTF-8, is not stated here.
#[verifier::external_body]
fn decode_lossy(bytes: &[u8]) -> (text: String)
    ensures
        text@ == lossy_text(bytes@),
{
    String::from_utf8_lossy(bytes).into_owned()
}

/// Reads a guess from what a player's connection delivered. Nothing
/// delivered means that the connection is closed, and there is no guess;
/// otherwise the bytes are taken as text and read with `parse_guess`.
pub fn read_guess(bytes: &[u8]) -> (guess: Option<i32>)
    ensures
        bytes@.len() == 0 ==> guess is None,
        bytes@.len() > 0 ==> guess == Some(guess_of(lossy_text(bytes@)) as i32),
{
    if bytes.len() == 0 {
        None
    } else {
        let line = decode_lossy(bytes);
        Some(parse_guess(line.as_str()))
    }
}

} // verus!
