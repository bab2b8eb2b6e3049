//! The text forms of a session's settings: decimal numbers, and boxes written as
//! `x[XOFFSET]y[YOFFSET]w[WIDTH]h[HEIGHT]`.
use vstd::prelude::*;
use vstd::string::StrSliceExecFns;
use crate::drawer::Box;

verus! {

/// Milliseconds to wait after a click, unless the user says otherwise.
pub const DEFAULT_DELAY: u64 = 7;

/// Seconds after which a session is given up, unless the user says otherwise.
pub const DEFAULT_TIMEOUT: u64 = 55;

/// Why a text is not a box.
#[derive(PartialEq, Eq, Structural, Copy, Clone, Debug)]
pub enum BoxError {
    /// One of the values is not a number, or does not fit into 32 bits.
    InvalidNumber,
    /// There are fewer than four values.
    TooFewValues,
}

/// The value of a decimal digit.
pub open spec fn digit_value(c: char) -> Option<nat> {
    if '0' <= c <= '9' {
        Some((c as nat - '0' as nat) as nat)
    } else {
        None
    }
}

/// The value of a run of decimal digits; nothing for the empty run and for a run
/// that holds anything but digits.
pub open spec fn digits_value(s: Seq<char>) -> Option<nat>
    decreases s.len(),
{
    if s.len() == 0 {
        None
    } else if s.len() == 1 {
        digit_value(s[0])
    } else {
        match (digits_value(s.drop_last()), digit_value(s.last())) {
            (Some(front), Some(digit)) => Some(10 * front + digit),
            _ => None,
        }
    }
}

/// The number that a text stands for: digits, with or without a plus sign before
/// them, whose value is at most `max`.
pub open spec fn number_value(s: Seq<char>, max: nat) -> Option<nat> {
    let digits = if s.len() > 0 && s[0] == '+' {
        s.drop_first()
    } else {
        s
    };
    match digits_value(digits) {
        Some(value) => if value <= max {
            Some(value)
        } else {
            None
        },
        None => None,
    }
}

/// Whether a character separates the values of a box.
pub open spec fn is_separator(c: char) -> bool {
    c == 'x' || c == 'y' || c == 'w' || c == 'h'
}

/// Where splitting stands after a prefix of a text: the pieces that are complete,
/// and the piece that the last characters belong to.
pub open spec fn split(s: Seq<char>) -> (Seq<Seq<char>>, Seq<char>)
    decreases s.len(),
{
    if s.len() == 0 {
        (Seq::empty(), Seq::empty())
    } else {
        let (done, current) = split(s.drop_last());
        if !is_separator(s.last()) {
            (done, current.push(s.last()))
        } else if current.len() > 0 {
            (done.push(current), Seq::empty())
        } else {
            (done, current)
        }
    }
}

/// The pieces of a text between its separators, in order, the empty ones left out.
pub open spec fn pieces(s: Seq<char>) -> Seq<Seq<char>> {
    let (done, current) = split(s);
    if current.len() > 0 {
        done.push(current)
    } else {
        done
    }
}

/// The texts that lists of characters hold.
pub open spec fn texts(parts: Seq<Vec<char>>) -> Seq<Seq<char>> {
    Seq::new(parts.len(), |i: int| parts[i]@)
}

/// Every piece is a number that fits into 32 bits.
pub open spec fn all_numbers(parts: Seq<Seq<char>>) -> bool {
    forall|i: int| 0 <= i < parts.len() ==> number_value(#[trigger] parts[i], u32::MAX as nat) is Some
}

/// The box that a text stands for. Every piece must be a number, also those after
/// the fourth, which are otherwise ignored; the first four are x, y, width and height.
pub open spec fn box_value(s: Seq<char>) -> Result<Box, BoxError> {
    let parts = pieces(s);
    if !all_numbers(parts) {
        Err(BoxError::InvalidNumber)
    } else if parts.len() < 4 {
        Err(BoxError::TooFewValues)
    } else {
        Ok(
            Box {
                x: number_value(parts[0], u32::MAX as nat).unwrap() as u32,
                y: number_value(parts[1], u32::MAX as nat).unwrap() as u32,
                width: number_value(parts[2], u32::MAX as nat).unwrap() as u32,
                height: number_value(parts[3], u32::MAX as nat).unwrap() as u32,
            },
        )
    }
}

/// A run of digits that has a value has one at every prefix, and none above its own.
pub proof fn lemma_digits_prefix(s: Seq<char>, n: int)
    requires
        1 <= n <= s.len(),
        digits_value(s) is Some,
    ensures
        digits_value(s.take(n)) is Some,
        digits_value(s.take(n)).unwrap() <= digits_value(s).unwrap(),
    decreases s.len(),
{
    if n == s.len() {
        assert(s.take(n) =~= s);
    } else {
        assert(s.drop_last().take(n) =~= s.take(n));
        lemma_digits_prefix(s.drop_last(), n);
    }
}

fn digit_of(c: char) -> (d: Option<u8>)
    ensures
        match d {
            Some(value) => digit_value(c) == Some(value as nat) && value <= 9,
            None => digit_value(c) is None,
        },
{
    if '0' <= c && c <= '9' {
        Some(((c as u32) - ('0' as u32)) as u8)
    } else {
        None
    }
}

/// The number that `text` stands for, if it is one and at most `max`.
pub fn parse_chars(text: &Vec<char>, max: u64) -> (res: Option<u64>)
    ensures
        match res {
            Some(value) => number_value(text@, max as nat) == Some(value as nat),
            None => number_value(text@, max as nat) is None,
        },
{
    let start: usize = if text.len() > 0 && text[0] == '+' {
        1
    } else {
        0
    };
    let ghost digits = text@.skip(start as int);
    proof {
        if start == 1 {
            assert(digits =~= text@.drop_first());
        } else {
            assert(digits =~= text@);
        }
    }
    if start == text.len() {
        return None;
    }
    let mut value: u64 = 0;
    let mut i: usize = start;
    while i < text.len()
        invariant
            start <= i <= text.len(),
            start < text.len(),
            digits == text@.skip(start as int),
            digits == if text@.len() > 0 && text@[0] == '+' {
                text@.drop_first()
            } else {
                text@
            },
            value <= max,
            i > start ==> digits_value(digits.take(i - start)) == Some(value as nat),
            i == start ==> value == 0,
        decreases text.len() - i,
    {
        let ghost n = i - start + 1;
        let ghost front = digits.take(n);
        proof {
            assert(front.drop_last() =~= digits.take(n - 1));
            assert(front.last() == text[i as int]);
            assert(front.len() == n);
            if n == 1 {
                assert(front[0] == front.last());
            }
        }
        match digit_of(text[i]) {
            Some(digit) => {
                let next: u128 = 10 * (value as u128) + digit as u128;
                assert(digits_value(front) == Some(next as nat));
                if next > max as u128 {
                    proof {
                        if digits_value(digits) is Some {
                            lemma_digits_prefix(digits, n);
                        }
                    }
                    return None;
                }
                value = next as u64;
            },
            None => {
                assert(digits_value(front) is None);
                proof {
                    if digits_value(digits) is Some {
                        lemma_digits_prefix(digits, n);
                    }
                }
                return None;
            },
        }
        i += 1;
    }
    assert(digits.take(i - start) =~= digits);
    Some(value)
}

/// The characters of a text.
pub fn chars_of(text: &str) -> (chars: Vec<char>)
    ensures
        chars@ == text@,
{
    let len = text.unicode_len();
    let mut chars: Vec<char> = Vec::new();
    let mut i: usize = 0;
    while i < len
        invariant
            i <= len,
            len == text@.len(),
            chars@ == text@.take(i as int),
        decreases len - i,
    {
        chars.push(text.get_char(i));
        assert(text@.take(i + 1) =~= text@.take(i as int).push(text@[i as int]));
        i += 1;
    }
    assert(text@.take(len as int) =~= text@);
    chars
}

/// Reads a decimal number of 32 bits: digits, with or without a plus sign before them.
pub fn parse_u32(text: &str) -> (res: Option<u32>)
    ensures
        match res {
            Some(value) => number_value(text@, u32::MAX as nat) == Some(value as nat),
            None => number_value(text@, u32::MAX as nat) is None,
        },
{
    match parse_chars(&chars_of(text), u32::MAX as u64) {
        Some(value) => Some(value as u32),
        None => None,
    }
}

/// Reads a decimal number of 64 bits: digits, with or without a plus sign before them.
pub fn parse_u64(text: &str) -> (res: Option<u64>)
    ensures
        match res {
            Some(value) => number_value(text@, u64::MAX as nat) == Some(value as nat),
            None => number_value(text@, u64::MAX as nat) is None,
        },
{
    parse_chars(&chars_of(text), u64::MAX)
}

/// Reads a position or a size from an entry field; a text that is no number counts as 0,
/// which stands for a value not entered.
pub fn parse_or_zero(text: &str) -> (value: u32)
    ensures
        value == match number_value(text@, u32::MAX as nat) {
            Some(number) => number,
            None => 0,
        },
{
    match parse_u32(text) {
        Some(value) => value,
        None => 0,
    }
}

/// Splits a text at the characters `x`, `y`, `w` and `h` and drops the empty pieces.
pub fn split_values(text: &Vec<char>) -> (parts: Vec<Vec<char>>)
    ensures
        texts(parts@) == pieces(text@),
{
    let mut done: Vec<Vec<char>> = Vec::new();
    let mut current: Vec<char> = Vec::new();
    let mut i: usize = 0;
    assert(text@.take(0) =~= Seq::<char>::empty());
    assert(texts(done@) =~= Seq::<Seq<char>>::empty());
    while i < text.len()
        invariant
            i <= text.len(),
            texts(done@) == split(text@.take(i as int)).0,
            current@ == split(text@.take(i as int)).1,
        decreases text.len() - i,
    {
        let c = text[i];
        proof {
            assert(text@.take(i + 1).drop_last() =~= text@.take(i as int));
            assert(text@.take(i + 1).last() == c);
        }
        if !(c == 'x' || c == 'y' || c == 'w' || c == 'h') {
            current.push(c);
        } else if current.len() > 0 {
            let ghost before = texts(done@);
            let ghost piece = current@;
            done.push(current);
            current = Vec::new();
            assert(texts(done@) =~= before.push(piece));
        }
        i += 1;
    }
    assert(text@.take(i as int) =~= text@);
    if current.len() > 0 {
        let ghost before = texts(done@);
        let ghost piece = current@;
        done.push(current);
        assert(texts(done@) =~= before.push(piece));
    }
    done
}

/// Reads a box written as `x[XOFFSET]y[YOFFSET]w[WIDTH]h[HEIGHT]`.
pub fn parse_box(text: &str) -> (res: Result<Box, BoxError>)
    ensures
        res == box_value(text@),
{
    let chars = chars_of(text);
    let parts = split_values(&chars);
    let mut values: Vec<u32> = Vec::new();
    let mut i: usize = 0;
    while i < parts.len()
        invariant
            i <= parts.len(),
            values.len() == i,
            texts(parts@) == pieces(text@),
            forall|j: int|
                0 <= j < i ==> number_value(#[trigger] texts(parts@)[j], u32::MAX as nat) == Some(
                    values[j] as nat,
                ),
        decreases parts.len() - i,
    {
        assert(texts(parts@)[i as int] == parts[i as int]@);
        match parse_chars(&parts[i], u32::MAX as u64) {
            Some(value) => {
                values.push(value as u32);
            },
            None => {
                assert(number_value(texts(parts@)[i as int], u32::MAX as nat) is None);
                return Err(BoxError::InvalidNumber);
            },
        }
        i += 1;
    }
    assert(all_numbers(pieces(text@)));
    if values.len() < 4 {
        return Err(BoxError::TooFewValues);
    }
    Ok(Box { x: values[0], y: values[1], width: values[2], height: values[3] })
}

} // verus!
