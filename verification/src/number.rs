//! Reading an unsigned number from a line of text.
//!
//! A line holds a number when, with the white space around it removed, it is
//! an optional `+` followed by one or more of the digits `0` to `9`, and the
//! decimal value of those digits fits in 32 bits. Anything else (an empty
//! line, a `-`, a letter, a space between digits, too large a value) holds no
//! number.

use vstd::prelude::*;
use vstd::std_specs::iter::IteratorSpec;
use crate::error::GameError;

verus! {

/// Whether `c` is white space: one of the characters with the Unicode
/// property White_Space.
pub open spec fn is_space(c: char) -> bool {
    let code = c as u32;
    ||| 0x09 <= code <= 0x0D
    ||| code == 0x20
    ||| code == 0x85
    ||| code == 0xA0
    ||| code == 0x1680
    ||| 0x2000 <= code <= 0x200A
    ||| code == 0x2028
    ||| code == 0x2029
    ||| code == 0x202F
    ||| code == 0x205F
    ||| code == 0x3000
}

/// Whether `c` is one of the digits `0` to `9`.
pub open spec fn is_digit(c: char) -> bool {
    0x30 <= c as u32 <= 0x39
}

/// The value of the digit `c`.
pub open spec fn digit_value(c: char) -> nat
    recommends
        is_digit(c),
{
    (c as u32 - 0x30) as nat
}

/// `text` without the white space at its start.
pub open spec fn without_leading_space(text: Seq<char>) -> Seq<char>
    decreases text.len(),
{
    if text.len() > 0 && is_space(text.first()) {
        without_leading_space(text.drop_first())
    } else {
        text
    }
}

/// `text` without the white space at its end.
pub open spec fn without_trailing_space(text: Seq<char>) -> Seq<char>
    decreases text.len(),
{
    if text.len() > 0 && is_space(text.last()) {
        without_trailing_space(text.drop_last())
    } else {
        text
    }
}

/// `text` without the white space around it.
pub open spec fn trimmed(text: Seq<char>) -> Seq<char> {
    without_trailing_space(without_leading_space(text))
}

/// `text` without the `+` that may stand in front of the digits.
pub open spec fn unsigned_part(text: Seq<char>) -> Seq<char> {
    if text.len() > 0 && text.first() == '+' {
        text.drop_first()
    } else {
        text
    }
}

/// Whether every character of `text` is a digit.
pub open spec fn all_digits(text: Seq<char>) -> bool {
    forall|i: int| 0 <= i < text.len() ==> is_digit(#[trigger] text[i])
}

/// The decimal value of a run of digits, the most significant first.
pub open spec fn digits_value(digits: Seq<char>) -> nat
    decreases digits.len(),
{
    if digits.len() == 0 {
        0
    } else {
        10 * digits_value(digits.drop_last()) + digit_value(digits.last())
    }
}

/// The number that `text` spells with no white space around it, if it spells
/// one.
pub open spec fn number_in(text: Seq<char>) -> Option<u32> {
    let digits = unsigned_part(text);
    if digits.len() > 0 && all_digits(digits) && digits_value(digits) <= u32::MAX {
        Some(digits_value(digits) as u32)
    } else {
        None
    }
}

/// The number that a line of input holds, if it holds one.
pub open spec fn parsed_number(line: Seq<char>) -> Option<u32> {
    number_in(trimmed(line))
}

/// Removing trailing white space leaves a prefix of the text.
proof fn lemma_trailing_leaves_prefix(text: Seq<char>)
    ensures
        without_trailing_space(text).len() <= text.len(),
        without_trailing_space(text) == text.take(without_trailing_space(text).len() as int),
    decreases text.len(),
{
    if text.len() > 0 && is_space(text.last()) {
        lemma_trailing_leaves_prefix(text.drop_last());
    }
}

/// Removing trailing white space keeps everything up to a character that is
/// no white space.
proof fn lemma_trailing_keeps_head(head: Seq<char>, rest: Seq<char>)
    requires
        head.len() > 0,
        !is_space(head.last()),
    ensures
        without_trailing_space(head + rest).len() >= head.len(),
        forall|i: int|
            0 <= i < head.len() ==> #[trigger] without_trailing_space(head + rest)[i] == head[i],
    decreases rest.len(),
{
    if rest.len() > 0 && is_space(rest.last()) {
        assert((head + rest).drop_last() =~= head + rest.drop_last());
        lemma_trailing_keeps_head(head, rest.drop_last());
    }
}

/// A character that is no digit, other than a `+` in front, spoils the text.
proof fn lemma_spoiled(text: Seq<char>, at: int)
    requires
        0 <= at < text.len(),
        !is_digit(text[at]),
        at > 0 || text[0] != '+',
    ensures
        number_in(text) is None,
{
    if text[0] == '+' {
        assert(unsigned_part(text)[at - 1] == text[at]);
    }
}

/// Digits that follow never make the value smaller.
proof fn lemma_value_grows(digits: Seq<char>, cut: int)
    requires
        0 <= cut <= digits.len(),
    ensures
        digits_value(digits.take(cut)) <= digits_value(digits),
    decreases digits.len(),
{
    if cut < digits.len() {
        lemma_value_grows(digits.drop_last(), cut);
        assert(digits.drop_last().take(cut) =~= digits.take(cut));
    } else {
        assert(digits.take(cut) =~= digits);
    }
}

/// Tells whether `c` is white space.
pub fn is_whitespace(c: char) -> (answer: bool)
    ensures
        answer == is_space(c),
{
    let code: u32 = c as u32;
    (0x09 <= code && code <= 0x0D) || code == 0x20 || code == 0x85 || code == 0xA0 || code
        == 0x1680 || (0x2000 <= code && code <= 0x200A) || code == 0x2028 || code == 0x2029
        || code == 0x202F || code == 0x205F || code == 0x3000
}

/// The value of `c` if it is a digit.
pub fn decimal_digit(c: char) -> (digit: Option<u32>)
    ensures
        is_digit(c) ==> digit == Some(digit_value(c) as u32),
        !is_digit(c) ==> digit is None,
{
    let code: u32 = c as u32;
    if 0x30 <= code && code <= 0x39 {
        Some(code - 0x30)
    } else {
        None
    }
}

/// The `+` that stands in front of the digits, if there is one.
spec fn sign_text(signed: bool) -> Seq<char> {
    if signed {
        seq!['+']
    } else {
        Seq::empty()
    }
}

/// Reads the number that `line` holds.
///
/// The line is read once, front to back: white space, an optional `+`, the
/// digits, white space. The value is built up digit by digit, and the first
/// digit that takes it out of 32 bits ends the reading.
pub fn parse_number(line: &str) -> (outcome: Result<u32, GameError>)
    ensures
        parsed_number(line@) matches Some(number) ==> outcome == Ok::<u32, GameError>(number),
        parsed_number(line@) is None ==> outcome == Err::<u32, GameError>(GameError::Parse),
{
    broadcast use vstd::string::group_string_axioms;

    let ghost core = without_leading_space(line@);
    let ghost text = trimmed(line@);
    let mut chars = line.chars();

    // White space in front.
    let mut first: char = ' ';
    loop
        invariant_except_break
            without_leading_space(chars.remaining()) == core,
        invariant
            chars.obeys_prophetic_iter_laws(),
            chars.decrease() is Some,
            core == without_leading_space(line@),
        ensures
            !is_space(first),
            core == seq![first] + chars.remaining(),
        decreases chars.decrease()->0,
    {
        match chars.next() {
            None => {
                return Err(GameError::Parse);
            },
            Some(c) => {
                if !is_whitespace(c) {
                    first = c;
                    break ;
                }
            },
        }
    }

    // The sign, and the first digit.
    let ghost signed = first == '+';
    let ghost mut head: Seq<char> = seq![first];
    let lead: char;
    if first == '+' {
        match chars.next() {
            None => {
                return Err(GameError::Parse);
            },
            Some(c) => {
                lead = c;
                proof {
                    head = head.push(c);
                }
            },
        }
    } else {
        lead = first;
    }
    assert(head + chars.remaining() =~= core);
    let mut value: u32 = match decimal_digit(lead) {
        Some(digit) => digit,
        None => {
            proof {
                if is_space(lead) {
                    lemma_trailing_leaves_prefix(core);
                    if text.len() >= 2 {
                        lemma_spoiled(text, 1);
                    }
                } else {
                    lemma_trailing_keeps_head(head, chars.remaining());
                    lemma_spoiled(text, head.len() - 1);
                }
            }
            return Err(GameError::Parse);
        },
    };
    let ghost mut digits: Seq<char> = seq![lead];
    assert(digits_value(digits) == value) by {
        assert(digits_value(digits.drop_last()) == 0);
    }

    // The digits that follow.
    let ghost mut blank: int = 0;
    loop
        invariant_except_break
            head + chars.remaining() == core,
            head == sign_text(signed) + digits,
            digits.len() > 0,
            all_digits(digits),
            value == digits_value(digits),
        invariant
            chars.obeys_prophetic_iter_laws(),
            chars.decrease() is Some,
            text == without_trailing_space(core),
            text == trimmed(line@),
        ensures
            head + chars.remaining() == core,
            without_trailing_space(head) == sign_text(signed) + digits,
            1 <= blank < head.len(),
            is_space(head[blank]),
            digits.len() > 0,
            all_digits(digits),
            value == digits_value(digits),
        decreases chars.decrease()->0,
    {
        match chars.next() {
            None => {
                proof {
                    assert(unsigned_part(text) =~= digits);
                }
                return Ok(value);
            },
            Some(c) => {
                let ghost longer = digits.push(c);
                let ghost reach = head.push(c);
                assert(reach + chars.remaining() =~= core);
                match decimal_digit(c) {
                    Some(digit) => {
                        assert(longer.drop_last() =~= digits);
                        let grown: Option<u32> = match value.checked_mul(10) {
                            Some(tenfold) => tenfold.checked_add(digit),
                            None => None,
                        };
                        match grown {
                            Some(more) => {
                                value = more;
                                proof {
                                    digits = longer;
                                    head = reach;
                                }
                            },
                            None => {
                                proof {
                                    lemma_trailing_keeps_head(reach, chars.remaining());
                                    let rest = unsigned_part(text);
                                    assert(rest.take(longer.len() as int) =~= longer);
                                    lemma_value_grows(rest, longer.len() as int);
                                }
                                return Err(GameError::Parse);
                            },
                        }
                    },
                    None => {
                        if is_whitespace(c) {
                            proof {
                                assert(reach.drop_last() =~= head);
                                assert(without_trailing_space(head) == head);
                                blank = head.len() as int;
                                head = reach;
                            }
                            break ;
                        } else {
                            proof {
                                lemma_trailing_keeps_head(reach, chars.remaining());
                                lemma_spoiled(text, reach.len() - 1);
                            }
                            return Err(GameError::Parse);
                        }
                    },
                }
            },
        }
    }

    // White space behind.
    loop
        invariant
            chars.obeys_prophetic_iter_laws(),
            chars.decrease() is Some,
            text == without_trailing_space(core),
            text == trimmed(line@),
            head + chars.remaining() == core,
            without_trailing_space(head) == sign_text(signed) + digits,
            1 <= blank < head.len(),
            is_space(head[blank]),
            digits.len() > 0,
            all_digits(digits),
            value == digits_value(digits),
        decreases chars.decrease()->0,
    {
        match chars.next() {
            None => {
                proof {
                    assert(unsigned_part(text) =~= digits);
                }
                return Ok(value);
            },
            Some(c) => {
                let ghost reach = head.push(c);
                assert(reach + chars.remaining() =~= core);
                if is_whitespace(c) {
                    proof {
                        assert(reach.drop_last() =~= head);
                        head = reach;
                    }
                } else {
                    proof {
                        lemma_trailing_keeps_head(reach, chars.remaining());
                        lemma_spoiled(text, blank);
                    }
                    return Err(GameError::Parse);
                }
            },
        }
    }
}

} // verus!
