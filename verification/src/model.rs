//! The records the service works on, and how their fields are read from
//! text.

pub mod api_request;
pub mod api_response;
pub mod csv;
pub mod database;

use crate::decimal::{
    big_decimal_parsed, decimal_digits, parse_big_decimal, parts_value, Decimal, DecimalValue,
};
use crate::timestamp::{naive_datetime_parsed, parse_naive_datetime, Timestamp};
use vstd::prelude::*;

verus! {

/// The pattern of a reading's time: day, month by its short English name,
/// year, then hour and minute, as in `1 Jan 2025 00:00`.
pub const DATETIME_FORMAT: &'static str = "%-d %b %Y %H:%M";

/// Why a row of text gave no reading.
#[derive(Debug, PartialEq, Eq, Structural, Clone, Copy)]
pub enum DecodeError {
    /// The time does not follow the pattern, or names no instant.
    InvalidTimestamp,
    /// What is left of the amount after cleaning is no decimal number.
    InvalidAmount,
    /// Nothing is left of the amount after cleaning.
    EmptyAmount,
    /// The row is not a time and an amount: it could not be split into
    /// fields, or has another number of them than two.
    MalformedRecord,
}

/// Whether `char::is_whitespace` holds of `c`: whether Unicode gives the
/// character the property White_Space.
pub uninterp spec fn unicode_white_space(c: char) -> bool;

/// `char::is_whitespace` of std. Nothing is claimed of the result but that
/// it is what std gives for this character.
pub assume_specification[ char::is_whitespace ](c: char) -> (white: bool)
    ensures
        white == unicode_white_space(c),
;

/// Whether a character is taken off the ends of an amount: a double quote
/// where `quotes`, white space where not.
pub open spec fn taken_off(quotes: bool, c: char) -> bool {
    if quotes {
        c == '"'
    } else {
        unicode_white_space(c)
    }
}

/// `text` without the characters at its front that are taken off.
pub open spec fn without_front(text: Seq<char>, quotes: bool) -> Seq<char>
    decreases text.len(),
{
    if text.len() > 0 && taken_off(quotes, text[0]) {
        without_front(text.drop_first(), quotes)
    } else {
        text
    }
}

/// `text` without the characters at its back that are taken off.
pub open spec fn without_back(text: Seq<char>, quotes: bool) -> Seq<char>
    decreases text.len(),
{
    if text.len() > 0 && taken_off(quotes, text.last()) {
        without_back(text.drop_last(), quotes)
    } else {
        text
    }
}

/// `text` without the characters at both ends that are taken off.
pub open spec fn stripped(text: Seq<char>, quotes: bool) -> Seq<char> {
    without_back(without_front(text, quotes), quotes)
}

/// An amount as it is handed to the number parser: without white space
/// around it, then without double quotes around it, then without commas.
pub open spec fn cleaned_amount(text: Seq<char>) -> Seq<char> {
    stripped(stripped(text, false), true).filter(|c: char| c != ',')
}

/// What the text of an amount decodes to.
pub open spec fn amount_of(text: Seq<char>) -> Result<DecimalValue, DecodeError> {
    let cleaned = cleaned_amount(text);
    if cleaned.len() == 0 {
        Err(DecodeError::EmptyAmount)
    } else {
        match big_decimal_parsed(cleaned) {
            Some((negative, digits, scale)) => if decimal_digits(digits) {
                Ok(parts_value(negative, digits, scale))
            } else {
                Err(DecodeError::InvalidAmount)
            },
            None => Err(DecodeError::InvalidAmount),
        }
    }
}

/// What the text of a time decodes to.
pub open spec fn timestamp_of(text: Seq<char>) -> Result<Timestamp, DecodeError> {
    match naive_datetime_parsed(text, DATETIME_FORMAT@) {
        Some(read) => if read.is_valid() {
            Ok(read)
        } else {
            Err(DecodeError::InvalidTimestamp)
        },
        None => Err(DecodeError::InvalidTimestamp),
    }
}

/// The characters of `text`.
fn chars_of(text: &str) -> (chars: Vec<char>)
    ensures
        chars@ == text@,
{
    let mut chars: Vec<char> = Vec::new();
    for c in it: text.chars()
        invariant
            chars@ == it.seq().take(it.index() as int),
            it.seq() == text@,
    {
        chars.push(c);
    }
    chars
}

/// Whether a character is taken off the ends of an amount.
fn is_taken_off(quotes: bool, c: char) -> (taken: bool)
    ensures
        taken == taken_off(quotes, c),
{
    if quotes {
        c == '"'
    } else {
        c.is_whitespace()
    }
}

/// Where what is left of `text[from..to]` begins and ends once the ends are
/// stripped.
fn strip(text: &Vec<char>, from: usize, to: usize, quotes: bool) -> (bounds: (usize, usize))
    requires
        from <= to <= text.len(),
    ensures
        from <= bounds.0 <= bounds.1 <= to,
        text@.subrange(bounds.0 as int, bounds.1 as int) == stripped(
            text@.subrange(from as int, to as int),
            quotes,
        ),
{
    let mut front: usize = from;
    while front < to && is_taken_off(quotes, text[front])
        invariant
            from <= front <= to <= text.len(),
            without_front(text@.subrange(from as int, to as int), quotes) == without_front(
                text@.subrange(front as int, to as int),
                quotes,
            ),
        decreases to - front,
    {
        assert(text@.subrange(front as int, to as int).drop_first() == text@.subrange(
            front + 1,
            to as int,
        ));
        front += 1;
    }
    let mut back: usize = to;
    while front < back && is_taken_off(quotes, text[back - 1])
        invariant
            front <= back <= to <= text.len(),
            without_back(text@.subrange(front as int, to as int), quotes) == without_back(
                text@.subrange(front as int, back as int),
                quotes,
            ),
        decreases back - front,
    {
        assert(text@.subrange(front as int, back as int).drop_last() == text@.subrange(
            front as int,
            back - 1,
        ));
        back -= 1;
    }
    (front, back)
}

/// The amount in `text` as it is handed to the number parser.
fn clean_amount(text: &Vec<char>) -> (cleaned: Vec<char>)
    ensures
        cleaned@ == cleaned_amount(text@),
{
    let (from, to) = strip(text, 0, text.len(), false);
    let (from, to) = strip(text, from, to, true);
    assert(text@.subrange(0, text@.len() as int) == text@);
    let ghost kept = |c: char| c != ',';
    let mut cleaned: Vec<char> = Vec::new();
    let mut at: usize = from;
    while at < to
        invariant
            from <= at <= to <= text.len(),
            kept == (|c: char| c != ','),
            cleaned@ == text@.subrange(from as int, at as int).filter(kept),
        decreases to - at,
    {
        proof {
            let so_far = text@.subrange(from as int, at as int);
            so_far.lemma_filter_push(text@[at as int], kept);
            assert(so_far.push(text@[at as int]) == text@.subrange(from as int, at + 1));
        }
        if text[at] != ',' {
            cleaned.push(text[at]);
        }
        at += 1;
    }
    cleaned
}

/// Reads the time of a reading: day, short English month, year, hour and
/// minute, taken as UTC.
pub fn deserialize_datetime(text: &str) -> (read: Result<Timestamp, DecodeError>)
    ensures
        read == timestamp_of(text@),
{
    match parse_naive_datetime(text, DATETIME_FORMAT) {
        Some(stamp) => if stamp.check_valid() {
            Ok(stamp)
        } else {
            Err(DecodeError::InvalidTimestamp)
        },
        None => Err(DecodeError::InvalidTimestamp),
    }
}

/// Reads the amount of a reading: a decimal number that may stand in double
/// quotes and hold commas between its thousands. No digit is lost.
pub fn deserialize_decimal(text: &str) -> (read: Result<Decimal, DecodeError>)
    ensures
        match read {
            Ok(amount) => amount_of(text@) == Ok::<DecimalValue, DecodeError>(amount@)
                && amount.well_formed(),
            Err(error) => amount_of(text@) == Err::<DecimalValue, DecodeError>(error),
        },
{
    let chars = chars_of(text);
    let cleaned = clean_amount(&chars);
    if cleaned.len() == 0 {
        return Err(DecodeError::EmptyAmount);
    }
    match parse_big_decimal(&cleaned) {
        Some((negative, digits, scale)) => match Decimal::from_parts(negative, digits, scale) {
            Some(amount) => Ok(amount),
            None => Err(DecodeError::InvalidAmount),
        },
        None => Err(DecodeError::InvalidAmount),
    }
}

} // verus!
