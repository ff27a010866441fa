//! Author timestamps: seconds since the epoch written as decimal text, read
//! and written here, and turned into the date text that `git commit --date`
//! takes.

use crate::text::{chars_of, single_line};
use chrono::TimeZone;
use chrono::Utc;
use vstd::prelude::*;

verus! {

/// Why a timestamp text cannot be turned into a date.
#[derive(Debug, Clone, Copy, PartialEq, Eq, Structural)]
pub enum TimestampError {
    /// The text is not an optional sign followed by decimal digits that fit
    /// in 64 bits.
    Malformed,
    /// The number of seconds lies outside the years that the calendar covers.
    OutOfRange,
}

impl TimestampError {
    /// The sentence that says what is wrong.
    pub open spec fn message_text(self) -> Seq<char> {
        match self {
            TimestampError::Malformed => "timestamp is not a whole number of seconds"@,
            TimestampError::OutOfRange => "timestamp lies outside the supported years"@,
        }
    }

    /// A sentence for the operator.
    pub fn message(&self) -> (text: String)
        ensures
            text@ == self.message_text(),
    {
        match self {
            TimestampError::Malformed => "timestamp is not a whole number of seconds".to_owned(),
            TimestampError::OutOfRange => "timestamp lies outside the supported years".to_owned(),
        }
    }
}

/// The character is one of the ten decimal digits.
pub open spec fn is_digit(c: char) -> bool {
    '0' <= c <= '9'
}

/// The number that a digit stands for.
pub open spec fn digit_value(c: char) -> int {
    c as int - '0' as int
}

/// Every character of the text is a decimal digit.
pub open spec fn all_digits(digits: Seq<char>) -> bool {
    forall|i: int| 0 <= i < digits.len() ==> is_digit(#[trigger] digits[i])
}

/// The number that a run of decimal digits writes, most significant first.
pub open spec fn decimal_value(digits: Seq<char>) -> int
    decreases digits.len(),
{
    if digits.len() == 0 {
        0
    } else {
        10 * decimal_value(digits.drop_last()) + digit_value(digits.last())
    }
}

/// The text starts with a plus or a minus sign.
pub open spec fn has_sign(text: Seq<char>) -> bool {
    text.len() > 0 && (text[0] == '-' || text[0] == '+')
}

/// The text without its sign, if it has one.
pub open spec fn unsigned_part(text: Seq<char>) -> Seq<char> {
    if has_sign(text) {
        text.skip(1)
    } else {
        text
    }
}

/// The integer that a text writes: an optional sign, then one or more decimal
/// digits and nothing else. There is none for any other text.
pub open spec fn signed_value(text: Seq<char>) -> Option<int> {
    let digits = unsigned_part(text);
    if digits.len() == 0 || !all_digits(digits) {
        None
    } else if text[0] == '-' {
        Some(-decimal_value(digits))
    } else {
        Some(decimal_value(digits))
    }
}

/// The seconds that a timestamp text stands for, if it writes an integer
/// that fits in 64 bits.
pub open spec fn parse_seconds(text: Seq<char>) -> Option<i64> {
    match signed_value(text) {
        Some(v) => if i64::MIN <= v <= i64::MAX {
            Some(v as i64)
        } else {
            None
        },
        None => None,
    }
}

/// The value of a run of digits is not negative and not below the value of
/// any of its prefixes.
pub proof fn lemma_value_grows(digits: Seq<char>, k: int)
    requires
        all_digits(digits),
        0 <= k <= digits.len(),
    ensures
        0 <= decimal_value(digits.take(k)) <= decimal_value(digits),
    decreases digits.len() - k,
{
    if k == digits.len() {
        assert(digits.take(k) =~= digits);
        lemma_value_not_negative(digits);
    } else {
        let front = digits.drop_last();
        assert forall|i: int| 0 <= i < front.len() implies is_digit(#[trigger] front[i]) by {
            assert(front[i] == digits[i]);
        }
        lemma_value_grows(front, k);
        assert(front.take(k) =~= digits.take(k));
        assert(is_digit(digits[digits.len() - 1]));
    }
}

/// The value of a run of digits is not negative.
pub proof fn lemma_value_not_negative(digits: Seq<char>)
    requires
        all_digits(digits),
    ensures
        0 <= decimal_value(digits),
    decreases digits.len(),
{
    if digits.len() > 0 {
        let front = digits.drop_last();
        assert forall|i: int| 0 <= i < front.len() implies is_digit(#[trigger] front[i]) by {
            assert(front[i] == digits[i]);
        }
        lemma_value_not_negative(front);
        assert(is_digit(digits[digits.len() - 1]));
    }
}

/// Reads a timestamp text as seconds since the epoch.
///
/// The text is an optional `+` or `-` followed by decimal digits; anything
/// else, surrounding blanks included, and any value outside 64 bits gives
/// `None`.
pub fn parse_timestamp(text: &str) -> (seconds: Option<i64>)
    ensures
        seconds == parse_seconds(text@),
{
    let chars = chars_of(text);
    let n = chars.len();
    if n == 0 {
        return None;
    }
    let negative = chars[0] == '-';
    let start: usize = if chars[0] == '-' || chars[0] == '+' {
        1
    } else {
        0
    };
    if start == n {
        return None;
    }
    let ghost digits = unsigned_part(text@);
    assert(digits =~= text@.skip(start as int));
    let mut magnitude: u128 = 0;
    let mut i: usize = start;
    while i < n
        invariant
            chars@ == text@,
            n == chars@.len(),
            start <= i <= n,
            digits == unsigned_part(text@),
            digits == text@.skip(start as int),
            all_digits(digits.take(i - start)),
            magnitude == decimal_value(digits.take(i - start)),
            magnitude <= 0x8000_0000_0000_0000,
        decreases n - i,
    {
        let c = chars[i];
        let ghost seen = digits.take(i - start);
        let ghost next = digits.take(i - start + 1);
        assert(next.drop_last() =~= seen);
        if c < '0' || c > '9' {
            assert(!is_digit(digits[i - start]));
            return None;
        }
        let digit: u128 = (c as u32 - 48) as u128;
        magnitude = magnitude * 10 + digit;
        assert forall|j: int| 0 <= j < next.len() implies is_digit(#[trigger] next[j]) by {
            if j < seen.len() {
                assert(seen[j] == next[j]);
            }
        }
        if magnitude > 0x8000_0000_0000_0000 {
            proof {
                if all_digits(digits) {
                    lemma_value_grows(digits, i - start + 1);
                }
            }
            return None;
        }
        i = i + 1;
    }
    assert(digits.take(n - start) =~= digits);
    if negative {
        let value: i128 = -(magnitude as i128);
        Some(value as i64)
    } else if magnitude <= 0x7fff_ffff_ffff_ffff {
        Some(magnitude as i64)
    } else {
        None
    }
}

/// The character that writes a digit from 0 to 9.
pub open spec fn digit_char(d: int) -> char {
    (d + 48) as u8 as char
}

/// The digits that write a natural number, without leading zeros.
pub open spec fn digits_of(n: nat) -> Seq<char>
    decreases n,
{
    if n < 10 {
        seq![digit_char(n as int)]
    } else {
        digits_of(n / 10).push(digit_char((n % 10) as int))
    }
}

/// The decimal text of an integer: a minus sign for a negative one, then the
/// digits of its magnitude.
pub open spec fn decimal_text(v: int) -> Seq<char> {
    if v < 0 {
        seq!['-'] + digits_of((-v) as nat)
    } else {
        digits_of(v as nat)
    }
}

/// The character of a digit is a digit and has the digit's value.
pub proof fn lemma_digit_char(d: int)
    requires
        0 <= d <= 9,
    ensures
        is_digit(digit_char(d)),
        digit_value(digit_char(d)) == d,
{
    assert('0' as int == 48);
    assert('9' as int == 57);
    assert(((d + 48) as u8) as int == d + 48);
    assert(digit_char(d) as int == d + 48);
}

/// The digits of a number write that number.
pub proof fn lemma_digits_value(n: nat)
    ensures
        digits_of(n).len() >= 1,
        all_digits(digits_of(n)),
        decimal_value(digits_of(n)) == n,
        !has_sign(digits_of(n)),
    decreases n,
{
    lemma_digit_char((n % 10) as int);
    if n < 10 {
        assert(digits_of(n).drop_last() =~= Seq::<char>::empty());
        assert(decimal_value(digits_of(n).drop_last()) == 0);
        assert(digits_of(n).last() == digit_char(n as int));
    } else {
        lemma_digits_value(n / 10);
        let front = digits_of(n / 10);
        assert(digits_of(n).drop_last() =~= front);
        assert(digits_of(n).last() == digit_char((n % 10) as int));
        assert(digits_of(n)[0] == front[0]);
        assert forall|i: int| 0 <= i < digits_of(n).len() implies is_digit(
            #[trigger] digits_of(n)[i],
        ) by {
            if i < front.len() {
                assert(digits_of(n)[i] == front[i]);
            }
        }
    }
}

/// Reading the decimal text of a 64-bit integer gives the integer back.
pub proof fn lemma_decimal_round_trip(seconds: i64)
    ensures
        parse_seconds(decimal_text(seconds as int)) == Some(seconds),
{
    let text = decimal_text(seconds as int);
    if seconds < 0 {
        let digits = digits_of((-seconds) as nat);
        lemma_digits_value((-seconds) as nat);
        assert(text.skip(1) =~= digits);
        assert(text[0] == '-');
    } else {
        lemma_digits_value(seconds as nat);
    }
}

fn push_digits(text: &mut String, n: u64)
    ensures
        final(text)@ == old(text)@ + digits_of(n as nat),
    decreases n,
{
    if n >= 10 {
        push_digits(text, n / 10);
    }
    let digit: u8 = (n % 10) as u8;
    text.push((digit + 48) as char);
    assert(text@ =~= old(text)@ + digits_of(n as nat));
}

/// Writes seconds since the epoch as decimal text, the form in which a
/// commit record keeps them.
pub fn timestamp_text(seconds: i64) -> (text: String)
    ensures
        text@ == decimal_text(seconds as int),
        parse_seconds(text@) == Some(seconds),
{
    let mut text = String::new();
    if seconds < 0 {
        text.push('-');
        let magnitude: u64 = (-(seconds as i128)) as u64;
        push_digits(&mut text, magnitude);
    } else {
        push_digits(&mut text, seconds as u64);
    }
    proof {
        assert(text@ =~= decimal_text(seconds as int));
        lemma_decimal_round_trip(seconds);
    }
    text
}

/// The first second that the calendar covers: the start of the year -262143.
pub const MIN_SECONDS: i64 = -8_334_601_228_800;

/// The last second that the calendar covers: the end of the year 262142.
pub const MAX_SECONDS: i64 = 8_210_266_876_799;

/// The seconds fall on a day that the calendar covers.
pub open spec fn in_calendar(seconds: i64) -> bool {
    MIN_SECONDS <= seconds <= MAX_SECONDS
}

/// The pattern of a date text, in chrono's notation: short weekday, short
/// month, day of the month padded with a blank, time of day, year and offset.
pub open spec fn date_pattern() -> Seq<char> {
    "%a %b %e %T %Y %z"@
}

/// The date text of an instant in UTC, in the shape `Wed Dec 13 02:43:57 2023
/// +0000`: weekday, month, day of the month padded with a blank, time of day,
/// year (with a sign where it has more than four digits) and a zero offset.
/// It is what chrono writes for `date_pattern()`; this crate does not
/// compute it.
pub uninterp spec fn utc_date_text(seconds: i64) -> Seq<char>;

/// Calls chrono's `TimeZone::timestamp_opt` on `Utc` with no nanoseconds and
/// then `DateTime::format` with the pattern, which has to be
/// `date_pattern()`.
///
/// Trusted: chrono makes a date-time exactly when the seconds fall on a day
/// from January 1 of its least year, -262143, to December 31 of its greatest,
/// 262142, which are the two bounds of `in_calendar`; the text it writes
/// depends on the seconds alone, for `Utc` has no zone data and the names of
/// days and months are the English ones without the `unstable-locales`
/// feature; and the text holds no line break, for the pattern asks for
/// names, numbers, blanks and colons only.
#[verifier::external_body]
pub(crate) fn format_utc(seconds: i64, pattern: &str) -> (text: Option<String>)
    requires
        pattern@ == date_pattern(),
    ensures
        text is Some <==> in_calendar(seconds),
        text matches Some(t) ==> t@ == utc_date_text(seconds) && single_line(t@),
{
    match Utc.timestamp_opt(seconds, 0).single() {
        Some(moment) => Some(moment.format(pattern).to_string()),
        None => None,
    }
}

/// What becomes of a timestamp text: the date text of its instant, or the
/// reason why there is none.
pub open spec fn date_of(text: Seq<char>) -> Result<Seq<char>, TimestampError> {
    match parse_seconds(text) {
        None => Err(TimestampError::Malformed),
        Some(seconds) => if in_calendar(seconds) {
            Ok(utc_date_text(seconds))
        } else {
            Err(TimestampError::OutOfRange)
        },
    }
}

/// The outcome `date` is the one that `date_of` gives for the text.
pub open spec fn is_date_of(text: Seq<char>, date: Result<String, TimestampError>) -> bool {
    match date {
        Ok(d) => date_of(text) == Ok::<Seq<char>, TimestampError>(d@),
        Err(e) => date_of(text) == Err::<Seq<char>, TimestampError>(e),
    }
}

/// Turns a timestamp text into the date text that overrides a commit's
/// dates.
pub fn commit_date(text: &str) -> (date: Result<String, TimestampError>)
    ensures
        is_date_of(text@, date),
        date matches Ok(d) ==> single_line(d@),
{
    match parse_timestamp(text) {
        None => Err(TimestampError::Malformed),
        Some(seconds) => match format_utc(seconds, "%a %b %e %T %Y %z") {
            Some(date) => Ok(date),
            None => Err(TimestampError::OutOfRange),
        },
    }
}

} // verus!
