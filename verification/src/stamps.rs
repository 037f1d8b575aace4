//! Fresh identifiers and timestamps, from the `uuid` and `chrono` crates.
use vstd::prelude::*;
use crate::text::{all_digits, is_digit};

verus! {

/// A lower-case hexadecimal digit.
pub open spec fn is_lower_hex(c: char) -> bool {
    ('0' <= c && c <= '9') || ('a' <= c && c <= 'f')
}

/// The hyphenated text of a random (version 4) UUID: 36 characters, hyphens
/// at 8, 13, 18 and 23, lower-case hexadecimal digits elsewhere, the version
/// digit `4` at 14 and a variant digit among `8`, `9`, `a`, `b` at 19.
pub open spec fn uuid_v4_text(s: Seq<char>) -> bool {
    &&& s.len() == 36
    &&& forall|i: int|
        0 <= i < 36 ==> if i == 8 || i == 13 || i == 18 || i == 23 {
            #[trigger] s[i] == '-'
        } else {
            is_lower_hex(s[i])
        }
    &&& s[14] == '4'
    &&& (s[19] == '8' || s[19] == '9' || s[19] == 'a' || s[19] == 'b')
}

/// The year of a `chrono` RFC 3339 text: four digits for the years 0 to
/// 9999, else a sign and at least four digits.
pub open spec fn rfc3339_year(y: Seq<char>) -> bool {
    ||| y.len() == 4 && all_digits(y)
    ||| y.len() >= 5 && (y[0] == '+' || y[0] == '-') && all_digits(y.drop_first())
}

/// Two decimal digits stand at `i` and `i + 1` of `s`.
pub open spec fn two_digits_at(s: Seq<char>, i: int) -> bool {
    is_digit(s[i]) && is_digit(s[i + 1])
}

/// `s` is an RFC 3339 date-time in UTC with `f` digits of fractional
/// seconds (none when `f` is 0): the year, then `-MM-DDTHH:MM:SS`, then
/// `.` and the fraction when there is one, then the offset `+00:00`.
pub open spec fn utc_stamp_with_fraction(s: Seq<char>, f: int) -> bool {
    let n = s.len() as int;
    let frac = if f == 0 {
        0
    } else {
        f + 1
    };
    let t = n - 6 - frac - 15;
    &&& t >= 4
    &&& rfc3339_year(s.subrange(0, t))
    &&& s[t] == '-' && two_digits_at(s, t + 1)
    &&& s[t + 3] == '-' && two_digits_at(s, t + 4)
    &&& s[t + 6] == 'T' && two_digits_at(s, t + 7)
    &&& s[t + 9] == ':' && two_digits_at(s, t + 10)
    &&& s[t + 12] == ':' && two_digits_at(s, t + 13)
    &&& f > 0 ==> s[t + 15] == '.' && all_digits(s.subrange(t + 16, t + 16 + f))
    &&& s.subrange(n - 6, n) == seq!['+', '0', '0', ':', '0', '0']
}

/// An RFC 3339 date-time in UTC, as `chrono`'s `to_rfc3339` writes it:
/// `YYYY-MM-DDTHH:MM:SS`, then no fraction of a second or one of 3, 6 or 9
/// digits, then `+00:00`.
pub open spec fn utc_stamp(s: Seq<char>) -> bool {
    ||| utc_stamp_with_fraction(s, 0)
    ||| utc_stamp_with_fraction(s, 3)
    ||| utc_stamp_with_fraction(s, 6)
    ||| utc_stamp_with_fraction(s, 9)
}

/// The RFC 3339 text (UTC, as `chrono`'s `DateTime::to_rfc3339` writes it) of
/// the instant `secs` seconds after the Unix epoch, or nothing when `chrono`
/// cannot represent that instant.
pub uninterp spec fn rfc3339_of_unix_seconds(secs: i64) -> Option<Seq<char>>;

/// A fresh random identifier: calls `uuid::Uuid::new_v4` and formats it with
/// `to_string`. The contract claims only the shape of the text, which the
/// formatting code of `uuid` fixes; the digits are random.
#[verifier::external_body]
pub(crate) fn new_id() -> (r: String)
    ensures
        uuid_v4_text(r@),
{
    uuid::Uuid::new_v4().to_string()
}

/// The current time: calls `chrono::Utc::now` and formats it with
/// `to_rfc3339`. The contract claims the shape that `write_rfc3339` gives
/// a UTC date-time with `SecondsFormat::AutoSi`; the instant is the
/// clock's.
#[verifier::external_body]
pub(crate) fn now_rfc3339() -> (r: String)
    ensures
        utc_stamp(r@),
{
    chrono::Utc::now().to_rfc3339()
}

/// The RFC 3339 text of a Unix timestamp: calls
/// `chrono::DateTime::from_timestamp(secs, 0)` and, when that gives an
/// instant, formats it with `to_rfc3339`. The contract names the result: it
/// depends on `secs` alone.
#[verifier::external_body]
pub(crate) fn rfc3339_from_unix_seconds(secs: i64) -> (r: Option<String>)
    ensures
        r.deep_view() == rfc3339_of_unix_seconds(secs),
{
    match chrono::DateTime::from_timestamp(secs, 0) {
        Some(t) => Some(t.to_rfc3339()),
        None => None,
    }
}

} // verus!
