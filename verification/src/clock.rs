//! The time of day.

use vstd::prelude::*;

use crate::text::all_digits;

verus! {

/// `chrono::Utc::now().timestamp()`: the seconds since the Unix epoch, which
/// are not negative. Which number it is depends on the time alone.
#[verifier::external_body]
pub(crate) fn timestamp() -> (r: i64)
    ensures
        r >= 0,
{
    chrono::Utc::now().timestamp()
}

/// Whether a text is a year: four digits, or a plus sign and more of them.
pub open spec fn is_year(s: Seq<char>) -> bool {
    ||| s.len() == 4 && all_digits(s)
    ||| s.len() >= 6 && s[0] == '+' && all_digits(s.drop_first())
}

/// Whether a text is the rest of a date and a time, as in `-12-19T16:39:57`.
pub open spec fn is_day_and_time(s: Seq<char>) -> bool {
    &&& s.len() == 15
    &&& s[0] == '-' && s[3] == '-' && s[6] == 'T' && s[9] == ':' && s[12] == ':'
    &&& all_digits(s.subrange(1, 3))
    &&& all_digits(s.subrange(4, 6))
    &&& all_digits(s.subrange(7, 9))
    &&& all_digits(s.subrange(10, 12))
    &&& all_digits(s.subrange(13, 15))
}

/// Whether a text is a fraction of a second, in thousandths, millionths or
/// billionths; it is left out where there is none.
pub open spec fn is_fraction(s: Seq<char>) -> bool {
    ||| s.len() == 0
    ||| (s.len() == 4 || s.len() == 7 || s.len() == 10) && s[0] == '.' && all_digits(
        s.drop_first(),
    )
}

/// Whether `s` is a date and a time in UTC made of these parts.
pub open spec fn is_made_of(
    s: Seq<char>,
    year: Seq<char>,
    day_and_time: Seq<char>,
    fraction: Seq<char>,
) -> bool {
    &&& is_year(year)
    &&& is_day_and_time(day_and_time)
    &&& is_fraction(fraction)
    &&& s == year + day_and_time + fraction + "+00:00"@
}

/// Whether a text is a date and a time in UTC as RFC 3339 writes them, such as
/// `1996-12-19T16:39:57+00:00`.
pub open spec fn is_time_text(s: Seq<char>) -> bool {
    exists|year: Seq<char>, day_and_time: Seq<char>, fraction: Seq<char>| #[trigger]
        is_made_of(s, year, day_and_time, fraction)
}

/// `chrono::Utc::now().to_rfc3339()`: the current date and time in UTC, as
/// RFC 3339 writes them. Which ones they are depends on the time alone.
#[verifier::external_body]
pub(crate) fn rfc3339() -> (r: String)
    ensures
        is_time_text(r@),
{
    chrono::Utc::now().to_rfc3339()
}

} // verus!
