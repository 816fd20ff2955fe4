//! Creation dates as text, in the form `YYYY/MM/DD`.

use vstd::prelude::*;

verus! {

/// A point in time: whole seconds since the start of 1970 (UTC), and the
/// nanoseconds that follow them.
#[derive(Clone, Copy, Debug, PartialEq, Eq)]
pub struct Timestamp {
    pub secs: i64,
    pub nanos: u32,
}

impl Timestamp {
    /// The point in time in nanoseconds since the start of 1970.
    pub open spec fn total_nanos(self) -> int {
        self.secs * 1_000_000_000 + self.nanos
    }

    /// The point in time that lies the given seconds and nanoseconds after
    /// the start of 1970; none where the seconds given are beyond `i64`.
    pub fn after_epoch(secs: u64, nanos: u32) -> (time: Option<Timestamp>)
        ensures
            time is Some <==> secs <= i64::MAX,
            time matches Some(t) ==> t.secs == secs && t.nanos == nanos,
    {
        if secs <= 0x7fff_ffff_ffff_ffff {
            Some(Timestamp { secs: secs as i64, nanos })
        } else {
            None
        }
    }

    /// The point in time that lies the given seconds and nanoseconds before
    /// the start of 1970; none where the seconds given are beyond `i64` or
    /// the nanoseconds are a second or more. The nanoseconds of a timestamp
    /// count forward, from the whole second before the point in time.
    pub fn before_epoch(secs: u64, nanos: u32) -> (time: Option<Timestamp>)
        ensures
            time is Some <==> secs <= i64::MAX && nanos < 1_000_000_000,
            time matches Some(t) ==> {
                &&& t.total_nanos() == -(secs * 1_000_000_000 + nanos)
                &&& t.nanos < 1_000_000_000
            },
    {
        if secs > 0x7fff_ffff_ffff_ffff || nanos >= 1_000_000_000 {
            None
        } else if nanos == 0 {
            Some(Timestamp { secs: -(secs as i64), nanos: 0 })
        } else {
            Some(Timestamp { secs: -(secs as i64) - 1, nanos: 1_000_000_000 - nanos })
        }
    }
}

/// The calendar date on the clock of UTC at the given seconds since the
/// start of 1970, as `YYYY/MM/DD`; none for seconds beyond the calendar.
pub uninterp spec fn utc_date_text(secs: int) -> Option<Seq<char>>;

/// One of the characters `0` to `9`.
pub open spec fn is_digit(c: char) -> bool {
    '0' <= c && c <= '9'
}

/// The number that two decimal digits stand for.
pub open spec fn two_digits(tens: char, ones: char) -> int {
    ((tens as u32) - ('0' as u32)) * 10 + ((ones as u32) - ('0' as u32))
}

/// A year as a date shows it: four digits for the years 0 to 9999, else a sign
/// and at least four digits.
pub open spec fn is_year_text(y: Seq<char>) -> bool {
    ||| y.len() == 4 && forall|i: int| 0 <= i < y.len() ==> is_digit(#[trigger] y[i])
    ||| y.len() >= 5 && (y[0] == '+' || y[0] == '-') && forall|i: int|
        1 <= i < y.len() ==> is_digit(#[trigger] y[i])
}

/// A date in the form year, `/`, two-digit month, `/`, two-digit day.
pub open spec fn is_date_text(s: Seq<char>) -> bool {
    let n = s.len() - 6;
    &&& s.len() >= 10
    &&& is_year_text(s.take(n))
    &&& s[n] == '/'
    &&& is_digit(s[n + 1])
    &&& is_digit(s[n + 2])
    &&& 1 <= two_digits(s[n + 1], s[n + 2]) <= 12
    &&& s[n + 3] == '/'
    &&& is_digit(s[n + 4])
    &&& is_digit(s[n + 5])
    &&& 1 <= two_digits(s[n + 4], s[n + 5]) <= 31
}

/// The date that stands for a file whose creation time is not known.
pub open spec fn sentinel_date() -> Seq<char> {
    "1970/01/01"@
}

/// The date of a file, given what the clock made of its creation time: that
/// text, or the sentinel where there is none.
pub open spec fn date_or(text: Option<Seq<char>>) -> Seq<char> {
    match text {
        Some(t) => t,
        None => sentinel_date(),
    }
}

/// What a string that may be there shows.
pub open spec fn text_of(text: Option<String>) -> Option<Seq<char>> {
    match text {
        Some(t) => Some(t@),
        None => None,
    }
}

/// The seconds shifted by an offset, where there is one and the sum is
/// within `i64`.
pub open spec fn shifted(secs: i64, offset: Option<i32>) -> Option<i64> {
    match offset {
        Some(ahead) => if i64::MIN <= secs + ahead <= i64::MAX {
            Some((secs + ahead) as i64)
        } else {
            None
        },
        None => None,
    }
}

/// The date of a file, from its creation time and from the seconds by which
/// the local clock was ahead of UTC then: the date that the clock of UTC
/// shows that many seconds later. It is the sentinel where the creation time
/// or the offset is not known, and where there is no such date.
pub open spec fn date_at_offset(created: Option<Timestamp>, offset: Option<i32>) -> Seq<char> {
    match created {
        Some(t) => match shifted(t.secs, offset) {
            Some(local) => date_or(utc_date_text(local as int)),
            None => sentinel_date(),
        },
        None => sentinel_date(),
    }
}

/// The year and month of a date: its first seven characters.
pub open spec fn date_bucket(date: Seq<char>) -> Seq<char> {
    date.take(7)
}

/// The sentinel is itself a date.
pub proof fn lemma_sentinel_is_date()
    ensures
        is_date_text(sentinel_date()),
{
    reveal_strlit("1970/01/01");
    let s = sentinel_date();
    assert(s.len() == 10);
    assert(s.take(4).len() == 4);
    assert forall|i: int| 0 <= i < 4 implies is_digit(#[trigger] s.take(4)[i]) by {
        assert(s.take(4)[i] == s[i]);
    }
}

/// The date for a file whose creation time is not known, `1970/01/01`.
pub fn sentinel() -> (r: String)
    ensures
        r@ == sentinel_date(),
{
    String::from_str("1970/01/01")
}

/// The calendar date of a point in time on the clock of UTC, as chrono gives
/// it: `DateTime::from_timestamp` with the seconds and no nanoseconds, written
/// by `format` with the pattern `%Y/%m/%d`. There is none where
/// `from_timestamp` gives none: the seconds lie outside the years that chrono
/// can express. The result depends on the seconds alone and is named
/// `utc_date_text`. A date has the year in four digits (or with a sign and
/// four digits or more), the month from 01 to 12 and the day from 01 to 31,
/// each in two digits.
#[verifier::external_body]
fn utc_date_text_of(secs: i64) -> (r: Option<String>)
    ensures
        text_of(r) == utc_date_text(secs as int),
        r matches Some(text) ==> is_date_text(text@),
{
    match chrono::DateTime::from_timestamp(secs, 0) {
        Some(utc) => Some(utc.format("%Y/%m/%d").to_string()),
        None => None,
    }
}

/// The seconds that the local clock shows at a point in time, given by how
/// many seconds it is ahead of UTC; none without an offset, or where the sum
/// is beyond `i64`.
pub fn local_seconds(secs: i64, offset: Option<i32>) -> (r: Option<i64>)
    ensures
        r == shifted(secs, offset),
{
    match offset {
        Some(ahead) => secs.checked_add(ahead as i64),
        None => None,
    }
}

/// The date to use, given the date text that was made of a creation time, if
/// any was.
pub fn date_or_sentinel(text: Option<String>) -> (r: String)
    ensures
        r@ == date_or(text_of(text)),
{
    match text {
        Some(t) => t,
        None => sentinel(),
    }
}

/// The creation date of a file as `YYYY/MM/DD` in local time, from the
/// creation time that the file system reported and from the seconds by which
/// the local clock was ahead of UTC at that time. Without a creation time the
/// date is the sentinel `1970/01/01`; so it is without an offset, and for a
/// time beyond the years of the calendar.
pub fn get_file_metadata(created: Option<Timestamp>, offset: Option<i32>) -> (date: String)
    ensures
        date@ == date_at_offset(created, offset),
        is_date_text(date@),
{
    proof {
        lemma_sentinel_is_date();
    }
    match created {
        Some(time) => match local_seconds(time.secs, offset) {
            Some(local) => date_or_sentinel(utc_date_text_of(local)),
            None => sentinel(),
        },
        None => sentinel(),
    }
}

/// The year and month of a date, `YYYY/MM`.
pub fn bucket_of(date: &str) -> (bucket: String)
    requires
        date@.len() >= 7,
    ensures
        bucket@ == date_bucket(date@),
{
    String::from_str(date.substring_char(0, 7))
}

} // verus!
