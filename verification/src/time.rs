//! UTC instants parsed from text, and half-open ranges of them.

use chrono::format::ParseErrorKind;
use chrono::{DateTime, NaiveDateTime, Utc};
use vstd::prelude::*;

verus! {

/// Why chrono could not read a time: the kinds of chrono's `ParseErrorKind`.
#[derive(Debug, Clone, Copy, PartialEq, Eq, Structural)]
pub enum TimeParseErrorKind {
    /// A field is out of its permitted range.
    OutOfRange,
    /// No date and time has the given fields.
    Impossible,
    /// The fields given are not enough for a date and time.
    NotEnough,
    /// The text holds characters that the format does not allow.
    Invalid,
    /// The text ended too early.
    TooShort,
    /// The text goes on after the format ends.
    TooLong,
    /// The format is itself in error.
    BadFormat,
    /// A kind that chrono reserves for later versions and does not report.
    Reserved,
}

/// What chrono's `NaiveDateTime::parse_from_str(text, format)` gives, read as
/// the UTC instant (whole seconds since the Unix epoch, nanoseconds within the
/// second), or as the kind of chrono's parse error.
pub uninterp spec fn naive_utc_parse(text: Seq<char>, format: Seq<char>) -> Result<
    (i64, u32),
    TimeParseErrorKind,
>;

/// The first second that chrono represents: -262143-01-01T00:00:00 UTC.
pub const MIN_TIMESTAMP: i64 = -8334601228800;

/// The last whole second that chrono represents: 262142-12-31T23:59:59 UTC.
pub const MAX_TIMESTAMP: i64 = 8210266876799;

/// `v` is an instant that chrono represents: its seconds lie within chrono's
/// dates and its nanoseconds below 2_000_000_000 (a leap second included).
pub open spec fn chrono_instant(v: (i64, u32)) -> bool {
    MIN_TIMESTAMP <= v.0 <= MAX_TIMESTAMP && v.1 < 2_000_000_000
}

/// What chrono's `DateTime::<Utc>::from_timestamp(secs, 0)` gives, read as
/// (seconds, nanoseconds): the instant itself where chrono's dates (years
/// -262143 to 262142) reach it, `None` elsewhere.
pub open spec fn chrono_from_timestamp(secs: i64) -> Option<(i64, u32)> {
    if MIN_TIMESTAMP <= secs <= MAX_TIMESTAMP {
        Some((secs, 0u32))
    } else {
        None
    }
}

/// Calls chrono's `NaiveDateTime::parse_from_str` and reads the result as a
/// UTC instant, or its error as the error's kind. Claimed: the result is the
/// named one, and a parsed instant is one that chrono represents (its date
/// lies within chrono's years, its nanoseconds below 2_000_000_000).
#[verifier::external_body]
fn parse_naive_utc(text: &str, format: &str) -> (r: Result<(i64, u32), TimeParseErrorKind>)
    ensures
        r == naive_utc_parse(text@, format@),
        r matches Ok(v) ==> chrono_instant(v),
{
    match NaiveDateTime::parse_from_str(text, format) {
        Ok(naive) => Ok((naive.and_utc().timestamp(), naive.and_utc().timestamp_subsec_nanos())),
        Err(e) => Err(match e.kind() {
            ParseErrorKind::OutOfRange => TimeParseErrorKind::OutOfRange,
            ParseErrorKind::Impossible => TimeParseErrorKind::Impossible,
            ParseErrorKind::NotEnough => TimeParseErrorKind::NotEnough,
            ParseErrorKind::Invalid => TimeParseErrorKind::Invalid,
            ParseErrorKind::TooShort => TimeParseErrorKind::TooShort,
            ParseErrorKind::TooLong => TimeParseErrorKind::TooLong,
            ParseErrorKind::BadFormat => TimeParseErrorKind::BadFormat,
            ParseErrorKind::__Nonexhaustive => TimeParseErrorKind::Reserved,
        }),
    }
}

/// Calls chrono's `DateTime::<Utc>::from_timestamp(secs, 0)`. Claimed: the
/// result is present exactly when the day of `secs` lies between chrono's
/// first date (-262143-01-01) and last date (262142-12-31), and then, as chrono
/// documents (it round-trips with `timestamp` and `timestamp_subsec_nanos`),
/// it is `(secs, 0)`.
#[verifier::external_body]
fn datetime_from_timestamp(secs: i64) -> (r: Option<(i64, u32)>)
    ensures
        r == chrono_from_timestamp(secs),
{
    match DateTime::<Utc>::from_timestamp(secs, 0) {
        Some(dt) => Some((dt.timestamp(), dt.timestamp_subsec_nanos())),
        None => None,
    }
}

/// The formats tried in turn: milliseconds with a trailing `Z`, milliseconds
/// without it, then whole seconds. The instant of the first format that reads
/// the text; where none does, the error of the last.
pub open spec fn parse_time_result(text: Seq<char>) -> Result<(i64, u32), TimeParseErrorKind> {
    match naive_utc_parse(text, "%Y-%m-%dT%H:%M:%S%.3fZ"@) {
        Ok(v) => Ok(v),
        Err(_) => match naive_utc_parse(text, "%Y-%m-%dT%H:%M:%S%.3f"@) {
            Ok(v) => Ok(v),
            Err(_) => naive_utc_parse(text, "%Y-%m-%dT%H:%M:%S"@),
        },
    }
}

/// The instant that `parse_time_result` reads, if any.
pub open spec fn parse_time_spec(text: Seq<char>) -> Option<(i64, u32)> {
    match parse_time_result(text) {
        Ok(v) => Some(v),
        Err(_) => None,
    }
}

/// An instant that chrono represents, written as its whole seconds and read
/// back, is the instant without its nanoseconds.
pub proof fn lemma_timestamp_round_trip(v: (i64, u32))
    requires
        chrono_instant(v),
    ensures
        chrono_from_timestamp(v.0) == Some((v.0, 0u32)),
{
}

/// `a` is not later than `b` (seconds first, then nanoseconds).
pub open spec fn time_le(a: (i64, u32), b: (i64, u32)) -> bool {
    a.0 < b.0 || (a.0 == b.0 && a.1 <= b.1)
}

/// `a` is earlier than `b`.
pub open spec fn time_lt(a: (i64, u32), b: (i64, u32)) -> bool {
    a.0 < b.0 || (a.0 == b.0 && a.1 < b.1)
}

/// Instants are totally ordered: `time_le` is total, antisymmetric and
/// transitive, and `time_lt` is its strict part.
pub proof fn lemma_time_order(a: (i64, u32), b: (i64, u32), c: (i64, u32))
    ensures
        time_le(a, b) || time_le(b, a),
        time_le(a, b) && time_le(b, a) ==> a == b,
        time_le(a, b) && time_le(b, c) ==> time_le(a, c),
        time_lt(a, b) <==> (time_le(a, b) && a != b),
{
}

/// The error of a time that none of the accepted formats parses; it holds
/// the kind of chrono's error for the last format tried.
#[derive(Debug, Clone, Copy, PartialEq, Eq, Structural)]
pub struct TimeParseError(pub TimeParseErrorKind);

/// An instant in UTC: whole seconds since the Unix epoch and the nanoseconds
/// within that second. The derived order compares seconds, then nanoseconds,
/// which is chrono's order of instants.
#[derive(Debug, PartialEq, Eq, Structural, PartialOrd, Ord)]
pub struct WrappedDateTimeUtc {
    secs: i64,
    nanos: u32,
}

impl View for WrappedDateTimeUtc {
    type V = (i64, u32);

    closed spec fn view(&self) -> (i64, u32) {
        (self.secs, self.nanos)
    }
}

impl WrappedDateTimeUtc {
    #[verifier::type_invariant]
    spec fn in_chrono_range(self) -> bool {
        chrono_instant((self.secs, self.nanos))
    }

    /// The instant `secs` seconds and `nanos` nanoseconds after the epoch,
    /// where chrono represents it.
    pub fn from_parts(secs: i64, nanos: u32) -> (r: Option<Self>)
        ensures
            r is Some <==> chrono_instant((secs, nanos)),
            r matches Some(w) ==> w@ == (secs, nanos),
    {
        if MIN_TIMESTAMP <= secs && secs <= MAX_TIMESTAMP && nanos < 2_000_000_000 {
            Some(WrappedDateTimeUtc { secs, nanos })
        } else {
            None
        }
    }

    pub fn parse(time_str: &str) -> (r: Result<Self, TimeParseError>)
        ensures
            match r {
                Ok(w) => parse_time_result(time_str@) == Ok::<(i64, u32), TimeParseErrorKind>(w@),
                Err(e) => parse_time_result(time_str@) == Err::<(i64, u32), TimeParseErrorKind>(
                    e.0,
                ),
            },
            r matches Ok(w) ==> chrono_instant(w@),
    {
        let try_1 = parse_naive_utc(time_str, "%Y-%m-%dT%H:%M:%S%.3fZ");
        if let Ok((secs, nanos)) = try_1 {
            return Ok(WrappedDateTimeUtc { secs, nanos });
        }
        let try_2 = parse_naive_utc(time_str, "%Y-%m-%dT%H:%M:%S%.3f");
        if let Ok((secs, nanos)) = try_2 {
            return Ok(WrappedDateTimeUtc { secs, nanos });
        }
        match parse_naive_utc(time_str, "%Y-%m-%dT%H:%M:%S") {
            Ok((secs, nanos)) => Ok(WrappedDateTimeUtc { secs, nanos }),
            Err(kind) => Err(TimeParseError(kind)),
        }
    }

    /// The instant `secs` seconds after the epoch; `None` where chrono cannot
    /// represent it.
    pub fn from_timestamp(secs: i64) -> (r: Option<Self>)
        ensures
            r is Some <==> MIN_TIMESTAMP <= secs <= MAX_TIMESTAMP,
            r matches Some(w) ==> w@ == (secs, 0u32),
    {
        match datetime_from_timestamp(secs) {
            Some((s, n)) => Some(WrappedDateTimeUtc { secs: s, nanos: n }),
            None => None,
        }
    }

    /// Whole seconds since the epoch.
    pub fn timestamp(&self) -> (r: i64)
        ensures
            r == self@.0,
            chrono_instant(self@),
    {
        proof {
            use_type_invariant(self);
        }
        self.secs
    }
}

} // verus!

verus! {

/// The pieces that `str::split(sep)` yields for `s`, in order.
pub open spec fn split_on(s: Seq<char>, sep: char) -> Seq<Seq<char>>
    decreases s.len(),
{
    if s.len() == 0 {
        seq![Seq::<char>::empty()]
    } else {
        let p = split_on(s.drop_last(), sep);
        if s.last() == sep {
            p.push(Seq::<char>::empty())
        } else {
            p.update(p.len() - 1, p.last().push(s.last()))
        }
    }
}

proof fn lemma_split_on_nonempty(s: Seq<char>, sep: char)
    ensures
        split_on(s, sep).len() >= 1,
    decreases s.len(),
{
    if s.len() > 0 {
        lemma_split_on_nonempty(s.drop_last(), sep);
    }
}

/// Splits `s` at its `_`: the two pieces where `s` holds exactly one `_`,
/// `None` otherwise.
pub fn split_underscore(s: &str) -> (r: Option<(&str, &str)>)
    ensures
        r is Some <==> split_on(s@, '_').len() == 2,
        r matches Some((a, b)) ==> a@ == split_on(s@, '_')[0] && b@ == split_on(s@, '_')[1],
{
    broadcast use vstd::string::group_string_axioms;
    let n = s.unicode_len();
    let mut count: usize = 0;
    let mut pos: usize = 0;
    let mut i: usize = 0;
    while i < n
        invariant
            n == s@.len(),
            i <= n,
            count <= i,
            split_on(s@.take(i as int), '_').len() == count + 1,
            count == 0 ==> split_on(s@.take(i as int), '_')[0] == s@.take(i as int),
            count >= 1 ==> pos < i && split_on(s@.take(i as int), '_')[0] == s@.take(pos as int),
            count == 1 ==> split_on(s@.take(i as int), '_')[1] == s@.subrange(pos + 1, i as int),
        decreases n - i,
    {
        let c = s.get_char(i);
        proof {
            let t = s@.take(i + 1);
            assert(t.drop_last() =~= s@.take(i as int));
            lemma_split_on_nonempty(s@.take(i as int), '_');
        }
        if c == '_' {
            if count == 0 {
                pos = i;
            }
            count = count + 1;
            proof {
                assert(s@.subrange(pos + 1, i + 1) =~= Seq::<char>::empty() || count != 1);
            }
        } else {
            proof {
                if count == 0 {
                    assert(s@.take(i + 1) =~= s@.take(i as int).push(c));
                }
                if count == 1 {
                    assert(s@.subrange(pos + 1, i + 1) =~= s@.subrange(pos + 1, i as int).push(c));
                }
            }
        }
        i = i + 1;
    }
    assert(s@.take(n as int) =~= s@);
    if count == 1 {
        let a = s.substring_char(0, pos);
        let b = s.substring_char(pos + 1, n);
        assert(a@ =~= s@.take(pos as int));
        Some((a, b))
    } else {
        None
    }
}

/// A half-open range of instants: from `start` on, up to but not including `end`.
pub struct TimeRange {
    pub start: WrappedDateTimeUtc,
    pub end: WrappedDateTimeUtc,
}

/// `t` lies in `[start, end)`.
pub open spec fn range_contains(start: (i64, u32), end: (i64, u32), t: (i64, u32)) -> bool {
    time_le(start, t) && time_lt(t, end)
}

/// A range holds its start exactly when it is not empty, and never holds its end.
pub proof fn lemma_range_half_open(start: (i64, u32), end: (i64, u32))
    ensures
        range_contains(start, end, start) <==> time_lt(start, end),
        !range_contains(start, end, end),
{
}

/// Containment follows the chronological order of instants, written out
/// second by second: an instant in a second strictly between the range's
/// seconds is always in it; one in the start's second is in it from the
/// start's nanosecond on; one in the end's second only before the end's
/// nanosecond; and none outside those seconds is in it.
pub proof fn lemma_range_contains_chronological(start: (i64, u32), end: (i64, u32), t: (i64, u32))
    ensures
        start.0 < t.0 && t.0 < end.0 ==> range_contains(start, end, t),
        start.0 == t.0 && t.0 < end.0 ==> (range_contains(start, end, t) <==> start.1 <= t.1),
        start.0 < t.0 && t.0 == end.0 ==> (range_contains(start, end, t) <==> t.1 < end.1),
        start.0 == t.0 && t.0 == end.0 ==> (range_contains(start, end, t) <==> start.1 <= t.1
            && t.1 < end.1),
        t.0 < start.0 || end.0 < t.0 ==> !range_contains(start, end, t),
{
}

/// The text splits at exactly one `_` into two parseable times.
pub open spec fn time_range_parses(text: Seq<char>) -> bool {
    let parts = split_on(text, '_');
    &&& parts.len() == 2
    &&& parse_time_spec(parts[0]) is Some
    &&& parse_time_spec(parts[1]) is Some
}

impl TimeRange {
    /// Parses `start_end`, each side in one of the formats of
    /// `WrappedDateTimeUtc::parse`.
    pub fn parse(time_range_str: &str) -> (r: Self)
        requires
            time_range_parses(time_range_str@),
        ensures
            Some(r.start@) == parse_time_spec(split_on(time_range_str@, '_')[0]),
            Some(r.end@) == parse_time_spec(split_on(time_range_str@, '_')[1]),
    {
        let (first, second) = split_underscore(time_range_str).unwrap();
        let start = WrappedDateTimeUtc::parse(first).unwrap();
        let end = WrappedDateTimeUtc::parse(second).unwrap();
        TimeRange { start, end }
    }

    /// Parses `start_end` as `parse` does; `None` on the texts that `parse`
    /// does not accept.
    pub fn try_parse(time_range_str: &str) -> (r: Option<Self>)
        ensures
            r is Some <==> time_range_parses(time_range_str@),
            r matches Some(tr) ==> {
                &&& Some(tr.start@) == parse_time_spec(split_on(time_range_str@, '_')[0])
                &&& Some(tr.end@) == parse_time_spec(split_on(time_range_str@, '_')[1])
            },
    {
        match split_underscore(time_range_str) {
            Some((first, second)) => {
                let start_ok = WrappedDateTimeUtc::parse(first).is_ok();
                let end_ok = WrappedDateTimeUtc::parse(second).is_ok();
                if start_ok && end_ok {
                    Some(TimeRange::parse(time_range_str))
                } else {
                    None
                }
            },
            None => None,
        }
    }

    pub fn contains(&self, time: &WrappedDateTimeUtc) -> (r: bool)
        ensures
            r == range_contains(self.start@, self.end@, time@),
    {
        let (s, e, t) = (&self.start, &self.end, time);
        (s.secs < t.secs || (s.secs == t.secs && s.nanos <= t.nanos))
            && (t.secs < e.secs || (t.secs == e.secs && t.nanos < e.nanos))
    }
}

} // verus!
