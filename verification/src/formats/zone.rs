//! The time zone in which dates without one are read.

use vstd::prelude::*;

use crate::text;

verus! {

/// The zone in which dates without one are read.
#[derive(Debug)]
pub enum ServerTz {
    /// That of the machine.
    Local,
    Utc,
    /// Seconds east of Greenwich.
    Fixed(i32),
    /// A name of the IANA database.
    Named(String),
}

/// The mathematical value of a zone.
#[verifier::ext_equal]
pub enum ZoneV {
    Local,
    Utc,
    Fixed(i32),
    Named(Seq<char>),
}

impl View for ServerTz {
    type V = ZoneV;

    open spec fn view(&self) -> ZoneV {
        match self {
            ServerTz::Local => ZoneV::Local,
            ServerTz::Utc => ZoneV::Utc,
            ServerTz::Fixed(s) => ZoneV::Fixed(*s),
            ServerTz::Named(n) => ZoneV::Named(n@),
        }
    }
}

impl Default for ServerTz {
    fn default() -> (r: Self)
        ensures
            r@ == ZoneV::Local,
    {
        ServerTz::Local
    }
}

// ---------------------------------------------------------------------------
// What chrono knows
// ---------------------------------------------------------------------------

/// Whether the IANA database that `chrono_tz` carries has a zone of this name.
pub uninterp spec fn known_zone(name: Seq<char>) -> bool;

/// The epoch milliseconds, as if in UTC, of the date that
/// `chrono::NaiveDateTime::parse_from_str` reads under a format.
pub uninterp spec fn naive_millis(value: Seq<char>, format: Seq<char>) -> Option<i64>;

/// Whether `chrono` has a date and time for these epoch milliseconds: from the start of
/// the year -262143 to the end of the year 262142.
pub open spec fn is_dated(millis: int) -> bool {
    -8_334_601_228_800_000 <= millis <= 8_210_266_876_799_999
}

/// The epoch milliseconds of a wall-clock time at a fixed offset of less than a day: the
/// wall-clock time, given as if in UTC, less the offset. There are none where either is
/// no date of `chrono`.
pub open spec fn at_fixed(wall: i64, offset: i32) -> Option<i64> {
    let millis = wall - 1000 * offset;
    if -86_400 < offset < 86_400 && is_dated(wall as int) && is_dated(millis) {
        Some(millis as i64)
    } else {
        None
    }
}

/// The epoch milliseconds of a wall-clock time in a zone of the IANA database, as
/// `chrono_tz` maps it: the earliest where there are two, none where there is none.
pub uninterp spec fn named_zone_millis(wall: i64, zone: Seq<char>) -> Option<i64>;

/// Calls `str::parse` for a `chrono_tz::Tz`, which succeeds on the names that the
/// database has. Which these are is not stated.
#[verifier::external_body]
fn is_known_zone(name: &str) -> (r: bool)
    ensures
        r == known_zone(name@),
{
    name.parse::<chrono_tz::Tz>().is_ok()
}

/// Calls `chrono::NaiveDateTime::parse_from_str`. What it gives is a function of
/// the text and of the format; nothing else is claimed of it.
#[verifier::external_body]
pub(crate) fn parse_naive(value: &str, format: &str) -> (r: Option<i64>)
    ensures
        r == naive_millis(value@, format@),
{
    chrono::NaiveDateTime::parse_from_str(value, format).ok().map(|dt| dt.and_utc().timestamp_millis())
}

/// Maps a wall-clock time at a fixed offset with
/// `chrono::NaiveDateTime::and_local_timezone`. `chrono::FixedOffset::east_opt` takes the
/// offsets of less than a day, and both `chrono::DateTime::from_timestamp_millis` and the
/// mapping give none for what lies beyond the first and the last day of `chrono`.
#[verifier::external_body]
fn at_offset(wall: i64, offset: i32) -> (r: Option<i64>)
    ensures
        r == at_fixed(wall, offset),
{
    let zone = chrono::FixedOffset::east_opt(offset)?;
    let naive = chrono::DateTime::from_timestamp_millis(wall)?.naive_utc();
    naive.and_local_timezone(zone).earliest().map(|aware| aware.timestamp_millis())
}

/// Maps a wall-clock time in a zone of the IANA database with
/// `chrono::NaiveDateTime::and_local_timezone`. What it gives is a function of the
/// time and of the zone; nothing else is claimed of it.
#[verifier::external_body]
fn in_zone(wall: i64, zone: &str) -> (r: Option<i64>)
    ensures
        r == named_zone_millis(wall, zone@),
{
    let tz = zone.parse::<chrono_tz::Tz>().ok()?;
    let naive = chrono::DateTime::from_timestamp_millis(wall)?.naive_utc();
    naive.and_local_timezone(tz).earliest().map(|aware| aware.timestamp_millis())
}

/// Maps a wall-clock time in the machine's zone with
/// `chrono::NaiveDateTime::and_local_timezone`. The result depends on the machine:
/// nothing is claimed of it.
#[verifier::external_body]
fn in_local_zone(wall: i64) -> (r: Option<i64>) {
    let naive = chrono::DateTime::from_timestamp_millis(wall)?.naive_utc();
    naive.and_local_timezone(chrono::Local).earliest().map(|aware| aware.timestamp_millis())
}

// ---------------------------------------------------------------------------
// Zones
// ---------------------------------------------------------------------------

/// Two characters as a number.
pub open spec fn two(t: Seq<char>, at: int) -> Option<int> {
    text::signed_number(t.subrange(at, at + 2), i32::MIN as int, i32::MAX as int)
}

/// The hours and minutes behind the sign of an offset: `HH`, `HHMM` or `HH:MM`.
pub open spec fn hours_minutes(t: Seq<char>) -> Option<(int, int)> {
    if t.len() == 3 {
        match two(t, 1) {
            Some(h) => Some((h, 0)),
            None => None,
        }
    } else if t.len() == 5 || t.len() == 6 {
        match (two(t, 1), two(t, t.len() - 2)) {
            (Some(h), Some(m)) => Some((h, m)),
            _ => None,
        }
    } else {
        None
    }
}

/// The offset that a text stands for in seconds, if it is within a day.
pub open spec fn offset_of(t: Seq<char>) -> Option<int> {
    if text::ascii_only(t) && t.len() >= 3 && (t[0] == '+' || t[0] == '-') {
        match hours_minutes(t) {
            Some(p) => {
                let s = p.0 * 3600 + p.1 * 60;
                let signed = if t[0] == '-' { -s } else { s };
                if -86_400 < signed < 86_400 { Some(signed) } else { None }
            },
            None => None,
        }
    } else {
        None
    }
}

/// The zone that a text stands for; one that is not recognised is the machine's.
pub open spec fn zone_of(value: Seq<char>) -> ZoneV {
    let t = text::trimmed(value);
    if t.len() == 0 || text::equal_ignoring_case(t, "local"@) || text::equal_ignoring_case(t, "system"@) {
        ZoneV::Local
    } else if text::equal_ignoring_case(t, "utc"@) || text::equal_ignoring_case(t, "gmt"@) || t == "Z"@ {
        ZoneV::Utc
    } else {
        match offset_of(t) {
            Some(s) => ZoneV::Fixed(s as i32),
            None => if known_zone(t) { ZoneV::Named(t) } else { ZoneV::Local },
        }
    }
}

fn two_chars(chars: &Vec<char>, at: usize) -> (r: Option<i32>)
    requires
        at + 2 <= chars@.len(),
    ensures
        match r {
            Some(v) => two(chars@, at as int) == Some(v as int) && -9 <= v <= 99,
            None => two(chars@, at as int) is None,
        },
{
    let n: usize = chars.len();
    assert(at + 2 <= n);
    let s = text::text_between(chars, at, at + 2);
    let r = text::parse_i32(s.as_str());
    proof {
        lemma_two_digits(s@);
    }
    r
}

proof fn lemma_two_digits(s: Seq<char>)
    requires
        s.len() == 2,
    ensures
        match text::signed_number(s, i32::MIN as int, i32::MAX as int) {
            Some(v) => -9 <= v <= 99,
            None => true,
        },
{
    let d = if s[0] == '+' || s[0] == '-' { s.skip(1) } else { s };
    if text::all_digits(d) {
        assert(d.len() == 1 || d.len() == 2);
        reveal_with_fuel(text::digits_value, 3);
        assert(text::is_digit(d[d.len() - 1]));
        assert(text::is_digit(d[0]));
        assert(d.drop_last().len() == d.len() - 1);
    }
}

fn is_ascii_text(chars: &Vec<char>) -> (r: bool)
    ensures
        r == text::ascii_only(chars@),
{
    let mut i: usize = 0;
    while i < chars.len()
        invariant
            i <= chars@.len(),
            forall|k: int| 0 <= k < i ==> (#[trigger] chars@[k] as u32) < 128,
        decreases chars@.len() - i,
    {
        if chars[i] as u32 >= 128 {
            return false;
        }
        i += 1;
    }
    true
}

/// The offset that a text stands for in seconds: `+HH`, `+HHMM` or `+HH:MM`, or the
/// same with a minus.
pub fn parse_fixed_offset(value: &str) -> (r: Option<i32>)
    ensures
        match r {
            Some(s) => offset_of(value@) == Some(s as int),
            None => offset_of(value@) is None,
        },
{
    let chars = text::chars_of(value);
    let n: usize = chars.len();
    if n < 3 || !is_ascii_text(&chars) || !(chars[0] == '+' || chars[0] == '-') {
        return None;
    }
    if n != 3 && n != 5 && n != 6 {
        return None;
    }
    let hours: i32 = match two_chars(&chars, 1) {
        Some(h) => h,
        None => {
            return None;
        },
    };
    let minutes: i32 = if n == 3 {
        0
    } else {
        match two_chars(&chars, n - 2) {
            Some(m) => m,
            None => {
                return None;
            },
        }
    };
    let seconds: i32 = hours * 3600 + minutes * 60;
    let signed: i32 = if chars[0] == '-' { -seconds } else { seconds };
    if -86_400 < signed && signed < 86_400 {
        Some(signed)
    } else {
        None
    }
}

/// Whether a wall-clock time may be mapped to a point in time in a zone. In the
/// machine's zone nothing is known of it.
pub open spec fn maps_to(zone: ZoneV, wall: i64, millis: Option<i64>) -> bool {
    match zone {
        ZoneV::Utc => millis == Some(wall),
        ZoneV::Fixed(s) => millis == at_fixed(wall, s),
        ZoneV::Named(n) => millis == named_zone_millis(wall, n),
        ZoneV::Local => true,
    }
}

impl ServerTz {
    /// The zone that a text stands for: nothing, `local` or `system`, `UTC`, `GMT`
    /// or `Z`, an offset, or a name of the IANA database. Anything else is the
    /// machine's.
    pub fn parse(value: &str) -> (r: ServerTz)
        ensures
            r@ == zone_of(value@),
    {
        let trimmed = text::trim(value);
        let t = trimmed.as_str();
        if t.is_empty() || text::same_ignoring_case(t, "local") || text::same_ignoring_case(t, "system") {
            return ServerTz::Local;
        }
        if text::same_ignoring_case(t, "utc") || text::same_ignoring_case(t, "gmt") || text::same(t, "Z") {
            return ServerTz::Utc;
        }
        match parse_fixed_offset(t) {
            Some(s) => ServerTz::Fixed(s),
            None => if is_known_zone(t) { ServerTz::Named(trimmed) } else { ServerTz::Local },
        }
    }

    /// The epoch milliseconds of a wall-clock time in this zone. The wall-clock time
    /// is given as if in UTC.
    pub fn naive_to_millis(&self, wall: i64) -> (r: Option<i64>)
        ensures
            maps_to(self@, wall, r),
    {
        match self {
            ServerTz::Utc => Some(wall),
            ServerTz::Local => in_local_zone(wall),
            ServerTz::Fixed(s) => at_offset(wall, *s),
            ServerTz::Named(n) => in_zone(wall, n.as_str()),
        }
    }

    /// A copy.
    pub fn copy(&self) -> (r: Self)
        ensures
            r@ == self@,
    {
        match self {
            ServerTz::Local => ServerTz::Local,
            ServerTz::Utc => ServerTz::Utc,
            ServerTz::Fixed(s) => ServerTz::Fixed(*s),
            ServerTz::Named(n) => ServerTz::Named(n.clone()),
        }
    }
}

} // verus!
