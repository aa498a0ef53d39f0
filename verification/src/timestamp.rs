//! Instants on the Unix time scale, and the internet date-time format
//! (`2024-01-01T00:05:00Z`, `2024-01-01T01:05:00.25+01:00`) that names them.

use vstd::prelude::*;
use crate::calendar::{days_from_unix_epoch, month_length, unix_day};

verus! {

/// An instant: `secs` whole seconds after 1970-01-01T00:00:00Z (before it,
/// when negative), and `nanos` nanoseconds after that second.
#[derive(Clone, Copy, Debug, PartialEq, Eq, Structural)]
pub struct Timestamp {
    pub secs: i64,
    pub nanos: u32,
}

pub const NANOS_PER_SECOND: u32 = 1_000_000_000;

impl Timestamp {
    /// The nanoseconds stay below one second.
    pub open spec fn wf(self) -> bool {
        self.nanos < NANOS_PER_SECOND
    }

    /// The instant as a number of nanoseconds from the Unix epoch.
    pub open spec fn total_nanos(self) -> int {
        self.secs * 1_000_000_000 + self.nanos
    }

    /// `self` is not later than `other`.
    pub open spec fn spec_le(self, other: Timestamp) -> bool {
        self.secs < other.secs || (self.secs == other.secs && self.nanos <= other.nanos)
    }

    /// Whether `self` is not later than `other`.
    pub fn le(&self, other: &Timestamp) -> (r: bool)
        ensures
            r == self.spec_le(*other),
    {
        self.secs < other.secs || (self.secs == other.secs && self.nanos <= other.nanos)
    }

    /// The instant `seconds` seconds before this one, or `None` where that
    /// lies before the earliest instant that the type holds.
    pub fn minus_secs(&self, seconds: u64) -> (r: Option<Timestamp>)
        ensures
            r == (if self.secs - seconds >= i64::MIN {
                Some(Timestamp { secs: (self.secs - seconds) as i64, nanos: self.nanos })
            } else {
                None
            }),
    {
        let wide: i128 = self.secs as i128 - seconds as i128;
        if wide < i64::MIN as i128 {
            None
        } else {
            Some(Timestamp { secs: wide as i64, nanos: self.nanos })
        }
    }
}

/// Over well-formed instants, `spec_le` is the order of the time line.
pub proof fn lemma_le_is_time_order(a: Timestamp, b: Timestamp)
    requires
        a.wf(),
        b.wf(),
    ensures
        a.spec_le(b) <==> a.total_nanos() <= b.total_nanos(),
{
}

pub open spec fn is_digit(b: u8) -> bool {
    0x30 <= b <= 0x39
}

pub open spec fn digit_value(b: u8) -> int {
    b - 0x30
}

/// The number written by the two digits at `at` and `at + 1`.
pub open spec fn two_digits(t: Seq<u8>, at: int) -> int {
    10 * digit_value(t[at]) + digit_value(t[at + 1])
}

pub open spec fn are_two_digits(t: Seq<u8>, at: int) -> bool {
    is_digit(t[at]) && is_digit(t[at + 1])
}

/// The length of the longest run of digits that starts at `from`.
pub open spec fn digit_run(t: Seq<u8>, from: int) -> int
    decreases t.len() - from,
{
    if 0 <= from < t.len() && is_digit(t[from]) {
        1 + digit_run(t, from + 1)
    } else {
        0
    }
}

/// A fraction of a second follows the seconds.
pub open spec fn has_fraction(t: Seq<u8>) -> bool {
    t.len() > 19 && t[19] == 0x2e
}

/// Where the zone begins: behind the seconds, or behind the fraction.
pub open spec fn zone_start(t: Seq<u8>) -> int {
    if has_fraction(t) {
        20 + digit_run(t, 20)
    } else {
        19
    }
}

/// Digit `k` of the fraction, counted from 0; 0 behind its end.
pub open spec fn fraction_digit(t: Seq<u8>, k: int) -> int {
    if has_fraction(t) && k < digit_run(t, 20) {
        digit_value(t[20 + k])
    } else {
        0
    }
}

/// The fraction in nanoseconds. Digits behind the ninth are dropped.
pub open spec fn fraction_nanos(t: Seq<u8>) -> int {
    fraction_digit(t, 0) * 100_000_000 + fraction_digit(t, 1) * 10_000_000 + fraction_digit(t, 2)
        * 1_000_000 + fraction_digit(t, 3) * 100_000 + fraction_digit(t, 4) * 10_000
        + fraction_digit(t, 5) * 1_000 + fraction_digit(t, 6) * 100 + fraction_digit(t, 7) * 10
        + fraction_digit(t, 8)
}

pub open spec fn year_of(t: Seq<u8>) -> int {
    100 * two_digits(t, 0) + two_digits(t, 2)
}

/// `YYYY-MM-DD`, `T` or `t`, `HH:MM:SS`: the shape, and each field in its
/// range. The day exists in its month; the second is at most 59.
pub open spec fn date_time_well_formed(t: Seq<u8>) -> bool {
    &&& t.len() >= 19
    &&& are_two_digits(t, 0) && are_two_digits(t, 2) && t[4] == 0x2d
    &&& are_two_digits(t, 5) && t[7] == 0x2d
    &&& are_two_digits(t, 8) && (t[10] == 0x54 || t[10] == 0x74)
    &&& are_two_digits(t, 11) && t[13] == 0x3a
    &&& are_two_digits(t, 14) && t[16] == 0x3a
    &&& are_two_digits(t, 17)
    &&& 1 <= two_digits(t, 5) <= 12
    &&& 1 <= two_digits(t, 8) <= month_length(year_of(t), two_digits(t, 5))
    &&& two_digits(t, 11) <= 23
    &&& two_digits(t, 14) <= 59
    &&& two_digits(t, 17) <= 59
}

/// The zone at `z` ends the text: `Z` or `z`, or a sign and `HH:MM` with the
/// hours at most 23 and the minutes at most 59.
pub open spec fn zone_well_formed(t: Seq<u8>, z: int) -> bool {
    &&& 19 <= z < t.len()
    &&& if t[z] == 0x5a || t[z] == 0x7a {
        t.len() == z + 1
    } else {
        &&& t[z] == 0x2b || t[z] == 0x2d
        &&& t.len() == z + 6
        &&& are_two_digits(t, z + 1) && t[z + 3] == 0x3a && are_two_digits(t, z + 4)
        &&& two_digits(t, z + 1) <= 23
        &&& two_digits(t, z + 4) <= 59
    }
}

/// What the zone at `z` adds to universal time to give the time written.
pub open spec fn zone_offset(t: Seq<u8>, z: int) -> int {
    if t[z] == 0x2b {
        3600 * two_digits(t, z + 1) + 60 * two_digits(t, z + 4)
    } else if t[z] == 0x2d {
        -(3600 * two_digits(t, z + 1) + 60 * two_digits(t, z + 4))
    } else {
        0
    }
}

/// The text is a date-time: date and time, then an optional fraction of at
/// least one digit, then the zone, and nothing else.
pub open spec fn is_timestamp(t: Seq<u8>) -> bool {
    &&& date_time_well_formed(t)
    &&& has_fraction(t) ==> digit_run(t, 20) >= 1
    &&& zone_well_formed(t, zone_start(t))
}

/// The seconds from the Unix epoch to the date and time written, read as
/// universal time.
pub open spec fn written_seconds(t: Seq<u8>) -> int {
    86_400 * unix_day(year_of(t), two_digits(t, 5), two_digits(t, 8)) + 3600 * two_digits(t, 11)
        + 60 * two_digits(t, 14) + two_digits(t, 17)
}

/// The instant that a date-time names, `None` where the text is none.
pub open spec fn timestamp_of(t: Seq<u8>) -> Option<Timestamp> {
    if is_timestamp(t) {
        Some(
            Timestamp {
                secs: (written_seconds(t) - zone_offset(t, zone_start(t))) as i64,
                nanos: fraction_nanos(t) as u32,
            },
        )
    } else {
        None
    }
}


/// The weight of fraction digit `k` in nanoseconds.
pub open spec fn place_value(k: int) -> int {
    if k == 0 {
        100_000_000
    } else if k == 1 {
        10_000_000
    } else if k == 2 {
        1_000_000
    } else if k == 3 {
        100_000
    } else if k == 4 {
        10_000
    } else if k == 5 {
        1_000
    } else if k == 6 {
        100
    } else if k == 7 {
        10
    } else if k == 8 {
        1
    } else {
        0
    }
}

/// The nanoseconds that the first `k` digits of the fraction give.
pub open spec fn fraction_prefix(t: Seq<u8>, k: int) -> int
    decreases k,
{
    if k <= 0 {
        0
    } else {
        fraction_prefix(t, k - 1) + fraction_digit(t, k - 1) * place_value(k - 1)
    }
}

/// A run of digits from `from` to `to` is the start of the run at `from`.
pub proof fn lemma_digit_run_split(t: Seq<u8>, from: int, to: int)
    requires
        0 <= from <= to <= t.len(),
        forall|j: int| from <= j < to ==> is_digit(#[trigger] t[j]),
    ensures
        digit_run(t, from) == to - from + digit_run(t, to),
    decreases to - from,
{
    if from < to {
        lemma_digit_run_split(t, from + 1, to);
    }
}

/// A run is not negative, stays inside the text, and holds digits only.
pub proof fn lemma_digit_run_members(t: Seq<u8>, from: int)
    requires
        0 <= from,
    ensures
        0 <= digit_run(t, from),
        digit_run(t, from) > 0 ==> from + digit_run(t, from) <= t.len(),
        forall|k: int| 0 <= k < digit_run(t, from) ==> is_digit(#[trigger] t[from + k]),
    decreases t.len() - from,
{
    if from < t.len() && is_digit(t[from]) {
        lemma_digit_run_members(t, from + 1);
        assert forall|k: int| 0 <= k < digit_run(t, from) implies is_digit(
            #[trigger] t[from + k],
        ) by {
            if k > 0 {
                assert(t[from + k] == t[from + 1 + (k - 1)]);
            }
        }
    }
}

/// Nine digits make the whole fraction.
pub proof fn lemma_fraction_prefix_full(t: Seq<u8>)
    ensures
        fraction_prefix(t, 9) == fraction_nanos(t),
{
    reveal_with_fuel(fraction_prefix, 10);
}

/// Behind the end of the fraction nothing is added.
pub proof fn lemma_fraction_prefix_rest(t: Seq<u8>, k: int, m: int)
    requires
        0 <= k <= m,
        has_fraction(t) ==> digit_run(t, 20) <= k,
    ensures
        fraction_prefix(t, m) == fraction_prefix(t, k),
    decreases m - k,
{
    if k < m {
        lemma_fraction_prefix_rest(t, k, m - 1);
    }
}

/// The first `k` digits give less than the weight of digit `k - 1` allows.
pub proof fn lemma_fraction_prefix_bound(t: Seq<u8>, k: int)
    requires
        0 <= k <= 9,
    ensures
        0 <= fraction_prefix(t, k),
        fraction_prefix(t, k) + place_value(k - 1) <= 1_000_000_000,
        k == 0 ==> fraction_prefix(t, k) == 0,
    decreases k,
{
    if k > 0 {
        lemma_fraction_prefix_bound(t, k - 1);
        lemma_digit_run_members(t, 20);
        assert(0 <= fraction_digit(t, k - 1) <= 9) by {
            if has_fraction(t) && k - 1 < digit_run(t, 20) {
                assert(is_digit(t[20 + (k - 1)]));
            }
        }
        assert(place_value(k - 2) == 10 * place_value(k - 1) || k == 1);
        assert(fraction_digit(t, k - 1) * place_value(k - 1) <= 9 * place_value(k - 1))
            by (nonlinear_arith)
            requires
                0 <= fraction_digit(t, k - 1) <= 9,
                0 <= place_value(k - 1),
        ;
        assert(0 <= fraction_digit(t, k - 1) * place_value(k - 1)) by (nonlinear_arith)
            requires
                0 <= fraction_digit(t, k - 1),
                0 <= place_value(k - 1),
        ;
    }
}

fn digit(b: u8) -> (r: bool)
    ensures
        r == is_digit(b),
{
    0x30 <= b && b <= 0x39
}

/// The two digits at `at`, as a number.
fn read_two(t: &[u8], at: usize) -> (r: Option<u32>)
    requires
        at + 1 < t@.len(),
    ensures
        r == (if are_two_digits(t@, at as int) {
            Some(two_digits(t@, at as int) as u32)
        } else {
            None
        }),
        r matches Some(v) ==> v <= 99,
{
    let hi: u8 = t[at];
    let lo: u8 = t[at + 1];
    if digit(hi) && digit(lo) {
        Some(10 * (hi - 0x30) as u32 + (lo - 0x30) as u32)
    } else {
        None
    }
}

/// The date and time at the start of `t`, in seconds from the Unix epoch,
/// read as universal time.
fn read_date_time(t: &[u8]) -> (r: Option<i64>)
    requires
        t@.len() >= 19,
    ensures
        r == (if date_time_well_formed(t@) {
            Some(written_seconds(t@) as i64)
        } else {
            None
        }),
        r matches Some(s) ==> s == written_seconds(t@) && -62_167_219_200 <= s <= 253_402_300_799,
{
    if t[4] != 0x2d || t[7] != 0x2d || (t[10] != 0x54 && t[10] != 0x74) || t[13] != 0x3a || t[16]
        != 0x3a {
        return None;
    }
    let century: u32 = match read_two(t, 0) {
        Some(v) => v,
        None => { return None; },
    };
    let years: u32 = match read_two(t, 2) {
        Some(v) => v,
        None => { return None; },
    };
    let month: u32 = match read_two(t, 5) {
        Some(v) => v,
        None => { return None; },
    };
    let day: u32 = match read_two(t, 8) {
        Some(v) => v,
        None => { return None; },
    };
    let hour: u32 = match read_two(t, 11) {
        Some(v) => v,
        None => { return None; },
    };
    let minute: u32 = match read_two(t, 14) {
        Some(v) => v,
        None => { return None; },
    };
    let second: u32 = match read_two(t, 17) {
        Some(v) => v,
        None => { return None; },
    };
    let year: u32 = 100 * century + years;
    if hour > 23 || minute > 59 || second > 59 {
        return None;
    }
    let days: i64 = match days_from_unix_epoch(year, month, day) {
        Some(days) => days,
        None => { return None; },
    };
    Some(86_400 * days + 3600 * (hour as i64) + 60 * (minute as i64) + second as i64)
}

/// The zone at `z`: what it adds to universal time, in seconds.
fn read_zone(t: &[u8], z: usize) -> (r: Option<i64>)
    requires
        19 <= z <= t@.len(),
    ensures
        r == (if zone_well_formed(t@, z as int) {
            Some(zone_offset(t@, z as int) as i64)
        } else {
            None
        }),
        r matches Some(s) ==> s == zone_offset(t@, z as int) && -86_340 <= s <= 86_340,
{
    let n: usize = t.len();
    if z >= n {
        return None;
    }
    let mark: u8 = t[z];
    if mark == 0x5a || mark == 0x7a {
        return if n - z == 1 {
            Some(0)
        } else {
            None
        };
    }
    if (mark != 0x2b && mark != 0x2d) || n - z != 6 || t[z + 3] != 0x3a {
        return None;
    }
    let hours: u32 = match read_two(t, z + 1) {
        Some(v) => v,
        None => { return None; },
    };
    let minutes: u32 = match read_two(t, z + 4) {
        Some(v) => v,
        None => { return None; },
    };
    if hours > 23 || minutes > 59 {
        return None;
    }
    let size: i64 = 3600 * (hours as i64) + 60 * (minutes as i64);
    if mark == 0x2b {
        Some(size)
    } else {
        Some(-size)
    }
}

/// The fraction that follows the `.` at 19: the place behind its last digit,
/// and its value in nanoseconds.
fn read_fraction(t: &[u8]) -> (r: (usize, u32))
    requires
        has_fraction(t@),
    ensures
        r.0 == 20 + digit_run(t@, 20),
        20 <= r.0 <= t@.len(),
        r.1 == fraction_nanos(t@),
        r.1 < NANOS_PER_SECOND,
{
    let n: usize = t.len();
    let mut at: usize = 20;
    let mut nanos: u32 = 0;
    let mut scale: u32 = 100_000_000;
    proof {
        lemma_fraction_prefix_bound(t@, 0);
    }
    while at < n && digit(t[at])
        invariant
            n == t@.len(),
            has_fraction(t@),
            20 <= at <= n,
            forall|j: int| 20 <= j < at ==> is_digit(#[trigger] t@[j]),
            scale == place_value(at - 20),
            at - 20 <= 9 ==> nanos == fraction_prefix(t@, at - 20),
            at - 20 > 9 ==> nanos == fraction_prefix(t@, 9),
            nanos < NANOS_PER_SECOND,
        decreases n - at,
    {
        proof {
            lemma_digit_run_split(t@, 20, at as int + 1);
            lemma_digit_run_members(t@, at as int + 1);
            assert(fraction_digit(t@, at - 20) == digit_value(t@[at as int]));
            if at - 20 < 9 {
                lemma_fraction_prefix_bound(t@, at - 20 + 1);
                lemma_fraction_prefix_bound(t@, at - 20);
            }
        }
        if scale > 0 {
            let d: u32 = (t[at] - 0x30) as u32;
            assert(d * scale <= 9 * scale) by (nonlinear_arith)
                requires
                    d <= 9,
                    scale >= 0,
            ;
            nanos = nanos + d * scale;
            scale = scale / 10;
        }
        at = at + 1;
    }
    proof {
        lemma_digit_run_split(t@, 20, at as int);
        lemma_digit_run_members(t@, at as int);
        lemma_fraction_prefix_full(t@);
        if at - 20 <= 9 {
            lemma_fraction_prefix_rest(t@, at - 20, 9);
        }
    }
    (at, nanos)
}

/// Reads a date-time: `YYYY-MM-DD`, `T` or `t`, `HH:MM:SS`, an optional `.`
/// with at least one digit, and `Z`, `z` or an offset `+HH:MM` or `-HH:MM`.
///
/// The day must exist in its month, hours run to 23, minutes and seconds to
/// 59: a leap second `:60` names no instant of this scale and is not read.
/// Of a fraction the first nine digits count. Anything else, text behind
/// the zone too, gives `None`.
pub fn parse_timestamp(t: &[u8]) -> (r: Option<Timestamp>)
    ensures
        r == timestamp_of(t@),
        r matches Some(ts) ==> ts.wf(),
{
    let n: usize = t.len();
    if n < 20 {
        return None;
    }
    let written: i64 = match read_date_time(t) {
        Some(s) => s,
        None => { return None; },
    };
    let mut zone_at: usize = 19;
    let mut nanos: u32 = 0;
    if t[19] == 0x2e {
        let (end, value) = read_fraction(t);
        if end == 20 {
            return None;
        }
        zone_at = end;
        nanos = value;
    }
    let offset: i64 = match read_zone(t, zone_at) {
        Some(s) => s,
        None => { return None; },
    };
    Some(Timestamp { secs: written - offset, nanos })
}

} // verus!
