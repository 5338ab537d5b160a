//! UTC timestamps as epoch seconds, the proleptic civil calendar, and the
//! RFC 3339 text form used by `versionTime` query parameters and resource
//! metadata.
use vstd::prelude::*;

use crate::strutil::{dec_digit_char, push_char};

verus! {

/// The first epoch second this library can render: 0000-01-01T00:00:00Z.
pub const RFC3339_MIN_EPOCH: i64 = -62167219200;

/// The last epoch second this library can render: 9999-12-31T23:59:59Z.
pub const RFC3339_MAX_EPOCH: i64 = 253402300799;

/// Days from 0000-01-01 to 1970-01-01.
pub const DAYS_TO_UNIX_EPOCH: u64 = 719528;

/// A point in time, counted in whole seconds since 1970-01-01T00:00:00Z.
#[derive(Debug, Clone, Copy, PartialEq, Eq, Structural)]
pub struct UtcDateTime {
    epoch_secs: i64,
}

impl View for UtcDateTime {
    type V = int;

    closed spec fn view(&self) -> int {
        self.epoch_secs as int
    }
}

/// Whether a year of the proleptic Gregorian calendar is a leap year.
pub open spec fn is_leap_year(y: int) -> bool {
    (y % 4 == 0 && y % 100 != 0) || y % 400 == 0
}

/// The number of days of month `m` (1 = January) in year `y`.
pub open spec fn days_in_month(y: int, m: int) -> int
    recommends
        1 <= m <= 12,
{
    if m == 2 {
        if is_leap_year(y) {
            29
        } else {
            28
        }
    } else if m == 4 || m == 6 || m == 9 || m == 11 {
        30
    } else {
        31
    }
}

/// Days of year `y` that pass before month `m` begins.
pub open spec fn days_before_month(y: int, m: int) -> int
    recommends
        1 <= m <= 13,
    decreases m,
{
    if m <= 1 {
        0
    } else {
        days_before_month(y, m - 1) + days_in_month(y, m - 1)
    }
}

/// Leap years in `[0, y)`.
pub open spec fn leap_years_before(y: int) -> int
    recommends
        y >= 0,
{
    (y + 3) / 4 - (y + 99) / 100 + (y + 399) / 400
}

/// Days from 0000-01-01 to the given civil date.
pub open spec fn days_from_year_zero(y: int, m: int, d: int) -> int {
    365 * y + leap_years_before(y) + days_before_month(y, m) + (d - 1)
}

/// A date that exists in the calendar, within the four-digit years.
pub open spec fn valid_date(y: int, m: int, d: int) -> bool {
    0 <= y <= 9999 && 1 <= m <= 12 && 1 <= d <= days_in_month(y, m)
}

/// The epoch second of a civil date and time with the given offset from UTC,
/// in seconds.
pub open spec fn spec_civil_to_epoch(
    y: int,
    m: int,
    d: int,
    h: int,
    mi: int,
    s: int,
    offset: int,
) -> int {
    (days_from_year_zero(y, m, d) - DAYS_TO_UNIX_EPOCH) * 86400 + h * 3600 + mi * 60 + s - offset
}

/// A decimal digit character.
pub open spec fn is_dec_digit(c: char) -> bool {
    '0' <= c && c <= '9'
}

/// The value of a decimal digit character.
pub open spec fn dec_digit_value(c: char) -> int {
    c as u32 - 48
}

/// Every character of the string is a decimal digit.
pub open spec fn all_dec_digits(s: Seq<char>) -> bool {
    forall|i: int| 0 <= i < s.len() ==> is_dec_digit(#[trigger] s[i])
}

/// The number a string of decimal digits denotes.
pub open spec fn digits_value(s: Seq<char>) -> int
    recommends
        all_dec_digits(s),
    decreases s.len(),
{
    if s.len() == 0 {
        0
    } else {
        digits_value(s.drop_last()) * 10 + dec_digit_value(s.last())
    }
}

/// How many consecutive decimal digits stand at `from` in the string.
pub open spec fn digit_run_len(s: Seq<char>, from: int) -> int
    decreases s.len() - from,
{
    if from < 0 || from >= s.len() || !is_dec_digit(s[from]) {
        0
    } else {
        1 + digit_run_len(s, from + 1)
    }
}

/// Reads a UTC offset suffix: `Z` or `z` for zero, or `+HH:MM` / `-HH:MM`
/// within `23:59`, as signed seconds.
pub open spec fn spec_parse_offset(s: Seq<char>) -> Option<int> {
    if s.len() == 1 && (s[0] == 'Z' || s[0] == 'z') {
        Some(0)
    } else if s.len() == 6 && (s[0] == '+' || s[0] == '-') && is_dec_digit(s[1]) && is_dec_digit(
        s[2],
    ) && s[3] == ':' && is_dec_digit(s[4]) && is_dec_digit(s[5]) {
        let hh = dec_digit_value(s[1]) * 10 + dec_digit_value(s[2]);
        let mm = dec_digit_value(s[4]) * 10 + dec_digit_value(s[5]);
        if hh <= 23 && mm <= 59 {
            if s[0] == '-' {
                Some(-(hh * 3600 + mm * 60))
            } else {
                Some(hh * 3600 + mm * 60)
            }
        } else {
            None
        }
    } else {
        None
    }
}

/// The fixed head of an RFC 3339 timestamp: `YYYY-MM-DDTHH:MM:SS`, with `T`
/// or `t` as the separator.
pub open spec fn rfc3339_head_ok(s: Seq<char>) -> bool {
    &&& s.len() >= 19
    &&& all_dec_digits(s.subrange(0, 4))
    &&& s[4] == '-'
    &&& all_dec_digits(s.subrange(5, 7))
    &&& s[7] == '-'
    &&& all_dec_digits(s.subrange(8, 10))
    &&& s[10] == 'T' || s[10] == 't'
    &&& all_dec_digits(s.subrange(11, 13))
    &&& s[13] == ':'
    &&& all_dec_digits(s.subrange(14, 16))
    &&& s[16] == ':'
    &&& all_dec_digits(s.subrange(17, 19))
}

/// Where the offset suffix starts: after the seconds, or after an optional
/// fraction `.digits` (at least one digit); -1 marks a bare dot.
pub open spec fn rfc3339_offset_start(s: Seq<char>) -> int
    recommends
        s.len() >= 19,
{
    if s.len() > 19 && s[19] == '.' {
        let run = digit_run_len(s, 20);
        if run == 0 {
            -1
        } else {
            20 + run
        }
    } else {
        19
    }
}

/// Reads an RFC 3339 timestamp as its epoch second: date, time, optional
/// fraction (ignored), and UTC offset; `None` where the text is not a valid
/// timestamp of that shape. Leap seconds (second 60) are not accepted.
pub open spec fn spec_parse_rfc3339(s: Seq<char>) -> Option<int> {
    if !rfc3339_head_ok(s) {
        None
    } else {
        let tz_start = rfc3339_offset_start(s);
        if tz_start < 0 {
            None
        } else {
            match spec_parse_offset(s.skip(tz_start)) {
                Some(off) => {
                    let y = digits_value(s.subrange(0, 4));
                    let mo = digits_value(s.subrange(5, 7));
                    let d = digits_value(s.subrange(8, 10));
                    let h = digits_value(s.subrange(11, 13));
                    let mi = digits_value(s.subrange(14, 16));
                    let sec = digits_value(s.subrange(17, 19));
                    if valid_date(y, mo, d) && h <= 23 && mi <= 59 && sec <= 59 {
                        Some(spec_civil_to_epoch(y, mo, d, h, mi, sec, off))
                    } else {
                        None
                    }
                },
                None => None,
            }
        }
    }
}

impl UtcDateTime {
    /// Wraps an epoch second count.
    pub fn from_epoch_secs(epoch_secs: i64) -> (r: UtcDateTime)
        ensures
            r@ == epoch_secs as int,
    {
        UtcDateTime { epoch_secs }
    }

    /// The count of seconds since 1970-01-01T00:00:00Z.
    pub fn timestamp(&self) -> (r: i64)
        ensures
            r as int == self@,
    {
        self.epoch_secs
    }

    /// Reads an RFC 3339 timestamp, e.g. `2021-01-01T00:00:00Z` or
    /// `2021-01-01T10:30:00.500+02:00`.
    pub fn parse_rfc3339(s: &str) -> (r: Option<UtcDateTime>)
        ensures
            match r {
                Some(dt) => spec_parse_rfc3339(s@) == Some(dt@),
                None => spec_parse_rfc3339(s@) is None,
            },
    {
        let n = s.unicode_len();
        if n < 19 {
            return None;
        }
        let y = match read_fixed_digits(s, 0, 4) {
            Some(v) => v,
            None => {
                return None;
            },
        };
        if s.get_char(4) != '-' {
            return None;
        }
        let mo = match read_fixed_digits(s, 5, 7) {
            Some(v) => v,
            None => {
                return None;
            },
        };
        if s.get_char(7) != '-' {
            return None;
        }
        let d = match read_fixed_digits(s, 8, 10) {
            Some(v) => v,
            None => {
                return None;
            },
        };
        let sep = s.get_char(10);
        if sep != 'T' && sep != 't' {
            return None;
        }
        let h = match read_fixed_digits(s, 11, 13) {
            Some(v) => v,
            None => {
                return None;
            },
        };
        if s.get_char(13) != ':' {
            return None;
        }
        let mi = match read_fixed_digits(s, 14, 16) {
            Some(v) => v,
            None => {
                return None;
            },
        };
        if s.get_char(16) != ':' {
            return None;
        }
        let sec = match read_fixed_digits(s, 17, 19) {
            Some(v) => v,
            None => {
                return None;
            },
        };
        assert(rfc3339_head_ok(s@));
        // optional fraction, ignored but must hold at least one digit
        let mut tz_start: usize = 19;
        if n > 19 && s.get_char(19) == '.' {
            let mut pos: usize = 20;
            while pos < n && is_digit_char(s.get_char(pos))
                invariant
                    20 <= pos <= n,
                    n == s@.len(),
                    forall|i: int| 20 <= i < pos ==> is_dec_digit(#[trigger] s@[i]),
                decreases n - pos,
            {
                pos = pos + 1;
            }
            proof {
                lemma_digit_run(s@, 20, pos as int);
            }
            if pos == 20 {
                return None;
            }
            tz_start = pos;
        }
        assert(tz_start as int == rfc3339_offset_start(s@));
        // the UTC offset suffix
        let off: i64 = if n - tz_start == 1 && (s.get_char(tz_start) == 'Z' || s.get_char(tz_start)
            == 'z') {
            proof {
                assert(s@.skip(tz_start as int).len() == 1);
                assert(s@.skip(tz_start as int)[0] == s@[tz_start as int]);
            }
            0
        } else if n - tz_start == 6 && (s.get_char(tz_start) == '+' || s.get_char(tz_start) == '-')
            && s.get_char(tz_start + 3) == ':' {
            let ghost tz = s@.skip(tz_start as int);
            proof {
                assert(tz.len() == 6);
                assert forall|i: int| 0 <= i < 6 implies tz[i] == s@[tz_start + i] by {}
            }
            let hh = match read_fixed_digits(s, tz_start + 1, tz_start + 3) {
                Some(v) => v,
                None => {
                    proof {
                        let bad = choose|i: int|
                            tz_start + 1 <= i < tz_start + 3 && !is_dec_digit(s@[i]);
                        assert(!is_dec_digit(tz[bad - tz_start]));
                    }
                    return None;
                },
            };
            let mm = match read_fixed_digits(s, tz_start + 4, tz_start + 6) {
                Some(v) => v,
                None => {
                    proof {
                        let bad = choose|i: int|
                            tz_start + 4 <= i < tz_start + 6 && !is_dec_digit(s@[i]);
                        assert(!is_dec_digit(tz[bad - tz_start]));
                    }
                    return None;
                },
            };
            if hh > 23 || mm > 59 {
                proof {
                    lemma_two_digits_value(s@, tz_start + 1);
                    lemma_two_digits_value(s@, tz_start + 4);
                }
                return None;
            }
            proof {
                lemma_two_digits_value(s@, tz_start + 1);
                lemma_two_digits_value(s@, tz_start + 4);
            }
            let magnitude = (hh * 3600 + mm * 60) as i64;
            if s.get_char(tz_start) == '-' {
                -magnitude
            } else {
                magnitude
            }
        } else {
            proof {
                let tz = s@.skip(tz_start as int);
                assert(tz.len() == n - tz_start);
                if tz.len() == 1 {
                    assert(tz[0] == s@[tz_start as int]);
                } else if tz.len() == 6 {
                    assert(tz[0] == s@[tz_start as int] && tz[3] == s@[tz_start + 3]);
                }
            }
            return None;
        };
        // range checks and the epoch computation
        proof {
            lemma_head_component_values(s@, y as int, mo as int, d as int, h as int, mi as int,
                sec as int);
        }
        if !(1 <= mo && mo <= 12) {
            return None;
        }
        let dim = days_in_month_exec(y, mo);
        if !(1 <= d && d <= dim) {
            return None;
        }
        if h > 23 || mi > 59 || sec > 59 {
            return None;
        }
        let epoch = civil_to_epoch_utc(y, mo, d, h, mi, sec) - off;
        Some(UtcDateTime { epoch_secs: epoch })
    }

    /// Renders the timestamp in RFC 3339 form with a `+00:00` offset, e.g.
    /// `2021-01-01T00:00:00+00:00`: 25 characters that parse back to this
    /// same point in time.
    pub fn to_rfc3339(&self) -> (r: String)
        requires
            RFC3339_MIN_EPOCH <= self@ <= RFC3339_MAX_EPOCH,
        ensures
            spec_parse_rfc3339(r@) == Some(self@),
            r@.len() == 25,
            r@.skip(19) == "+00:00"@,
    {
        let (y, mo, d, h, mi, sec) = civil_from_epoch(self.epoch_secs);
        let mut out = String::from_str("");
        proof {
            reveal_strlit("");
            assert(out@ =~= Seq::<char>::empty());
        }
        append_4_digits(&mut out, y);
        push_char(&mut out, '-');
        append_2_digits(&mut out, mo);
        push_char(&mut out, '-');
        append_2_digits(&mut out, d);
        push_char(&mut out, 'T');
        append_2_digits(&mut out, h);
        push_char(&mut out, ':');
        append_2_digits(&mut out, mi);
        push_char(&mut out, ':');
        append_2_digits(&mut out, sec);
        push_char(&mut out, '+');
        push_char(&mut out, '0');
        push_char(&mut out, '0');
        push_char(&mut out, ':');
        push_char(&mut out, '0');
        push_char(&mut out, '0');
        proof {
            lemma_format_parses_back(out@, y as int, mo as int, d as int, h as int, mi as int,
                sec as int);
            assert(spec_civil_to_epoch(y as int, mo as int, d as int, h as int, mi as int,
                sec as int, 0) == self@);
            reveal_strlit("+00:00");
            assert(out@.skip(19) =~= "+00:00"@);
        }
        out
    }
}

/// Whether the character is a decimal digit.
fn is_digit_char(c: char) -> (r: bool)
    ensures
        r == is_dec_digit(c),
{
    '0' <= c && c <= '9'
}

/// Reads `s[from..to]` as an unsigned decimal number of at most four digits.
fn read_fixed_digits(s: &str, from: usize, to: usize) -> (r: Option<u32>)
    requires
        from <= to <= s@.len(),
        to - from <= 4,
    ensures
        match r {
            Some(v) => all_dec_digits(s@.subrange(from as int, to as int)) && v as int
                == digits_value(s@.subrange(from as int, to as int)) && v < 10000,
            None => !all_dec_digits(s@.subrange(from as int, to as int)),
        },
{
    let mut v: u32 = 0;
    let mut i: usize = from;
    while i < to
        invariant
            from <= i <= to <= s@.len(),
            to - from <= 4,
            all_dec_digits(s@.subrange(from as int, i as int)),
            v as int == digits_value(s@.subrange(from as int, i as int)),
            v < 10000,
        decreases to - i,
    {
        let c = s.get_char(i);
        if !is_digit_char(c) {
            proof {
                assert(s@.subrange(from as int, to as int)[i - from] == s@[i as int]);
            }
            return None;
        }
        let digit = (c as u32) - 48;
        assert(digit < 10);
        v = v * 10 + digit;
        proof {
            assert(s@.subrange(from as int, i + 1).drop_last() =~= s@.subrange(
                from as int,
                i as int,
            ));
            assert(s@.subrange(from as int, i + 1).last() == s@[i as int]);
            assert forall|j: int| 0 <= j < i + 1 - from implies is_dec_digit(
                #[trigger] s@.subrange(from as int, i + 1)[j],
            ) by {
                if j < i - from {
                    assert(s@.subrange(from as int, i + 1)[j] == s@.subrange(
                        from as int,
                        i as int,
                    )[j]);
                }
            }
            lemma_digits_value_bound(s@.subrange(from as int, i + 1));
        }
        i = i + 1;
    }
    Some(v)
}

/// A scanned run of digits ending at a non-digit or the end of the string is
/// exactly the digit run the specification counts.
proof fn lemma_digit_run(s: Seq<char>, from: int, upto: int)
    requires
        0 <= from <= upto <= s.len(),
        forall|i: int| from <= i < upto ==> is_dec_digit(#[trigger] s[i]),
        upto == s.len() || !is_dec_digit(s[upto]),
    ensures
        digit_run_len(s, from) == upto - from,
    decreases upto - from,
{
    if from == upto {
    } else {
        lemma_digit_run(s, from + 1, upto);
    }
}

/// The value of two adjacent digit characters, as the spec reads them from a
/// skipped suffix.
proof fn lemma_two_digits_value(s: Seq<char>, at: int)
    requires
        0 <= at,
        at + 2 <= s.len(),
        all_dec_digits(s.subrange(at, at + 2)),
    ensures
        digits_value(s.subrange(at, at + 2)) == dec_digit_value(s[at]) * 10 + dec_digit_value(
            s[at + 1],
        ),
        is_dec_digit(s[at]) && is_dec_digit(s[at + 1]),
{
    let two = s.subrange(at, at + 2);
    assert(two.drop_last() =~= s.subrange(at, at + 1));
    assert(two.last() == s[at + 1]);
    let one = s.subrange(at, at + 1);
    assert(one.drop_last() =~= s.subrange(at, at));
    assert(one.last() == s[at]);
    assert(s.subrange(at, at) =~= Seq::<char>::empty());
    assert(two[0] == s[at] && two[1] == s[at + 1]);
    assert(digits_value(s.subrange(at, at)) == 0);
    assert(digits_value(one) == dec_digit_value(s[at]));
    assert(digits_value(two) == digits_value(one) * 10 + dec_digit_value(s[at + 1]));
}

/// Links the values read by the exec parser to the values the specification
/// assigns to the six head components.
proof fn lemma_head_component_values(s: Seq<char>, y: int, mo: int, d: int, h: int, mi: int,
    sec: int)
    requires
        rfc3339_head_ok(s),
        y == digits_value(s.subrange(0, 4)),
        mo == digits_value(s.subrange(5, 7)),
        d == digits_value(s.subrange(8, 10)),
        h == digits_value(s.subrange(11, 13)),
        mi == digits_value(s.subrange(14, 16)),
        sec == digits_value(s.subrange(17, 19)),
    ensures
        0 <= y <= 9999,
        0 <= mo <= 99,
        0 <= d <= 99,
        0 <= h <= 99,
        0 <= mi <= 99,
        0 <= sec <= 99,
{
    lemma_digits_value_bound(s.subrange(0, 4));
    lemma_digits_value_bound(s.subrange(5, 7));
    lemma_digits_value_bound(s.subrange(8, 10));
    lemma_digits_value_bound(s.subrange(11, 13));
    lemma_digits_value_bound(s.subrange(14, 16));
    lemma_digits_value_bound(s.subrange(17, 19));
}

/// A digit string of length `n` denotes a value in `[0, 10^n)`; stated for
/// the lengths the timestamp grammar uses.
proof fn lemma_digits_value_bound(s: Seq<char>)
    requires
        all_dec_digits(s),
        s.len() <= 4,
    ensures
        0 <= digits_value(s),
        s.len() == 0 ==> digits_value(s) == 0,
        s.len() <= 1 ==> digits_value(s) <= 9,
        s.len() <= 2 ==> digits_value(s) <= 99,
        s.len() <= 3 ==> digits_value(s) <= 999,
        digits_value(s) <= 9999,
    decreases s.len(),
{
    if s.len() == 0 {
    } else {
        assert forall|i: int| 0 <= i < s.drop_last().len() implies is_dec_digit(
            #[trigger] s.drop_last()[i],
        ) by {
            assert(s.drop_last()[i] == s[i]);
        }
        lemma_digits_value_bound(s.drop_last());
        assert(0 <= dec_digit_value(s.last()) <= 9);
    }
}

/// The number of days of a month, as executable code.
fn days_in_month_exec(y: u32, m: u32) -> (r: u32)
    requires
        1 <= m <= 12,
        y <= 9999,
    ensures
        r as int == days_in_month(y as int, m as int),
{
    if m == 2 {
        if (y % 4 == 0 && y % 100 != 0) || y % 400 == 0 {
            29
        } else {
            28
        }
    } else if m == 4 || m == 6 || m == 9 || m == 11 {
        30
    } else {
        31
    }
}

/// Days of the year that pass before month `m` begins, as executable code.
fn days_before_month_exec(y: u32, m: u32) -> (r: u32)
    requires
        1 <= m <= 13,
        y <= 9999,
    ensures
        r as int == days_before_month(y as int, m as int),
{
    let leap: u32 = if (y % 4 == 0 && y % 100 != 0) || y % 400 == 0 {
        1
    } else {
        0
    };
    proof {
        lemma_days_before_month_table(y as int);
    }
    match m {
        1 => 0,
        2 => 31,
        3 => 59 + leap,
        4 => 90 + leap,
        5 => 120 + leap,
        6 => 151 + leap,
        7 => 181 + leap,
        8 => 212 + leap,
        9 => 243 + leap,
        10 => 273 + leap,
        11 => 304 + leap,
        12 => 334 + leap,
        _ => 365 + leap,
    }
}

/// The cumulative month table, spelled out.
proof fn lemma_days_before_month_table(y: int)
    ensures
        days_before_month(y, 1) == 0,
        days_before_month(y, 2) == 31,
        days_before_month(y, 3) == 59 + (if is_leap_year(y) {
            1int
        } else {
            0int
        }),
        days_before_month(y, 4) == 90 + (if is_leap_year(y) {
            1int
        } else {
            0int
        }),
        days_before_month(y, 5) == 120 + (if is_leap_year(y) {
            1int
        } else {
            0int
        }),
        days_before_month(y, 6) == 151 + (if is_leap_year(y) {
            1int
        } else {
            0int
        }),
        days_before_month(y, 7) == 181 + (if is_leap_year(y) {
            1int
        } else {
            0int
        }),
        days_before_month(y, 8) == 212 + (if is_leap_year(y) {
            1int
        } else {
            0int
        }),
        days_before_month(y, 9) == 243 + (if is_leap_year(y) {
            1int
        } else {
            0int
        }),
        days_before_month(y, 10) == 273 + (if is_leap_year(y) {
            1int
        } else {
            0int
        }),
        days_before_month(y, 11) == 304 + (if is_leap_year(y) {
            1int
        } else {
            0int
        }),
        days_before_month(y, 12) == 334 + (if is_leap_year(y) {
            1int
        } else {
            0int
        }),
        days_before_month(y, 13) == 365 + (if is_leap_year(y) {
            1int
        } else {
            0int
        }),
{
    assert(days_before_month(y, 1) == 0);
    assert(days_before_month(y, 2) == 31);
    assert(days_before_month(y, 3) == days_before_month(y, 2) + days_in_month(y, 2));
    assert(days_before_month(y, 4) == days_before_month(y, 3) + 31);
    assert(days_before_month(y, 5) == days_before_month(y, 4) + 30);
    assert(days_before_month(y, 6) == days_before_month(y, 5) + 31);
    assert(days_before_month(y, 7) == days_before_month(y, 6) + 30);
    assert(days_before_month(y, 8) == days_before_month(y, 7) + 31);
    assert(days_before_month(y, 9) == days_before_month(y, 8) + 31);
    assert(days_before_month(y, 10) == days_before_month(y, 9) + 30);
    assert(days_before_month(y, 11) == days_before_month(y, 10) + 31);
    assert(days_before_month(y, 12) == days_before_month(y, 11) + 30);
    assert(days_before_month(y, 13) == days_before_month(y, 12) + 31);
}

/// The day index of January the first of year `y`, counted from year zero.
fn year_start_day(y: u32) -> (r: u64)
    requires
        y <= 10000,
    ensures
        r as int == days_from_year_zero(y as int, 1, 1),
        r <= 3652425,
{
    let yy = y as u64;
    365 * yy + (yy + 3) / 4 - (yy + 99) / 100 + (yy + 399) / 400
}

/// The epoch second of a civil date and time taken as UTC.
fn civil_to_epoch_utc(y: u32, mo: u32, d: u32, h: u32, mi: u32, sec: u32) -> (r: i64)
    requires
        valid_date(y as int, mo as int, d as int),
        h <= 23,
        mi <= 59,
        sec <= 59,
    ensures
        r as int == spec_civil_to_epoch(y as int, mo as int, d as int, h as int, mi as int,
            sec as int, 0),
        RFC3339_MIN_EPOCH <= r <= RFC3339_MAX_EPOCH,
{
    let year_days = year_start_day(y);
    let month_days = days_before_month_exec(y, mo);
    let days: u64 = year_days + month_days as u64 + (d - 1) as u64;
    proof {
        lemma_days_before_month_table(y as int);
        assert(days as int == days_from_year_zero(y as int, mo as int, d as int));
        assert(days <= 3652424);
    }
    let day_secs: i64 = (h as i64) * 3600 + (mi as i64) * 60 + sec as i64;
    (days as i64 - DAYS_TO_UNIX_EPOCH as i64) * 86400 + day_secs
}

/// Crossing from year `y` to `y + 1` adds one leap day exactly for leap
/// years.
proof fn lemma_year_length(y: int)
    requires
        0 <= y,
    ensures
        days_from_year_zero(y + 1, 1, 1) - days_from_year_zero(y, 1, 1) == 365 + (if is_leap_year(
            y,
        ) {
            1int
        } else {
            0int
        }),
{
    let a4 = (y + 3) / 4;
    let b4 = (y + 4) / 4;
    assert(b4 - a4 == if y % 4 == 0 {
        1int
    } else {
        0int
    }) by (nonlinear_arith)
        requires
            y >= 0 && a4 == (y + 3) / 4 && b4 == (y + 4) / 4,
    ;
    let a100 = (y + 99) / 100;
    let b100 = (y + 100) / 100;
    assert(b100 - a100 == if y % 100 == 0 {
        1int
    } else {
        0int
    }) by (nonlinear_arith)
        requires
            y >= 0 && a100 == (y + 99) / 100 && b100 == (y + 100) / 100,
    ;
    let a400 = (y + 399) / 400;
    let b400 = (y + 400) / 400;
    assert(b400 - a400 == if y % 400 == 0 {
        1int
    } else {
        0int
    }) by (nonlinear_arith)
        requires
            y >= 0 && a400 == (y + 399) / 400 && b400 == (y + 400) / 400,
    ;
}

/// The civil date and time of an epoch second, taken as UTC.
fn civil_from_epoch(epoch: i64) -> (r: (u32, u32, u32, u32, u32, u32))
    requires
        RFC3339_MIN_EPOCH <= epoch <= RFC3339_MAX_EPOCH,
    ensures
        valid_date(r.0 as int, r.1 as int, r.2 as int),
        r.3 <= 23 && r.4 <= 59 && r.5 <= 59,
        spec_civil_to_epoch(r.0 as int, r.1 as int, r.2 as int, r.3 as int, r.4 as int, r.5 as int,
            0) == epoch,
{
    let shifted: u64 = (epoch - RFC3339_MIN_EPOCH) as u64;
    let z: u64 = shifted / 86400;
    let sod: u64 = shifted % 86400;
    assert(z <= 3652424);
    let h = (sod / 3600) as u32;
    let mi = ((sod % 3600) / 60) as u32;
    let sec = (sod % 60) as u32;
    proof {
        assert(h <= 23 && mi <= 59 && sec <= 59);
        assert(sod as int == h * 3600 + mi * 60 + sec);
    }
    // find the year by scanning year starts
    let mut y: u32 = 0;
    while y < 9999 && year_start_day(y + 1) <= z
        invariant
            y <= 9999,
            z <= 3652424,
            days_from_year_zero(y as int, 1, 1) <= z as int,
        decreases 9999 - y,
    {
        y = y + 1;
    }
    proof {
        if y == 9999 {
            assert(days_from_year_zero(10000, 1, 1) == 3652425);
        }
        assert(z < days_from_year_zero(y as int + 1, 1, 1));
    }
    let doy = (z - year_start_day(y)) as u32;
    proof {
        lemma_year_length(y as int);
        lemma_days_before_month_table(y as int);
        assert((doy as int) < 365 + (if is_leap_year(y as int) {
            1int
        } else {
            0int
        }));
    }
    // find the month by scanning month starts
    let mut mo: u32 = 1;
    while mo < 12 && days_before_month_exec(y, mo + 1) <= doy
        invariant
            1 <= mo <= 12,
            y <= 9999,
            (doy as int) < days_before_month(y as int, 13),
            days_before_month(y as int, mo as int) <= doy as int,
        decreases 12 - mo,
    {
        mo = mo + 1;
    }
    proof {
        lemma_days_before_month_table(y as int);
        assert((doy as int) < days_before_month(y as int, mo as int + 1));
    }
    let d = doy - days_before_month_exec(y, mo) + 1;
    proof {
        assert(1 <= d as int && (d as int) <= days_in_month(y as int, mo as int));
        assert(days_from_year_zero(y as int, mo as int, d as int) == z as int);
        assert(spec_civil_to_epoch(y as int, mo as int, d as int, h as int, mi as int, sec as int,
            0) == epoch as int);
    }
    (y, mo, d, h, mi, sec)
}

/// Fixed-width digit rendering: two digits with a leading zero.
fn append_2_digits(out: &mut String, v: u32)
    requires
        v < 100,
    ensures
        final(out)@ == old(out)@ + seq![
            dec_digit_char((v / 10) as u8),
            dec_digit_char((v % 10) as u8),
        ],
{
    push_char(out, crate::strutil::exec_dec_digit((v / 10) as u8));
    push_char(out, crate::strutil::exec_dec_digit((v % 10) as u8));
    proof {
        assert(out@ =~= old(out)@ + seq![
            dec_digit_char((v / 10) as u8),
            dec_digit_char((v % 10) as u8),
        ]);
    }
}

/// Fixed-width digit rendering: four digits with leading zeros.
fn append_4_digits(out: &mut String, v: u32)
    requires
        v < 10000,
    ensures
        final(out)@ == old(out)@ + seq![
            dec_digit_char((v / 1000) as u8),
            dec_digit_char((v / 100 % 10) as u8),
            dec_digit_char((v / 10 % 10) as u8),
            dec_digit_char((v % 10) as u8),
        ],
{
    push_char(out, crate::strutil::exec_dec_digit((v / 1000) as u8));
    push_char(out, crate::strutil::exec_dec_digit((v / 100 % 10) as u8));
    push_char(out, crate::strutil::exec_dec_digit((v / 10 % 10) as u8));
    push_char(out, crate::strutil::exec_dec_digit((v % 10) as u8));
    proof {
        assert(out@ =~= old(out)@ + seq![
            dec_digit_char((v / 1000) as u8),
            dec_digit_char((v / 100 % 10) as u8),
            dec_digit_char((v / 10 % 10) as u8),
            dec_digit_char((v % 10) as u8),
        ]);
    }
}

/// A rendered timestamp parses back to the epoch second of its components.
proof fn lemma_format_parses_back(s: Seq<char>, y: int, mo: int, d: int, h: int, mi: int, sec: int)
    requires
        valid_date(y, mo, d),
        0 <= h <= 23,
        0 <= mi <= 59,
        0 <= sec <= 59,
        s =~= seq![
            dec_digit_char((y / 1000) as u8),
            dec_digit_char((y / 100 % 10) as u8),
            dec_digit_char((y / 10 % 10) as u8),
            dec_digit_char((y % 10) as u8),
        ] + seq!['-'] + seq![dec_digit_char((mo / 10) as u8), dec_digit_char((mo % 10) as u8)]
            + seq!['-'] + seq![dec_digit_char((d / 10) as u8), dec_digit_char((d % 10) as u8)]
            + seq!['T'] + seq![dec_digit_char((h / 10) as u8), dec_digit_char((h % 10) as u8)]
            + seq![':'] + seq![dec_digit_char((mi / 10) as u8), dec_digit_char((mi % 10) as u8)]
            + seq![':'] + seq![dec_digit_char((sec / 10) as u8), dec_digit_char((sec % 10) as u8)]
            + seq!['+', '0', '0', ':', '0', '0'],
    ensures
        spec_parse_rfc3339(s) == Some(spec_civil_to_epoch(y, mo, d, h, mi, sec, 0)),
{
    assert(s.len() == 25);
    assert forall|v: u8| v < 10 implies is_dec_digit(dec_digit_char(v)) && dec_digit_value(
        dec_digit_char(v),
    ) == v by {
        let c = (48 + v) as char;
        assert(c as u32 == 48 + v);
    }
    lemma_fixed_digits_roundtrip_4(s.subrange(0, 4), y);
    lemma_fixed_digits_roundtrip_2(s.subrange(5, 7), mo);
    lemma_fixed_digits_roundtrip_2(s.subrange(8, 10), d);
    lemma_fixed_digits_roundtrip_2(s.subrange(11, 13), h);
    lemma_fixed_digits_roundtrip_2(s.subrange(14, 16), mi);
    lemma_fixed_digits_roundtrip_2(s.subrange(17, 19), sec);
    assert(rfc3339_head_ok(s));
    assert(s[19] == '+');
    assert(rfc3339_offset_start(s) == 19);
    let tz = s.skip(19);
    assert(tz =~= seq!['+', '0', '0', ':', '0', '0']);
    assert('0' as u32 == 48);
    assert(spec_parse_offset(tz) == Some(0int));
}

/// A two-character sequence of the digits of `v` denotes `v`.
proof fn lemma_fixed_digits_roundtrip_2(s: Seq<char>, v: int)
    requires
        0 <= v <= 99,
        s =~= seq![dec_digit_char((v / 10) as u8), dec_digit_char((v % 10) as u8)],
    ensures
        all_dec_digits(s),
        digits_value(s) == v,
{
    assert(s.drop_last() =~= seq![dec_digit_char((v / 10) as u8)]);
    assert(s.drop_last().drop_last() =~= Seq::<char>::empty());
    assert(dec_digit_value(dec_digit_char((v / 10) as u8)) == v / 10) by {
        let c = (48 + (v / 10) as u8) as char;
        assert(c as u32 == 48 + (v / 10) as u8);
    }
    assert(dec_digit_value(dec_digit_char((v % 10) as u8)) == v % 10) by {
        let c = (48 + (v % 10) as u8) as char;
        assert(c as u32 == 48 + (v % 10) as u8);
    }
    assert(is_dec_digit(dec_digit_char((v / 10) as u8)) && is_dec_digit(
        dec_digit_char((v % 10) as u8),
    ));
    assert(digits_value(s.drop_last().drop_last()) == 0);
    assert(digits_value(s.drop_last()) == v / 10);
    assert(digits_value(s) == (v / 10) * 10 + v % 10);
}

/// A four-character sequence of the digits of `v` denotes `v`.
proof fn lemma_fixed_digits_roundtrip_4(s: Seq<char>, v: int)
    requires
        0 <= v <= 9999,
        s =~= seq![
            dec_digit_char((v / 1000) as u8),
            dec_digit_char((v / 100 % 10) as u8),
            dec_digit_char((v / 10 % 10) as u8),
            dec_digit_char((v % 10) as u8),
        ],
    ensures
        all_dec_digits(s),
        digits_value(s) == v,
{
    assert forall|w: u8| w < 10 implies is_dec_digit(dec_digit_char(w)) && dec_digit_value(
        dec_digit_char(w),
    ) == w by {
        let c = (48 + w) as char;
        assert(c as u32 == 48 + w);
    }
    assert(s.drop_last() =~= seq![
        dec_digit_char((v / 1000) as u8),
        dec_digit_char((v / 100 % 10) as u8),
        dec_digit_char((v / 10 % 10) as u8),
    ]);
    assert(s.drop_last().drop_last() =~= seq![
        dec_digit_char((v / 1000) as u8),
        dec_digit_char((v / 100 % 10) as u8),
    ]);
    assert(s.drop_last().drop_last().drop_last() =~= seq![dec_digit_char((v / 1000) as u8)]);
    assert(s.drop_last().drop_last().drop_last().drop_last() =~= Seq::<char>::empty());
    assert(digits_value(s.drop_last().drop_last().drop_last().drop_last()) == 0);
    assert(digits_value(s.drop_last().drop_last().drop_last()) == v / 1000);
    assert(digits_value(s.drop_last().drop_last()) == (v / 1000) * 10 + v / 100 % 10);
    assert(digits_value(s.drop_last()) == ((v / 1000) * 10 + v / 100 % 10) * 10 + v / 10 % 10);
    assert(digits_value(s) == (((v / 1000) * 10 + v / 100 % 10) * 10 + v / 10 % 10) * 10 + v % 10);
    assert((((v / 1000) * 10 + v / 100 % 10) * 10 + v / 10 % 10) * 10 + v % 10 == v);
}

/// A rendered timestamp of this library's shape holds only characters
/// below 128.
pub proof fn lemma_rfc3339_text_ascii(s: Seq<char>)
    requires
        spec_parse_rfc3339(s) is Some,
        s.len() == 25,
        s.skip(19) == "+00:00"@,
    ensures
        crate::strutil::all_below_128(s),
{
    reveal_strlit("+00:00");
    assert(rfc3339_head_ok(s));
    assert forall|i: int| 0 <= i < s.len() implies ((s[i]) as u32) < 128 by {
        if i < 4 {
            assert(is_dec_digit(s.subrange(0, 4)[i]) && s.subrange(0, 4)[i] == s[i]);
        } else if i == 4 || i == 7 || i == 13 || i == 16 {
        } else if i < 7 {
            assert(is_dec_digit(s.subrange(5, 7)[i - 5]) && s.subrange(5, 7)[i - 5] == s[i]);
        } else if i < 10 {
            assert(is_dec_digit(s.subrange(8, 10)[i - 8]) && s.subrange(8, 10)[i - 8] == s[i]);
        } else if i == 10 {
        } else if i < 13 {
            assert(is_dec_digit(s.subrange(11, 13)[i - 11]) && s.subrange(11, 13)[i - 11]
                == s[i]);
        } else if i < 16 {
            assert(is_dec_digit(s.subrange(14, 16)[i - 14]) && s.subrange(14, 16)[i - 14]
                == s[i]);
        } else if i < 19 {
            assert(is_dec_digit(s.subrange(17, 19)[i - 17]) && s.subrange(17, 19)[i - 17]
                == s[i]);
        } else {
            assert(s[i] == s.skip(19)[i - 19]);
            assert(s.skip(19)[i - 19] == "+00:00"@[i - 19]);
        }
    }
}

} // verus!
