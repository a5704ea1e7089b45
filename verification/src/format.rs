//! Display formatting of durations, dates and sizes.

use vstd::prelude::*;

use crate::digits::{decimal, padded, push_char, push_decimal, push_padded, push_str};
use crate::time::{floor_div, trunc_div, truncating_div, Ticks};

verus! {

/// Flicks in a second.
pub open spec fn flicks_per_second() -> int {
    705_600_000
}

/// Whole seconds of a time, rounded half away from zero, and never below
/// zero.
pub open spec fn rounded_seconds(flicks: int) -> int {
    if flicks <= 0 {
        0
    } else {
        (flicks + flicks_per_second() / 2) / flicks_per_second()
    }
}

/// `m:ss` or `h:mm:ss` for a number of seconds.
pub open spec fn clock_text(total: nat) -> Seq<char> {
    let h = total / 3600;
    let m = (total / 60) % 60;
    let s = total % 60;
    if h > 0 {
        decimal(h) + ":"@ + padded(m, 2) + ":"@ + padded(s, 2)
    } else {
        decimal(m) + ":"@ + padded(s, 2)
    }
}

/// `m:ss` or `h:mm:ss`, rounded to whole seconds.
pub fn duration(t: Ticks) -> (s: String)
    ensures
        s@ == clock_text(rounded_seconds(t.0 as int) as nat),
{
    let total: u64 = if t.0 <= 0 {
        0
    } else {
        ((t.0 as u64) + 352_800_000) / 705_600_000
    };
    let h = total / 3600;
    let m = (total / 60) % 60;
    let sec = total % 60;
    let mut s = String::new();
    if h > 0 {
        push_decimal(&mut s, h);
        push_str(&mut s, ":");
        push_padded(&mut s, m, 2);
        push_str(&mut s, ":");
        push_padded(&mut s, sec, 2);
    } else {
        push_decimal(&mut s, m);
        push_str(&mut s, ":");
        push_padded(&mut s, sec, 2);
    }
    proof {
        assert(s@ =~= clock_text(rounded_seconds(t.0 as int) as nat));
    }
    s
}

/// Year, month (1–12) and day of the day `z` days after 1970-01-01, by
/// Howard Hinnant's `civil_from_days`.
pub open spec fn civil(z: int) -> (int, int, int) {
    let z = z + 719_468;
    let era = trunc_div(if z >= 0 { z } else { z - 146_096 }, 146_097);
    let doe = z - era * 146_097;
    let yoe = (doe - doe / 1460 + doe / 36_524 - doe / 146_096) / 365;
    let y = yoe + era * 400;
    let doy = doe - (365 * yoe + yoe / 4 - yoe / 100);
    let mp = (5 * doy + 2) / 153;
    let d = doy - (153 * mp + 2) / 5 + 1;
    let m = if mp < 10 { mp + 3 } else { mp - 9 };
    (if m <= 2 { y + 1 } else { y }, m, d)
}

/// A bound on day numbers far beyond any clock (±2^40 days).
pub open spec fn day_in_range(z: int) -> bool {
    -0x100_0000_0000 <= z <= 0x100_0000_0000
}

proof fn lemma_civil_ranges(z: int)
    requires
        day_in_range(z),
    ensures
        1 <= civil(z).1 <= 12,
        1 <= civil(z).2 <= 31,
        -0x100_0000_0000 <= civil(z).0 <= 0x100_0000_0000,
{
    let z1 = z + 719_468;
    let era = trunc_div(if z1 >= 0 { z1 } else { z1 - 146_096 }, 146_097);
    assert(z1 - 146_097 < era * 146_097 <= z1) by (nonlinear_arith)
        requires
            era == trunc_div(if z1 >= 0 { z1 } else { z1 - 146_096 }, 146_097),
            z1 >= 0 ==> era == z1 / 146_097,
            z1 < 0 ==> era == -((146_096 - z1) / 146_097),
    ;
    let doe = z1 - era * 146_097;
    assert(0 <= doe < 146_097);
    let yoe = (doe - doe / 1460 + doe / 36_524 - doe / 146_096) / 365;
    assert(0 <= yoe <= 399);
    let doy = doe - (365 * yoe + yoe / 4 - yoe / 100);
    assert(0 <= doy <= 365);
    let mp = (5 * doy + 2) / 153;
    assert(0 <= mp <= 11);
    let d = doy - (153 * mp + 2) / 5 + 1;
    assert(1 <= d <= 31);
    assert(-7_600_000 <= era <= 7_600_000);
}

fn civil_from_days(z: i64) -> (r: (i64, u32, u32))
    requires
        day_in_range(z as int),
    ensures
        (r.0 as int, r.1 as int, r.2 as int) == civil(z as int),
        1 <= r.1 <= 12,
        1 <= r.2 <= 31,
        day_in_range(r.0 as int),
{
    proof {
        lemma_civil_ranges(z as int);
    }
    let z = z + 719_468;
    let era = truncating_div(if z >= 0 { z } else { z - 146_096 }, 146_097);
    let doe = z - era * 146_097;
    let yoe = (doe - doe / 1460 + doe / 36_524 - doe / 146_096) / 365;
    let y = yoe + era * 400;
    let doy = doe - (365 * yoe + yoe / 4 - yoe / 100);
    let mp = (5 * doy + 2) / 153;
    let d = (doy - (153 * mp + 2) / 5 + 1) as u32;
    let m = (if mp < 10 { mp + 3 } else { mp - 9 }) as u32;
    (if m <= 2 { y + 1 } else { y }, m, d)
}

/// A year as `{:04}` writes it: at least four characters, a minus sign
/// counting as one.
pub open spec fn year_text(y: int) -> Seq<char> {
    if y < 0 {
        "-"@ + padded((-y) as nat, 3)
    } else {
        padded(y as nat, 4)
    }
}

/// `2024-05-01 10:00` for a time in milliseconds since 1970, in UTC.
pub open spec fn date_time_text(unix_ms: int) -> Seq<char> {
    let secs = unix_ms / 1000;
    let days = secs / 86_400;
    let rem = secs % 86_400;
    let (y, m, d) = civil(days);
    year_text(y) + "-"@ + padded(m as nat, 2) + "-"@ + padded(d as nat, 2) + " "@
        + padded((rem / 3600) as nat, 2) + ":"@ + padded(((rem / 60) % 60) as nat, 2)
}

/// `2024-05-01 10:00` in UTC. Locale-aware formatting is a later step.
pub fn date_time_utc(unix_ms: i64) -> (s: String)
    ensures
        s@ == date_time_text(unix_ms as int),
{
    let secs = floor_div(unix_ms, 1000);
    let days = floor_div(secs, 86_400);
    let rem = secs - days * 86_400;
    proof {
        assert(rem == (secs as int) % 86_400);
    }
    let (y, m, d) = civil_from_days(days);
    let mut s = String::new();
    if y < 0 {
        push_char(&mut s, '-');
        push_padded(&mut s, (-y) as u64, 3);
    } else {
        push_padded(&mut s, y as u64, 4);
    }
    proof {
        reveal_strlit("-");
        assert(s@ =~= year_text(y as int));
        assert(days as int == (unix_ms as int / 1000) / 86_400);
    }
    let ghost year = s@;
    push_str(&mut s, "-");
    push_padded(&mut s, m as u64, 2);
    push_str(&mut s, "-");
    push_padded(&mut s, d as u64, 2);
    push_str(&mut s, " ");
    push_padded(&mut s, (rem / 3600) as u64, 2);
    push_str(&mut s, ":");
    push_padded(&mut s, ((rem / 60) % 60) as u64, 2);
    proof {
        let civ = civil(days as int);
        assert(y as int == civ.0 && m as int == civ.1 && d as int == civ.2);
        assert(s@ =~= year + "-"@ + padded(m as nat, 2) + "-"@ + padded(d as nat, 2) + " "@
            + padded((rem / 3600) as nat, 2) + ":"@ + padded(((rem / 60) % 60) as nat, 2));
        assert(s@ =~= date_time_text(unix_ms as int));
    }
    s
}

/// Day, month (1–12) and year of a capture time, for date captions. UTC,
/// like the rest of the capture times.
pub fn civil_date(unix_ms: i64) -> (r: (u32, u32, i64))
    ensures
        (r.2 as int, r.1 as int, r.0 as int) == civil((unix_ms as int / 1000) / 86_400),
{
    let (y, m, d) = civil_from_days(floor_div(floor_div(unix_ms, 1000), 86_400));
    (d, m, y)
}

/// `4032 × 3024`.
pub fn dimensions(w: u32, h: u32) -> (s: String)
    ensures
        s@ == decimal(w as nat) + " × "@ + decimal(h as nat),
{
    let mut s = String::new();
    push_decimal(&mut s, w as u64);
    push_str(&mut s, " × ");
    push_decimal(&mut s, h as u64);
    s
}

} // verus!
