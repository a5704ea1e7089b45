//! Integer time in flicks.
//!
//! One flick is 1/705 600 000 s. Every common frame rate (24, 25, 30, 48,
//! 50, 60, 90, 100, 120 fps and the 1001-based NTSC variants) and every
//! common audio sample rate (44.1, 48, 96 kHz) divides it exactly, so
//! timeline arithmetic never accumulates rounding error.

use vstd::prelude::*;

use crate::digits::{padded, push_char, push_decimal, push_padded, decimal};

verus! {

/// Number of flicks in one second.
pub const FLICKS_PER_SECOND: i64 = 705_600_000;

/// Number of flicks in one millisecond.
pub const FLICKS_PER_MILLI: i64 = 705_600;

/// A duration or timeline position in flicks.
#[derive(Copy, Clone, Debug, Default, PartialEq, Eq, PartialOrd, Ord, Hash, Structural)]
pub struct Ticks(pub i64);

/// Whether `v` fits into an `i64`.
pub open spec fn fits_i64(v: int) -> bool {
    i64::MIN <= v <= i64::MAX
}

/// `v` clamped into the `i64` range.
pub open spec fn saturate_i64(v: int) -> int {
    if v > i64::MAX {
        i64::MAX as int
    } else if v < i64::MIN {
        i64::MIN as int
    } else {
        v
    }
}

impl Ticks {
    /// Zero duration.
    pub fn zero() -> (t: Ticks)
        ensures
            t.0 == 0,
    {
        Ticks(0)
    }

    /// One second.
    pub fn second() -> (t: Ticks)
        ensures
            t.0 == FLICKS_PER_SECOND,
    {
        Ticks(FLICKS_PER_SECOND)
    }

    /// The largest representable time.
    pub fn max_value() -> (t: Ticks)
        ensures
            t.0 == i64::MAX,
    {
        Ticks(i64::MAX)
    }

    pub fn from_flicks(flicks: i64) -> (t: Ticks)
        ensures
            t.0 == flicks,
    {
        Ticks(flicks)
    }

    pub fn flicks(self) -> (f: i64)
        ensures
            f == self.0,
    {
        self.0
    }

    /// Whole seconds, exact.
    pub fn from_seconds(seconds: i64) -> (t: Ticks)
        requires
            fits_i64(seconds * FLICKS_PER_SECOND),
        ensures
            t.0 == seconds * FLICKS_PER_SECOND,
    {
        Ticks(seconds * FLICKS_PER_SECOND)
    }

    /// Milliseconds, exact (one millisecond is 705 600 flicks).
    pub fn from_millis(millis: i64) -> (t: Ticks)
        requires
            fits_i64(millis * FLICKS_PER_MILLI),
        ensures
            t.0 == millis * FLICKS_PER_MILLI,
    {
        Ticks(millis * FLICKS_PER_MILLI)
    }

    /// Duration of `frames` frames at `rate`, exact.
    pub fn from_frames(frames: i64, rate: FrameRate) -> (t: Ticks)
        requires
            fits_i64(frames * rate.spec_frame_duration()),
        ensures
            t.0 == frames * rate.spec_frame_duration(),
    {
        let d = rate.frame_duration();
        Ticks(frames * d.0)
    }

    /// Number of whole frames at `rate` that fit into this duration
    /// (rounded towards negative infinity).
    pub fn to_frames(self, rate: FrameRate) -> (frames: i64)
        ensures
            frames == self.0 as int / rate.spec_frame_duration(),
    {
        let d = rate.frame_duration().0;
        floor_div(self.0, d)
    }

    /// Duration of `samples` audio samples at `sample_rate` Hz, exact for
    /// 44.1 kHz, 48 kHz and 96 kHz.
    pub fn from_samples(samples: i64, sample_rate: u32) -> (t: Ticks)
        requires
            sample_rate > 0,
            fits_i64(samples * (FLICKS_PER_SECOND as int / sample_rate as int)),
        ensures
            t.0 == samples * (FLICKS_PER_SECOND as int / sample_rate as int),
    {
        let per = FLICKS_PER_SECOND / (sample_rate as i64);
        Ticks(samples * per)
    }

    pub fn is_negative(self) -> (b: bool)
        ensures
            b == (self.0 < 0),
    {
        self.0 < 0
    }

    /// Sum, or `None` on overflow.
    pub fn checked_add(self, rhs: Ticks) -> (r: Option<Ticks>)
        ensures
            r == (if fits_i64(self.0 + rhs.0) {
                Some(Ticks((self.0 + rhs.0) as i64))
            } else {
                None::<Ticks>
            }),
    {
        match self.0.checked_add(rhs.0) {
            Some(v) => Some(Ticks(v)),
            None => None,
        }
    }

    /// Difference, or `None` on overflow.
    pub fn checked_sub(self, rhs: Ticks) -> (r: Option<Ticks>)
        ensures
            r == (if fits_i64(self.0 - rhs.0) {
                Some(Ticks((self.0 - rhs.0) as i64))
            } else {
                None::<Ticks>
            }),
    {
        match self.0.checked_sub(rhs.0) {
            Some(v) => Some(Ticks(v)),
            None => None,
        }
    }

    /// Sum clamped to the representable range.
    pub fn saturating_add(self, rhs: Ticks) -> (r: Ticks)
        ensures
            r.0 == saturate_i64(self.0 + rhs.0),
    {
        match self.0.checked_add(rhs.0) {
            Some(v) => Ticks(v),
            None => if rhs.0 > 0 {
                Ticks(i64::MAX)
            } else {
                Ticks(i64::MIN)
            },
        }
    }

    /// Difference clamped to the representable range.
    pub fn saturating_sub(self, rhs: Ticks) -> (r: Ticks)
        ensures
            r.0 == saturate_i64(self.0 - rhs.0),
    {
        match self.0.checked_sub(rhs.0) {
            Some(v) => Ticks(v),
            None => if rhs.0 < 0 {
                Ticks(i64::MAX)
            } else {
                Ticks(i64::MIN)
            },
        }
    }

    pub fn min(self, other: Ticks) -> (r: Ticks)
        ensures
            r.0 == (if self.0 <= other.0 { self.0 } else { other.0 }),
    {
        if self.0 <= other.0 {
            self
        } else {
            other
        }
    }

    pub fn max(self, other: Ticks) -> (r: Ticks)
        ensures
            r.0 == (if self.0 >= other.0 { self.0 } else { other.0 }),
    {
        if self.0 >= other.0 {
            self
        } else {
            other
        }
    }

    /// `self` restricted to `lo..=hi`.
    pub fn clamp(self, lo: Ticks, hi: Ticks) -> (r: Ticks)
        requires
            lo.0 <= hi.0,
        ensures
            r.0 == (if self.0 < lo.0 {
                lo.0
            } else if self.0 > hi.0 {
                hi.0
            } else {
                self.0
            }),
    {
        if self.0 < lo.0 {
            lo
        } else if self.0 > hi.0 {
            hi
        } else {
            self
        }
    }

    /// Sum; the caller keeps it in range.
    pub fn plus(self, rhs: Ticks) -> (r: Ticks)
        requires
            fits_i64(self.0 + rhs.0),
        ensures
            r.0 == self.0 + rhs.0,
    {
        Ticks(self.0 + rhs.0)
    }

    /// Difference; the caller keeps it in range.
    pub fn minus(self, rhs: Ticks) -> (r: Ticks)
        requires
            fits_i64(self.0 - rhs.0),
        ensures
            r.0 == self.0 - rhs.0,
    {
        Ticks(self.0 - rhs.0)
    }

    /// Product with an integer; the caller keeps it in range.
    pub fn times(self, rhs: i64) -> (r: Ticks)
        requires
            fits_i64(self.0 * rhs),
        ensures
            r.0 == self.0 * rhs,
    {
        Ticks(self.0 * rhs)
    }

    /// Quotient by an integer, rounded towards zero as Rust's `/` does.
    pub fn div_by(self, rhs: i64) -> (r: Ticks)
        requires
            rhs != 0,
            !(self.0 == i64::MIN && rhs == -1),
        ensures
            r.0 == trunc_div(self.0 as int, rhs as int),
    {
        Ticks(truncating_div(self.0, rhs))
    }

    /// `h:mm:ss.mmm`, with a leading `-` for negative times.
    pub fn to_timecode(self) -> (s: String)
        requires
            self.0 != i64::MIN,
        ensures
            s@ == timecode(self.0 as int),
    {
        let mut s = String::new();
        let abs: u64 = if self.0 < 0 {
            push_char(&mut s, '-');
            (-self.0) as u64
        } else {
            self.0 as u64
        };
        let total_ms = abs / 705_600;
        let ms = total_ms % 1000;
        let sec = (total_ms / 1000) % 60;
        let m = (total_ms / 60_000) % 60;
        let h = total_ms / 3_600_000;
        push_decimal(&mut s, h);
        push_char(&mut s, ':');
        push_padded(&mut s, m, 2);
        push_char(&mut s, ':');
        push_padded(&mut s, sec, 2);
        push_char(&mut s, '.');
        push_padded(&mut s, ms, 3);
        proof {
            let sign = if self.0 < 0 { seq!['-'] } else { Seq::<char>::empty() };
            assert(s@ =~= sign + decimal(h as nat) + seq![':'] + padded(m as nat, 2) + seq![':']
                + padded(sec as nat, 2) + seq!['.'] + padded(ms as nat, 3));
        }
        s
    }
}

/// Rust's truncating integer division.
pub open spec fn trunc_div(a: int, b: int) -> int {
    if a == 0 {
        0
    } else if a > 0 && b > 0 {
        a / b
    } else if a < 0 && b < 0 {
        (-a) / (-b)
    } else if a < 0 {
        -((-a) / b)
    } else {
        -(a / (-b))
    }
}

proof fn lemma_div_le(x: int, d: int)
    requires
        x >= 0,
        d >= 1,
    ensures
        0 <= x / d <= x,
{
    assert(0 <= x / d <= x) by (nonlinear_arith)
        requires
            x >= 0,
            d >= 1,
    ;
}

/// The timecode text of a time in flicks.
pub open spec fn timecode(flicks: int) -> Seq<char> {
    let abs = if flicks < 0 { -flicks } else { flicks };
    let total_ms = abs / 705_600;
    let sign = if flicks < 0 { seq!['-'] } else { Seq::<char>::empty() };
    sign + decimal((total_ms / 3_600_000) as nat) + seq![':'] + padded(((total_ms / 60_000) % 60) as nat, 2)
        + seq![':'] + padded(((total_ms / 1000) % 60) as nat, 2) + seq!['.'] + padded((total_ms % 1000) as nat, 3)
}

/// Floor division for a positive divisor.
pub fn floor_div(a: i64, d: i64) -> (q: i64)
    requires
        d > 0,
    ensures
        q == a / d,
{
    if a >= 0 {
        let q = (a as u64 / d as u64) as i64;
        proof {
            assert(q == a / d);
        }
        q
    } else {
        let na: u64 = (-(a + 1)) as u64;
        let t = (na / d as u64) as i64;
        proof {
            lemma_floor_div_negative(a as int, d as int, t as int);
        }
        -t - 1
    }
}

proof fn lemma_floor_div_negative(a: int, d: int, t: int)
    requires
        a < 0,
        d > 0,
        t == (-(a + 1)) / d,
    ensures
        -t - 1 == a / d,
{
    let n = -(a + 1);
    assert(n >= 0);
    let r = n % d;
    assert(n == d * t + r) by (nonlinear_arith)
        requires
            t == n / d,
            r == n % d,
            d > 0,
    ;
    assert(0 <= r < d);
    // a = -(n + 1) = d * (-t - 1) + (d - 1 - r)
    assert(a == d * (-t - 1) + (d - 1 - r)) by (nonlinear_arith)
        requires
            n == d * t + r,
            a == -(n + 1),
    ;
    assert(0 <= d - 1 - r < d);
    vstd::arithmetic::div_mod::lemma_fundamental_div_mod_converse(a, d, -t - 1, d - 1 - r);
}

/// Rust's truncating `/` for `i64`.
pub fn truncating_div(a: i64, b: i64) -> (q: i64)
    requires
        b != 0,
        !(a == i64::MIN && b == -1),
    ensures
        q == trunc_div(a as int, b as int),
{
    proof {
        let x = a as int;
        let d = b as int;
        if x > 0 && d > 0 {
            lemma_div_le(x, d);
        } else if x < 0 && d < 0 {
            lemma_div_le(-x, -d);
            if d == -1 {
                assert(-x <= i64::MAX);
            } else {
                assert((-x) / (-d) <= (-x) / 2) by (nonlinear_arith)
                    requires
                        -x >= 0,
                        -d >= 2,
                ;
                lemma_div_le(-x, 2);
            }
        } else if x < 0 {
            lemma_div_le(-x, d);
        } else if x > 0 {
            lemma_div_le(x, -d);
        }
    }
    match a.checked_div(b) {
        Some(q) => q,
        None => 0,
    }
}

/// A frame rate as an exact rational `num / den` frames per second.
#[derive(Copy, Clone, Debug, PartialEq, Eq, Hash)]
pub struct FrameRate {
    num: u32,
    den: u32,
}

/// Whether `num / den` is a usable frame rate: both parts positive and one
/// frame lasts a whole number of flicks.
pub open spec fn valid_rate(num: int, den: int) -> bool {
    &&& num > 0
    &&& den > 0
    &&& (FLICKS_PER_SECOND * den) % num == 0
}

impl FrameRate {
    #[verifier::type_invariant]
    spec fn inv(self) -> bool {
        valid_rate(self.num as int, self.den as int)
    }

    pub closed spec fn spec_num(self) -> int {
        self.num as int
    }

    pub closed spec fn spec_den(self) -> int {
        self.den as int
    }

    /// Exact duration of a single frame, in flicks.
    pub open spec fn spec_frame_duration(self) -> int {
        FLICKS_PER_SECOND * self.spec_den() / self.spec_num()
    }

    /// Builds a frame rate. Returns `None` if either part is zero or a
    /// frame would not last a whole number of flicks.
    pub fn new(num: u32, den: u32) -> (r: Option<FrameRate>)
        ensures
            r is Some <==> valid_rate(num as int, den as int),
            r matches Some(f) ==> f.spec_num() == num && f.spec_den() == den,
    {
        if num == 0 || den == 0 {
            return None;
        }
        if (FLICKS_PER_SECOND * (den as i64)) % (num as i64) != 0 {
            return None;
        }
        Some(FrameRate { num, den })
    }

    pub fn numerator(self) -> (n: u32)
        ensures
            n == self.spec_num(),
            n > 0,
    {
        proof {
            use_type_invariant(&self);
        }
        self.num
    }

    pub fn denominator(self) -> (d: u32)
        ensures
            d == self.spec_den(),
            d > 0,
    {
        proof {
            use_type_invariant(&self);
        }
        self.den
    }

    /// Exact duration of a single frame.
    pub fn frame_duration(self) -> (t: Ticks)
        ensures
            t.0 == self.spec_frame_duration(),
            t.0 > 0,
    {
        proof {
            use_type_invariant(self);
            lemma_frame_duration_positive(self.num as int, self.den as int);
        }
        Ticks(FLICKS_PER_SECOND * (self.den as i64) / (self.num as i64))
    }

    pub fn fps_24() -> (f: FrameRate)
        ensures
            f.spec_num() == 24 && f.spec_den() == 1,
    {
        FrameRate { num: 24, den: 1 }
    }

    pub fn fps_23_976() -> (f: FrameRate)
        ensures
            f.spec_num() == 24_000 && f.spec_den() == 1001,
    {
        FrameRate { num: 24_000, den: 1001 }
    }

    pub fn fps_25() -> (f: FrameRate)
        ensures
            f.spec_num() == 25 && f.spec_den() == 1,
    {
        FrameRate { num: 25, den: 1 }
    }

    pub fn fps_30() -> (f: FrameRate)
        ensures
            f.spec_num() == 30 && f.spec_den() == 1,
    {
        FrameRate { num: 30, den: 1 }
    }

    pub fn fps_29_97() -> (f: FrameRate)
        ensures
            f.spec_num() == 30_000 && f.spec_den() == 1001,
    {
        FrameRate { num: 30_000, den: 1001 }
    }

    pub fn fps_50() -> (f: FrameRate)
        ensures
            f.spec_num() == 50 && f.spec_den() == 1,
    {
        FrameRate { num: 50, den: 1 }
    }

    pub fn fps_60() -> (f: FrameRate)
        ensures
            f.spec_num() == 60 && f.spec_den() == 1,
    {
        FrameRate { num: 60, den: 1 }
    }

    pub fn fps_59_94() -> (f: FrameRate)
        ensures
            f.spec_num() == 60_000 && f.spec_den() == 1001,
    {
        FrameRate { num: 60_000, den: 1001 }
    }

    /// Frame rates offered in the project settings, in display order.
    pub fn selectable() -> (v: Vec<FrameRate>)
        ensures
            v@.len() == 4,
            v@[0].spec_num() == 24 && v@[0].spec_den() == 1,
            v@[1].spec_num() == 25 && v@[1].spec_den() == 1,
            v@[2].spec_num() == 30 && v@[2].spec_den() == 1,
            v@[3].spec_num() == 60 && v@[3].spec_den() == 1,
    {
        vec![Self::fps_24(), Self::fps_25(), Self::fps_30(), Self::fps_60()]
    }

    /// The default project rate, 30 fps.
    pub fn default_rate() -> (f: FrameRate)
        ensures
            f.spec_num() == 30 && f.spec_den() == 1,
    {
        Self::fps_30()
    }

    /// Whether the rate is above 40 frames per second.
    pub fn is_high(self) -> (b: bool)
        ensures
            b == (self.spec_num() > 40 * self.spec_den()),
    {
        (self.num as u64) > 40 * (self.den as u64)
    }
}

/// Counting the frames of a whole number of frames gives that number back,
/// and a remainder shorter than a frame does not count: `to_frames` undoes
/// `from_frames` and rounds down.
pub proof fn law_frames_round_trip(frames: int, extra: int, rate: FrameRate)
    requires
        valid_rate(rate.spec_num(), rate.spec_den()),
        rate.spec_num() <= u32::MAX,
        rate.spec_den() <= u32::MAX,
        0 <= extra < rate.spec_frame_duration(),
    ensures
        (frames * rate.spec_frame_duration()) / rate.spec_frame_duration() == frames,
        (frames * rate.spec_frame_duration() + extra) / rate.spec_frame_duration() == frames,
{
    lemma_frame_duration_positive(rate.spec_num(), rate.spec_den());
    let d = rate.spec_frame_duration();
    assert((frames * d + extra) / d == frames) by (nonlinear_arith)
        requires
            d > 0,
            0 <= extra < d,
    ;
    assert((frames * d) / d == frames) by (nonlinear_arith)
        requires
            d > 0,
    ;
}

proof fn lemma_frame_duration_positive(num: int, den: int)
    requires
        valid_rate(num, den),
        num <= u32::MAX,
        den <= u32::MAX,
    ensures
        FLICKS_PER_SECOND * den / num > 0,
        FLICKS_PER_SECOND * den / num <= FLICKS_PER_SECOND * den,
        FLICKS_PER_SECOND * den <= i64::MAX,
{
    let p = FLICKS_PER_SECOND * den;
    assert(p <= 705_600_000 * 4_294_967_295) by (nonlinear_arith)
        requires
            p == 705_600_000 * den,
            den <= 4_294_967_295,
    ;
    assert(p > 0) by (nonlinear_arith)
        requires
            p == 705_600_000 * den,
            den > 0,
    ;
    // p is a positive multiple of num, so p / num >= 1.
    let q = p / num;
    assert(p == num * q) by (nonlinear_arith)
        requires
            p % num == 0,
            q == p / num,
            num > 0,
    ;
    assert(q > 0) by (nonlinear_arith)
        requires
            p == num * q,
            p > 0,
            num > 0,
    ;
    assert(q <= p) by (nonlinear_arith)
        requires
            p == num * q,
            q > 0,
            num >= 1,
    ;
}

} // verus!
