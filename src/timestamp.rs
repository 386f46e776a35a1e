//! Points in time, held as seconds and nanoseconds since the Unix epoch in UTC.
use chrono::TimeZone;
use vstd::arithmetic::div_mod::*;
use vstd::prelude::*;

use crate::types::Float;

verus! {

/// The earliest representable second: -262143-01-01T00:00:00Z.
pub const MIN_SECS: i64 = -8_334_601_228_800;

/// The latest representable second: +262142-12-31T23:59:59Z.
pub const MAX_SECS: i64 = 8_210_266_876_799;

pub const NANOS_PER_SEC: u32 = 1_000_000_000;

/// Whether a count of nanoseconds since the epoch lies in the representable range.
pub open spec fn in_range(nanos: int) -> bool {
    MIN_SECS * NANOS_PER_SEC <= nanos < (MAX_SECS + 1) * NANOS_PER_SEC
}

/// What chrono makes of a string read as a date and time without offset, taken as UTC:
/// seconds since the epoch and nanoseconds of the second.
pub uninterp spec fn naive_datetime_of(s: Seq<char>) -> Option<(i64, u32)>;

/// What chrono makes of a string read as a date and time with offset, converted to UTC:
/// seconds and nanoseconds as above, or the text of the parse error.
pub uninterp spec fn utc_datetime_of(s: Seq<char>) -> Result<(i64, u32), Seq<char>>;

/// Relies on `TimeZone::timestamp_opt` of `chrono::Utc`: for nanoseconds below one second it
/// gives a single date and time exactly when the second lies between the earliest and
/// latest representable day, and that date and time reads back as the same two numbers.
#[verifier::external_body]
fn utc_timestamp_opt(secs: i64, nanos: u32) -> (r: Option<(i64, u32)>)
    requires
        nanos < NANOS_PER_SEC,
    ensures
        r is Some <==> MIN_SECS <= secs <= MAX_SECS,
        r matches Some(p) ==> p == (secs, nanos),
{
    chrono::Utc.timestamp_opt(secs, nanos).single().map(
        |dt| (dt.timestamp(), dt.timestamp_subsec_nanos()),
    )
}

/// Relies on `<chrono::NaiveDateTime as FromStr>::from_str`, read as UTC.
#[verifier::external_body]
fn parse_naive_datetime(s: &str) -> (r: Option<(i64, u32)>)
    ensures
        r == naive_datetime_of(s@),
{
    s.parse::<chrono::NaiveDateTime>().ok().map(
        |dt| (dt.and_utc().timestamp(), dt.and_utc().timestamp_subsec_nanos()),
    )
}

/// Relies on `<chrono::DateTime<Utc> as FromStr>::from_str` and on the `Display` text of its
/// `ParseError`.
#[verifier::external_body]
fn parse_utc_datetime(s: &str) -> (r: Result<(i64, u32), String>)
    ensures
        match r {
            Ok(p) => utc_datetime_of(s@) == Ok::<(i64, u32), Seq<char>>(p),
            Err(e) => utc_datetime_of(s@) == Err::<(i64, u32), Seq<char>>(e@),
        },
{
    s.parse::<chrono::DateTime<chrono::Utc>>().map(
        |dt| (dt.timestamp(), dt.timestamp_subsec_nanos()),
    ).map_err(|e| e.to_string())
}

/// A point in time in UTC with nanosecond precision.
#[derive(Debug, Clone, Copy, PartialEq, Eq, Structural, Hash)]
pub struct Timestamp {
    secs: i64,
    nanos: u32,
}

impl View for Timestamp {
    /// Nanoseconds since 1970-01-01T00:00:00Z.
    type V = int;

    closed spec fn view(&self) -> int {
        self.secs * NANOS_PER_SEC + self.nanos
    }
}

/// `10^n`.
pub open spec fn pow10(n: nat) -> nat
    decreases n,
{
    if n == 0 {
        1
    } else {
        10 * pow10((n - 1) as nat)
    }
}

proof fn lemma_pow10_positive(n: nat)
    ensures
        pow10(n) >= 1,
    decreases n,
{
    if n > 0 {
        lemma_pow10_positive((n - 1) as nat);
    }
}

proof fn lemma_pow10_monotonic(a: nat, b: nat)
    requires
        a <= b,
    ensures
        pow10(a) <= pow10(b),
    decreases b,
{
    if a < b {
        lemma_pow10_monotonic(a, (b - 1) as nat);
        lemma_pow10_positive((b - 1) as nat);
    }
}

/// The number as a fraction: the numerator.
pub open spec fn float_numerator(f: Float) -> int {
    if f.exponent >= 0 {
        f.significand * pow10(f.exponent as nat)
    } else {
        f.significand as int
    }
}

/// The number as a fraction: the denominator.
pub open spec fn float_denominator(f: Float) -> nat {
    if f.exponent >= 0 {
        1
    } else {
        pow10((-f.exponent) as nat)
    }
}

/// The whole part of the number, rounded toward zero.
pub open spec fn float_whole(f: Float) -> int {
    let n = float_numerator(f);
    let d = float_denominator(f) as int;
    if n >= 0 {
        n / d
    } else {
        -((-n) / d)
    }
}

/// The denominator of a number is positive.
pub proof fn lemma_denominator_positive(f: Float)
    ensures
        float_denominator(f) >= 1,
{
    if f.exponent < 0 {
        lemma_pow10_positive((-f.exponent) as nat);
    }
}

/// Whole microseconds of the fractional part, rounded toward zero: negative for a negative
/// number with a fraction.
pub open spec fn float_micros(f: Float) -> int {
    let n = float_numerator(f);
    let d = float_denominator(f) as int;
    if n >= 0 {
        (n % d) * 1_000_000 / d
    } else {
        -((((-n) % d) * 1_000_000) / d)
    }
}

/// The number as nanoseconds, truncated toward zero to whole microseconds.
pub open spec fn float_nanos(f: Float) -> int {
    float_whole(f) * NANOS_PER_SEC + float_micros(f) * 1000
}

/// The fractional microseconds lie strictly between minus and plus one million.
pub proof fn lemma_float_micros_bounded(f: Float)
    ensures
        -1_000_000 < float_micros(f) < 1_000_000,
{
    let n = float_numerator(f);
    let d = float_denominator(f) as int;
    lemma_denominator_positive(f);
    let a = if n >= 0 { n } else { -n };
    let x = (a % d) * 1_000_000;
    lemma_fundamental_div_mod(x, d);
    lemma_mod_pos_bound(a, d);
    let m = x / d;
    assert(0 <= m < 1_000_000) by (nonlinear_arith)
        requires
            x == d * m + x % d,
            0 <= x % d < d,
            0 <= a % d < d,
            x == (a % d) * 1_000_000,
            d > 0,
    ;
}

/// A whole number of seconds is representable exactly when it lies between the bounds.
pub proof fn lemma_whole_seconds_in_range(w: int)
    ensures
        in_range(w * NANOS_PER_SEC) <==> MIN_SECS <= w <= MAX_SECS,
{
    assert(in_range(w * 1_000_000_000) <==> MIN_SECS <= w <= MAX_SECS) by (nonlinear_arith)
        requires
            MIN_SECS == -8_334_601_228_800,
            MAX_SECS == 8_210_266_876_799,
    ;
}

proof fn lemma_pow10_38()
    ensures
        pow10(38) == 100_000_000_000_000_000_000_000_000_000_000_000_000,
{
    reveal_with_fuel(pow10, 40);
}

/// `10^n` for exponents whose power fits.
fn pow10_u128(n: u32) -> (r: u128)
    requires
        n <= 38,
    ensures
        r == pow10(n as nat),
{
    let mut r: u128 = 1;
    let mut i: u32 = 0;
    while i < n
        invariant
            i <= n <= 38,
            r == pow10(i as nat),
        decreases n - i,
    {
        proof {
            lemma_pow10_monotonic((i + 1) as nat, 38);
            lemma_pow10_38();
        }
        r = r * 10;
        i = i + 1;
    }
    r
}

impl Timestamp {
    #[verifier::type_invariant]
    spec fn inv(self) -> bool {
        MIN_SECS <= self.secs <= MAX_SECS && self.nanos < NANOS_PER_SEC
    }

    /// The point `secs` seconds and `nanos` nanoseconds after the epoch, if representable.
    pub fn from_unix(secs: i64, nanos: u32) -> (r: Option<Timestamp>)
        ensures
            r is Some <==> in_range(secs * NANOS_PER_SEC + nanos),
            r matches Some(t) ==> t@ == secs * NANOS_PER_SEC + nanos,
    {
        let carry: u32 = nanos / NANOS_PER_SEC;
        let rest: u32 = nanos % NANOS_PER_SEC;
        let secs = match secs.checked_add(carry as i64) {
            Some(s) => s,
            None => {
                return None;
            },
        };
        proof {
            assert(nanos == carry * NANOS_PER_SEC + rest);
        }
        match utc_timestamp_opt(secs, rest) {
            Some((s, n)) => Some(Timestamp { secs: s, nanos: n }),
            None => None,
        }
    }

    /// The point `nanos` nanoseconds after the epoch, if representable.
    pub fn from_nanos(nanos: i128) -> (r: Option<Timestamp>)
        ensures
            r is Some <==> in_range(nanos as int),
            r matches Some(t) ==> t@ == nanos,
    {
        let low: i128 = -8_334_601_228_800_000_000_000;
        let high: i128 = 8_210_266_876_800_000_000_000;
        assert(low == MIN_SECS * NANOS_PER_SEC);
        assert(high == (MAX_SECS + 1) * NANOS_PER_SEC);
        if nanos < low || nanos >= high {
            return None;
        }
        let shifted: u128 = (nanos - low) as u128;
        let q: u128 = shifted / NANOS_PER_SEC as u128;
        let rem: u128 = shifted % NANOS_PER_SEC as u128;
        proof {
            lemma_fundamental_div_mod(shifted as int, NANOS_PER_SEC as int);
            assert(shifted == q * NANOS_PER_SEC + rem);
            assert(q <= (MAX_SECS - MIN_SECS) as int) by (nonlinear_arith)
                requires
                    shifted == q * 1_000_000_000 + rem,
                    0 <= rem,
                    shifted < (MAX_SECS + 1 - MIN_SECS) * 1_000_000_000,
            ;
        }
        let secs: i64 = (q as i64) + MIN_SECS;
        Self::from_unix(secs, rem as u32)
    }

    /// Seconds since the epoch.
    pub fn timestamp(&self) -> (r: i64)
        ensures
            MIN_SECS <= r <= MAX_SECS,
            r == self@ / NANOS_PER_SEC as int,
    {
        proof {
            use_type_invariant(self);
        }
        self.secs
    }

    /// Nanoseconds past the last whole second.
    pub fn timestamp_subsec_nanos(&self) -> (r: u32)
        ensures
            r < NANOS_PER_SEC,
            r == self@ % NANOS_PER_SEC as int,
    {
        proof {
            use_type_invariant(self);
        }
        self.nanos
    }

    /// Nanoseconds since the epoch.
    pub fn nanos_since_epoch(&self) -> (r: i128)
        ensures
            r == self@,
            in_range(r as int),
    {
        proof {
            use_type_invariant(self);
            let s = self.secs as int;
            assert(-8_334_601_228_800_000_000_000 <= s * 1_000_000_000 <= 8_210_266_876_799_000_000_000)
                by (nonlinear_arith)
                requires
                    -8_334_601_228_800 <= s <= 8_210_266_876_799,
            ;
        }
        self.secs as i128 * NANOS_PER_SEC as i128 + self.nanos as i128
    }

    /// The nanoseconds from `earlier` to this point; negative when `earlier` lies after it.
    pub fn signed_nanos_since(&self, earlier: &Timestamp) -> (r: i128)
        ensures
            r == self@ - earlier@,
    {
        self.nanos_since_epoch() - earlier.nanos_since_epoch()
    }

    /// The point `d` nanoseconds earlier, if representable.
    pub fn checked_sub_nanos(&self, d: i128) -> (r: Option<Timestamp>)
        ensures
            r is Some <==> in_range(self@ - d),
            r matches Some(t) ==> t@ == self@ - d,
    {
        let n = self.nanos_since_epoch();
        match n.checked_sub(d) {
            Some(x) => Self::from_nanos(x),
            None => None,
        }
    }

    /// Reads a date and time: first as one without offset, taken as UTC; failing that, as one
    /// with an offset. The error is the text of the second attempt's failure.
    pub fn parse(s: &str) -> (r: Result<Timestamp, String>)
        ensures
            match datetime_text_result(s@) {
                Ok(n) => r matches Ok(t) && t@ == n,
                Err(m) => r matches Err(e) && e@ == m,
            },
    {
        let (secs, nanos) = match parse_naive_datetime(s) {
            Some(p) => p,
            None => match parse_utc_datetime(s) {
                Ok(p) => p,
                Err(e) => {
                    return Err(e);
                },
            },
        };
        match Self::from_unix(secs, nanos) {
            Some(t) => Ok(t),
            None => Err(out_of_range_error()),
        }
    }

    /// The point that a number of seconds since the epoch denotes, truncated toward zero to
    /// whole microseconds.
    pub fn from_float(f: Float) -> (r: Option<Timestamp>)
        ensures
            r is Some <==> in_range(float_nanos(f)),
            r matches Some(t) ==> t@ == float_nanos(f),
    {
        let sig = f.significand;
        let mag: u128 = if sig < 0 {
            (-(sig as i128)) as u128
        } else {
            sig as u128
        };
        proof {
            assert(mag <= 9_223_372_036_854_775_808);
        }
        if f.exponent >= 0 {
            if sig == 0 {
                proof {
                    lemma_pow10_positive(f.exponent as nat);
                    assert(float_numerator(f) == 0);
                    assert(float_nanos(f) == 0);
                }
                return Self::from_unix(0, 0);
            }
            if f.exponent > 13 {
                proof {
                    lemma_pow10_monotonic(14, f.exponent as nat);
                    assert(pow10(14) == 100_000_000_000_000) by {
                reveal_with_fuel(pow10, 40);
            }
                    let p = pow10(f.exponent as nat) as int;
                    if sig > 0 {
                        assert(sig * p >= p) by (nonlinear_arith)
                            requires sig >= 1, p >= 1;
                    } else {
                        assert(sig * p <= -p) by (nonlinear_arith)
                            requires sig <= -1, p >= 1;
                        assert((-(sig * p)) / 1 == -(sig * p));
                    }
                    assert(float_micros(f) == 0);
                    lemma_whole_seconds_in_range(float_whole(f));
                }
                return None;
            }
            let p: u128 = pow10_u128(f.exponent as u32);
            proof {
                lemma_pow10_monotonic(f.exponent as nat, 13);
                assert(pow10(13) == 10_000_000_000_000) by {
                reveal_with_fuel(pow10, 40);
            }
                assert(mag * p <= 9_223_372_036_854_775_808 * 10_000_000_000_000) by (nonlinear_arith)
                    requires mag <= 9_223_372_036_854_775_808, p <= 10_000_000_000_000;
            }
            let whole_mag: u128 = mag * p;
            let whole: i128 = if sig < 0 {
                -(whole_mag as i128)
            } else {
                whole_mag as i128
            };
            proof {
                assert(whole == float_numerator(f)) by (nonlinear_arith)
                    requires
                        whole_mag == mag * p,
                        sig < 0 ==> mag == -sig && whole == -whole_mag,
                        sig >= 0 ==> mag == sig && whole == whole_mag,
                        float_numerator(f) == sig * p,
                ;
                assert(float_denominator(f) == 1);
                assert(float_micros(f) == 0);
                lemma_whole_seconds_in_range(float_whole(f));
            }
            if whole < MIN_SECS as i128 || whole > MAX_SECS as i128 {
                return None;
            }
            return Self::from_unix(whole as i64, 0);
        }
        let k: u32 = if f.exponent < -26 {
            26
        } else {
            (-(f.exponent as i64)) as u32
        };
        let d: u128 = pow10_u128(k);
        proof {
            lemma_pow10_positive(k as nat);
            lemma_pow10_monotonic(k as nat, (-f.exponent) as nat);
            assert(pow10(19) == 10_000_000_000_000_000_000) by {
                reveal_with_fuel(pow10, 40);
            }
            assert(pow10(26) == 100_000_000_000_000_000_000_000_000) by {
                reveal_with_fuel(pow10, 40);
            }
        }
        let q: u128 = mag / d;
        let rem: u128 = mag % d;
        proof {
            lemma_fundamental_div_mod(mag as int, d as int);
        }
        assert(rem * 1_000_000 <= 1_000_000 * d) by (nonlinear_arith)
            requires rem < d;
        let m: u128 = rem * 1_000_000 / d;
        proof {
            let x = (rem * 1_000_000) as int;
            lemma_fundamental_div_mod(x, d as int);
            assert(m < 1_000_000) by (nonlinear_arith)
                requires
                    x == d * m + x % (d as int),
                    x % (d as int) >= 0,
                    x < 1_000_000 * d,
                    d > 0,
            ;
        }
        proof {
            let dd = float_denominator(f) as int;
            if f.exponent < -26 {
                // The magnitude is below 10^19, so both parts vanish at either denominator.
                lemma_pow10_monotonic(19, (-f.exponent) as nat);
                lemma_pow10_monotonic(26, (-f.exponent) as nat);
                assert(q == 0) by {
                    lemma_basic_div(mag as int, d as int);
                }
                assert((mag as int) / dd == 0) by {
                    lemma_basic_div(mag as int, dd);
                }
                assert((mag as int) % dd == mag) by {
                    lemma_small_mod(mag as nat, dd as nat);
                }
                assert(mag % d == mag) by {
                    lemma_small_mod(mag as nat, d as nat);
                }
                assert(mag * 1_000_000 < d) by (nonlinear_arith)
                    requires mag < 10_000_000_000_000_000_000, d == 100_000_000_000_000_000_000_000_000;
                assert(mag * 1_000_000 < dd) by (nonlinear_arith)
                    requires mag * 1_000_000 < d, d <= dd;
                lemma_basic_div((mag * 1_000_000) as int, d as int);
                lemma_basic_div((mag * 1_000_000) as int, dd);
            } else {
                assert(dd == d);
            }
            assert(float_numerator(f) == sig);
            assert(sig >= 0 ==> mag == sig);
            assert(sig < 0 ==> mag == -sig);
            assert(q <= mag) by {
                lemma_div_is_ordered_by_denominator(mag as int, 1, d as int);
            }
        }
        let whole: i128 = if sig < 0 {
            -(q as i128)
        } else {
            q as i128
        };
        let micros: i128 = if sig < 0 {
            -(m as i128)
        } else {
            m as i128
        };
        proof {
            assert(whole == float_whole(f));
            assert(micros == float_micros(f));
        }
        let total: i128 = whole * 1_000_000_000 + micros * 1000;
        Self::from_nanos(total)
    }

    /// Seconds since the epoch as a number with six decimals, the nanoseconds cut to whole
    /// microseconds.
    pub fn to_float(&self) -> (r: Float)
        ensures
            r.exponent == -6,
            r.significand == (self@ / NANOS_PER_SEC as int) * 1_000_000 + (self@ % NANOS_PER_SEC as int)
                / 1000,
    {
        let secs = self.timestamp();
        let nanos = self.timestamp_subsec_nanos();
        Float { significand: secs * 1_000_000 + (nanos / 1000) as i64, exponent: -6 }
    }
}

/// The point that a pair of seconds and nanoseconds denotes, or the message that it is out
/// of range.
pub open spec fn parts_result(p: (i64, u32)) -> Result<int, Seq<char>> {
    let n = p.0 * NANOS_PER_SEC + p.1;
    if in_range(n) {
        Ok(n)
    } else {
        Err(out_of_range_message())
    }
}

/// What reading a date and time from text gives: nanoseconds since the epoch, or an error
/// message.
pub open spec fn datetime_text_result(s: Seq<char>) -> Result<int, Seq<char>> {
    match naive_datetime_of(s) {
        Some(p) => parts_result(p),
        None => match utc_datetime_of(s) {
            Ok(p) => parts_result(p),
            Err(m) => Err(m),
        },
    }
}

/// The message of a date and time outside the representable range.
pub open spec fn out_of_range_message() -> Seq<char> {
    seq!['t', 'i', 'm', 'e', 's', 't', 'a', 'm', 'p', ' ', 'o', 'u', 't', ' ', 'o', 'f', ' ', 'r', 'a', 'n', 'g', 'e']
}

pub fn out_of_range_error() -> (r: String)
    ensures
        r@ == out_of_range_message(),
{
    let s = "timestamp out of range";
    proof {
        reveal_strlit("timestamp out of range");
        assert(s@ =~= out_of_range_message());
    }
    s.to_owned()
}

} // verus!
