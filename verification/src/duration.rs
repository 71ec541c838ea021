//! Elapsed time: whole seconds and a remainder in nanoseconds.
//!
//! A duration is read from clock text (`H:MM:SS`, `M:SS`, each with an
//! optional decimal fraction of a second) or from a count of milliseconds
//! written in decimal, and is written back as clock text with tenths of a
//! second.  Durations are ordered and added as the numbers of nanoseconds
//! that they stand for.

use crate::scan::{
    all_digits, decimal_at_most, decimal_below, decimal_value, find_byte, find_from, is_digit,
    lemma_find_from_first, lemma_find_no_single, lemma_find_single, lemma_found_somewhere,
    occurs_at, parse_decimal, parse_decimal_below, slice_of,
};
use crate::text::{
    ascii_text, decode_lossy, is_ascii_bytes, lemma_ascii_concat, lemma_ascii_text,
};
use vstd::prelude::*;
use vstd::string::StringSliceAdditionalSpecFns;
use vstd::utf8::encode_utf8;

verus! {

/// Nanoseconds in a second.
pub const NANOS_PER_SEC: u32 = 1_000_000_000;

/// The longest duration, in nanoseconds.
pub open spec fn max_nanos() -> nat {
    (u64::MAX as nat) * 1_000_000_000 + 999_999_999
}

/// A non-negative elapsed time.
#[derive(Clone, Copy, Debug, PartialEq, Eq, Structural, PartialOrd, Ord, Hash)]
pub struct Duration {
    secs: u64,
    nanos: u32,
}

impl View for Duration {
    type V = nat;

    /// The duration in nanoseconds.
    closed spec fn view(&self) -> nat {
        (self.secs as nat) * 1_000_000_000 + self.nanos as nat
    }
}

/// Ten to the power `n`.
pub open spec fn pow10(n: nat) -> nat
    decreases n,
{
    if n == 0 {
        1
    } else {
        10 * pow10((n - 1) as nat)
    }
}

/// Two decimal digits that write a number below sixty.
pub open spec fn parse_sixtieth(s: Seq<u8>) -> Option<nat> {
    if s.len() == 2 {
        parse_decimal_below(s, 60)
    } else {
        None
    }
}

/// The nanoseconds written by the digits after a decimal point: at least one
/// digit; digits after the ninth do not count.
pub open spec fn parse_fraction(s: Seq<u8>) -> Option<nat> {
    if s.len() == 0 || !all_digits(s) {
        None
    } else if s.len() >= 9 {
        Some(decimal_value(s.subrange(0, 9)))
    } else {
        Some(decimal_value(s) * pow10((9 - s.len()) as nat))
    }
}

/// The seconds written by `lead:SS` or `lead:MM:SS`, where `lead` is one or
/// more digits and `MM` and `SS` are two digits below sixty.
pub open spec fn parse_clock_seconds(s: Seq<u8>) -> Option<nat> {
    match find_from(s, seq![0x3au8], 0) {
        None => None,
        Some(first) => {
            let lead = parse_decimal(s.subrange(0, first));
            match find_from(s, seq![0x3au8], first + 1) {
                None => match (lead, parse_sixtieth(s.subrange(first + 1, s.len() as int))) {
                    (Some(m), Some(sec)) => Some(m * 60 + sec),
                    _ => None,
                },
                Some(second) => match (
                    lead,
                    parse_sixtieth(s.subrange(first + 1, second)),
                    parse_sixtieth(s.subrange(second + 1, s.len() as int)),
                ) {
                    (Some(h), Some(m), Some(sec)) => Some(h * 3600 + m * 60 + sec),
                    _ => None,
                },
            }
        },
    }
}

/// The nanoseconds written by clock text: `H:MM:SS` or `M:SS`, then
/// optionally a point and a decimal fraction of a second.  Text that writes
/// more than the longest duration writes none.
pub open spec fn parse_clock(s: Seq<u8>) -> Option<nat> {
    let (whole, fraction) = match find_from(s, seq![0x2eu8], 0) {
        Some(point) => (s.subrange(0, point), parse_fraction(s.subrange(point + 1, s.len() as int))),
        None => (s, Some(0nat)),
    };
    match (parse_clock_seconds(whole), fraction) {
        (Some(secs), Some(nanos)) if secs <= u64::MAX => Some(secs * 1_000_000_000 + nanos),
        _ => None,
    }
}

/// The nanoseconds written by a decimal count of milliseconds that fits in
/// 64 bits.
pub open spec fn parse_millis(s: Seq<u8>) -> Option<nat> {
    match parse_decimal_below(s, 0x1_0000_0000_0000_0000) {
        Some(ms) => Some(ms * 1_000_000),
        None => None,
    }
}

/// The nanoseconds written by `s` in either form: clock text where it holds
/// a colon, a count of milliseconds where it does not.
pub open spec fn parse_duration(s: Seq<u8>) -> Option<nat> {
    if find_from(s, seq![0x3au8], 0).is_some() {
        parse_clock(s)
    } else {
        parse_millis(s)
    }
}

/// The digit that writes `n`, for `n` below ten.
pub open spec fn digit_of(n: nat) -> u8 {
    (0x30 + n % 10) as u8
}

/// `n` in decimal, without leading zeros.
pub open spec fn decimal_text(n: nat) -> Seq<u8>
    decreases n,
{
    if n < 10 {
        seq![digit_of(n)]
    } else {
        decimal_text(n / 10).push(digit_of(n % 10))
    }
}

/// `n` below a hundred in two decimal digits.
pub open spec fn two_digits(n: nat) -> Seq<u8> {
    seq![digit_of(n / 10), digit_of(n % 10)]
}

/// A duration of `nanos` nanoseconds as clock text with tenths of a second,
/// the rest of the fraction cut off: `H:MM:SS.t` from one hour on, `M:SS.t`
/// below.
pub open spec fn clock_text(nanos: nat) -> Seq<u8> {
    let secs = nanos / 1_000_000_000;
    let tenths = (nanos % 1_000_000_000) / 100_000_000;
    let tail = two_digits(secs % 60) + seq![0x2eu8, digit_of(tenths)];
    if secs >= 3600 {
        decimal_text(secs / 3600) + seq![0x3au8] + two_digits((secs % 3600) / 60) + seq![0x3au8]
            + tail
    } else {
        decimal_text(secs / 60) + seq![0x3au8] + tail
    }
}

impl Duration {
    #[verifier::type_invariant]
    spec fn in_range(self) -> bool {
        self.nanos < 1_000_000_000
    }

    /// The whole seconds.
    pub closed spec fn secs_spec(self) -> nat {
        self.secs as nat
    }

    /// The nanoseconds beyond the whole seconds.
    pub closed spec fn subsec_spec(self) -> nat {
        self.nanos as nat
    }

    /// A value of the type is well formed: its remainder is below a second.
    pub closed spec fn wf(self) -> bool {
        self.nanos < 1_000_000_000
    }

    /// The view is the seconds and the remainder put together, and it
    /// determines both.
    pub proof fn lemma_view(self)
        requires
            self.wf(),
        ensures
            self@ == self.secs_spec() * 1_000_000_000 + self.subsec_spec(),
            self.subsec_spec() < 1_000_000_000,
            self.secs_spec() <= u64::MAX,
            self.secs_spec() == self@ / 1_000_000_000,
            self.subsec_spec() == self@ % 1_000_000_000,
            self@ <= max_nanos(),
    {
    }

    /// The order of durations by their length is the order by their whole
    /// seconds and, among durations of the same whole seconds, by the
    /// nanoseconds beyond them.
    pub proof fn lemma_order_by_seconds_then_nanoseconds(self, other: Duration)
        requires
            self.wf(),
            other.wf(),
        ensures
            self@ < other@ <==> (self.secs_spec() < other.secs_spec() || (self.secs_spec()
                == other.secs_spec() && self.subsec_spec() < other.subsec_spec())),
            self@ == other@ <==> (self.secs_spec() == other.secs_spec() && self.subsec_spec()
                == other.subsec_spec()),
    {
        self.lemma_view();
        other.lemma_view();
    }

    /// Two well-formed durations of the same length are the same value.
    pub proof fn lemma_view_injective(self, other: Duration)
        requires
            self.wf(),
            other.wf(),
            self@ == other@,
        ensures
            self == other,
    {
        self.lemma_view();
        other.lemma_view();
    }

    /// The duration of `secs` seconds and `nanos` nanoseconds; whole seconds
    /// among the nanoseconds are carried over.  `None` where the carry does
    /// not fit.
    pub fn new(secs: u64, nanos: u32) -> (d: Option<Duration>)
        ensures
            match d {
                Some(d) => d@ == secs as nat * 1_000_000_000 + nanos as nat && d.wf(),
                None => secs as nat * 1_000_000_000 + nanos as nat > max_nanos(),
            },
    {
        let carry = (nanos / NANOS_PER_SEC) as u64;
        let rest = nanos % NANOS_PER_SEC;
        match secs.checked_add(carry) {
            Some(secs) => Some(Duration { secs, nanos: rest }),
            None => None,
        }
    }

    /// The duration of `hours` hours, `minutes` minutes and `seconds`
    /// seconds.
    pub fn new_hour_min_sec(hours: u32, minutes: u32, seconds: u32) -> (d: Duration)
        ensures
            d@ == (hours as nat * 3600 + minutes as nat * 60 + seconds as nat) * 1_000_000_000,
            d.wf(),
    {
        let secs = hours as u64 * 3600 + minutes as u64 * 60 + seconds as u64;
        Duration { secs, nanos: 0 }
    }

    /// The duration of no time at all.
    pub fn zero() -> (d: Duration)
        ensures
            d@ == 0,
            d.wf(),
    {
        Duration { secs: 0, nanos: 0 }
    }

    /// The longest duration.
    pub fn max() -> (d: Duration)
        ensures
            d@ == max_nanos(),
            d.wf(),
    {
        Duration { secs: u64::MAX, nanos: 999_999_999 }
    }

    /// The whole seconds.
    pub fn as_secs(&self) -> (secs: u64)
        ensures
            secs == self@ / 1_000_000_000,
            secs == self.secs_spec(),
    {
        proof {
            use_type_invariant(self);
        }
        self.secs
    }

    /// The nanoseconds beyond the whole seconds.
    pub fn subsec_nanos(&self) -> (nanos: u32)
        ensures
            nanos == self@ % 1_000_000_000,
            nanos == self.subsec_spec(),
            nanos < 1_000_000_000,
    {
        proof {
            use_type_invariant(self);
        }
        self.nanos
    }

    /// The duration in nanoseconds.
    pub fn as_nanos(&self) -> (nanos: u128)
        ensures
            nanos == self@,
            nanos <= max_nanos(),
            self.wf(),
    {
        proof {
            use_type_invariant(self);
        }
        self.secs as u128 * 1_000_000_000 + self.nanos as u128
    }

    /// The duration of `nanos` nanoseconds.
    pub fn from_nanos(nanos: u128) -> (d: Option<Duration>)
        ensures
            match d {
                Some(d) => d@ == nanos && d.wf(),
                None => nanos > max_nanos(),
            },
    {
        let secs = nanos / 1_000_000_000;
        let rest = (nanos % 1_000_000_000) as u32;
        if secs > u64::MAX as u128 {
            None
        } else {
            Some(Duration { secs: secs as u64, nanos: rest })
        }
    }

    /// Whether `self` is shorter than `other`.
    pub fn is_less(&self, other: &Duration) -> (r: bool)
        ensures
            r == (self@ < other@),
    {
        proof {
            use_type_invariant(self);
            use_type_invariant(other);
        }
        self.secs < other.secs || (self.secs == other.secs && self.nanos < other.nanos)
    }

    /// Whether `self` is no longer than `other`.
    pub fn is_at_most(&self, other: &Duration) -> (r: bool)
        ensures
            r == (self@ <= other@),
    {
        !other.is_less(self)
    }

    /// Whether the two durations are equally long.
    pub fn is_same(&self, other: &Duration) -> (r: bool)
        ensures
            r == (self@ == other@),
            r == (*self == *other),
    {
        proof {
            use_type_invariant(self);
            use_type_invariant(other);
        }
        self.secs == other.secs && self.nanos == other.nanos
    }

    /// The sum of the two durations, where it is no longer than the longest
    /// duration.
    pub fn checked_add(&self, other: &Duration) -> (sum: Option<Duration>)
        ensures
            match sum {
                Some(sum) => sum@ == self@ + other@ && sum.wf(),
                None => self@ + other@ > max_nanos(),
            },
    {
        Duration::from_nanos(self.as_nanos() + other.as_nanos())
    }

    /// The sum of the two durations, or the longest duration where the sum
    /// is longer than that.
    pub fn saturating_add(&self, other: &Duration) -> (sum: Duration)
        ensures
            sum@ == if self@ + other@ <= max_nanos() {
                self@ + other@
            } else {
                max_nanos()
            },
            sum.wf(),
    {
        match self.checked_add(other) {
            Some(sum) => sum,
            None => Duration::max(),
        }
    }

    /// The `divisor`-th part of the duration, cut off to whole nanoseconds.
    pub fn divided_by(&self, divisor: u32) -> (part: Duration)
        requires
            divisor > 0,
        ensures
            part@ == self@ / (divisor as nat),
            part.wf(),
    {
        let nanos = self.as_nanos();
        let part = nanos / divisor as u128;
        proof {
            assert(part <= nanos) by (nonlinear_arith)
                requires
                    part == nanos / (divisor as u128),
                    divisor > 0,
            ;
        }
        match Duration::from_nanos(part) {
            Some(d) => d,
            None => Duration::max(),
        }
    }
}

} // verus!

verus! {

/// Digits write a number below ten to the power of their count.
pub proof fn lemma_decimal_value_bound(s: Seq<u8>)
    requires
        all_digits(s),
    ensures
        decimal_value(s) < pow10(s.len()),
    decreases s.len(),
{
    if s.len() > 0 {
        assert(all_digits(s.drop_last())) by {
            assert forall|i: int| 0 <= i < s.drop_last().len() implies is_digit(
                #[trigger] s.drop_last()[i],
            ) by {
                assert(s.drop_last()[i] == s[i]);
            }
        }
        lemma_decimal_value_bound(s.drop_last());
        assert(is_digit(s.last()));
    }
}

/// Reads two digits that write a number below sixty.
fn read_sixtieth(text: &[u8]) -> (r: Option<u64>)
    ensures
        match r {
            Some(n) => parse_sixtieth(text@) == Some(n as nat) && n < 60,
            None => parse_sixtieth(text@).is_none(),
        },
{
    if text.len() == 2 {
        decimal_below(text, 60)
    } else {
        None
    }
}

/// Reads the digits after a decimal point as nanoseconds.
fn read_fraction(text: &[u8]) -> (r: Option<u32>)
    ensures
        match r {
            Some(n) => parse_fraction(text@) == Some(n as nat) && n < 1_000_000_000,
            None => parse_fraction(text@).is_none(),
        },
{
    if text.len() == 0 {
        return None;
    }
    proof {
        assert(pow10(9) == 1_000_000_000 && pow10(0) == 1) by {
            reveal_with_fuel(pow10, 10);
        }
    }
    let mut value: u32 = 0;
    let mut k: usize = 0;
    while k < text.len()
        invariant
            k <= text.len(),
            all_digits(text@.subrange(0, k as int)),
            k <= 9 ==> value == decimal_value(text@.subrange(0, k as int)),
            k > 9 ==> value == decimal_value(text@.subrange(0, 9)),
            value < pow10(if k <= 9 { k as nat } else { 9 }),
            pow10(9) == 1_000_000_000,
        decreases text.len() - k,
    {
        let b = text[k];
        if b < 0x30 || b > 0x39 {
            proof {
                assert(!is_digit(text@[k as int]));
            }
            return None;
        }
        proof {
            let t = text@.subrange(0, k + 1);
            assert(t.drop_last() =~= text@.subrange(0, k as int));
            assert(t.last() == b);
            assert forall|i: int| 0 <= i < t.len() implies is_digit(#[trigger] t[i]) by {
                if i < k {
                    assert(text@.subrange(0, k as int)[i] == t[i]);
                }
            }
            if k < 9 {
                lemma_decimal_value_bound(t);
                lemma_pow10_monotonic((k + 1) as nat, 9);
            }
        }
        if k < 9 {
            value = value * 10 + (b - 0x30) as u32;
        }
        k += 1;
    }
    proof {
        assert(text@.subrange(0, k as int) =~= text@);
        assert(pow10(0) == 1);
        assert(decimal_value(text@) * 1 == decimal_value(text@));
    }
    let mut n: usize = text.len();
    while n < 9
        invariant
            text.len() <= n,
            text.len() < 9 ==> n <= 9,
            text.len() < 9 ==> value == decimal_value(text@) * pow10((n - text.len()) as nat),
            text.len() < 9 ==> value < pow10(n as nat),
            text.len() >= 9 ==> value == decimal_value(text@.subrange(0, 9)),
            text.len() >= 9 ==> value < 1_000_000_000,
            pow10(9) == 1_000_000_000,
        decreases 9 - n,
    {
        proof {
            lemma_pow10_monotonic((n + 1) as nat, 9);
            assert(decimal_value(text@) * pow10((n + 1 - text.len()) as nat) == 10 * (decimal_value(
                text@,
            ) * pow10((n - text.len()) as nat))) by (nonlinear_arith)
                requires
                    pow10((n + 1 - text.len()) as nat) == 10 * pow10((n - text.len()) as nat),
            ;
        }
        value = value * 10;
        n += 1;
    }
    Some(value)
}

/// Ten to a higher power is no less.
pub proof fn lemma_pow10_monotonic(a: nat, b: nat)
    requires
        a <= b,
    ensures
        pow10(a) <= pow10(b),
        pow10(a) > 0,
    decreases b,
{
    if a < b {
        lemma_pow10_monotonic(a, (b - 1) as nat);
    } else if a > 0 {
        lemma_pow10_monotonic((a - 1) as nat, (b - 1) as nat);
    }
}

/// Reads `lead:SS` or `lead:MM:SS` as seconds.
fn read_clock_seconds(text: &[u8]) -> (r: Option<u64>)
    ensures
        match r {
            Some(n) => parse_clock_seconds(text@) == Some(n as nat),
            None => match parse_clock_seconds(text@) {
                Some(n) => n > u64::MAX,
                None => true,
            },
        },
{
    let first = match find_byte(text, 0x3a, 0) {
        Some(first) => first,
        None => {
            return None;
        },
    };
    let lead = decimal_below(slice_of(text, 0, first), u64::MAX);
    match find_byte(text, 0x3a, first + 1) {
        None => {
            let sec = read_sixtieth(slice_of(text, first + 1, text.len()));
            match (lead, sec) {
                (Some(m), Some(sec)) => {
                    let total = m as u128 * 60 + sec as u128;
                    if total > u64::MAX as u128 {
                        None
                    } else {
                        Some(total as u64)
                    }
                },
                _ => None,
            }
        },
        Some(second) => {
            let min = read_sixtieth(slice_of(text, first + 1, second));
            let sec = read_sixtieth(slice_of(text, second + 1, text.len()));
            match (lead, min, sec) {
                (Some(h), Some(min), Some(sec)) => {
                    let total = h as u128 * 3600 + min as u128 * 60 + sec as u128;
                    if total > u64::MAX as u128 {
                        None
                    } else {
                        Some(total as u64)
                    }
                },
                _ => None,
            }
        },
    }
}

/// Appends `n` in decimal to `out`.
pub fn push_decimal(out: &mut Vec<u8>, n: u64)
    ensures
        final(out)@ == old(out)@ + decimal_text(n as nat),
    decreases n,
{
    if n >= 10 {
        push_decimal(out, n / 10);
    }
    out.push(0x30 + (n % 10) as u8);
    proof {
        if n < 10 {
            assert(final(out)@ =~= old(out)@ + decimal_text(n as nat));
        } else {
            assert(final(out)@ =~= old(out)@ + decimal_text(n as nat));
        }
    }
}

/// Appends `n`, below a hundred, in two decimal digits to `out`.
fn push_two_digits(out: &mut Vec<u8>, n: u64)
    requires
        n < 100,
    ensures
        final(out)@ == old(out)@ + two_digits(n as nat),
{
    out.push(0x30 + (n / 10) as u8);
    out.push(0x30 + (n % 10) as u8);
    proof {
        assert(final(out)@ =~= old(out)@ + two_digits(n as nat));
    }
}

impl Duration {
    /// Reads clock text: `H:MM:SS` or `M:SS`, each with an optional decimal
    /// fraction of a second.
    pub fn parse_clock(text: &[u8]) -> (d: Option<Duration>)
        ensures
            match d {
                Some(d) => parse_clock(text@) == Some(d@) && d.wf(),
                None => parse_clock(text@).is_none(),
            },
    {
        let (secs, nanos) = match find_byte(text, 0x2e, 0) {
            Some(at) => (
                read_clock_seconds(slice_of(text, 0, at)),
                read_fraction(slice_of(text, at + 1, text.len())),
            ),
            None => (read_clock_seconds(text), Some(0u32)),
        };
        match (secs, nanos) {
            (Some(secs), Some(nanos)) => Some(Duration { secs, nanos }),
            _ => None,
        }
    }

    /// Reads a decimal count of milliseconds.
    pub fn parse_millis(text: &[u8]) -> (d: Option<Duration>)
        ensures
            match d {
                Some(d) => parse_millis(text@) == Some(d@) && d.wf(),
                None => parse_millis(text@).is_none(),
            },
    {
        match decimal_at_most(text, u64::MAX) {
            Some(ms) => Some(Duration { secs: ms / 1000, nanos: (ms % 1000) as u32 * 1_000_000 }),
            None => None,
        }
    }

    /// Reads a duration in either form: clock text where `text` holds a
    /// colon, a count of milliseconds where it does not.
    pub fn parse(text: &[u8]) -> (d: Option<Duration>)
        ensures
            match d {
                Some(d) => parse_duration(text@) == Some(d@) && d.wf(),
                None => parse_duration(text@).is_none(),
            },
    {
        if find_byte(text, 0x3a, 0).is_some() {
            Duration::parse_clock(text)
        } else {
            Duration::parse_millis(text)
        }
    }

    /// Reads a duration, in either form, from a string.
    pub fn from_text(text: &str) -> (d: Option<Duration>)
        ensures
            match d {
                Some(d) => parse_duration(text.spec_bytes()) == Some(d@) && d.wf(),
                None => parse_duration(text.spec_bytes()).is_none(),
            },
    {
        Duration::parse(text.as_bytes())
    }

    /// The duration as clock text with tenths of a second.
    pub fn to_clock_text(&self) -> (out: Vec<u8>)
        ensures
            out@ == clock_text(self@),
    {
        proof {
            use_type_invariant(self);
        }
        let secs = self.secs;
        let tenths = self.nanos / 100_000_000;
        let mut out: Vec<u8> = Vec::new();
        if secs >= 3600 {
            push_decimal(&mut out, secs / 3600);
            out.push(0x3a);
            push_two_digits(&mut out, (secs % 3600) / 60);
        } else {
            push_decimal(&mut out, secs / 60);
        }
        out.push(0x3a);
        push_two_digits(&mut out, secs % 60);
        out.push(0x2e);
        out.push(0x30 + tenths as u8);
        proof {
            assert(out@ =~= clock_text(self@));
        }
        out
    }

    /// The duration as clock text with tenths of a second, as a string: a
    /// character for each byte of the clock text.
    pub fn to_text(&self) -> (out: String)
        ensures
            out@ == ascii_text(clock_text(self@)),
            encode_utf8(out@) == clock_text(self@),
    {
        let bytes = self.to_clock_text();
        proof {
            lemma_clock_text_ascii(self@);
            lemma_ascii_text(bytes@);
        }
        decode_lossy(bytes.as_slice())
    }
}

} // verus!

verus! {

/// `nanos` cut off to whole tenths of a second.
pub open spec fn floor_tenths(nanos: nat) -> nat {
    (nanos - nanos % 100_000_000) as nat
}

/// The decimal text of a number is made of digits, of one at least, and
/// writes the number.
pub proof fn lemma_decimal_text(n: nat)
    ensures
        decimal_text(n).len() >= 1,
        all_digits(decimal_text(n)),
        decimal_value(decimal_text(n)) == n,
        parse_decimal(decimal_text(n)) == Some(n),
    decreases n,
{
    if n < 10 {
        let s = decimal_text(n);
        assert(s.drop_last() =~= Seq::<u8>::empty());
        assert(decimal_value(s.drop_last()) == 0);
    } else {
        lemma_decimal_text(n / 10);
        let s = decimal_text(n);
        let head = decimal_text(n / 10);
        assert(s.drop_last() =~= head);
        assert(s.last() == digit_of(n % 10));
        assert forall|i: int| 0 <= i < s.len() implies is_digit(#[trigger] s[i]) by {
            if i < head.len() {
                assert(s[i] == head[i]);
            }
        }
    }
}

/// Two digits write the number below a hundred that they were made from.
pub proof fn lemma_two_digits(n: nat)
    requires
        n < 100,
    ensures
        two_digits(n).len() == 2,
        all_digits(two_digits(n)),
        decimal_value(two_digits(n)) == n,
{
    let s = two_digits(n);
    assert(s.drop_last() =~= seq![digit_of(n / 10)]);
    assert(s.drop_last().drop_last() =~= Seq::<u8>::empty());
    assert(decimal_value(s.drop_last().drop_last()) == 0);
    assert(decimal_value(s.drop_last()) == n / 10);
}

/// Two digits that write a number below sixty are read as that number.
proof fn lemma_sixtieth_text(n: nat)
    requires
        n < 60,
    ensures
        parse_sixtieth(two_digits(n)) == Some(n),
{
    lemma_two_digits(n);
}

/// Clock text of minutes and seconds writes its seconds.
proof fn lemma_minutes_text(secs: nat)
    requires
        secs < 3600,
    ensures
        parse_clock_seconds(decimal_text(secs / 60) + seq![0x3au8] + two_digits(secs % 60))
            == Some(secs),
{
    let lead = decimal_text(secs / 60);
    let tail = two_digits(secs % 60);
    let s = lead + seq![0x3au8] + tail;
    let a = lead.len() as int;
    lemma_decimal_text(secs / 60);
    lemma_two_digits(secs % 60);
    lemma_sixtieth_text(secs % 60);
    assert(find_from(s, seq![0x3au8], 0) == Some(a)) by {
        assert forall|i: int| 0 <= i < a implies s[i] != 0x3a by {
            assert(s[i] == lead[i]);
            assert(is_digit(lead[i]));
        }
        assert(s[a] == 0x3a);
        lemma_find_single(s, 0x3a, 0, a);
    }
    assert(find_from(s, seq![0x3au8], a + 1).is_none()) by {
        assert forall|i: int| a + 1 <= i < s.len() implies s[i] != 0x3a by {
            assert(s[i] == tail[i - a - 1]);
            assert(is_digit(tail[i - a - 1]));
        }
        lemma_find_no_single(s, 0x3a, a + 1);
    }
    assert(s.subrange(0, a) =~= lead);
    assert(s.subrange(a + 1, s.len() as int) =~= tail);
    assert((secs / 60) * 60 + secs % 60 == secs);
}

/// Clock text of hours, minutes and seconds writes its seconds.
#[verifier::rlimit(50)]
proof fn lemma_hours_text(secs: nat)
    ensures
        parse_clock_seconds(
            decimal_text(secs / 3600) + seq![0x3au8] + two_digits((secs % 3600) / 60) + seq![
                0x3au8,
            ] + two_digits(secs % 60),
        ) == Some(secs),
{
    let hours = secs / 3600;
    let minutes = (secs % 3600) / 60;
    let seconds = secs % 60;
    let lead = decimal_text(hours);
    let middle = two_digits(minutes);
    let tail = two_digits(seconds);
    let s = lead + seq![0x3au8] + middle + seq![0x3au8] + tail;
    let a = lead.len() as int;
    lemma_decimal_text(hours);
    lemma_two_digits(minutes);
    lemma_two_digits(seconds);
    lemma_sixtieth_text(minutes);
    lemma_sixtieth_text(seconds);
    assert(s.len() == a + 6);
    assert(find_from(s, seq![0x3au8], 0) == Some(a)) by {
        assert forall|i: int| 0 <= i < a implies s[i] != 0x3a by {
            assert(s[i] == lead[i]);
            assert(is_digit(lead[i]));
        }
        assert(s[a] == 0x3a);
        lemma_find_single(s, 0x3a, 0, a);
    }
    assert(find_from(s, seq![0x3au8], a + 1) == Some(a + 3)) by {
        assert forall|i: int| a + 1 <= i < a + 3 implies s[i] != 0x3a by {
            assert(s[i] == middle[i - a - 1]);
            assert(is_digit(middle[i - a - 1]));
        }
        assert(s[a + 3] == 0x3a);
        lemma_find_single(s, 0x3a, a + 1, a + 3);
    }
    assert(parse_decimal(s.subrange(0, a)) == Some(hours)) by {
        assert(s.subrange(0, a) =~= lead);
    }
    assert(parse_sixtieth(s.subrange(a + 1, a + 3)) == Some(minutes)) by {
        assert(s.subrange(a + 1, a + 3) =~= middle);
    }
    assert(parse_sixtieth(s.subrange(a + 4, s.len() as int)) == Some(seconds)) by {
        assert(s.subrange(a + 4, s.len() as int) =~= tail);
    }
    assert(hours * 3600 + minutes * 60 + seconds == secs);
}

/// The seconds part of clock text holds no point, and writes its seconds.
proof fn lemma_whole_text(secs: nat) -> (whole: Seq<u8>)
    ensures
        whole == if secs >= 3600 {
            decimal_text(secs / 3600) + seq![0x3au8] + two_digits((secs % 3600) / 60) + seq![
                0x3au8,
            ] + two_digits(secs % 60)
        } else {
            decimal_text(secs / 60) + seq![0x3au8] + two_digits(secs % 60)
        },
        parse_clock_seconds(whole) == Some(secs),
        forall|i: int| 0 <= i < whole.len() ==> whole[i] != 0x2e,
{
    lemma_two_digits(secs % 60);
    let tail = two_digits(secs % 60);
    if secs >= 3600 {
        lemma_hours_text(secs);
        lemma_decimal_text(secs / 3600);
        lemma_two_digits((secs % 3600) / 60);
        let lead = decimal_text(secs / 3600);
        let middle = two_digits((secs % 3600) / 60);
        let whole = lead + seq![0x3au8] + middle + seq![0x3au8] + tail;
        let a = lead.len() as int;
        assert forall|i: int| 0 <= i < whole.len() implies whole[i] != 0x2e by {
            if i < a {
                assert(whole[i] == lead[i]);
                assert(is_digit(lead[i]));
            } else if a < i < a + 3 {
                assert(whole[i] == middle[i - a - 1]);
                assert(is_digit(middle[i - a - 1]));
            } else if i > a + 3 {
                assert(whole[i] == tail[i - a - 4]);
                assert(is_digit(tail[i - a - 4]));
            }
        }
        whole
    } else {
        lemma_minutes_text(secs);
        lemma_decimal_text(secs / 60);
        let lead = decimal_text(secs / 60);
        let whole = lead + seq![0x3au8] + tail;
        let a = lead.len() as int;
        assert forall|i: int| 0 <= i < whole.len() implies whole[i] != 0x2e by {
            if i < a {
                assert(whole[i] == lead[i]);
                assert(is_digit(lead[i]));
            } else if i > a {
                assert(whole[i] == tail[i - a - 1]);
                assert(is_digit(tail[i - a - 1]));
            }
        }
        whole
    }
}

/// The tenths of a second of `nanos`, as the fraction after the point
/// writes them.
#[verifier::rlimit(50)]
proof fn lemma_tenths_text(nanos: nat)
    ensures
        parse_fraction(seq![digit_of((nanos % 1_000_000_000) / 100_000_000)]) == Some(
            ((nanos % 1_000_000_000) / 100_000_000) * 100_000_000,
        ),
        (nanos / 1_000_000_000) * 1_000_000_000 + ((nanos % 1_000_000_000) / 100_000_000)
            * 100_000_000 == floor_tenths(nanos),
{
    let tenths = (nanos % 1_000_000_000) / 100_000_000;
    let fraction = seq![digit_of(tenths)];
    assert(tenths < 10);
    assert(digit_of(tenths) == 0x30 + tenths);
    assert(decimal_value(fraction) == tenths) by {
        assert(fraction.drop_last() =~= Seq::<u8>::empty());
        assert(decimal_value(fraction.drop_last()) == 0);
        assert(fraction.last() == digit_of(tenths));
    }
    assert(pow10(8) == 100_000_000) by {
        reveal_with_fuel(pow10, 9);
    }
    assert(all_digits(fraction)) by {
        assert(is_digit(fraction[0]));
    }
    assert(parse_fraction(fraction) == Some(tenths * 100_000_000)) by {
        assert(fraction.len() == 1);
        assert(decimal_value(fraction) * pow10(8) == tenths * 100_000_000);
    }
    assert((nanos / 1_000_000_000) * 1_000_000_000 + tenths * 100_000_000 == floor_tenths(nanos))
        by {
        let rest = nanos % 1_000_000_000;
        assert(nanos == (nanos / 1_000_000_000) * 1_000_000_000 + rest);
        assert(rest == tenths * 100_000_000 + rest % 100_000_000);
        assert(nanos % 100_000_000 == rest % 100_000_000);
    }
}

/// Text that holds a colon before a point is read as clock text.
proof fn lemma_read_as_clock(s: Seq<u8>, whole: Seq<u8>)
    requires
        whole.len() <= s.len(),
        s.subrange(0, whole.len() as int) == whole,
        find_from(whole, seq![0x3au8], 0).is_some(),
    ensures
        parse_duration(s) == parse_clock(s),
{
    let colon = find_from(whole, seq![0x3au8], 0).unwrap();
    lemma_find_from_first(whole, seq![0x3au8], 0);
    assert(s.subrange(colon, colon + 1) =~= whole.subrange(colon, colon + 1));
    assert(occurs_at(s, seq![0x3au8], colon));
    lemma_found_somewhere(s, seq![0x3au8], 0, colon);
}

/// Clock text is made of ASCII characters.
pub proof fn lemma_clock_text_ascii(nanos: nat)
    ensures
        is_ascii_bytes(clock_text(nanos)),
{
    let secs = nanos / 1_000_000_000;
    let tenths = (nanos % 1_000_000_000) / 100_000_000;
    let colon = seq![0x3au8];
    let tail = two_digits(secs % 60) + seq![0x2eu8, digit_of(tenths)];
    assert(is_ascii_bytes(colon));
    assert(is_ascii_bytes(two_digits(secs % 60)));
    assert(is_ascii_bytes(seq![0x2eu8, digit_of(tenths)]));
    lemma_ascii_concat(two_digits(secs % 60), seq![0x2eu8, digit_of(tenths)]);
    if secs >= 3600 {
        let hours = decimal_text(secs / 3600);
        let minutes = two_digits((secs % 3600) / 60);
        lemma_decimal_text(secs / 3600);
        assert(is_ascii_bytes(hours)) by {
            assert forall|i: int| 0 <= i < hours.len() implies #[trigger] hours[i] < 128 by {
                assert(is_digit(hours[i]));
            }
        }
        assert(is_ascii_bytes(minutes));
        lemma_ascii_concat(hours, colon);
        lemma_ascii_concat(hours + colon, minutes);
        lemma_ascii_concat(hours + colon + minutes, colon);
        lemma_ascii_concat(hours + colon + minutes + colon, tail);
    } else {
        let minutes = decimal_text(secs / 60);
        lemma_decimal_text(secs / 60);
        assert(is_ascii_bytes(minutes)) by {
            assert forall|i: int| 0 <= i < minutes.len() implies #[trigger] minutes[i] < 128 by {
                assert(is_digit(minutes[i]));
            }
        }
        lemma_ascii_concat(minutes, colon);
        lemma_ascii_concat(minutes + colon, tail);
    }
}

/// A duration that is written as clock text and read again is the duration
/// cut off to tenths of a second, whether the text is taken as bytes or as
/// the string of its characters.
pub proof fn lemma_text_round_trip(nanos: nat)
    requires
        nanos <= max_nanos(),
    ensures
        parse_clock(clock_text(nanos)) == Some(floor_tenths(nanos)),
        parse_duration(clock_text(nanos)) == Some(floor_tenths(nanos)),
        parse_duration(encode_utf8(ascii_text(clock_text(nanos)))) == Some(floor_tenths(nanos)),
{
    lemma_clock_text_ascii(nanos);
    lemma_ascii_text(clock_text(nanos));
    let secs = nanos / 1_000_000_000;
    let tenths = (nanos % 1_000_000_000) / 100_000_000;
    let whole = lemma_whole_text(secs);
    let s = clock_text(nanos);
    let w = whole.len() as int;
    let fraction = seq![digit_of(tenths)];
    assert(s =~= whole + seq![0x2eu8] + fraction);
    assert(find_from(s, seq![0x2eu8], 0) == Some(w)) by {
        assert forall|i: int| 0 <= i < w implies s[i] != 0x2e by {
            assert(s[i] == whole[i]);
        }
        assert(s[w] == 0x2e);
        lemma_find_single(s, 0x2e, 0, w);
    }
    assert(s.subrange(0, w) =~= whole);
    assert(s.subrange(w + 1, s.len() as int) =~= fraction);
    lemma_tenths_text(nanos);
    assert(secs <= u64::MAX) by {
        assert(nanos <= (u64::MAX as nat) * 1_000_000_000 + 999_999_999);
    }
    assert(parse_clock(s) == Some(floor_tenths(nanos)));
    lemma_read_as_clock(s, whole);
}

} // verus!
