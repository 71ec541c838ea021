//! Scanning primitives over byte text: literal matching, substring search,
//! whitespace skipping and trimming, and decimal numbers.
//!
//! Every extractor of a text layout is built from these.  Positions are byte
//! offsets into the text; a scanner that succeeds returns the offset just
//! after what it consumed.

use vstd::prelude::*;
use vstd::string::StringSliceAdditionalSpecFns;

verus! {

/// `needle` stands in `hay` at offset `at`.
pub open spec fn occurs_at(hay: Seq<u8>, needle: Seq<u8>, at: int) -> bool {
    &&& 0 <= at
    &&& at + needle.len() <= hay.len()
    &&& hay.subrange(at, at + needle.len()) == needle
}

/// The first offset at or after `from` at which `needle` stands in `hay`.
pub open spec fn find_from(hay: Seq<u8>, needle: Seq<u8>, from: int) -> Option<int>
    decreases hay.len() + 1 - from,
{
    if from < 0 || from + needle.len() > hay.len() {
        None
    } else if occurs_at(hay, needle, from) {
        Some(from)
    } else {
        find_from(hay, needle, from + 1)
    }
}

/// What `find_from` returns is the first occurrence: the needle stands
/// there, and nowhere between `from` and there; `None` means it stands
/// nowhere at or after `from`.
pub proof fn lemma_find_from_first(hay: Seq<u8>, needle: Seq<u8>, from: int)
    requires
        0 <= from,
    ensures
        match find_from(hay, needle, from) {
            Some(at) => {
                &&& from <= at
                &&& occurs_at(hay, needle, at)
                &&& forall|k: int| from <= k < at ==> !occurs_at(hay, needle, k)
            },
            None => forall|k: int| from <= k ==> !occurs_at(hay, needle, k),
        },
    decreases hay.len() + 1 - from,
{
    if from + needle.len() > hay.len() {
    } else if occurs_at(hay, needle, from) {
    } else {
        lemma_find_from_first(hay, needle, from + 1);
    }
}

/// What stands somewhere at or after `from` is found.
pub proof fn lemma_found_somewhere(s: Seq<u8>, needle: Seq<u8>, from: int, at: int)
    requires
        0 <= from <= at,
        occurs_at(s, needle, at),
    ensures
        find_from(s, needle, from).is_some(),
    decreases at - from,
{
    if from < at && !occurs_at(s, needle, from) {
        lemma_found_somewhere(s, needle, from + 1, at);
    }
}

/// Where a byte stands at `at` and nowhere from `from` up to there, it is
/// found at `at`.
pub proof fn lemma_find_single(s: Seq<u8>, c: u8, from: int, at: int)
    requires
        0 <= from <= at < s.len(),
        s[at] == c,
        forall|i: int| from <= i < at ==> s[i] != c,
    ensures
        find_from(s, seq![c], from) == Some(at),
    decreases at - from,
{
    if from < at {
        assert(s.subrange(from, from + 1)[0] == s[from]);
        lemma_find_single(s, c, from + 1, at);
    } else {
        assert(s.subrange(at, at + 1) =~= seq![c]);
    }
}

/// Where a byte stands nowhere from `from` on, it is not found.
pub proof fn lemma_find_no_single(s: Seq<u8>, c: u8, from: int)
    requires
        0 <= from,
        forall|i: int| from <= i < s.len() ==> s[i] != c,
    ensures
        find_from(s, seq![c], from).is_none(),
    decreases s.len() - from,
{
    if from + 1 <= s.len() {
        assert(s.subrange(from, from + 1)[0] == s[from]);
        lemma_find_no_single(s, c, from + 1);
    }
}

/// The offset just after `needle` where it stands at `at`, if it does.
pub open spec fn tag_at(hay: Seq<u8>, needle: Seq<u8>, at: int) -> Option<int> {
    if occurs_at(hay, needle, at) {
        Some(at + needle.len())
    } else {
        None
    }
}

/// The offset at which `needle` first stands at or after `from`, paired with
/// the offset just after it: the text before the needle is `[from, .0)`, and
/// scanning goes on at `.1`.
pub open spec fn until_and_consume(hay: Seq<u8>, needle: Seq<u8>, from: int) -> Option<(int, int)> {
    match find_from(hay, needle, from) {
        Some(at) => Some((at, at + needle.len())),
        None => None,
    }
}

/// Space, tab, carriage return or line feed.
pub open spec fn is_space(b: u8) -> bool {
    b == 0x20 || b == 0x09 || b == 0x0d || b == 0x0a
}

/// The first offset at or after `from` that holds no white space.
pub open spec fn skip_spaces(hay: Seq<u8>, from: int) -> int
    decreases hay.len() - from,
{
    if 0 <= from < hay.len() && is_space(hay[from]) {
        skip_spaces(hay, from + 1)
    } else {
        from
    }
}

/// The last offset at or before `to`, and not before `from`, that is not
/// preceded by white space.
pub open spec fn skip_spaces_back(hay: Seq<u8>, from: int, to: int) -> int
    decreases to - from,
{
    if from < to && 0 < to <= hay.len() && is_space(hay[to - 1]) {
        skip_spaces_back(hay, from, to - 1)
    } else {
        to
    }
}

/// The part of `[from, to)` that is left when the white space at both ends
/// is taken away.
pub open spec fn trim_range(hay: Seq<u8>, from: int, to: int) -> (int, int) {
    let start = if skip_spaces(hay, from) < to {
        skip_spaces(hay, from)
    } else {
        to
    };
    (start, skip_spaces_back(hay, start, to))
}

/// The bytes of `s` without the white space at both ends.
pub open spec fn trimmed(s: Seq<u8>) -> Seq<u8> {
    let (a, b) = trim_range(s, 0, s.len() as int);
    s.subrange(a, b)
}

/// A decimal digit.
pub open spec fn is_digit(b: u8) -> bool {
    0x30 <= b <= 0x39
}

/// Every byte of `s` is a decimal digit.
pub open spec fn all_digits(s: Seq<u8>) -> bool {
    forall|i: int| 0 <= i < s.len() ==> is_digit(#[trigger] s[i])
}

/// The number that the digits of `s` write in base ten; 0 for no digits.
pub open spec fn decimal_value(s: Seq<u8>) -> nat
    decreases s.len(),
{
    if s.len() == 0 {
        0
    } else {
        (decimal_value(s.drop_last()) * 10 + (s.last() - 0x30) as nat) as nat
    }
}

/// The number written by `s`, where `s` is one or more decimal digits and
/// nothing else.
pub open spec fn parse_decimal(s: Seq<u8>) -> Option<nat> {
    if s.len() > 0 && all_digits(s) {
        Some(decimal_value(s))
    } else {
        None
    }
}

/// The number written by `s`, where it fits below `limit`.
pub open spec fn parse_decimal_below(s: Seq<u8>, limit: nat) -> Option<nat> {
    match parse_decimal(s) {
        Some(n) if n < limit => Some(n),
        _ => None,
    }
}

pub proof fn lemma_decimal_value_monotonic(s: Seq<u8>, k: int)
    requires
        0 <= k <= s.len(),
        all_digits(s),
    ensures
        decimal_value(s.subrange(0, k)) <= decimal_value(s),
    decreases s.len() - k,
{
    if k < s.len() {
        let t = s.subrange(0, k + 1);
        assert(t.drop_last() =~= s.subrange(0, k));
        assert(is_digit(s[k]));
        assert(t.last() == s[k]);
        lemma_decimal_value_monotonic(s, k + 1);
    } else {
        assert(s.subrange(0, k) =~= s);
    }
}

/// Whether `needle` stands in `hay` at offset `at`.
pub fn has_at(hay: &[u8], needle: &[u8], at: usize) -> (b: bool)
    ensures
        b == occurs_at(hay@, needle@, at as int),
        b ==> at + needle@.len() <= usize::MAX,
{
    let n = needle.len();
    if at > hay.len() || n > hay.len() - at {
        return false;
    }
    let mut k: usize = 0;
    while k < n
        invariant
            at + n <= hay.len(),
            n == needle.len(),
            k <= n,
            forall|j: int| 0 <= j < k ==> hay@[at + j] == needle@[j],
        decreases n - k,
    {
        if hay[at + k] != needle[k] {
            proof {
                let sub = hay@.subrange(at as int, at + n);
                assert(sub[k as int] == hay@[at + k]);
            }
            return false;
        }
        k += 1;
    }
    proof {
        assert(hay@.subrange(at as int, at + n) =~= needle@);
    }
    true
}

/// The first offset at or after `from` at which `needle` stands in `hay`.
pub fn find(hay: &[u8], needle: &[u8], from: usize) -> (r: Option<usize>)
    ensures
        match r {
            Some(at) => {
                &&& find_from(hay@, needle@, from as int) == Some(at as int)
                &&& from <= at
                &&& at + needle@.len() <= hay@.len() <= usize::MAX
            },
            None => find_from(hay@, needle@, from as int).is_none(),
        },
{
    let n = needle.len();
    if from > hay.len() || n > hay.len() - from {
        return None;
    }
    let last = hay.len() - n;
    let mut at = from;
    while at <= last
        invariant
            n == needle.len(),
            last == hay.len() - n,
            from <= at <= last + 1,
            find_from(hay@, needle@, from as int) == find_from(hay@, needle@, at as int),
        decreases last + 1 - at,
    {
        if has_at(hay, needle, at) {
            return Some(at);
        }
        if at == last {
            assert(find_from(hay@, needle@, at + 1).is_none());
            return None;
        }
        at += 1;
    }
    None
}

/// The first offset at or after `from` that holds the byte `b`.
pub fn find_byte(hay: &[u8], b: u8, from: usize) -> (r: Option<usize>)
    ensures
        match r {
            Some(at) => {
                &&& find_from(hay@, seq![b], from as int) == Some(at as int)
                &&& from <= at < hay@.len() <= usize::MAX
                &&& hay@[at as int] == b
            },
            None => find_from(hay@, seq![b], from as int).is_none(),
        },
{
    let mut at = from;
    while at < hay.len()
        invariant
            from <= at,
            find_from(hay@, seq![b], from as int) == find_from(hay@, seq![b], at as int),
        decreases hay.len() - at,
    {
        if hay[at] == b {
            proof {
                assert(hay@.subrange(at as int, at + 1) =~= seq![b]);
            }
            return Some(at);
        }
        proof {
            assert(hay@.subrange(at as int, at + 1)[0] == hay@[at as int]);
        }
        at += 1;
    }
    None
}

/// Consumes `needle` where it stands at `at`.
pub fn tag(hay: &[u8], needle: &[u8], at: usize) -> (r: Option<usize>)
    ensures
        match r {
            Some(next) => tag_at(hay@, needle@, at as int) == Some(next as int),
            None => tag_at(hay@, needle@, at as int).is_none(),
        },
{
    if has_at(hay, needle, at) {
        Some(at + needle.len())
    } else {
        None
    }
}

/// Skips white space from `from` on.
pub fn skip_whitespace(hay: &[u8], from: usize) -> (at: usize)
    requires
        from <= hay.len(),
    ensures
        at == skip_spaces(hay@, from as int),
        from <= at <= hay.len(),
{
    let mut at = from;
    while at < hay.len() && is_space_byte(hay[at])
        invariant
            from <= at <= hay.len(),
            skip_spaces(hay@, from as int) == skip_spaces(hay@, at as int),
        decreases hay.len() - at,
    {
        at += 1;
    }
    at
}

/// Whether `b` is white space.
pub fn is_space_byte(b: u8) -> (r: bool)
    ensures
        r == is_space(b),
{
    b == 0x20 || b == 0x09 || b == 0x0d || b == 0x0a
}

/// The end of `[from, to)` once the white space at its end is taken away.
pub fn trim_end(hay: &[u8], from: usize, to: usize) -> (end: usize)
    requires
        from <= to <= hay.len(),
    ensures
        end == skip_spaces_back(hay@, from as int, to as int),
        from <= end <= to,
{
    let mut end = to;
    while from < end && is_space_byte(hay[end - 1])
        invariant
            from <= end <= to <= hay.len(),
            skip_spaces_back(hay@, from as int, to as int) == skip_spaces_back(
                hay@,
                from as int,
                end as int,
            ),
        decreases end - from,
    {
        end -= 1;
    }
    end
}

/// The part of `[from, to)` without the white space at both ends.
pub fn trim(hay: &[u8], from: usize, to: usize) -> (r: (usize, usize))
    requires
        from <= to <= hay.len(),
    ensures
        (r.0 as int, r.1 as int) == trim_range(hay@, from as int, to as int),
        from <= r.0 <= r.1 <= to,
{
    let skipped = skip_whitespace(hay, from);
    let start = if skipped < to {
        skipped
    } else {
        to
    };
    (start, trim_end(hay, start, to))
}

/// The bytes of `text` without the white space at both ends.
pub fn trimmed_slice(text: &[u8]) -> (part: &[u8])
    ensures
        part@ == trimmed(text@),
{
    let (a, b) = trim(text, 0, text.len());
    slice_of(text, a, b)
}

/// Every byte of `s` is a space.
pub open spec fn blank(s: Seq<u8>) -> bool {
    forall|i: int| 0 <= i < s.len() ==> #[trigger] s[i] == 0x20
}

/// Whether every byte of `text` is a space.
pub fn is_blank(text: &[u8]) -> (r: bool)
    ensures
        r == blank(text@),
{
    let mut k: usize = 0;
    while k < text.len()
        invariant
            k <= text.len(),
            forall|i: int| 0 <= i < k ==> #[trigger] text@[i] == 0x20,
        decreases text.len() - k,
    {
        if text[k] != 0x20 {
            return false;
        }
        k += 1;
    }
    true
}

/// The part of `hay` in `[from, to)`.
pub fn slice_of(hay: &[u8], from: usize, to: usize) -> (part: &[u8])
    requires
        from <= to <= hay.len(),
    ensures
        part@ == hay@.subrange(from as int, to as int),
{
    &hay[from..to]
}

/// A copy of the bytes of `hay` in `[from, to)`.
pub fn copy_range(hay: &[u8], from: usize, to: usize) -> (out: Vec<u8>)
    requires
        from <= to <= hay.len(),
    ensures
        out@ == hay@.subrange(from as int, to as int),
{
    let mut out: Vec<u8> = Vec::new();
    let mut k = from;
    while k < to
        invariant
            from <= k <= to <= hay.len(),
            out@ == hay@.subrange(from as int, k as int),
        decreases to - k,
    {
        out.push(hay[k]);
        proof {
            assert(out@ =~= hay@.subrange(from as int, k + 1));
        }
        k += 1;
    }
    out
}

/// Reads `text` as a decimal number no larger than `max`.
pub fn decimal_at_most(text: &[u8], max: u64) -> (r: Option<u64>)
    ensures
        match r {
            Some(n) => parse_decimal_below(text@, max as nat + 1) == Some(n as nat) && n <= max,
            None => parse_decimal_below(text@, max as nat + 1).is_none(),
        },
{
    if text.len() == 0 {
        return None;
    }
    let mut value: u64 = 0;
    let mut k: usize = 0;
    while k < text.len()
        invariant
            k <= text.len(),
            all_digits(text@.subrange(0, k as int)),
            value == decimal_value(text@.subrange(0, k as int)),
            value <= max,
        decreases text.len() - k,
    {
        let b = text[k];
        if b < 0x30 || b > 0x39 {
            proof {
                assert(!is_digit(text@[k as int]));
            }
            return None;
        }
        proof {
            let t = text@.subrange(0, k + 1);
            assert(t.drop_last() =~= text@.subrange(0, k as int));
            assert(t.last() == b);
            assert forall|i: int| 0 <= i < t.len() implies is_digit(#[trigger] t[i]) by {
                if i < k {
                    assert(text@.subrange(0, k as int)[i] == t[i]);
                }
            }
        }
        let next = value as u128 * 10 + (b - 0x30) as u128;
        if next > max as u128 {
            proof {
                lemma_too_large(text@, k + 1, max as nat + 1);
            }
            return None;
        }
        value = next as u64;
        k += 1;
    }
    proof {
        assert(text@.subrange(0, k as int) =~= text@);
    }
    Some(value)
}

/// Reads `text` as a decimal number below `limit`.
pub fn decimal_below(text: &[u8], limit: u64) -> (r: Option<u64>)
    ensures
        match r {
            Some(n) => parse_decimal_below(text@, limit as nat) == Some(n as nat) && n < limit,
            None => parse_decimal_below(text@, limit as nat).is_none(),
        },
{
    if limit == 0 {
        None
    } else {
        decimal_at_most(text, limit - 1)
    }
}

/// Once a prefix of digits writes a number at or beyond `limit`, no
/// continuation of it is below `limit`.
proof fn lemma_too_large(s: Seq<u8>, k: int, limit: nat)
    requires
        0 <= k <= s.len(),
        all_digits(s.subrange(0, k)),
        decimal_value(s.subrange(0, k)) >= limit,
    ensures
        parse_decimal_below(s, limit).is_none(),
{
    if all_digits(s) {
        lemma_decimal_value_monotonic(s, k);
    }
}

} // verus!

verus! {

/// The number written by `s` as Rust's unsigned integers read it: an
/// optional `+`, then one or more digits and nothing else; at most `max`.
pub open spec fn parse_unsigned(s: Seq<u8>, max: nat) -> Option<nat> {
    if s.len() > 0 && s[0] == 0x2b {
        parse_decimal_below(s.subrange(1, s.len() as int), max + 1)
    } else {
        parse_decimal_below(s, max + 1)
    }
}

/// Reads `text` as an unsigned integer no larger than `max`.
pub fn unsigned(text: &[u8], max: u64) -> (r: Option<u64>)
    ensures
        match r {
            Some(n) => parse_unsigned(text@, max as nat) == Some(n as nat) && n <= max,
            None => parse_unsigned(text@, max as nat).is_none(),
        },
{
    if text.len() > 0 && text[0] == 0x2b {
        decimal_at_most(slice_of(text, 1, text.len()), max)
    } else {
        decimal_at_most(text, max)
    }
}

/// The first offset at or after `from` that holds no digit.
pub open spec fn skip_digits(s: Seq<u8>, from: int) -> int
    decreases s.len() - from,
{
    if 0 <= from < s.len() && is_digit(s[from]) {
        skip_digits(s, from + 1)
    } else {
        from
    }
}

/// Skips digits from `from` on.
pub fn skip_digit_run(text: &[u8], from: usize) -> (at: usize)
    requires
        from <= text.len(),
    ensures
        at == skip_digits(text@, from as int),
        from <= at <= text.len(),
{
    let mut at = from;
    while at < text.len() && text[at] >= 0x30 && text[at] <= 0x39
        invariant
            from <= at <= text.len(),
            skip_digits(text@, from as int) == skip_digits(text@, at as int),
        decreases text.len() - at,
    {
        at += 1;
    }
    at
}

/// `b` in lower case, where it is an ASCII capital.
pub open spec fn lower(b: u8) -> u8 {
    if 0x41 <= b <= 0x5a {
        (b + 0x20) as u8
    } else {
        b
    }
}

/// `s` with its ASCII capitals in lower case.
pub open spec fn lowered(s: Seq<u8>) -> Seq<u8> {
    Seq::new(s.len(), |i: int| lower(s[i]))
}

/// `s` is a plus or minus sign.
pub open spec fn is_sign(b: u8) -> bool {
    b == 0x2b || b == 0x2d
}

/// Whether `s` writes a number with a fraction as Rust reads one: an
/// optional sign, then `inf`, `infinity` or `nan` in any letter case, or
/// digits with at most one point among them, at least one digit in all, and
/// optionally an exponent (`e` or `E`, an optional sign, digits).
pub open spec fn is_float_text(s: Seq<u8>) -> bool {
    let start: int = if s.len() > 0 && is_sign(s[0]) {
        1
    } else {
        0
    };
    let word = lowered(s.subrange(start, s.len() as int));
    let whole = skip_digits(s, start);
    let fraction = if whole < s.len() && s[whole] == 0x2e {
        skip_digits(s, whole + 1)
    } else {
        whole
    };
    let digits = (whole - start) + if fraction > whole {
        fraction - whole - 1
    } else {
        0
    };
    let power = if fraction + 1 < s.len() && is_sign(s[fraction + 1]) {
        fraction + 2
    } else {
        fraction + 1
    };
    ||| word == "inf".spec_bytes()
    ||| word == "infinity".spec_bytes()
    ||| word == "nan".spec_bytes()
    ||| (digits >= 1 && (fraction == s.len() || (fraction < s.len() && lower(s[fraction]) == 0x65
        && skip_digits(s, power) > power && skip_digits(s, power) == s.len())))
}

/// Whether `text`, in lower case, is `word`.
fn is_word(text: &[u8], word: &[u8]) -> (r: bool)
    ensures
        r == (lowered(text@) == word@),
{
    if text.len() != word.len() {
        return false;
    }
    let mut k: usize = 0;
    while k < text.len()
        invariant
            text.len() == word.len(),
            k <= text.len(),
            forall|j: int| 0 <= j < k ==> lower(text@[j]) == word@[j],
        decreases text.len() - k,
    {
        let b = text[k];
        let low = if b >= 0x41 && b <= 0x5a {
            b + 0x20
        } else {
            b
        };
        if low != word[k] {
            proof {
                assert(lowered(text@)[k as int] != word@[k as int]);
            }
            return false;
        }
        k += 1;
    }
    proof {
        assert(lowered(text@) =~= word@);
    }
    true
}

/// Whether `text` writes a number with a fraction as Rust reads one.
pub fn is_float(text: &[u8]) -> (r: bool)
    ensures
        r == is_float_text(text@),
{
    let n = text.len();
    let start: usize = if n > 0 && (text[0] == 0x2b || text[0] == 0x2d) {
        1
    } else {
        0
    };
    let rest = slice_of(text, start, n);
    if is_word(rest, "inf".as_bytes()) || is_word(rest, "infinity".as_bytes()) || is_word(
        rest,
        "nan".as_bytes(),
    ) {
        return true;
    }
    let whole = skip_digit_run(text, start);
    let fraction = if whole < n && text[whole] == 0x2e {
        skip_digit_run(text, whole + 1)
    } else {
        whole
    };
    let digits = (whole - start) + if fraction > whole {
        fraction - whole - 1
    } else {
        0
    };
    if digits < 1 {
        return false;
    }
    if fraction == n {
        return true;
    }
    if text[fraction] != 0x65 && text[fraction] != 0x45 {
        return false;
    }
    let power = if fraction + 1 < n && (text[fraction + 1] == 0x2b || text[fraction + 1] == 0x2d) {
        fraction + 2
    } else {
        fraction + 1
    };
    if power > n {
        return false;
    }
    let end = skip_digit_run(text, power);
    end > power && end == n
}

} // verus!

verus! {

/// The text of `s` from `from` on, with `with` in place of each occurrence
/// of `pattern`, the occurrences taken from left to right, none overlapping
/// the one before.
pub open spec fn replaced_from(s: Seq<u8>, pattern: Seq<u8>, with: Seq<u8>, from: int) -> Seq<u8>
    decreases s.len() - from,
{
    match find_from(s, pattern, from) {
        Some(at) if pattern.len() > 0 && from <= at && at + pattern.len() <= s.len() => s.subrange(
            from,
            at,
        ) + with + replaced_from(s, pattern, with, at + pattern.len()),
        _ => s.subrange(from, s.len() as int),
    }
}

/// `s` with `with` in place of each occurrence of `pattern`.
pub open spec fn replaced(s: Seq<u8>, pattern: Seq<u8>, with: Seq<u8>) -> Seq<u8> {
    replaced_from(s, pattern, with, 0)
}

/// Where a byte that the pattern does not hold is put in place of each
/// occurrence of the pattern, the pattern stands nowhere in the result.
pub proof fn lemma_replaced_holds_no_pattern(s: Seq<u8>, pattern: Seq<u8>, c: u8, from: int)
    requires
        0 <= from <= s.len(),
        pattern.len() > 0,
        forall|i: int| 0 <= i < pattern.len() ==> pattern[i] != c,
    ensures
        forall|q: int| !occurs_at(replaced_from(s, pattern, seq![c], from), pattern, q),
        find_from(replaced_from(s, pattern, seq![c], from), pattern, 0).is_none(),
    decreases s.len() - from,
{
    let r = replaced_from(s, pattern, seq![c], from);
    let n = pattern.len() as int;
    lemma_find_from_first(s, pattern, from);
    match find_from(s, pattern, from) {
        Some(at) if pattern.len() > 0 && from <= at && at + pattern.len() <= s.len() => {
            let next = at + n;
            let rest = replaced_from(s, pattern, seq![c], next);
            let a = at - from;
            lemma_replaced_holds_no_pattern(s, pattern, c, next);
            assert(r =~= s.subrange(from, at) + seq![c] + rest);
            assert forall|q: int| !occurs_at(r, pattern, q) by {
                if occurs_at(r, pattern, q) {
                    if q + n <= a {
                        assert(s.subrange(from + q, from + q + n) =~= r.subrange(q, q + n));
                        assert(occurs_at(s, pattern, from + q));
                    } else if q <= a {
                        assert(r[a] == c);
                        assert(r.subrange(q, q + n)[a - q] == r[a]);
                        assert(pattern[a - q] != c);
                    } else {
                        assert(rest.subrange(q - a - 1, q - a - 1 + n) =~= r.subrange(q, q + n));
                        assert(occurs_at(rest, pattern, q - a - 1));
                    }
                }
            }
        },
        _ => {
            assert forall|q: int| !occurs_at(r, pattern, q) by {
                if occurs_at(r, pattern, q) {
                    assert(s.subrange(from + q, from + q + n) =~= r.subrange(q, q + n));
                    assert(occurs_at(s, pattern, from + q));
                }
            }
        },
    }
    lemma_find_from_first(r, pattern, 0);
    if find_from(r, pattern, 0).is_some() {
        assert(occurs_at(r, pattern, find_from(r, pattern, 0).unwrap()));
    }
}

/// Where the pattern stands nowhere, nothing is replaced.
pub proof fn lemma_replaced_nothing(s: Seq<u8>, pattern: Seq<u8>, with: Seq<u8>)
    requires
        find_from(s, pattern, 0).is_none(),
    ensures
        replaced(s, pattern, with) == s,
{
    assert(s.subrange(0, s.len() as int) =~= s);
}

/// Appends the bytes of `part` to `out`.
pub fn push_all(out: &mut Vec<u8>, part: &[u8])
    ensures
        final(out)@ == old(out)@ + part@,
{
    let mut k: usize = 0;
    while k < part.len()
        invariant
            k <= part.len(),
            out@ == old(out)@ + part@.subrange(0, k as int),
        decreases part.len() - k,
    {
        out.push(part[k]);
        proof {
            assert(out@ =~= old(out)@ + part@.subrange(0, k + 1));
        }
        k += 1;
    }
    proof {
        assert(part@.subrange(0, k as int) =~= part@);
    }
}

/// `text` with `with` in place of each occurrence of `pattern`.
pub fn replace(text: &[u8], pattern: &[u8], with: &[u8]) -> (out: Vec<u8>)
    ensures
        out@ == replaced(text@, pattern@, with@),
{
    let mut out: Vec<u8> = Vec::new();
    let mut from: usize = 0;
    loop
        invariant_except_break
            from <= text.len(),
            replaced(text@, pattern@, with@) == out@ + replaced_from(
                text@,
                pattern@,
                with@,
                from as int,
            ),
        ensures
            out@ == replaced(text@, pattern@, with@),
        decreases text.len() - from,
    {
        match find(text, pattern, from) {
            Some(at) => {
                if pattern.len() > 0 {
                    let ghost before = out@;
                    push_all(&mut out, slice_of(text, from, at));
                    push_all(&mut out, with);
                    proof {
                        let rest = replaced_from(
                            text@,
                            pattern@,
                            with@,
                            at + pattern@.len(),
                        );
                        assert(before + (text@.subrange(from as int, at as int) + with@ + rest)
                            =~= out@ + rest);
                    }
                    from = at + pattern.len();
                } else {
                    push_all(&mut out, slice_of(text, from, text.len()));
                    break ;
                }
            },
            None => {
                push_all(&mut out, slice_of(text, from, text.len()));
                break ;
            },
        }
    }
    out
}

} // verus!
