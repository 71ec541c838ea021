//! Text as `str` and `String` beside text as bytes: comparing, decoding and
//! joining.

use vstd::prelude::*;
use vstd::string::StringExecFns;
use crate::scan::{find_from, lemma_find_from_first, replaced_from};
use vstd::utf8::{
    decode_utf8, encode_utf8, encode_utf8_decode_utf8, encode_utf8_valid_utf8, is_ascii_chars,
    is_ascii_chars_encode_utf8, is_char_boundary, is_char_boundary_iff_not_is_continuation_byte,
    is_char_boundary_start_end_of_seq, is_continuation_byte, length_of_first_scalar,
    pop_first_scalar, valid_first_scalar, valid_utf8, valid_utf8_concat, valid_utf8_split,
};

verus! {

/// What `String::from_utf8_lossy` makes of `bytes`: the characters that the
/// bytes encode, with U+FFFD in place of each ill-formed sequence.  Of
/// well-formed bytes it is the text that they encode.
pub uninterp spec fn lossy_text(bytes: Seq<u8>) -> Seq<char>;

/// Every byte of `bytes` is an ASCII character.
pub open spec fn is_ascii_bytes(bytes: Seq<u8>) -> bool {
    forall|i: int| 0 <= i < bytes.len() ==> #[trigger] bytes[i] < 128
}

/// The text of bytes that are ASCII characters: character for byte.
pub open spec fn ascii_text(bytes: Seq<u8>) -> Seq<char> {
    Seq::new(bytes.len(), |i: int| bytes[i] as char)
}

/// Bytes that are ASCII characters are well-formed UTF-8, and encode the
/// text that has a character for each byte.
pub proof fn lemma_ascii_text(bytes: Seq<u8>)
    requires
        is_ascii_bytes(bytes),
    ensures
        valid_utf8(bytes),
        decode_utf8(bytes) == ascii_text(bytes),
        encode_utf8(ascii_text(bytes)) == bytes,
{
    let chars = ascii_text(bytes);
    assert(is_ascii_chars(chars)) by {
        assert forall|i: int| 0 <= i < chars.len() implies '\0' <= #[trigger] chars[i]
            <= '\u{7f}' by {
            assert(bytes[i] < 128);
        }
    }
    is_ascii_chars_encode_utf8(chars);
    assert(encode_utf8(chars) =~= bytes) by {
        assert forall|i: int| 0 <= i < bytes.len() implies encode_utf8(chars)[i] == bytes[i] by {
            assert(chars[i] as u8 == encode_utf8(chars)[i]);
            assert(bytes[i] < 128);
        }
    }
    encode_utf8_valid_utf8(chars);
    encode_utf8_decode_utf8(chars);
}

/// ASCII bytes after ASCII bytes are ASCII bytes.
pub proof fn lemma_ascii_concat(a: Seq<u8>, b: Seq<u8>)
    requires
        is_ascii_bytes(a),
        is_ascii_bytes(b),
    ensures
        is_ascii_bytes(a + b),
{
    assert forall|i: int| 0 <= i < (a + b).len() implies #[trigger] (a + b)[i] < 128 by {
        if i < a.len() {
            assert((a + b)[i] == a[i]);
        } else {
            assert((a + b)[i] == b[i - a.len()]);
        }
    }
}

/// A part of well-formed UTF-8 that begins and ends where a character
/// begins or the text ends is well-formed.
pub proof fn lemma_part_well_formed(s: Seq<u8>, from: int, to: int)
    requires
        valid_utf8(s),
        0 <= from <= to <= s.len(),
        is_char_boundary(s, from),
        is_char_boundary(s, to),
    ensures
        valid_utf8(s.subrange(from, to)),
{
    let head = s.subrange(0, to);
    valid_utf8_split(s, to);
    if from < to {
        is_char_boundary_iff_not_is_continuation_byte(s, from);
        assert(head[from] == s[from]);
        is_char_boundary_iff_not_is_continuation_byte(head, from);
    } else {
        is_char_boundary_start_end_of_seq(head);
    }
    valid_utf8_split(head, from);
    assert(head.subrange(from, head.len() as int) =~= s.subrange(from, to));
}

/// In well-formed UTF-8 a character begins, or the text ends, after an
/// ASCII character.
pub proof fn lemma_boundary_after_ascii(s: Seq<u8>, at: int)
    requires
        valid_utf8(s),
        0 <= at < s.len(),
        is_char_boundary(s, at),
        s[at] < 128,
    ensures
        is_char_boundary(s, at + 1),
{
    if at + 1 == s.len() {
        is_char_boundary_start_end_of_seq(s);
    } else {
        let tail = s.subrange(at, s.len() as int);
        valid_utf8_split(s, at);
        assert(tail[0] == s[at]);
        assert(length_of_first_scalar(tail) == 1);
        let rest = pop_first_scalar(tail);
        assert(valid_utf8(rest));
        assert(rest.len() > 0);
        assert(rest[0] == s[at + 1]);
        assert(valid_first_scalar(rest));
        assert(!is_continuation_byte(rest[0]));
        is_char_boundary_iff_not_is_continuation_byte(s, at + 1);
    }
}

/// In well-formed UTF-8 a character begins, or the text ends, after a run
/// of ASCII characters that begins where a character begins.
pub proof fn lemma_boundary_after_ascii_run(s: Seq<u8>, at: int, run: int)
    requires
        valid_utf8(s),
        0 <= at,
        0 <= run,
        at + run <= s.len(),
        is_char_boundary(s, at),
        is_ascii_bytes(s.subrange(at, at + run)),
    ensures
        is_char_boundary(s, at + run),
    decreases run,
{
    if run > 0 {
        assert(is_ascii_bytes(s.subrange(at, at + run - 1))) by {
            assert forall|i: int| 0 <= i < run - 1 implies #[trigger] s.subrange(
                at,
                at + run - 1,
            )[i] < 128 by {
                assert(s.subrange(at, at + run)[i] < 128);
            }
        }
        lemma_boundary_after_ascii_run(s, at, run - 1);
        assert(s.subrange(at, at + run)[run - 1] < 128);
        lemma_boundary_after_ascii(s, at + run - 1);
    }
}

/// Well-formed UTF-8 stays well-formed where an ASCII text is put in place
/// of each occurrence of an ASCII pattern.
pub proof fn lemma_replaced_well_formed(s: Seq<u8>, pattern: Seq<u8>, with: Seq<u8>, from: int)
    requires
        valid_utf8(s),
        is_ascii_bytes(pattern),
        is_ascii_bytes(with),
        0 <= from <= s.len(),
        is_char_boundary(s, from),
    ensures
        valid_utf8(replaced_from(s, pattern, with, from)),
    decreases s.len() - from,
{
    lemma_find_from_first(s, pattern, from);
    is_char_boundary_start_end_of_seq(s);
    match find_from(s, pattern, from) {
        Some(at) if pattern.len() > 0 && from <= at && at + pattern.len() <= s.len() => {
            let next = at + pattern.len();
            assert(s[at] == s.subrange(at, next)[0]);
            assert(pattern[0] < 128);
            is_char_boundary_iff_not_is_continuation_byte(s, at);
            lemma_boundary_after_ascii_run(s, at, pattern.len() as int);
            lemma_part_well_formed(s, from, at);
            lemma_ascii_text(with);
            lemma_replaced_well_formed(s, pattern, with, next);
            valid_utf8_concat(s.subrange(from, at), with);
            valid_utf8_concat(
                s.subrange(from, at) + with,
                replaced_from(s, pattern, with, next),
            );
        },
        _ => {
            lemma_part_well_formed(s, from, s.len() as int);
        },
    }
}

/// Two texts with the same UTF-8 bytes are the same text.
pub proof fn lemma_same_bytes_same_text(a: Seq<char>, b: Seq<char>)
    requires
        encode_utf8(a) == encode_utf8(b),
    ensures
        a == b,
{
    encode_utf8_decode_utf8(a);
    encode_utf8_decode_utf8(b);
}

/// Whether two byte texts are equal.
pub fn bytes_eq(a: &[u8], b: &[u8]) -> (r: bool)
    ensures
        r == (a@ == b@),
{
    if a.len() != b.len() {
        return false;
    }
    let mut k: usize = 0;
    while k < a.len()
        invariant
            a.len() == b.len(),
            k <= a.len(),
            forall|j: int| 0 <= j < k ==> a@[j] == b@[j],
        decreases a.len() - k,
    {
        if a[k] != b[k] {
            return false;
        }
        k += 1;
    }
    proof {
        assert(a@ =~= b@);
    }
    true
}

/// Whether two texts are equal.
pub fn str_eq(a: &str, b: &str) -> (r: bool)
    ensures
        r == (a@ == b@),
{
    let r = bytes_eq(a.as_bytes(), b.as_bytes());
    proof {
        if r {
            lemma_same_bytes_same_text(a@, b@);
        }
    }
    r
}

/// The texts of `parts` one after another.
pub open spec fn joined(parts: Seq<Seq<char>>) -> Seq<char>
    decreases parts.len(),
{
    if parts.len() == 0 {
        Seq::empty()
    } else {
        joined(parts.drop_last()) + parts.last()
    }
}

/// The texts of `parts` one after another.
pub fn join(parts: &Vec<String>) -> (whole: String)
    ensures
        whole@ == joined(parts.deep_view()),
{
    let mut whole = String::new();
    let mut i: usize = 0;
    while i < parts.len()
        invariant
            i <= parts.len(),
            whole@ == joined(parts.deep_view().subrange(0, i as int)),
        decreases parts.len() - i,
    {
        proof {
            let next = parts.deep_view().subrange(0, i + 1);
            assert(next.drop_last() =~= parts.deep_view().subrange(0, i as int));
            assert(next.last() == parts[i as int]@);
        }
        whole.append(parts[i].as_str());
        i += 1;
    }
    proof {
        assert(parts.deep_view().subrange(0, i as int) =~= parts.deep_view());
    }
    whole
}

/// `first`, a space, and `last`.
pub open spec fn full_name(first: Seq<char>, last: Seq<char>) -> Seq<char> {
    first + " "@ + last
}

/// `first`, a space, and `last`.
pub fn name_of(first: &str, last: &str) -> (name: String)
    ensures
        name@ == full_name(first@, last@),
{
    let mut name = first.to_owned();
    name.append(" ");
    name.append(last);
    name
}

/// What `htmlescape::decode_html` makes of `text`: the text with each HTML
/// entity replaced by the character it names; nothing where an entity is
/// unknown, malformed or unfinished.
pub uninterp spec fn entities_decoded(text: Seq<char>) -> Option<Seq<char>>;

/// `htmlescape::decode_html`, which replaces HTML entities by the characters
/// they name and fails on an entity that is unknown, malformed or
/// unfinished.
#[verifier::external_body]
pub(crate) fn decode_entities(text: &str) -> (decoded: Option<String>)
    ensures
        decoded.deep_view() == entities_decoded(text@),
{
    htmlescape::decode_html(text).ok()
}

/// `text` with its HTML entities decoded, or as it stands where they cannot
/// be decoded.
pub open spec fn html_text(text: Seq<char>) -> Seq<char> {
    match entities_decoded(text) {
        Some(decoded) => decoded,
        None => text,
    }
}

/// `text` with its HTML entities decoded, or as it stands where they cannot
/// be decoded.
pub fn html_decoded(text: &str) -> (decoded: String)
    ensures
        decoded@ == html_text(text@),
{
    match decode_entities(text) {
        Some(decoded) => decoded,
        None => text.to_owned(),
    }
}

/// `String::from_utf8_lossy`, which decodes UTF-8 and never fails: ill-formed
/// input comes out with replacement characters, well-formed input as the
/// characters it encodes.
#[verifier::external_body]
pub(crate) fn decode_lossy(bytes: &[u8]) -> (text: String)
    ensures
        text@ == lossy_text(bytes@),
        valid_utf8(bytes@) ==> text@ == decode_utf8(bytes@),
{
    String::from_utf8_lossy(bytes).into_owned()
}

} // verus!
