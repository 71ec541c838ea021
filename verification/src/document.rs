//! From the bytes of a source to the text that the extractors read.
//!
//! A saved web page is a MIME message with the page among its parts; the
//! `mail_parser` crate takes such a message apart.  Any other source is
//! text in UTF-8.  Either way a line feed is put in place of each `<br/>`
//! before the extractors read the text.

use crate::scan::{
    find, find_from, lemma_replaced_holds_no_pattern, lemma_replaced_nothing, replace, replaced,
};
use crate::text::{decode_lossy, is_ascii_bytes, lemma_replaced_well_formed, lossy_text};
use vstd::prelude::*;
use vstd::string::StringSliceAdditionalSpecFns;
use vstd::utf8::{
    decode_utf8, decode_utf8_encode_utf8, encode_utf8, encode_utf8_decode_utf8,
    encode_utf8_valid_utf8, is_char_boundary_start_end_of_seq, valid_utf8,
};

verus! {

/// `mail_parser::Message`, a parsed message.
#[verifier::external_type_specification]
#[verifier::external_body]
pub struct ExMessage<'x>(mail_parser::Message<'x>);

/// The message that `mail_parser` reads from `bytes`, if it finds the
/// headers of one.
pub uninterp spec fn message_of(bytes: Seq<u8>) -> Option<mail_parser::Message<'static>>;

/// Whether `message` has a `From` header that names an address.
pub uninterp spec fn has_from(message: mail_parser::Message<'static>) -> bool;

/// The body part of `message` at position `pos` among its HTML bodies, as
/// HTML.
pub uninterp spec fn html_body_of(message: mail_parser::Message<'static>, pos: nat) -> Option<
    Seq<char>,
>;

/// `mail_parser::MessageParser::parse` with the default settings, which
/// never panics and gives nothing where it finds no headers.
#[verifier::external_body]
fn parse_message<'x>(bytes: &'x [u8]) -> (message: Option<mail_parser::Message<'x>>)
    ensures
        message == message_of(bytes@),
{
    mail_parser::MessageParser::default().parse(bytes)
}

/// `mail_parser::Message::from`: whether the message has a `From` header
/// that names an address.
#[verifier::external_body]
fn sender_known(message: &mail_parser::Message) -> (r: bool)
    ensures
        r == has_from(*message),
{
    message.from().is_some()
}

/// `mail_parser::Message::body_html`: a body part of the message as HTML.
#[verifier::external_body]
fn html_body(message: &mail_parser::Message, pos: usize) -> (body: Option<String>)
    ensures
        body.deep_view() == html_body_of(*message, pos as nat),
{
    message.body_html(pos).map(|body| body.into_owned())
}

/// `text` with a line feed in place of each `<br/>`: the text whose bytes
/// are those of `text` with the byte of a line feed in place of each
/// occurrence of the bytes of `<br/>`, taken from left to right.
pub open spec fn without_breaks(text: Seq<char>) -> Seq<char> {
    decode_utf8(replaced(encode_utf8(text), "<br/>".spec_bytes(), "\n".spec_bytes()))
}

/// The bytes of `<br/>` are ASCII characters, none of them a line feed, and
/// a line feed is one byte.
proof fn lemma_break_and_feed()
    ensures
        "<br/>".spec_bytes().len() == 5,
        is_ascii_bytes("<br/>".spec_bytes()),
        forall|i: int| 0 <= i < 5 ==> "<br/>".spec_bytes()[i] != 0x0a,
        "\n".spec_bytes() == seq![0x0au8],
{
    reveal_strlit("<br/>");
    reveal_strlit("\n");
    assert("<br/>"@.len() == 5);
    assert("\n"@.len() == 1);
    assert("<br/>".is_ascii()) by {
        assert("<br/>"@[0] == '<');
        assert("<br/>"@[1] == 'b');
        assert("<br/>"@[2] == 'r');
        assert("<br/>"@[3] == '/');
        assert("<br/>"@[4] == '>');
    }
    assert("\n".is_ascii()) by {
        assert("\n"@[0] == '\n');
    }
    vstd::string::is_ascii_spec_bytes("<br/>");
    vstd::string::is_ascii_spec_bytes("\n");
    assert("\n".spec_bytes() =~= seq![0x0au8]);
}

/// A text with a line feed in place of each `<br/>` is a text: its bytes
/// are those of the text it was made of with the replacement made, and are
/// well-formed UTF-8.  It holds no `<br/>`.  A text without `<br/>` stays
/// as it is.
pub proof fn lemma_without_breaks(text: Seq<char>)
    ensures
        valid_utf8(replaced(encode_utf8(text), "<br/>".spec_bytes(), "\n".spec_bytes())),
        encode_utf8(without_breaks(text)) == replaced(
            encode_utf8(text),
            "<br/>".spec_bytes(),
            "\n".spec_bytes(),
        ),
        find_from(encode_utf8(without_breaks(text)), "<br/>".spec_bytes(), 0).is_none(),
        find_from(encode_utf8(text), "<br/>".spec_bytes(), 0).is_none() ==> without_breaks(text)
            == text,
{
    let bytes = encode_utf8(text);
    let pattern = "<br/>".spec_bytes();
    lemma_break_and_feed();
    encode_utf8_valid_utf8(text);
    is_char_boundary_start_end_of_seq(bytes);
    lemma_replaced_well_formed(bytes, pattern, seq![0x0au8], 0);
    decode_utf8_encode_utf8(replaced(bytes, pattern, seq![0x0au8]));
    lemma_replaced_holds_no_pattern(bytes, pattern, 0x0au8, 0);
    if find_from(bytes, pattern, 0).is_none() {
        lemma_replaced_nothing(bytes, pattern, seq![0x0au8]);
        encode_utf8_decode_utf8(text);
    }
}

/// The text of a source as it is found: the first HTML body of the message,
/// where the bytes are a message with a sender and an HTML body; else the
/// bytes decoded as UTF-8, ill-formed sequences replaced.
pub open spec fn working_text_of(bytes: Seq<u8>) -> Seq<char> {
    match message_of(bytes) {
        Some(message) if has_from(message) => match html_body_of(message, 0) {
            Some(body) => body,
            None => lossy_text(bytes),
        },
        _ => lossy_text(bytes),
    }
}

/// The text of a source that is no saved web page: the bytes decoded as
/// UTF-8, ill-formed sequences replaced, with a line feed in place of each
/// `<br/>`.
pub open spec fn plain_text_of(bytes: Seq<u8>) -> Seq<char> {
    without_breaks(lossy_text(bytes))
}

/// The text that the extractors read of a source with the bytes `bytes`:
/// the text of the source as it is found, whichever way it is found, with a
/// line feed in place of each `<br/>`.
pub open spec fn contents_of(bytes: Seq<u8>) -> Seq<char> {
    without_breaks(working_text_of(bytes))
}

/// `text` with a line feed in place of each `<br/>`.
pub fn replace_breaks(text: String) -> (replaced: String)
    ensures
        replaced@ == without_breaks(text@),
        find_from(encode_utf8(replaced@), "<br/>".spec_bytes(), 0).is_none(),
{
    proof {
        lemma_without_breaks(text@);
    }
    if find(text.as_str().as_bytes(), "<br/>".as_bytes(), 0).is_some() {
        let bytes = replace(text.as_str().as_bytes(), "<br/>".as_bytes(), "\n".as_bytes());
        decode_lossy(bytes.as_slice())
    } else {
        text
    }
}

/// The text of a source as it is found.
pub fn working_text(bytes: &[u8]) -> (text: String)
    ensures
        text@ == working_text_of(bytes@),
{
    match parse_message(bytes) {
        Some(message) => {
            if sender_known(&message) {
                match html_body(&message, 0) {
                    Some(body) => body,
                    None => decode_lossy(bytes),
                }
            } else {
                decode_lossy(bytes)
            }
        },
        None => decode_lossy(bytes),
    }
}

/// The text of a source that is no saved web page.
pub fn plain_text(bytes: &[u8]) -> (text: String)
    ensures
        text@ == plain_text_of(bytes@),
        find_from(encode_utf8(text@), "<br/>".spec_bytes(), 0).is_none(),
{
    replace_breaks(decode_lossy(bytes))
}

/// The text that the extractors read of a source with the bytes `bytes`.
pub fn contents(bytes: &[u8]) -> (text: String)
    ensures
        text@ == contents_of(bytes@),
        find_from(encode_utf8(text@), "<br/>".spec_bytes(), 0).is_none(),
{
    replace_breaks(working_text(bytes))
}

} // verus!
