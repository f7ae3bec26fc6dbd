//! The Windows single-byte code pages: encoding through `encoding_rs`,
//! which reports characters that have no byte, and decoding through
//! mail-parser, which puts U+FFFD for bytes that have no character.
use vstd::prelude::*;
use crate::engine::bytes_view;

verus! {

/// What `encoding_rs` gives when it encodes `s` into the Windows code page
/// numbered `page`: `None` when some character of `s` has no byte there.
pub uninterp spec fn codepage_encoded(page: nat, s: Seq<char>) -> Option<Seq<u8>>;

/// What mail-parser's decoder for the Windows code page numbered `page`
/// gives for `b`.
pub uninterp spec fn codepage_decoded(page: nat, b: Seq<u8>) -> Seq<char>;

/// Relies on `encoding_rs::WINDOWS_1252.encode`: the bytes, unless it reports
/// unmappable characters.
#[verifier::external_body]
pub(crate) fn encode_cp1252(s: &str) -> (r: Option<Vec<u8>>)
    ensures
        bytes_view(r) == codepage_encoded(1252, s@),
{
    let (output, _, unmappable) = encoding_rs::WINDOWS_1252.encode(s);
    if unmappable {
        None
    } else {
        Some(output.into_owned())
    }
}

/// Relies on mail-parser's decoder for the `cp1252` charset, which
/// `charset_decoder` always finds.
#[verifier::external_body]
pub(crate) fn decode_cp1252(b: &[u8]) -> (r: String)
    ensures
        r@ == codepage_decoded(1252, b@),
{
    let decoder = mail_parser::decoders::charsets::map::charset_decoder(b"cp1252").expect(
        "a known charset",
    );
    decoder(b)
}

/// Relies on `encoding_rs::WINDOWS_1250.encode`: the bytes, unless it reports
/// unmappable characters.
#[verifier::external_body]
pub(crate) fn encode_cp1250(s: &str) -> (r: Option<Vec<u8>>)
    ensures
        bytes_view(r) == codepage_encoded(1250, s@),
{
    let (output, _, unmappable) = encoding_rs::WINDOWS_1250.encode(s);
    if unmappable {
        None
    } else {
        Some(output.into_owned())
    }
}

/// Relies on mail-parser's decoder for the `cp1250` charset, which
/// `charset_decoder` always finds.
#[verifier::external_body]
pub(crate) fn decode_cp1250(b: &[u8]) -> (r: String)
    ensures
        r@ == codepage_decoded(1250, b@),
{
    let decoder = mail_parser::decoders::charsets::map::charset_decoder(b"cp1250").expect(
        "a known charset",
    );
    decoder(b)
}

/// Relies on `encoding_rs::WINDOWS_1253.encode`: the bytes, unless it reports
/// unmappable characters.
#[verifier::external_body]
pub(crate) fn encode_cp1253(s: &str) -> (r: Option<Vec<u8>>)
    ensures
        bytes_view(r) == codepage_encoded(1253, s@),
{
    let (output, _, unmappable) = encoding_rs::WINDOWS_1253.encode(s);
    if unmappable {
        None
    } else {
        Some(output.into_owned())
    }
}

/// Relies on mail-parser's decoder for the `cp1253` charset, which
/// `charset_decoder` always finds.
#[verifier::external_body]
pub(crate) fn decode_cp1253(b: &[u8]) -> (r: String)
    ensures
        r@ == codepage_decoded(1253, b@),
{
    let decoder = mail_parser::decoders::charsets::map::charset_decoder(b"cp1253").expect(
        "a known charset",
    );
    decoder(b)
}

/// Relies on `encoding_rs::WINDOWS_1254.encode`: the bytes, unless it reports
/// unmappable characters.
#[verifier::external_body]
pub(crate) fn encode_cp1254(s: &str) -> (r: Option<Vec<u8>>)
    ensures
        bytes_view(r) == codepage_encoded(1254, s@),
{
    let (output, _, unmappable) = encoding_rs::WINDOWS_1254.encode(s);
    if unmappable {
        None
    } else {
        Some(output.into_owned())
    }
}

/// Relies on mail-parser's decoder for the `cp1254` charset, which
/// `charset_decoder` always finds.
#[verifier::external_body]
pub(crate) fn decode_cp1254(b: &[u8]) -> (r: String)
    ensures
        r@ == codepage_decoded(1254, b@),
{
    let decoder = mail_parser::decoders::charsets::map::charset_decoder(b"cp1254").expect(
        "a known charset",
    );
    decoder(b)
}

/// Relies on `encoding_rs::WINDOWS_1255.encode`: the bytes, unless it reports
/// unmappable characters.
#[verifier::external_body]
pub(crate) fn encode_cp1255(s: &str) -> (r: Option<Vec<u8>>)
    ensures
        bytes_view(r) == codepage_encoded(1255, s@),
{
    let (output, _, unmappable) = encoding_rs::WINDOWS_1255.encode(s);
    if unmappable {
        None
    } else {
        Some(output.into_owned())
    }
}

/// Relies on mail-parser's decoder for the `cp1255` charset, which
/// `charset_decoder` always finds.
#[verifier::external_body]
pub(crate) fn decode_cp1255(b: &[u8]) -> (r: String)
    ensures
        r@ == codepage_decoded(1255, b@),
{
    let decoder = mail_parser::decoders::charsets::map::charset_decoder(b"cp1255").expect(
        "a known charset",
    );
    decoder(b)
}

} // verus!
