use deencode::{
    CP1253Engine, CP1254Engine, CP1255Engine, Engine, Latin1Engine, Latin2Engine,
    Mixed816BEEngine, Mixed816LEEngine, Utf7Engine, Utf8Engine,
};

#[test]
fn cp1253engine_encode() {
    let engine = CP1253Engine {};

    let encoded = engine.encode("Hello").unwrap();
    assert_eq!(encoded, &[0x48, 0x65, 0x6c, 0x6c, 0x6f]);

    let encoded = engine.encode("\u{3bc}").unwrap();
    assert_eq!(encoded, &[0xec]);

    assert!(engine.encode("\u{1f600}").is_none());
}

#[test]
fn cp1253engine_decode() {
    let engine = CP1253Engine {};

    let decoded = engine.decode(&[0x77, 0x6f, 0x72, 0x6c, 0x64, 0x21]);
    assert_eq!(decoded, "world!");

    let decoded = engine.decode(&[0xe8]);
    assert_eq!(decoded, "\u{3b8}");

    let decoded = engine.decode(&[0x81]);
    assert_eq!(decoded, "\u{fffd}");
}

#[test]
fn cp1254engine_encode() {
    let engine = CP1254Engine {};

    let encoded = engine.encode("Hello").unwrap();
    assert_eq!(encoded, &[0x48, 0x65, 0x6c, 0x6c, 0x6f]);

    let encoded = engine.encode("\u{e9}").unwrap();
    assert_eq!(encoded, &[0xe9]);

    let encoded = engine.encode("\u{20ac}").unwrap();
    assert_eq!(encoded, &[0x80]);

    assert!(engine.encode("\u{1f600}").is_none());
}

#[test]
fn cp1254engine_decode() {
    let engine = CP1254Engine {};

    let decoded = engine.decode(&[0x77, 0x6f, 0x72, 0x6c, 0x64, 0x21]);
    assert_eq!(decoded, "world!");

    let decoded = engine.decode(&[0xe8]);
    assert_eq!(decoded, "\u{e8}");

    let decoded = engine.decode(&[0x81]);
    assert_eq!(decoded, "\u{fffd}");
}

#[test]
fn cp1255engine_encode() {
    let engine = CP1255Engine {};

    let encoded = engine.encode("Hello").unwrap();
    assert_eq!(encoded, &[0x48, 0x65, 0x6c, 0x6c, 0x6f]);

    let encoded = engine.encode("\u{5d0}").unwrap();
    assert_eq!(encoded, &[0xe0]);

    assert!(engine.encode("\u{1f600}").is_none());
}

#[test]
fn cp1255engine_decode() {
    let engine = CP1255Engine {};

    let decoded = engine.decode(&[0x77, 0x6f, 0x72, 0x6c, 0x64, 0x21]);
    assert_eq!(decoded, "world!");

    let decoded = engine.decode(&[0x80]);
    assert_eq!(decoded, "\u{20ac}");

    let decoded = engine.decode(&[0x81]);
    assert_eq!(decoded, "\u{fffd}");
}

#[test]
fn latin1engine_encode() {
    let engine = Latin1Engine {};

    let encoded = engine.encode("Hello").unwrap();
    assert_eq!(encoded, &[0x48, 0x65, 0x6c, 0x6c, 0x6f]);

    let encoded = engine.encode("\u{e9}").unwrap();
    assert_eq!(encoded, &[0xe9]);

    let encoded = engine.encode("\u{20ac}").unwrap();
    assert_eq!(encoded, &[0x80]);

    assert!(engine.encode("\u{1f600}").is_none());
}

#[test]
fn latin1engine_decode() {
    let engine = Latin1Engine {};

    let decoded = engine.decode(&[0x77, 0x6f, 0x72, 0x6c, 0x64, 0x21]);
    assert_eq!(decoded, "world!");

    let decoded = engine.decode(&[0xe8]);
    assert_eq!(decoded, "\u{e8}");

    let decoded = engine.decode(&[0x81]);
    assert_eq!(decoded, "\u{fffd}");
}

#[test]
fn latin2engine_encode() {
    let engine = Latin2Engine {};

    let encoded = engine.encode("Hello").unwrap();
    assert_eq!(encoded, &[0x48, 0x65, 0x6c, 0x6c, 0x6f]);

    let encoded = engine.encode("\u{e9}").unwrap();
    assert_eq!(encoded, &[0xe9]);

    assert!(engine.encode("\u{1f600}").is_none());
}

#[test]
fn latin2engine_decode() {
    let engine = Latin2Engine {};

    let decoded = engine.decode(&[0x77, 0x6f, 0x72, 0x6c, 0x64, 0x21]);
    assert_eq!(decoded, "world!");

    let decoded = engine.decode(&[0xe8]);
    assert_eq!(decoded, "\u{10d}");

    let decoded = engine.decode(&[0x81]);
    assert_eq!(decoded, "\u{fffd}");
}

#[test]
fn mixed816beengine_encode() {
    let engine = Mixed816BEEngine {};

    let encoded = engine.encode("Hello").unwrap();
    assert_eq!(encoded, b"Hello");

    let encoded = engine.encode("\u{e9}").unwrap();
    assert_eq!(encoded, &[0x00, 0xe9]);

    let encoded = engine.encode("\u{1f600}").unwrap();
    assert_eq!(encoded, &[0xd8, 0x3d, 0xde, 0x00]);
}

#[test]
fn mixed816beengine_decode() {
    let engine = Mixed816BEEngine {};

    let decoded = engine.decode(&[0x77, 0x6f, 0x72, 0x6c, 0x64, 0x21]);
    assert_eq!(decoded, "world!");

    let decoded = engine.decode(&[0xd8, 0x3d, 0xde, 0x10]);
    assert_eq!(decoded, "\u{1f610}");
}

#[test]
fn mixed816leengine_encode() {
    let engine = Mixed816LEEngine {};

    let encoded = engine.encode("Hello").unwrap();
    assert_eq!(encoded, b"Hello");

    let encoded = engine.encode("\u{e9}").unwrap();
    assert_eq!(encoded, &[0xe9, 0x00]);

    let encoded = engine.encode("\u{1f600}").unwrap();
    assert_eq!(encoded, &[0x3d, 0xd8, 0x00, 0xde]);
}

#[test]
fn mixed816leengine_decode() {
    let engine = Mixed816LEEngine {};

    let decoded = engine.decode(&[0x77, 0x6f, 0x72, 0x6c, 0x64, 0x21]);
    assert_eq!(decoded, "world!");

    let decoded = engine.decode(&[0xe8, 0x00]);
    assert_eq!(decoded, "\u{e8}");

    let decoded = engine.decode(&[0xa4, 0x20]);
    assert_eq!(decoded, "\u{20a4}");
}

#[test]
fn utf7engine_encode() {
    let engine = Utf7Engine {};

    let encoded = engine.encode("Hello").unwrap();
    assert_eq!(encoded, b"Hello");

    let encoded = engine.encode("\u{e9}").unwrap();
    assert_eq!(encoded, b"&AOk-");

    let encoded = engine.encode("\u{20ac}").unwrap();
    assert_eq!(encoded, b"&IKw-");

    let encoded = engine.encode("\u{1f600}").unwrap();
    assert_eq!(encoded, b"&2D3eAA-");
}

#[test]
fn utf7engine_decode() {
    let engine = Utf7Engine {};

    let decoded = engine.decode(b"world&ACE-");
    assert_eq!(decoded, "world!");

    let decoded = engine.decode(b"&AOg-");
    assert_eq!(decoded, "\u{e8}");

    let decoded = engine.decode(b"&IKQ-");
    assert_eq!(decoded, "\u{20a4}");
}

#[test]
fn utf8engine_encode() {
    let engine = Utf8Engine {};

    let encoded = engine.encode("Hello").unwrap();
    assert_eq!(encoded, &[0x48, 0x65, 0x6c, 0x6c, 0x6f]);

    let encoded = engine.encode("\u{e9}").unwrap();
    assert_eq!(encoded, &[0xc3, 0xa9]);

    let encoded = engine.encode("\u{20ac}").unwrap();
    assert_eq!(encoded, &[0xe2, 0x82, 0xac]);

    let encoded = engine.encode("\u{1f600}").unwrap();
    assert_eq!(encoded, &[0xf0, 0x9f, 0x98, 0x80]);
}

#[test]
fn utf8engine_decode() {
    let engine = Utf8Engine {};

    let decoded = engine.decode(&[0x77, 0x6f, 0x72, 0x6c, 0x64, 0x21]);
    assert_eq!(decoded, "world!");

    let decoded = engine.decode(&[0xc3, 0xa8]);
    assert_eq!(decoded, "\u{e8}");

    let decoded = engine.decode(&[0xe2, 0x82, 0xa4]);
    assert_eq!(decoded, "\u{20a4}");
}

#[test]
fn engine_names() {
    assert_eq!(Utf8Engine {}.get_name(), "UTF-8");
    assert_eq!(Utf7Engine {}.get_name(), "UTF-7");
    assert_eq!(Latin1Engine {}.get_name(), "Latin-1 / Codepage 1252");
    assert_eq!(Latin2Engine {}.get_name(), "Latin-2 / Codepage 1250");
    assert_eq!(CP1253Engine {}.get_name(), "Codepage 1253");
    assert_eq!(CP1254Engine {}.get_name(), "ISO 8859-9 / Codepage 1254");
    assert_eq!(CP1255Engine {}.get_name(), "ISO 8859-8 / Codepage 1255");
    assert_eq!(Mixed816BEEngine {}.get_name(), "mixed UTF-8/UTF-16BE");
    assert_eq!(Mixed816LEEngine {}.get_name(), "mixed UTF-8/UTF-16LE");
}

#[test]
fn utf8_decode_replaces_invalid_bytes() {
    let engine = Utf8Engine {};
    assert_eq!(engine.decode(&[0x41, 0xff, 0x42]), "A\u{fffd}B");
}

#[test]
fn utf7_decode_keeps_ampersand_and_plain_text() {
    let engine = Utf7Engine {};
    assert_eq!(engine.decode(b"a&-b"), "a&b");
    assert_eq!(engine.decode(b"no run & here"), "no run & here");
}

#[test]
fn utf7_decode_replaces_undecodable_runs() {
    let engine = Utf7Engine {};
    // A single base64 symbol is not a whole byte.
    assert_eq!(engine.decode(b"x&A-y"), "x\u{fffd}y");
    // Bits left over in the last symbol.
    assert_eq!(engine.decode(b"&AOl-"), "\u{fffd}");
    // A symbol outside the alphabet.
    assert_eq!(engine.decode(b"&A.g-"), "\u{fffd}");
}

#[test]
fn utf7_round_trip() {
    let engine = Utf7Engine {};
    let text = "th\u{e9}\u{e2}tre & \u{1f600}";
    let encoded = engine.encode(text).unwrap();
    assert_eq!(engine.decode(&encoded), text);
}
