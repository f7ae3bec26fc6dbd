use deencode::mixed::{mixed_decode, mixed_encode};
use deencode::{Engine, Mixed816BEEngine, Mixed816LEEngine};

#[test]
fn ascii_round_trips() {
    let text = "Plain ASCII, with ~ punctuation!\n\t";
    for big_endian in [false, true] {
        let encoded = mixed_encode(text, big_endian);
        assert_eq!(encoded, text.as_bytes());
        assert_eq!(mixed_decode(&encoded, big_endian), text);
    }
}

#[test]
fn big_endian_surrogate_pair() {
    let engine = Mixed816BEEngine {};
    assert_eq!(engine.encode("\u{1f600}").unwrap(), vec![0xd8, 0x3d, 0xde, 0x00]);
    assert_eq!(engine.decode(&[0xd8, 0x3d, 0xde, 0x10]), "\u{1f610}");
}

#[test]
fn little_endian_units() {
    let engine = Mixed816LEEngine {};
    assert_eq!(engine.encode("\u{e9}").unwrap(), vec![0xe9, 0x00]);
    assert_eq!(engine.encode("\u{1f600}").unwrap(), vec![0x3d, 0xd8, 0x00, 0xde]);
}

#[test]
fn dangling_final_byte() {
    assert_eq!(mixed_decode(b"abc\xe9", false), "abc\u{fffd}");
    assert_eq!(mixed_decode(b"abc\xe9", true), "abc\u{fffd}");
    assert_eq!(mixed_decode(&[0x80], true), "\u{fffd}");
}

#[test]
fn high_surrogate_without_second_unit() {
    // The partial tail is not read again as ASCII.
    assert_eq!(mixed_decode(&[0xd8, 0x3d, 0x41], true), "\u{fffd}A");
    assert_eq!(mixed_decode(&[0xd8, 0x3d], true), "\u{fffd}");
}

#[test]
fn surrogate_pair_that_does_not_decode() {
    // A high surrogate followed by a unit that is not a low surrogate.
    assert_eq!(mixed_decode(&[0xd8, 0x3d, 0x00, 0x41, 0x42], true), "\u{fffd}B");
    // A low surrogate first.
    assert_eq!(mixed_decode(&[0xdc, 0x00, 0xdc, 0x00], true), "\u{fffd}");
}

#[test]
fn mixed_text() {
    let text = "Cl\u{e9}ment";
    let le = mixed_encode(text, false);
    assert_eq!(le, vec![0x43, 0x6c, 0xe9, 0x00, 0x6d, 0x65, 0x6e, 0x74]);
    assert_eq!(mixed_decode(&le, false), text);
    // In big-endian order the zero byte comes first and reads as ASCII.
    let be = mixed_encode(text, true);
    assert_eq!(mixed_decode(&be, true), "Cl\u{0}\u{e96d}ent");
    // In little-endian order the first byte of a surrogate pair is ASCII.
    assert_eq!(mixed_decode(&mixed_encode("\u{1f600}", false), false), "=\u{d8}\u{fffd}");
    assert_eq!(
        mixed_encode("a\u{e9}b", true),
        vec![0x61, 0x00, 0xe9, 0x62]
    );
}
