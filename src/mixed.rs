//! The mixed single-byte/double-byte scheme shared by the big- and
//! little-endian engines.
//!
//! ASCII scalars are written as one byte, verbatim; every other scalar is
//! written as its UTF-16 code units, two bytes each, in the chosen byte order.
use vstd::prelude::*;
use crate::text::{push_char, char_from_u32, REPLACEMENT};

verus! {

broadcast use vstd::utf8::char_is_scalar, vstd::utf8::char_u32_cast;

/// The UTF-16 code units of the scalar value `v`.
pub open spec fn utf16_units(v: u32) -> Seq<u16> {
    if v < 0x10000 {
        seq![v as u16]
    } else {
        seq![
            (0xD800 + (v - 0x10000) / 0x400) as u16,
            (0xDC00 + (v - 0x10000) % 0x400) as u16,
        ]
    }
}

/// The two bytes of a 16-bit unit in the chosen byte order.
pub open spec fn unit_bytes(u: u16, big_endian: bool) -> Seq<u8> {
    if big_endian {
        seq![(u / 256) as u8, (u % 256) as u8]
    } else {
        seq![(u % 256) as u8, (u / 256) as u8]
    }
}

/// The bytes that one character is written as.
pub open spec fn char_bytes(c: char, big_endian: bool) -> Seq<u8> {
    let v = c as u32;
    if v < 0x80 {
        seq![v as u8]
    } else if v < 0x10000 {
        unit_bytes(utf16_units(v)[0], big_endian)
    } else {
        unit_bytes(utf16_units(v)[0], big_endian) + unit_bytes(utf16_units(v)[1], big_endian)
    }
}

/// The encoding of a whole string: the bytes of each character, in order.
pub open spec fn mixed_encoded(s: Seq<char>, big_endian: bool) -> Seq<u8>
    decreases s.len(),
{
    if s.len() == 0 {
        seq![]
    } else {
        mixed_encoded(s.drop_last(), big_endian) + char_bytes(s.last(), big_endian)
    }
}

/// The 16-bit unit read from two bytes in the chosen byte order.
pub open spec fn read_unit(b0: u8, b1: u8, big_endian: bool) -> u16 {
    if big_endian {
        (b0 as int * 256 + b1 as int) as u16
    } else {
        (b1 as int * 256 + b0 as int) as u16
    }
}

/// Whether a 16-bit unit lies in the surrogate range.
pub open spec fn is_surrogate(u: u16) -> bool {
    0xD800 <= u < 0xE000
}

/// The character of a unit outside the surrogate range.
pub open spec fn single_unit_char(u: u16) -> char {
    if vstd::utf8::is_scalar(u as u32) {
        (u as u32) as char
    } else {
        REPLACEMENT
    }
}

/// The character of a surrogate pair, or U+FFFD when the two units are not a
/// high surrogate followed by a low surrogate.
pub open spec fn pair_char(hi: u16, lo: u16) -> char {
    if 0xD800 <= hi < 0xDC00 && 0xDC00 <= lo < 0xE000 {
        (0x10000 + (hi - 0xD800) * 0x400 + (lo - 0xDC00)) as u32 as char
    } else {
        REPLACEMENT
    }
}

/// The decoding of a byte sequence, scanned left to right:
/// an ASCII byte is one character; otherwise a 16-bit unit is read, a lone
/// last byte or a high surrogate without a second unit gives U+FFFD.
pub open spec fn mixed_decoded(b: Seq<u8>, big_endian: bool) -> Seq<char>
    decreases b.len(),
{
    if b.len() == 0 {
        seq![]
    } else if b[0] < 0x80 {
        seq![b[0] as char] + mixed_decoded(b.subrange(1, b.len() as int), big_endian)
    } else if b.len() < 2 {
        seq![REPLACEMENT] + mixed_decoded(b.subrange(1, b.len() as int), big_endian)
    } else {
        let u = read_unit(b[0], b[1], big_endian);
        if !is_surrogate(u) {
            seq![single_unit_char(u)] + mixed_decoded(b.subrange(2, b.len() as int), big_endian)
        } else if b.len() < 4 {
            seq![REPLACEMENT] + mixed_decoded(b.subrange(2, b.len() as int), big_endian)
        } else {
            seq![pair_char(u, read_unit(b[2], b[3], big_endian))] + mixed_decoded(
                b.subrange(4, b.len() as int),
                big_endian,
            )
        }
    }
}

/// Whether every byte is ASCII.
pub open spec fn all_ascii_bytes(b: Seq<u8>) -> bool {
    forall|i: int| 0 <= i < b.len() ==> #[trigger] b[i] < 0x80
}

/// Whether every character is ASCII.
pub open spec fn all_ascii_chars(s: Seq<char>) -> bool {
    forall|i: int| 0 <= i < s.len() ==> (#[trigger] s[i] as u32) < 0x80
}

/// An ASCII run decodes to its characters, whatever follows it.
pub proof fn lemma_decode_ascii_run(a: Seq<u8>, rest: Seq<u8>, big_endian: bool)
    requires
        all_ascii_bytes(a),
    ensures
        mixed_decoded(a + rest, big_endian) == Seq::new(a.len(), |i: int| a[i] as char)
            + mixed_decoded(rest, big_endian),
    decreases a.len(),
{
    let whole = a + rest;
    if a.len() == 0 {
        assert(whole =~= rest);
        assert(Seq::new(a.len(), |i: int| a[i] as char) =~= Seq::<char>::empty());
        assert(Seq::<char>::empty() + mixed_decoded(rest, big_endian) =~= mixed_decoded(rest, big_endian));
    } else {
        let tail = a.subrange(1, a.len() as int);
        lemma_decode_ascii_run(tail, rest, big_endian);
        assert(whole.subrange(1, whole.len() as int) =~= tail + rest);
        assert(whole[0] == a[0]);
        assert(seq![a[0] as char] + Seq::new(tail.len(), |i: int| tail[i] as char) =~= Seq::new(
            a.len(),
            |i: int| a[i] as char,
        ));
        assert(seq![a[0] as char] + (Seq::new(tail.len(), |i: int| tail[i] as char) + mixed_decoded(rest, big_endian))
            =~= (seq![a[0] as char] + Seq::new(tail.len(), |i: int| tail[i] as char)) + mixed_decoded(rest, big_endian));
    }
}

/// A high-bit byte with no byte after it, after an ASCII run, decodes to
/// U+FFFD: it is consumed alone.
pub proof fn lemma_dangling_byte(a: Seq<u8>, last: u8, big_endian: bool)
    requires
        all_ascii_bytes(a),
        last >= 0x80,
    ensures
        mixed_decoded(a.push(last), big_endian) == Seq::new(a.len(), |i: int| a[i] as char).push(
            REPLACEMENT,
        ),
{
    lemma_decode_ascii_run(a, seq![last], big_endian);
    assert(a.push(last) =~= a + seq![last]);
    let one = seq![last];
    assert(one.subrange(1, 1) =~= Seq::<u8>::empty());
    assert(mixed_decoded(one.subrange(1, 1), big_endian) =~= Seq::<char>::empty());
    assert(mixed_decoded(one, big_endian) =~= seq![REPLACEMENT]);
}

proof fn lemma_encode_ascii(s: Seq<char>, big_endian: bool)
    requires
        all_ascii_chars(s),
    ensures
        mixed_encoded(s, big_endian) == Seq::new(s.len(), |i: int| s[i] as u32 as u8),
        all_ascii_bytes(mixed_encoded(s, big_endian)),
    decreases s.len(),
{
    if s.len() > 0 {
        lemma_encode_ascii(s.drop_last(), big_endian);
        assert(mixed_encoded(s, big_endian) =~= Seq::new(s.len(), |i: int| s[i] as u32 as u8));
    } else {
        assert(mixed_encoded(s, big_endian) =~= Seq::new(s.len(), |i: int| s[i] as u32 as u8));
    }
}

/// An all-ASCII string is unchanged by encoding then decoding.
pub proof fn lemma_ascii_round_trip(s: Seq<char>, big_endian: bool)
    requires
        all_ascii_chars(s),
    ensures
        mixed_decoded(mixed_encoded(s, big_endian), big_endian) == s,
{
    let b = mixed_encoded(s, big_endian);
    lemma_encode_ascii(s, big_endian);
    lemma_decode_ascii_run(b, seq![], big_endian);
    assert(b + seq![] =~= b);
    assert forall|i: int| 0 <= i < s.len() implies (b[i] as char) == s[i] by {
        let c = s[i];
        let v = c as u32;
        let w = v as u8;
        assert(b[i] == w);
        assert(w as u32 == v);
        assert((w as char) as u32 == v);
        vstd::utf8::char_u32_cast(w as char, v);
        vstd::utf8::char_u32_cast(c, v);
    }
    assert(Seq::new(b.len(), |i: int| b[i] as char) + Seq::<char>::empty() =~= s);
}

fn push_unit(out: &mut Vec<u8>, u: u16, big_endian: bool)
    ensures
        final(out)@ == old(out)@ + unit_bytes(u, big_endian),
{
    let high = (u / 256) as u8;
    let low = (u % 256) as u8;
    if big_endian {
        out.push(high);
        out.push(low);
    } else {
        out.push(low);
        out.push(high);
    }
    assert(final(out)@ =~= old(out)@ + unit_bytes(u, big_endian));
}

/// Encode `string`: never fails.
pub fn mixed_encode(string: &str, big_endian: bool) -> (r: Vec<u8>)
    ensures
        r@ == mixed_encoded(string@, big_endian),
{
    let mut out: Vec<u8> = Vec::new();
    let ghost mut done: Seq<char> = seq![];
    for c in it: string.chars()
        invariant
            it.seq() == string@,
            done == string@.take(it.index() as int),
            out@ == mixed_encoded(done, big_endian),
    {
        let ghost before = done;
        let v = c as u32;
        if v < 0x80 {
            out.push(v as u8);
        } else if v < 0x10000 {
            push_unit(&mut out, v as u16, big_endian);
        } else {
            let w = v - 0x10000;
            push_unit(&mut out, (0xD800 + w / 0x400) as u16, big_endian);
            push_unit(&mut out, (0xDC00 + w % 0x400) as u16, big_endian);
        }
        proof {
            done = done.push(c);
            assert(done.drop_last() =~= before);
        }
    }
    assert(done =~= string@);
    out
}

fn unit_at(bytes: &[u8], i: usize, big_endian: bool) -> (r: u16)
    requires
        i + 1 < bytes@.len(),
    ensures
        r == read_unit(bytes@[i as int], bytes@[i + 1], big_endian),
{
    let n = bytes.len();
    let j = i + 1;
    if big_endian {
        (bytes[i] as u16) * 256 + bytes[j] as u16
    } else {
        (bytes[j] as u16) * 256 + bytes[i] as u16
    }
}

fn char_or_replacement(v: u32) -> (r: char)
    ensures
        vstd::utf8::is_scalar(v) ==> r == v as char,
        !vstd::utf8::is_scalar(v) ==> r == REPLACEMENT,
{
    match char_from_u32(v) {
        Some(c) => {
            proof {
                vstd::utf8::char_u32_cast(c, v);
            }
            c
        },
        None => REPLACEMENT,
    }
}

/// One step of the decoder at position `i`: the character emitted and the
/// number of bytes consumed.
fn decode_one(bytes: &[u8], i: usize, big_endian: bool) -> (r: (char, usize))
    requires
        i < bytes@.len(),
    ensures
        1 <= r.1 <= 4,
        i + r.1 <= bytes@.len(),
        mixed_decoded(bytes@.subrange(i as int, bytes@.len() as int), big_endian) == seq![r.0]
            + mixed_decoded(bytes@.subrange(i + r.1, bytes@.len() as int), big_endian),
{
    let n = bytes.len();
    let ghost rest = bytes@.subrange(i as int, n as int);
    let step: usize;
    let c: char;
    if bytes[i] < 0x80 {
        c = bytes[i] as char;
        step = 1;
    } else if i + 1 == n {
        c = REPLACEMENT;
        step = 1;
    } else {
        let unit1 = unit_at(bytes, i, big_endian);
        if unit1 < 0xD800 || 0xE000 <= unit1 {
            c = char_or_replacement(unit1 as u32);
            step = 2;
        } else if n - i <= 3 {
            c = REPLACEMENT;
            step = 2;
        } else {
            let unit2 = unit_at(bytes, i + 2, big_endian);
            if 0xD800 <= unit1 && unit1 < 0xDC00 && 0xDC00 <= unit2 && unit2 < 0xE000 {
                let v: u32 = 0x10000 + ((unit1 - 0xD800) as u32) * 0x400 + (unit2 - 0xDC00) as u32;
                c = char_or_replacement(v);
                proof {
                    assert(vstd::utf8::is_scalar(v));
                }
            } else {
                c = REPLACEMENT;
            }
            step = 4;
        }
    }
    assert(rest.subrange(step as int, rest.len() as int) =~= bytes@.subrange(i + step, n as int));
    (c, step)
}

/// Decode `bytes`: never fails; what cannot be read becomes U+FFFD.
pub fn mixed_decode(bytes: &[u8], big_endian: bool) -> (r: String)
    ensures
        r@ == mixed_decoded(bytes@, big_endian),
{
    let mut decoded = String::new();
    let n = bytes.len();
    let mut i: usize = 0;
    assert(bytes@.subrange(0, n as int) =~= bytes@);
    assert(decoded@ + mixed_decoded(bytes@, big_endian) =~= mixed_decoded(bytes@, big_endian));
    while i < n
        invariant
            n == bytes@.len(),
            i <= n,
            mixed_decoded(bytes@, big_endian) == decoded@ + mixed_decoded(
                bytes@.subrange(i as int, n as int),
                big_endian,
            ),
        decreases n - i,
    {
        let ghost before = decoded@;
        let (c, step) = decode_one(bytes, i, big_endian);
        push_char(&mut decoded, c);
        proof {
            assert(before + (seq![c] + mixed_decoded(bytes@.subrange(i + step, n as int), big_endian))
                =~= decoded@ + mixed_decoded(bytes@.subrange(i + step, n as int), big_endian));
        }
        i = i + step;
    }
    proof {
        assert(bytes@.subrange(n as int, n as int) =~= Seq::<u8>::empty());
        assert(decoded@ + Seq::<char>::empty() =~= decoded@);
    }
    decoded
}

} // verus!
