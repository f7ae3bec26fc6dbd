//! Deencoding engine for UTF-7, in the modified form of RFC 3501 (5.1.3)
//! that `utf7_imap` implements: `&` starts a run of modified base64 that `-`
//! ends.
use vstd::prelude::*;
use crate::engine::Engine;
use crate::text::{chars_of, copy_bytes, lossy_utf8, push_char, push_chars, utf8_lossy, REPLACEMENT};

verus! {

/// What `utf7_imap::encode_utf7_imap` gives for `s`.
pub uninterp spec fn imap_utf7_encoded(s: Seq<char>) -> Seq<char>;

/// What `utf7_imap::decode_utf7_imap` gives for `s`.
pub uninterp spec fn imap_utf7_decoded(s: Seq<char>) -> Seq<char>;

/// Relies on `utf7_imap::encode_utf7_imap`, which never fails.
#[verifier::external_body]
fn utf7_encode(s: &str) -> (r: String)
    ensures
        r@ == imap_utf7_encoded(s@),
{
    utf7_imap::encode_utf7_imap(s.to_owned())
}

/// Relies on `utf7_imap::decode_utf7_imap`, applied to a single run. It
/// unwraps the base64 decoding of the run's content, so the run must be one
/// that the `base64` crate accepts.
#[verifier::external_body]
fn utf7_decode_run(run: &str) -> (r: String)
    requires
        decodable_run(run@),
    ensures
        r@ == imap_utf7_decoded(run@),
{
    utf7_imap::decode_utf7_imap(run.to_owned())
}

/// The value of a modified base64 symbol (`,` stands for `/`), or -1.
pub open spec fn base64_value(c: char) -> int {
    if 'A' <= c && c <= 'Z' {
        c as int - 'A' as int
    } else if 'a' <= c && c <= 'z' {
        c as int - 'a' as int + 26
    } else if '0' <= c && c <= '9' {
        c as int - '0' as int + 52
    } else if c == '+' {
        62
    } else if c == ',' || c == '/' {
        63
    } else {
        -1
    }
}

/// Whether `content` is base64 that decodes without error once padded: only
/// symbols of the alphabet, a length that is not 1 more than a multiple of
/// 4, and no bits set in the last symbol beyond the last whole byte.
pub open spec fn decodable_content(content: Seq<char>) -> bool {
    &&& forall|i: int| 0 <= i < content.len() ==> base64_value(#[trigger] content[i]) >= 0
    &&& content.len() % 4 != 1
    &&& content.len() % 4 == 2 ==> base64_value(content.last()) % 16 == 0
    &&& content.len() % 4 == 3 ==> base64_value(content.last()) % 4 == 0
}

/// Whether `run` is `&`, then decodable content, then `-`.
pub open spec fn decodable_run(run: Seq<char>) -> bool {
    &&& run.len() >= 2
    &&& run[0] == '&'
    &&& run.last() == '-'
    &&& decodable_content(run.subrange(1, run.len() - 1))
}

/// The index of the first `-` of `cs`, or -1.
pub open spec fn first_dash(cs: Seq<char>) -> int
    decreases cs.len(),
{
    if cs.len() == 0 {
        -1
    } else if cs[0] == '-' {
        0
    } else if first_dash(cs.drop_first()) < 0 {
        -1
    } else {
        first_dash(cs.drop_first()) + 1
    }
}

/// The decoding of a text: each `&` that a `-` follows starts a run up to the
/// first such `-`, replaced by its decoding, or by U+FFFD where the run is not
/// decodable; every other character stays.
pub open spec fn utf7_text_decoded(cs: Seq<char>) -> Seq<char>
    decreases cs.len(),
{
    if cs.len() == 0 {
        seq![]
    } else {
        let j = first_dash(cs);
        if cs[0] == '&' && 0 < j < cs.len() {
            let run = cs.subrange(0, j + 1);
            (if decodable_run(run) {
                imap_utf7_decoded(run)
            } else {
                seq![REPLACEMENT]
            }) + utf7_text_decoded(cs.subrange(j + 1, cs.len() as int))
        } else {
            seq![cs[0]] + utf7_text_decoded(cs.subrange(1, cs.len() as int))
        }
    }
}

proof fn lemma_first_dash(cs: Seq<char>)
    ensures
        -1 <= first_dash(cs) < cs.len(),
        first_dash(cs) >= 0 ==> cs[first_dash(cs)] == '-',
        forall|k: int| 0 <= k < cs.len() && (first_dash(cs) < 0 || k < first_dash(cs)) ==> cs[k] != '-',
    decreases cs.len(),
{
    if cs.len() > 0 {
        lemma_first_dash(cs.drop_first());
        assert forall|k: int| 0 <= k < cs.len() && (first_dash(cs) < 0 || k < first_dash(cs)) implies cs[k] != '-' by {
            if k > 0 {
                assert(cs[k] == cs.drop_first()[k - 1]);
            }
        }
    }
}

/// The first `-` at or after `from`.
fn find_dash(cs: &Vec<char>, from: usize) -> (r: usize)
    requires
        from <= cs@.len(),
    ensures
        from <= r <= cs@.len(),
        r < cs@.len() ==> cs@[r as int] == '-',
        forall|k: int| from <= k < r ==> cs@[k] != '-',
{
    let mut j = from;
    while j < cs.len()
        invariant
            from <= j <= cs@.len(),
            forall|k: int| from <= k < j ==> cs@[k] != '-',
        decreases cs@.len() - j,
    {
        if cs[j] == '-' {
            return j;
        }
        j = j + 1;
    }
    j
}

fn base64_symbol(c: char) -> (r: bool)
    ensures
        r == (base64_value(c) >= 0),
{
    ('A' <= c && c <= 'Z') || ('a' <= c && c <= 'z') || ('0' <= c && c <= '9') || c == '+'
        || c == ',' || c == '/'
}

fn base64_symbol_value(c: char) -> (r: u32)
    requires
        base64_value(c) >= 0,
    ensures
        r == base64_value(c),
{
    if 'A' <= c && c <= 'Z' {
        (c as u32) - ('A' as u32)
    } else if 'a' <= c && c <= 'z' {
        (c as u32) - ('a' as u32) + 26
    } else if '0' <= c && c <= '9' {
        (c as u32) - ('0' as u32) + 52
    } else if c == '+' {
        62
    } else {
        63
    }
}

/// Whether `cs[from..to]` is decodable content.
fn is_decodable_content(cs: &Vec<char>, from: usize, to: usize) -> (r: bool)
    requires
        from <= to <= cs@.len(),
    ensures
        r == decodable_content(cs@.subrange(from as int, to as int)),
{
    let ghost content = cs@.subrange(from as int, to as int);
    let mut i = from;
    while i < to
        invariant
            from <= i <= to <= cs@.len(),
            content == cs@.subrange(from as int, to as int),
            forall|k: int| 0 <= k < i - from ==> base64_value(#[trigger] content[k]) >= 0,
        decreases to - i,
    {
        if !base64_symbol(cs[i]) {
            assert(base64_value(content[i - from]) < 0);
            return false;
        }
        i = i + 1;
    }
    let len = to - from;
    if len % 4 == 1 {
        return false;
    }
    if len % 4 == 2 || len % 4 == 3 {
        assert(content[len - 1] == cs@[to - 1]);
        assert(base64_value(content[len - 1]) >= 0);
        let v = base64_symbol_value(cs[to - 1]);
        if len % 4 == 2 {
            return v % 16 == 0;
        } else {
            return v % 4 == 0;
        }
    }
    true
}

/// Decode a text made of runs of modified UTF-7 and plain characters. A run
/// that is not decodable becomes U+FFFD.
pub fn decode_utf7_text(text: &str) -> (r: String)
    ensures
        r@ == utf7_text_decoded(text@),
{
    let cs = chars_of(text);
    let n = cs.len();
    let mut out = String::new();
    let mut i: usize = 0;
    assert(cs@.subrange(0, n as int) =~= cs@);
    assert(out@ + utf7_text_decoded(cs@) =~= utf7_text_decoded(cs@));
    while i < n
        invariant
            n == cs@.len(),
            cs@ == text@,
            i <= n,
            utf7_text_decoded(cs@) == out@ + utf7_text_decoded(cs@.subrange(i as int, n as int)),
        decreases n - i,
    {
        let ghost rest = cs@.subrange(i as int, n as int);
        let ghost before = out@;
        proof {
            lemma_first_dash(rest);
        }
        let j = if cs[i] == '&' {
            find_dash(&cs, i)
        } else {
            n
        };
        if j < n {
            proof {
                assert(first_dash(rest) == j - i) by {
                    let f = first_dash(rest);
                    if f < 0 || f > j - i {
                        assert(rest[j - i] == cs@[j as int]);
                    }
                    if 0 <= f < j - i {
                        assert(rest[f] == cs@[i + f]);
                    }
                }
            }
            let mut run = String::new();
            push_chars(&mut run, &cs, i, j + 1);
            assert(run@ =~= rest.subrange(0, j - i + 1));
            let ghost piece;
            if is_decodable_content(&cs, i + 1, j) {
                assert(run@.subrange(1, run@.len() - 1) =~= cs@.subrange(i + 1, j as int));
                let decoded = utf7_decode_run(run.as_str());
                let dcs = chars_of(decoded.as_str());
                push_chars(&mut out, &dcs, 0, dcs.len());
                assert(dcs@.subrange(0, dcs@.len() as int) =~= dcs@);
                proof { piece = dcs@; }
            } else {
                assert(run@.subrange(1, run@.len() - 1) =~= cs@.subrange(i + 1, j as int));
                push_char(&mut out, REPLACEMENT);
                proof { piece = seq![REPLACEMENT]; }
            }
            assert(rest.subrange(j - i + 1, rest.len() as int) =~= cs@.subrange(j + 1, n as int));
            assert(before + (piece + utf7_text_decoded(cs@.subrange(j + 1, n as int))) =~= out@
                + utf7_text_decoded(cs@.subrange(j + 1, n as int)));
            i = j + 1;
        } else {
            proof {
                if cs@[i as int] == '&' {
                    let f = first_dash(rest);
                    if f >= 0 {
                        assert(rest[f] == cs@[i + f]);
                    }
                }
            }
            push_char(&mut out, cs[i]);
            assert(rest.subrange(1, rest.len() as int) =~= cs@.subrange(i + 1, n as int));
            assert(before + (seq![cs@[i as int]] + utf7_text_decoded(cs@.subrange(i + 1, n as int)))
                =~= out@ + utf7_text_decoded(cs@.subrange(i + 1, n as int)));
            i = i + 1;
        }
    }
    assert(cs@.subrange(n as int, n as int) =~= Seq::<char>::empty());
    assert(out@ + Seq::<char>::empty() =~= out@);
    out
}

pub struct Utf7Engine {}

impl Engine for Utf7Engine {
    open spec fn name_spec(&self) -> Seq<char> {
        "UTF-7"@
    }

    open spec fn encode_spec(&self, s: Seq<char>) -> Option<Seq<u8>> {
        Some(vstd::utf8::encode_utf8(imap_utf7_encoded(s)))
    }

    open spec fn decode_spec(&self, b: Seq<u8>) -> Seq<char> {
        utf7_text_decoded(lossy_utf8(b))
    }

    fn get_name(&self) -> (r: String) {
        String::from_str("UTF-7")
    }

    fn encode(&self, string: &str) -> (r: Option<Vec<u8>>) {
        let encoded = utf7_encode(string);
        Some(copy_bytes(encoded.as_str().as_bytes()))
    }

    fn decode(&self, bytes: &[u8]) -> (r: String) {
        let text = utf8_lossy(bytes);
        decode_utf7_text(text.as_str())
    }
}

} // verus!
