//! Deencoding engine for a mixed UTF-8/UTF-16LE scheme: ASCII scalars are one
//! byte, every other scalar is its UTF-16 code units in little-endian order.
use vstd::prelude::*;
use crate::engine::Engine;
use crate::mixed::{mixed_decode, mixed_decoded, mixed_encode, mixed_encoded};

verus! {

pub struct Mixed816LEEngine {}

impl Engine for Mixed816LEEngine {
    open spec fn name_spec(&self) -> Seq<char> {
        "mixed UTF-8/UTF-16LE"@
    }

    open spec fn encode_spec(&self, s: Seq<char>) -> Option<Seq<u8>> {
        Some(mixed_encoded(s, false))
    }

    open spec fn decode_spec(&self, b: Seq<u8>) -> Seq<char> {
        mixed_decoded(b, false)
    }

    fn get_name(&self) -> (r: String) {
        String::from_str("mixed UTF-8/UTF-16LE")
    }

    fn encode(&self, string: &str) -> (r: Option<Vec<u8>>) {
        Some(mixed_encode(string, false))
    }

    fn decode(&self, bytes: &[u8]) -> (r: String) {
        mixed_decode(bytes, false)
    }
}

} // verus!
