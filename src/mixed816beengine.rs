//! Deencoding engine for a mixed UTF-8/UTF-16BE scheme: ASCII scalars are one
//! byte, every other scalar is its UTF-16 code units in big-endian order.
use vstd::prelude::*;
use crate::engine::Engine;
use crate::mixed::{mixed_decode, mixed_decoded, mixed_encode, mixed_encoded};

verus! {

pub struct Mixed816BEEngine {}

impl Engine for Mixed816BEEngine {
    open spec fn name_spec(&self) -> Seq<char> {
        "mixed UTF-8/UTF-16BE"@
    }

    open spec fn encode_spec(&self, s: Seq<char>) -> Option<Seq<u8>> {
        Some(mixed_encoded(s, true))
    }

    open spec fn decode_spec(&self, b: Seq<u8>) -> Seq<char> {
        mixed_decoded(b, true)
    }

    fn get_name(&self) -> (r: String) {
        String::from_str("mixed UTF-8/UTF-16BE")
    }

    fn encode(&self, string: &str) -> (r: Option<Vec<u8>>) {
        Some(mixed_encode(string, true))
    }

    fn decode(&self, bytes: &[u8]) -> (r: String) {
        mixed_decode(bytes, true)
    }
}

} // verus!
