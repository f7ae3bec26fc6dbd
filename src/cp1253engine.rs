//! Deencoding engine for Codepage 1253 (Greek).
use vstd::prelude::*;
use crate::codepage::{codepage_decoded, codepage_encoded, decode_cp1253, encode_cp1253};
use crate::engine::Engine;

verus! {

pub struct CP1253Engine {}

impl Engine for CP1253Engine {
    open spec fn name_spec(&self) -> Seq<char> {
        "Codepage 1253"@
    }

    open spec fn encode_spec(&self, s: Seq<char>) -> Option<Seq<u8>> {
        codepage_encoded(1253, s)
    }

    open spec fn decode_spec(&self, b: Seq<u8>) -> Seq<char> {
        codepage_decoded(1253, b)
    }

    fn get_name(&self) -> (r: String) {
        String::from_str("Codepage 1253")
    }

    fn encode(&self, string: &str) -> (r: Option<Vec<u8>>) {
        encode_cp1253(string)
    }

    fn decode(&self, bytes: &[u8]) -> (r: String) {
        decode_cp1253(bytes)
    }
}

} // verus!
