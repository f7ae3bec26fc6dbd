//! Deencoding engine for ISO 8859-8 / Codepage 1255 (Hebrew).
use vstd::prelude::*;
use crate::codepage::{codepage_decoded, codepage_encoded, decode_cp1255, encode_cp1255};
use crate::engine::Engine;

verus! {

pub struct CP1255Engine {}

impl Engine for CP1255Engine {
    open spec fn name_spec(&self) -> Seq<char> {
        "ISO 8859-8 / Codepage 1255"@
    }

    open spec fn encode_spec(&self, s: Seq<char>) -> Option<Seq<u8>> {
        codepage_encoded(1255, s)
    }

    open spec fn decode_spec(&self, b: Seq<u8>) -> Seq<char> {
        codepage_decoded(1255, b)
    }

    fn get_name(&self) -> (r: String) {
        String::from_str("ISO 8859-8 / Codepage 1255")
    }

    fn encode(&self, string: &str) -> (r: Option<Vec<u8>>) {
        encode_cp1255(string)
    }

    fn decode(&self, bytes: &[u8]) -> (r: String) {
        decode_cp1255(bytes)
    }
}

} // verus!
