//! Deencoding engine for ISO 8859-9 / Codepage 1254. Codepage 1254 is a superset of ISO 8859-9, so the tables used are those of the former.
use vstd::prelude::*;
use crate::codepage::{codepage_decoded, codepage_encoded, decode_cp1254, encode_cp1254};
use crate::engine::Engine;

verus! {

pub struct CP1254Engine {}

impl Engine for CP1254Engine {
    open spec fn name_spec(&self) -> Seq<char> {
        "ISO 8859-9 / Codepage 1254"@
    }

    open spec fn encode_spec(&self, s: Seq<char>) -> Option<Seq<u8>> {
        codepage_encoded(1254, s)
    }

    open spec fn decode_spec(&self, b: Seq<u8>) -> Seq<char> {
        codepage_decoded(1254, b)
    }

    fn get_name(&self) -> (r: String) {
        String::from_str("ISO 8859-9 / Codepage 1254")
    }

    fn encode(&self, string: &str) -> (r: Option<Vec<u8>>) {
        encode_cp1254(string)
    }

    fn decode(&self, bytes: &[u8]) -> (r: String) {
        decode_cp1254(bytes)
    }
}

} // verus!
