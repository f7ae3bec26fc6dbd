//! Deencoding engine for Latin-1 / Codepage 1252. Codepage 1252 is a superset of Latin-1 (ISO 8859-1), so the tables used are those of the former.
use vstd::prelude::*;
use crate::codepage::{codepage_decoded, codepage_encoded, decode_cp1252, encode_cp1252};
use crate::engine::Engine;

verus! {

pub struct Latin1Engine {}

impl Engine for Latin1Engine {
    open spec fn name_spec(&self) -> Seq<char> {
        "Latin-1 / Codepage 1252"@
    }

    open spec fn encode_spec(&self, s: Seq<char>) -> Option<Seq<u8>> {
        codepage_encoded(1252, s)
    }

    open spec fn decode_spec(&self, b: Seq<u8>) -> Seq<char> {
        codepage_decoded(1252, b)
    }

    fn get_name(&self) -> (r: String) {
        String::from_str("Latin-1 / Codepage 1252")
    }

    fn encode(&self, string: &str) -> (r: Option<Vec<u8>>) {
        encode_cp1252(string)
    }

    fn decode(&self, bytes: &[u8]) -> (r: String) {
        decode_cp1252(bytes)
    }
}

} // verus!
