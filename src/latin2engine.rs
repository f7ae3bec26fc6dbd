//! Deencoding engine for Latin-2 / Codepage 1250. Codepage 1250 differs slightly from ISO 8859-2 (Latin-2), but is more likely to be the one used in practice, so the tables used are those of the former.
use vstd::prelude::*;
use crate::codepage::{codepage_decoded, codepage_encoded, decode_cp1250, encode_cp1250};
use crate::engine::Engine;

verus! {

pub struct Latin2Engine {}

impl Engine for Latin2Engine {
    open spec fn name_spec(&self) -> Seq<char> {
        "Latin-2 / Codepage 1250"@
    }

    open spec fn encode_spec(&self, s: Seq<char>) -> Option<Seq<u8>> {
        codepage_encoded(1250, s)
    }

    open spec fn decode_spec(&self, b: Seq<u8>) -> Seq<char> {
        codepage_decoded(1250, b)
    }

    fn get_name(&self) -> (r: String) {
        String::from_str("Latin-2 / Codepage 1250")
    }

    fn encode(&self, string: &str) -> (r: Option<Vec<u8>>) {
        encode_cp1250(string)
    }

    fn decode(&self, bytes: &[u8]) -> (r: String) {
        decode_cp1250(bytes)
    }
}

} // verus!
