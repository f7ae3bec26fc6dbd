//! Deencoding engine for UTF-8.
use vstd::prelude::*;
use crate::engine::Engine;
use crate::text::{copy_bytes, lossy_utf8, utf8_lossy};

verus! {

pub struct Utf8Engine {}

impl Engine for Utf8Engine {
    open spec fn name_spec(&self) -> Seq<char> {
        "UTF-8"@
    }

    open spec fn encode_spec(&self, s: Seq<char>) -> Option<Seq<u8>> {
        Some(vstd::utf8::encode_utf8(s))
    }

    open spec fn decode_spec(&self, b: Seq<u8>) -> Seq<char> {
        lossy_utf8(b)
    }

    fn get_name(&self) -> (r: String) {
        String::from_str("UTF-8")
    }

    fn encode(&self, string: &str) -> (r: Option<Vec<u8>>) {
        Some(copy_bytes(string.as_bytes()))
    }

    fn decode(&self, bytes: &[u8]) -> (r: String) {
        utf8_lossy(bytes)
    }
}

} // verus!
