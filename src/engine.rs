use vstd::prelude::*;

verus! {

/// The view of an optional byte vector, as returned by [`Engine::encode`].
pub open spec fn bytes_view(r: Option<Vec<u8>>) -> Option<Seq<u8>> {
    match r {
        Some(v) => Some(v@),
        None => None,
    }
}

/// A deencoding engine: a named, pure pair of an encoder (text to bytes) and a
/// decoder (bytes to text).
///
/// Purity is part of the contract: each operation is described by a spec
/// function of its arguments alone, so equal inputs always give equal outputs.
pub trait Engine {
    /// The name of the engine.
    spec fn name_spec(&self) -> Seq<char>;

    /// What encoding `s` gives: `None` when some character of `s` has no
    /// representation in this engine.
    spec fn encode_spec(&self, s: Seq<char>) -> Option<Seq<u8>>;

    /// What decoding `b` gives. Decoding is total.
    spec fn decode_spec(&self, b: Seq<u8>) -> Seq<char>;

    /// The name of the engine.
    fn get_name(&self) -> (r: String)
        ensures
            r@ == self.name_spec(),
    ;

    /// Encode through the engine.
    ///
    /// Failure to encode is allowed.
    fn encode(&self, string: &str) -> (r: Option<Vec<u8>>)
        ensures
            bytes_view(r) == self.encode_spec(string@),
    ;

    /// Decode through the engine.
    ///
    /// Failure is not accepted: every byte sequence decodes to some string.
    fn decode(&self, bytes: &[u8]) -> (r: String)
        ensures
            r@ == self.decode_spec(bytes@),
    ;
}

} // verus!
