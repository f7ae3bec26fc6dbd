//! Reverse engineering of encoding errors: explore what a string becomes when
//! it is successively encoded and decoded with different encoding schemes.
//!
//! * An [`Engine`] stands for an encoding scheme: it encodes a string to
//!   bytes, which may fail, and decodes bytes to a string, which may not.
//! * Deencoding makes a [`DeencodeTree`]: from an input string, every engine
//!   may give an encoding, then every engine gives a decoding of that
//!   encoding, and so on.
//!
//! The process does not avoid doing the same steps over and over: keep the
//! depth small, then deduplicate the tree.
use vstd::prelude::*;

pub mod codepage;
pub mod cp1253engine;
pub mod cp1254engine;
pub mod cp1255engine;
pub mod deencodetree;
pub mod engine;
pub mod latin1engine;
pub mod latin2engine;
pub mod mixed;
pub mod mixed816beengine;
pub mod mixed816leengine;
pub mod text;
pub mod tree_laws;
pub mod utf7engine;
pub mod utf8engine;

pub use deencodetree::{DeencodeError, DeencodeTree};
pub use cp1253engine::CP1253Engine;
pub use cp1254engine::CP1254Engine;
pub use cp1255engine::CP1255Engine;
pub use engine::Engine;
pub use latin1engine::Latin1Engine;
pub use latin2engine::Latin2Engine;
pub use mixed816beengine::Mixed816BEEngine;
pub use mixed816leengine::Mixed816LEEngine;
pub use utf7engine::Utf7Engine;
pub use utf8engine::Utf8Engine;

verus! {

/// Build a [`DeencodeTree`] by successively running encodings and decodings
/// through the engines. Alias of [`DeencodeTree::deencode()`].
///
/// `encoding_depth` is the number of encoding steps, each followed by a
/// decoding step, so the tree has `2 * encoding_depth` levels. The process
/// starts with an encoding: a depth of 0 is refused.
///
/// The order of the engines matters for [`DeencodeTree::deduplicate()`].
pub fn deencode(input: &str, engines: &[&dyn Engine], encoding_depth: usize) -> (r: Result<
    DeencodeTree,
    DeencodeError,
>)
    ensures
        encoding_depth == 0 ==> r == Err::<DeencodeTree, DeencodeError>(DeencodeError::ZeroDepth),
        encoding_depth > 0 ==> (r matches Ok(t) && t@ == deencodetree::deencode_spec(
            input@,
            engines@,
            encoding_depth as nat,
        )),
{
    DeencodeTree::deencode(input, engines, encoding_depth)
}

} // verus!
