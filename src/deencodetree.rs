//! The deencoding process.
//!
//! The initial string goes through successive encoding and decoding steps,
//! each engine giving its own output. This leads to a tree: from the root,
//! several encodings, then for each several decodings, and so on. Every path
//! ends on a decoding step.
use vstd::prelude::*;
use crate::engine::Engine;
use crate::text::copy_bytes;

verus! {

broadcast use
    vstd::std_specs::vec::axiom_vec_index_decreases,
    vstd::std_specs::vec::axiom_vec_decreases_to_view,
    vstd::seq::axiom_seq_index_decreases,
;

/// An encoding step.
pub struct EncodeNode {
    /// The name of the encoder.
    pub name: String,
    /// The output of the encoder.
    pub output: Vec<u8>,
    /// The underlying decoding steps.
    pub decoders: Vec<DecodeNode>,
}

/// A decoding step.
pub struct DecodeNode {
    /// The name of the decoder.
    pub name: String,
    /// The output of the decoder.
    pub output: String,
    /// The underlying encoding steps. Empty if at maximum depth.
    pub encoders: Vec<EncodeNode>,
    /// Whether this step was made with no encoding depth left: it never has
    /// encoding steps below it.
    pub is_leaf: bool,
}

/// The root of the deencoding tree.
pub struct DeencodeTree {
    /// The input string.
    pub input: String,
    /// The underlying encoding steps.
    pub encoders: Vec<EncodeNode>,
}

/// The mathematical value of an [`EncodeNode`].
pub struct EncodeModel {
    pub name: Seq<char>,
    pub output: Seq<u8>,
    pub decoders: Seq<DecodeModel>,
}

/// The mathematical value of a [`DecodeNode`].
pub struct DecodeModel {
    pub name: Seq<char>,
    pub output: Seq<char>,
    pub encoders: Seq<EncodeModel>,
    pub is_leaf: bool,
}

/// The mathematical value of a [`DeencodeTree`].
pub struct TreeModel {
    pub input: Seq<char>,
    pub encoders: Seq<EncodeModel>,
}

/// The models of a sequence of encoding steps.
pub open spec fn encode_views(s: Seq<EncodeNode>) -> Seq<EncodeModel> {
    Seq::new(s.len(), |i: int| s[i]@)
}

/// The models of a sequence of decoding steps.
pub open spec fn decode_views(s: Seq<DecodeNode>) -> Seq<DecodeModel> {
    Seq::new(s.len(), |i: int| s[i]@)
}

/// The encoding steps that the first `k` engines give for `input`, with
/// `depth` encodings left, this one included. An engine that cannot encode
/// `input` gives no step.
pub open spec fn encode_level(
    input: Seq<char>,
    engines: Seq<&dyn Engine>,
    k: nat,
    depth: nat,
) -> Seq<EncodeModel>
    decreases depth, 0nat, k,
{
    if k == 0 || depth == 0 || k > engines.len() {
        seq![]
    } else {
        let prev = encode_level(input, engines, (k - 1) as nat, depth);
        let e = engines[k - 1];
        match e.encode_spec(input) {
            Some(b) => prev.push(
                EncodeModel {
                    name: e.name_spec(),
                    output: b,
                    decoders: decode_level(b, engines, engines.len(), (depth - 1) as nat),
                },
            ),
            None => prev,
        }
    }
}

/// The decoding steps that the first `k` engines give for `input`, with
/// `depth` encodings left below them. Every engine gives one step.
pub open spec fn decode_level(
    input: Seq<u8>,
    engines: Seq<&dyn Engine>,
    k: nat,
    depth: nat,
) -> Seq<DecodeModel>
    decreases depth, 1nat, k,
{
    if k == 0 || k > engines.len() {
        seq![]
    } else {
        let e = engines[k - 1];
        let out = e.decode_spec(input);
        decode_level(input, engines, (k - 1) as nat, depth).push(
            DecodeModel {
                name: e.name_spec(),
                output: out,
                encoders: if depth > 0 {
                    encode_level(out, engines, engines.len(), depth)
                } else {
                    seq![]
                },
                is_leaf: depth == 0,
            },
        )
    }
}

/// The models of a list of strings.
pub open spec fn strings_view(v: Seq<String>) -> Seq<Seq<char>> {
    Seq::new(v.len(), |i: int| v[i]@)
}

/// The models of a list of byte vectors.
pub open spec fn byte_lists_view(v: Seq<Vec<u8>>) -> Seq<Seq<u8>> {
    Seq::new(v.len(), |i: int| v[i]@)
}

/// What deduplicating an encoding step gives, with the strings `ss` and the
/// byte sequences `sb` already known: the pruned step and the two lists once
/// the step and what stays below it are registered.
///
/// The step registers its own output first; then each decoding step below,
/// in order, is dropped if its output is already known, and otherwise is
/// deduplicated and kept unless it is left without encoding steps and is not
/// a leaf.
pub open spec fn dedup_encode(n: EncodeModel, ss: Seq<Seq<char>>, sb: Seq<Seq<u8>>) -> (
    EncodeModel,
    Seq<Seq<char>>,
    Seq<Seq<u8>>,
)
    decreases n, 0nat,
{
    let r = dedup_decode_list(n.decoders, ss, sb.push(n.output), n.decoders.len());
    (EncodeModel { name: n.name, output: n.output, decoders: r.0 }, r.1, r.2)
}

/// Deduplication of the first `k` decoding steps of `ds`, in order.
pub open spec fn dedup_decode_list(
    ds: Seq<DecodeModel>,
    ss: Seq<Seq<char>>,
    sb: Seq<Seq<u8>>,
    k: nat,
) -> (Seq<DecodeModel>, Seq<Seq<char>>, Seq<Seq<u8>>)
    decreases ds, k,
{
    if k == 0 || k > ds.len() {
        (seq![], ss, sb)
    } else {
        let p = dedup_decode_list(ds, ss, sb, (k - 1) as nat);
        let d = ds[k - 1];
        if p.1.contains(d.output) {
            p
        } else {
            let r = dedup_decode(d, p.1, p.2);
            if r.0.encoders.len() == 0 && !r.0.is_leaf {
                (p.0, r.1, r.2)
            } else {
                (p.0.push(r.0), r.1, r.2)
            }
        }
    }
}

/// What deduplicating a decoding step gives: the mirror of
/// [`dedup_encode`]. An encoding step left without decoding steps is dropped.
pub open spec fn dedup_decode(n: DecodeModel, ss: Seq<Seq<char>>, sb: Seq<Seq<u8>>) -> (
    DecodeModel,
    Seq<Seq<char>>,
    Seq<Seq<u8>>,
)
    decreases n, 0nat,
{
    let r = dedup_encode_list(n.encoders, ss.push(n.output), sb, n.encoders.len());
    (DecodeModel { name: n.name, output: n.output, encoders: r.0, is_leaf: n.is_leaf }, r.1, r.2)
}

/// Deduplication of the first `k` encoding steps of `es`, in order.
pub open spec fn dedup_encode_list(
    es: Seq<EncodeModel>,
    ss: Seq<Seq<char>>,
    sb: Seq<Seq<u8>>,
    k: nat,
) -> (Seq<EncodeModel>, Seq<Seq<char>>, Seq<Seq<u8>>)
    decreases es, k,
{
    if k == 0 || k > es.len() {
        (seq![], ss, sb)
    } else {
        let p = dedup_encode_list(es, ss, sb, (k - 1) as nat);
        let e = es[k - 1];
        if p.2.contains(e.output) {
            p
        } else {
            let r = dedup_encode(e, p.1, p.2);
            if r.0.decoders.len() == 0 {
                (p.0, r.1, r.2)
            } else {
                (p.0.push(r.0), r.1, r.2)
            }
        }
    }
}

/// Deduplication of the first `k` encoding steps at the root: as
/// [`dedup_encode_list`], but a step left without decoding steps stays.
pub open spec fn dedup_root_list(
    es: Seq<EncodeModel>,
    ss: Seq<Seq<char>>,
    sb: Seq<Seq<u8>>,
    k: nat,
) -> (Seq<EncodeModel>, Seq<Seq<char>>, Seq<Seq<u8>>)
    decreases k,
{
    if k == 0 || k > es.len() {
        (seq![], ss, sb)
    } else {
        let p = dedup_root_list(es, ss, sb, (k - 1) as nat);
        let e = es[k - 1];
        if p.2.contains(e.output) {
            p
        } else {
            let r = dedup_encode(e, p.1, p.2);
            (p.0.push(r.0), r.1, r.2)
        }
    }
}

/// What deduplicating a whole tree gives: the pruned tree, the distinct
/// strings met (the input first) and the distinct byte sequences met.
pub open spec fn dedup_tree(t: TreeModel) -> (TreeModel, Seq<Seq<char>>, Seq<Seq<u8>>) {
    let r = dedup_root_list(t.encoders, seq![t.input], seq![], t.encoders.len());
    (TreeModel { input: t.input, encoders: r.0 }, r.1, r.2)
}

impl DeencodeTree {
    pub open spec fn view(&self) -> TreeModel {
        TreeModel { input: self.input@, encoders: encode_views(self.encoders@) }
    }
}

/// The tree that deencoding `input` with `depth` encodings gives.
pub open spec fn deencode_spec(input: Seq<char>, engines: Seq<&dyn Engine>, depth: nat) -> TreeModel {
    TreeModel { input, encoders: encode_level(input, engines, engines.len(), depth) }
}

/// Why a tree cannot be built.
#[derive(Debug, PartialEq, Eq, Structural)]
pub enum DeencodeError {
    /// The encoding depth is 0, but the process starts with an encoding.
    ZeroDepth,
}

impl EncodeNode {
    pub open spec fn view(&self) -> EncodeModel
        decreases self,
    {
        EncodeModel {
            name: self.name@,
            output: self.output@,
            decoders: Seq::new(self.decoders@.len(), |i: int|
                if 0 <= i < self.decoders@.len() {
                    self.decoders@[i].view()
                } else {
                    DecodeModel { name: seq![], output: seq![], encoders: seq![], is_leaf: false }
                }),
        }
    }
}

impl DecodeNode {
    pub open spec fn view(&self) -> DecodeModel
        decreases self,
    {
        DecodeModel {
            name: self.name@,
            output: self.output@,
            encoders: Seq::new(self.encoders@.len(), |i: int|
                if 0 <= i < self.encoders@.len() {
                    self.encoders@[i].view()
                } else {
                    EncodeModel { name: seq![], output: seq![], decoders: seq![] }
                }),
            is_leaf: self.is_leaf,
        }
    }
}

impl EncodeNode {
    /// Run the encoder of each engine, in order, recording each output into
    /// an [`EncodeNode`] whose decoding steps are made with one encoding less.
    ///
    /// There is always a decoding after an encoding, so `depth` must be at
    /// least 1. The tree below has `2 * depth - 1` levels.
    pub fn make_nodes(input: &str, engines: &[&dyn Engine], depth: usize) -> (r: Vec<EncodeNode>)
        requires
            depth >= 1,
        ensures
            encode_views(r@) == encode_level(input@, engines@, engines@.len(), depth as nat),
        decreases depth, 0usize,
    {
        let mut results: Vec<EncodeNode> = Vec::new();
        let mut i: usize = 0;
        assert(encode_views(results@) =~= seq![]);
        while i < engines.len()
            invariant
                depth >= 1,
                i <= engines@.len(),
                encode_views(results@) == encode_level(input@, engines@, i as nat, depth as nat),
            decreases engines@.len() - i,
        {
            let engine = engines[i];
            let ghost prev = results@;
            match engine.encode(input) {
                Some(output) => {
                    let decoders = DecodeNode::make_nodes(output.as_slice(), engines, depth - 1);
                    let name = engine.get_name();
                    let node = EncodeNode { name, output, decoders };
                    assert(node@.decoders =~= decode_views(node.decoders@));
                    results.push(node);
                    assert(encode_views(results@) =~= encode_views(prev).push(node@));
                },
                None => {},
            }
            i = i + 1;
        }
        results
    }

    /// Deduplicate this step and what lies below it, in place:
    /// 1. register the output of this step in `known_bytes`;
    /// 1. drop each decoding step whose output is already in `known_strings`;
    /// 1. deduplicate the others, depth-first in engine order, and drop those
    ///    left without encoding steps that are not leaves.
    pub fn deduplicate(&mut self, known_strings: &mut Vec<String>, known_bytes: &mut Vec<Vec<u8>>)
        ensures
            dedup_encode(
                old(self)@,
                strings_view(old(known_strings)@),
                byte_lists_view(old(known_bytes)@),
            ) == (final(self)@, strings_view(final(known_strings)@), byte_lists_view(
                final(known_bytes)@,
            )),
        decreases old(self)@, 0nat,
    {
        let ghost ss0 = strings_view(known_strings@);
        let ghost sb0 = byte_lists_view(known_bytes@);
        let ghost ds = old(self)@.decoders;
        known_bytes.push(copy_bytes(self.output.as_slice()));
        assert(byte_lists_view(known_bytes@) =~= sb0.push(self.output@));
        let mut pending: Vec<DecodeNode> = Vec::new();
        std::mem::swap(&mut pending, &mut self.decoders);
        let ghost all = pending@;
        assert(decode_views(all) =~= ds);
        let n = pending.len();
        let mut kept: Vec<DecodeNode> = Vec::new();
        let mut i: usize = 0;
        assert(pending@ =~= all.subrange(0, 0 + n as int));
        while i < n
            invariant
                n == all.len(),
                i <= n,
                pending@ == all.subrange(i as int, n as int),
                decode_views(all) == ds,
                ds == old(self)@.decoders,
                self.name@ == old(self)@.name,
                self.output@ == old(self)@.output,
                dedup_decode_list(ds, ss0, sb0.push(old(self)@.output), i as nat) == (
                    decode_views(kept@),
                    strings_view(known_strings@),
                    byte_lists_view(known_bytes@),
                ),
            decreases n - i,
        {
            let mut d = pending.remove(0);
            assert(d@ == ds[i as int]);
            let ghost kept0 = kept@;
            if !contains_string(known_strings, &d.output) {
                proof {
                    // the step below is smaller than this one
                    assert(decreases_to!(old(self)@ => d@)) by {
                        vstd::seq::axiom_seq_index_decreases(old(self)@.decoders, i as int);
                    }
                }
                d.deduplicate(known_strings, known_bytes);
                if !(d.encoders.len() == 0 && !d.is_leaf) {
                    kept.push(d);
                    assert(decode_views(kept@) =~= decode_views(kept0).push(d@));
                }
            }
            assert(pending@ =~= all.subrange(i + 1, n as int));
            i = i + 1;
        }
        self.decoders = kept;
        assert(self@.decoders =~= decode_views(self.decoders@));
    }
}

impl DecodeNode {
    /// Run the decoder of each engine, in order, recording each output into
    /// a [`DecodeNode`] whose encoding steps are made with the same depth.
    ///
    /// Once `depth` is 0, no more encoding steps are made and the nodes are
    /// leaves. The tree below has `2 * depth` levels.
    pub fn make_nodes(input: &[u8], engines: &[&dyn Engine], depth: usize) -> (r: Vec<DecodeNode>)
        ensures
            decode_views(r@) == decode_level(input@, engines@, engines@.len(), depth as nat),
        decreases depth, 1usize,
    {
        let mut results: Vec<DecodeNode> = Vec::new();
        let mut i: usize = 0;
        assert(decode_views(results@) =~= seq![]);
        while i < engines.len()
            invariant
                i <= engines@.len(),
                decode_views(results@) == decode_level(input@, engines@, i as nat, depth as nat),
            decreases engines@.len() - i,
        {
            let engine = engines[i];
            let ghost prev = results@;
            let output = engine.decode(input);
            let encoders = if 0 < depth {
                EncodeNode::make_nodes(output.as_str(), engines, depth)
            } else {
                let none: Vec<EncodeNode> = Vec::new();
                assert(encode_views(none@) =~= seq![]);
                none
            };
            let name = engine.get_name();
            let node = DecodeNode { name, output, encoders, is_leaf: depth == 0 };
            assert(node@.encoders =~= encode_views(node.encoders@));
            results.push(node);
            assert(decode_views(results@) =~= decode_views(prev).push(node@));
            i = i + 1;
        }
        results
    }

    /// Deduplicate this step and what lies below it, in place: the mirror of
    /// [`EncodeNode::deduplicate`]. The output is registered in
    /// `known_strings`, encoding steps whose output is in `known_bytes` are
    /// dropped, and so are those left without decoding steps.
    pub fn deduplicate(&mut self, known_strings: &mut Vec<String>, known_bytes: &mut Vec<Vec<u8>>)
        ensures
            dedup_decode(
                old(self)@,
                strings_view(old(known_strings)@),
                byte_lists_view(old(known_bytes)@),
            ) == (final(self)@, strings_view(final(known_strings)@), byte_lists_view(
                final(known_bytes)@,
            )),
        decreases old(self)@, 0nat,
    {
        let ghost ss0 = strings_view(known_strings@);
        let ghost sb0 = byte_lists_view(known_bytes@);
        let ghost es = old(self)@.encoders;
        known_strings.push(self.output.clone());
        assert(strings_view(known_strings@) =~= ss0.push(self.output@));
        let mut pending: Vec<EncodeNode> = Vec::new();
        std::mem::swap(&mut pending, &mut self.encoders);
        let ghost all = pending@;
        assert(encode_views(all) =~= es);
        let n = pending.len();
        let mut kept: Vec<EncodeNode> = Vec::new();
        let mut i: usize = 0;
        assert(pending@ =~= all.subrange(0, 0 + n as int));
        while i < n
            invariant
                n == all.len(),
                i <= n,
                pending@ == all.subrange(i as int, n as int),
                encode_views(all) == es,
                es == old(self)@.encoders,
                self.name@ == old(self)@.name,
                self.output@ == old(self)@.output,
                self.is_leaf == old(self)@.is_leaf,
                dedup_encode_list(es, ss0.push(old(self)@.output), sb0, i as nat) == (
                    encode_views(kept@),
                    strings_view(known_strings@),
                    byte_lists_view(known_bytes@),
                ),
            decreases n - i,
        {
            let mut e = pending.remove(0);
            assert(e@ == es[i as int]);
            let ghost kept0 = kept@;
            if !contains_bytes(known_bytes, &e.output) {
                proof {
                    // the step below is smaller than this one
                    assert(decreases_to!(old(self)@ => e@)) by {
                        vstd::seq::axiom_seq_index_decreases(old(self)@.encoders, i as int);
                    }
                }
                e.deduplicate(known_strings, known_bytes);
                if e.decoders.len() != 0 {
                    kept.push(e);
                    assert(encode_views(kept@) =~= encode_views(kept0).push(e@));
                }
            }
            assert(pending@ =~= all.subrange(i + 1, n as int));
            i = i + 1;
        }
        self.encoders = kept;
        assert(self@.encoders =~= encode_views(self.encoders@));
    }
}

fn contains_string(list: &Vec<String>, s: &String) -> (r: bool)
    ensures
        r == strings_view(list@).contains(s@),
{
    let mut i: usize = 0;
    while i < list.len()
        invariant
            i <= list@.len(),
            forall|j: int| 0 <= j < i ==> list@[j]@ != s@,
        decreases list@.len() - i,
    {
        if list[i] == *s {
            assert(strings_view(list@)[i as int] == s@);
            return true;
        }
        i = i + 1;
    }
    assert(!strings_view(list@).contains(s@)) by {
        if strings_view(list@).contains(s@) {
            let j = choose|j: int| 0 <= j < list@.len() && strings_view(list@)[j] == s@;
            assert(list@[j]@ == s@);
        }
    }
    false
}

fn same_bytes(a: &Vec<u8>, b: &Vec<u8>) -> (r: bool)
    ensures
        r == (a@ == b@),
{
    if a.len() != b.len() {
        return false;
    }
    let mut i: usize = 0;
    while i < a.len()
        invariant
            a@.len() == b@.len(),
            i <= a@.len(),
            forall|j: int| 0 <= j < i ==> a@[j] == b@[j],
        decreases a@.len() - i,
    {
        if a[i] != b[i] {
            return false;
        }
        i = i + 1;
    }
    assert(a@ =~= b@);
    true
}

fn contains_bytes(list: &Vec<Vec<u8>>, b: &Vec<u8>) -> (r: bool)
    ensures
        r == byte_lists_view(list@).contains(b@),
{
    let mut i: usize = 0;
    while i < list.len()
        invariant
            i <= list@.len(),
            forall|j: int| 0 <= j < i ==> list@[j]@ != b@,
        decreases list@.len() - i,
    {
        if same_bytes(&list[i], b) {
            assert(byte_lists_view(list@)[i as int] == b@);
            return true;
        }
        i = i + 1;
    }
    assert(!byte_lists_view(list@).contains(b@)) by {
        if byte_lists_view(list@).contains(b@) {
            let j = choose|j: int| 0 <= j < list@.len() && byte_lists_view(list@)[j] == b@;
            assert(list@[j]@ == b@);
        }
    }
    false
}

impl DeencodeTree {
    /// Build a deencoding tree for `input`, recursively calling
    /// [`EncodeNode::make_nodes()`] and [`DecodeNode::make_nodes()`].
    ///
    /// `depth` is the number of encodings in any branch; each is followed by
    /// a decoding, so the tree has `2 * depth` levels. The process starts
    /// with an encoding, so a `depth` of 0 is refused.
    ///
    /// The number of nodes grows as `engines.len()` to the power `2 * depth`:
    /// keep both small.
    pub fn deencode(input: &str, engines: &[&dyn Engine], depth: usize) -> (r: Result<
        DeencodeTree,
        DeencodeError,
    >)
        ensures
            depth == 0 ==> r == Err::<DeencodeTree, DeencodeError>(DeencodeError::ZeroDepth),
            depth > 0 ==> (r matches Ok(t) && t@ == deencode_spec(input@, engines@, depth as nat)),
    {
        if depth == 0 {
            return Err(DeencodeError::ZeroDepth);
        }
        Ok(DeencodeTree { input: input.to_owned(), encoders: EncodeNode::make_nodes(input, engines, depth) })
    }

    /// Prune the tree, keeping one instance of each encoding output and each
    /// decoding output.
    ///
    /// Nodes are explored depth-first, in engine order, so that outputs of
    /// earlier engines are kept over those of later ones.
    ///
    /// Returns the distinct decoding outputs (the input first) and the
    /// distinct encoding outputs.
    pub fn deduplicate(&mut self) -> (r: (Vec<String>, Vec<Vec<u8>>))
        ensures
            dedup_tree(old(self)@) == (final(self)@, strings_view(r.0@), byte_lists_view(r.1@)),
            r.0@.len() >= 1,
            r.0@[0]@ == old(self).input@,
    {
        proof {
            crate::tree_laws::lemma_input_first(self@);
        }
        let ghost es = self@.encoders;
        let mut known_strings: Vec<String> = Vec::new();
        known_strings.push(self.input.clone());
        let mut known_bytes: Vec<Vec<u8>> = Vec::new();
        assert(strings_view(known_strings@) =~= seq![self.input@]);
        assert(byte_lists_view(known_bytes@) =~= seq![]);
        let mut pending: Vec<EncodeNode> = Vec::new();
        std::mem::swap(&mut pending, &mut self.encoders);
        let ghost all = pending@;
        let n = pending.len();
        let mut kept: Vec<EncodeNode> = Vec::new();
        let mut i: usize = 0;
        assert(pending@ =~= all.subrange(0, 0 + n as int));
        while i < n
            invariant
                n == all.len(),
                i <= n,
                pending@ == all.subrange(i as int, n as int),
                encode_views(all) == es,
                es == old(self)@.encoders,
                self.input@ == old(self)@.input,
                dedup_root_list(es, seq![old(self)@.input], seq![], i as nat) == (
                    encode_views(kept@),
                    strings_view(known_strings@),
                    byte_lists_view(known_bytes@),
                ),
            decreases n - i,
        {
            let mut e = pending.remove(0);
            assert(e@ == es[i as int]);
            let ghost kept0 = kept@;
            if !contains_bytes(&known_bytes, &e.output) {
                e.deduplicate(&mut known_strings, &mut known_bytes);
                kept.push(e);
                assert(encode_views(kept@) =~= encode_views(kept0).push(e@));
            }
            assert(pending@ =~= all.subrange(i + 1, n as int));
            i = i + 1;
        }
        self.encoders = kept;
        (known_strings, known_bytes)
    }
}

} // verus!
