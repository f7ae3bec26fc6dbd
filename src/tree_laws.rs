//! What holds of every tree: the length of its paths, and how
//! deduplication behaves.
use vstd::prelude::*;
use crate::deencodetree::{
    decode_level, dedup_decode, dedup_decode_list, dedup_encode, dedup_encode_list,
    dedup_root_list, dedup_tree, deencode_spec, encode_level, DecodeModel, EncodeModel, TreeModel,
};
use crate::engine::Engine;

verus! {

broadcast use vstd::seq::axiom_seq_index_decreases;

/// Every path that starts below a point reached after `before` transforms
/// and ends on a decoding step without encoding steps below it has exactly
/// `len` transforms.
pub open spec fn encode_paths_have_len(es: Seq<EncodeModel>, before: nat, len: nat) -> bool
    decreases es,
{
    forall|i: int|
        0 <= i < es.len() ==> #[trigger] decode_paths_have_len(es[i].decoders, before + 1, len)
}

/// The decoding-side counterpart of [`encode_paths_have_len`].
pub open spec fn decode_paths_have_len(ds: Seq<DecodeModel>, before: nat, len: nat) -> bool
    decreases ds,
{
    forall|j: int|
        0 <= j < ds.len() ==> if (#[trigger] ds[j]).encoders.len() == 0 {
            before + 1 == len
        } else {
            encode_paths_have_len(ds[j].encoders, before + 1, len)
        }
}

/// Whether some engine of the list can encode `s`.
pub open spec fn some_engine_encodes(engines: Seq<&dyn Engine>, s: Seq<char>) -> bool {
    exists|k: int| 0 <= k < engines.len() && (#[trigger] engines[k].encode_spec(s)) is Some
}

/// Whether every string can be encoded by some engine of the list.
pub open spec fn some_engine_encodes_all(engines: Seq<&dyn Engine>) -> bool {
    forall|s: Seq<char>| #[trigger] some_engine_encodes(engines, s)
}

proof fn lemma_encode_level_nonempty(s: Seq<char>, engines: Seq<&dyn Engine>, k: nat, depth: nat, j: int)
    requires
        depth > 0,
        k <= engines.len(),
        0 <= j < k,
        engines[j].encode_spec(s) is Some,
    ensures
        encode_level(s, engines, k, depth).len() > 0,
    decreases k,
{
    if j < k - 1 {
        lemma_encode_level_nonempty(s, engines, (k - 1) as nat, depth, j);
    }
}

proof fn lemma_encode_level_paths(input: Seq<char>, engines: Seq<&dyn Engine>, k: nat, depth: nat, before: nat)
    requires
        depth > 0,
        k <= engines.len(),
        some_engine_encodes_all(engines),
    ensures
        encode_paths_have_len(encode_level(input, engines, k, depth), before, before + 2 * depth),
    decreases depth, 0nat, k,
{
    if k > 0 {
        lemma_encode_level_paths(input, engines, (k - 1) as nat, depth, before);
        let e = engines[k - 1];
        if let Some(b) = e.encode_spec(input) {
            lemma_decode_level_paths(b, engines, engines.len(), (depth - 1) as nat, before + 1);
        }
    }
}

proof fn lemma_decode_level_paths(input: Seq<u8>, engines: Seq<&dyn Engine>, k: nat, depth: nat, before: nat)
    requires
        k <= engines.len(),
        some_engine_encodes_all(engines),
    ensures
        decode_paths_have_len(decode_level(input, engines, k, depth), before, before + 1 + 2 * depth),
    decreases depth, 1nat, k,
{
    if k > 0 {
        lemma_decode_level_paths(input, engines, (k - 1) as nat, depth, before);
        let out = engines[k - 1].decode_spec(input);
        if depth > 0 {
            assert(some_engine_encodes(engines, out));
            let j = choose|j: int| 0 <= j < engines.len() && (#[trigger] engines[j].encode_spec(out)) is Some;
            lemma_encode_level_nonempty(out, engines, engines.len(), depth, j);
            lemma_encode_level_paths(out, engines, engines.len(), depth, before + 1);
        }
    }
}

/// With an engine in the list that encodes every string (UTF-8 does), every
/// path from the root of a freshly built tree to a decoding step without
/// encoding steps below it has exactly `2 * depth` transforms.
pub proof fn lemma_path_length(input: Seq<char>, engines: Seq<&dyn Engine>, depth: nat)
    requires
        depth >= 1,
        some_engine_encodes_all(engines),
    ensures
        encode_paths_have_len(deencode_spec(input, engines, depth).encoders, 0, 2 * depth),
{
    lemma_encode_level_paths(input, engines, engines.len(), depth, 0);
}

/// Whether `b` starts with `a`.
pub open spec fn extends<T>(a: Seq<T>, b: Seq<T>) -> bool {
    a.len() <= b.len() && forall|i: int| 0 <= i < a.len() ==> #[trigger] b[i] == a[i]
}

/// Whether every element of `a` is an element of `b`.
pub open spec fn within<T>(a: Seq<T>, b: Seq<T>) -> bool {
    forall|x: T| #[trigger] a.contains(x) ==> b.contains(x)
}

proof fn lemma_extends_within<T>(a: Seq<T>, b: Seq<T>)
    requires
        extends(a, b),
    ensures
        within(a, b),
{
    assert forall|x: T| #[trigger] a.contains(x) implies b.contains(x) by {
        let i = choose|i: int| 0 <= i < a.len() && a[i] == x;
        assert(b[i] == x);
    }
}

proof fn lemma_within_push<T>(a: Seq<T>, b: Seq<T>, x: T)
    requires
        within(a, b),
    ensures
        within(a.push(x), b.push(x)),
{
    assert forall|y: T| #[trigger] a.push(x).contains(y) implies b.push(x).contains(y) by {
        let i = choose|i: int| 0 <= i < a.push(x).len() && a.push(x)[i] == y;
        if i == a.len() {
            assert(b.push(x)[b.len() as int] == y);
        } else {
            assert(a.contains(y));
            let j = choose|j: int| 0 <= j < b.len() && b[j] == y;
            assert(b.push(x)[j] == y);
        }
    }
}

proof fn lemma_within_trans<T>(a: Seq<T>, b: Seq<T>, c: Seq<T>)
    requires
        within(a, b),
        within(b, c),
    ensures
        within(a, c),
{
}

proof fn lemma_dedup_encode_extends(n: EncodeModel, ss: Seq<Seq<char>>, sb: Seq<Seq<u8>>)
    ensures
        extends(ss, dedup_encode(n, ss, sb).1),
        extends(sb, dedup_encode(n, ss, sb).2),
    decreases n, 0nat,
{
    lemma_dedup_decode_list_extends(n.decoders, ss, sb.push(n.output), n.decoders.len());
}

proof fn lemma_dedup_decode_extends(n: DecodeModel, ss: Seq<Seq<char>>, sb: Seq<Seq<u8>>)
    ensures
        extends(ss, dedup_decode(n, ss, sb).1),
        extends(sb, dedup_decode(n, ss, sb).2),
    decreases n, 0nat,
{
    lemma_dedup_encode_list_extends(n.encoders, ss.push(n.output), sb, n.encoders.len());
}

proof fn lemma_dedup_decode_list_extends(ds: Seq<DecodeModel>, ss: Seq<Seq<char>>, sb: Seq<Seq<u8>>, k: nat)
    ensures
        extends(ss, dedup_decode_list(ds, ss, sb, k).1),
        extends(sb, dedup_decode_list(ds, ss, sb, k).2),
    decreases ds, k,
{
    if k > 0 && k <= ds.len() {
        lemma_dedup_decode_list_extends(ds, ss, sb, (k - 1) as nat);
        let p = dedup_decode_list(ds, ss, sb, (k - 1) as nat);
        if !p.1.contains(ds[k - 1].output) {
            lemma_dedup_decode_extends(ds[k - 1], p.1, p.2);
        }
    }
}

proof fn lemma_dedup_encode_list_extends(es: Seq<EncodeModel>, ss: Seq<Seq<char>>, sb: Seq<Seq<u8>>, k: nat)
    ensures
        extends(ss, dedup_encode_list(es, ss, sb, k).1),
        extends(sb, dedup_encode_list(es, ss, sb, k).2),
    decreases es, k,
{
    if k > 0 && k <= es.len() {
        lemma_dedup_encode_list_extends(es, ss, sb, (k - 1) as nat);
        let p = dedup_encode_list(es, ss, sb, (k - 1) as nat);
        if !p.2.contains(es[k - 1].output) {
            lemma_dedup_encode_extends(es[k - 1], p.1, p.2);
        }
    }
}

proof fn lemma_dedup_root_list_extends(es: Seq<EncodeModel>, ss: Seq<Seq<char>>, sb: Seq<Seq<u8>>, k: nat)
    ensures
        extends(ss, dedup_root_list(es, ss, sb, k).1),
        extends(sb, dedup_root_list(es, ss, sb, k).2),
    decreases k,
{
    if k > 0 && k <= es.len() {
        lemma_dedup_root_list_extends(es, ss, sb, (k - 1) as nat);
        let p = dedup_root_list(es, ss, sb, (k - 1) as nat);
        if !p.2.contains(es[k - 1].output) {
            lemma_dedup_encode_extends(es[k - 1], p.1, p.2);
        }
    }
}

/// The first of the strings that deduplication returns is always the input.
pub proof fn lemma_input_first(t: TreeModel)
    ensures
        dedup_tree(t).1.len() >= 1,
        dedup_tree(t).1[0] == t.input,
{
    lemma_dedup_root_list_extends(t.encoders, seq![t.input], seq![], t.encoders.len());
}

/// Building twice with the same input, engines (in the same order) and depth
/// gives the same tree; deduplicating equal trees gives the same tree and
/// the same lists.
pub proof fn lemma_deterministic(
    input: Seq<char>,
    engines: Seq<&dyn Engine>,
    depth: nat,
    t1: TreeModel,
    t2: TreeModel,
)
    requires
        t1 == deencode_spec(input, engines, depth),
        t2 == deencode_spec(input, engines, depth),
    ensures
        t1 == t2,
        dedup_tree(t1) == dedup_tree(t2),
{
}

proof fn lemma_decode_list_push(ds: Seq<DecodeModel>, x: DecodeModel, ss: Seq<Seq<char>>, sb: Seq<Seq<u8>>, k: nat)
    requires
        k <= ds.len(),
    ensures
        dedup_decode_list(ds.push(x), ss, sb, k) == dedup_decode_list(ds, ss, sb, k),
    decreases k,
{
    if k > 0 {
        lemma_decode_list_push(ds, x, ss, sb, (k - 1) as nat);
        assert(ds.push(x)[k - 1] == ds[k - 1]);
    }
}

proof fn lemma_encode_list_push(es: Seq<EncodeModel>, x: EncodeModel, ss: Seq<Seq<char>>, sb: Seq<Seq<u8>>, k: nat)
    requires
        k <= es.len(),
    ensures
        dedup_encode_list(es.push(x), ss, sb, k) == dedup_encode_list(es, ss, sb, k),
    decreases k,
{
    if k > 0 {
        lemma_encode_list_push(es, x, ss, sb, (k - 1) as nat);
        assert(es.push(x)[k - 1] == es[k - 1]);
    }
}

proof fn lemma_root_list_push(es: Seq<EncodeModel>, x: EncodeModel, ss: Seq<Seq<char>>, sb: Seq<Seq<u8>>, k: nat)
    requires
        k <= es.len(),
    ensures
        dedup_root_list(es.push(x), ss, sb, k) == dedup_root_list(es, ss, sb, k),
    decreases k,
{
    if k > 0 {
        lemma_root_list_push(es, x, ss, sb, (k - 1) as nat);
        assert(es.push(x)[k - 1] == es[k - 1]);
    }
}

proof fn lemma_dedup_encode_again(
    n: EncodeModel,
    s1: Seq<Seq<char>>,
    b1: Seq<Seq<u8>>,
    s2: Seq<Seq<char>>,
    b2: Seq<Seq<u8>>,
)
    requires
        within(s2, s1),
        within(b2, b1),
    ensures
        dedup_encode(dedup_encode(n, s1, b1).0, s2, b2).0 == dedup_encode(n, s1, b1).0,
        within(dedup_encode(dedup_encode(n, s1, b1).0, s2, b2).1, dedup_encode(n, s1, b1).1),
        within(dedup_encode(dedup_encode(n, s1, b1).0, s2, b2).2, dedup_encode(n, s1, b1).2),
    decreases n, 0nat,
{
    lemma_within_push(b2, b1, n.output);
    lemma_dedup_decode_list_again(n.decoders, s1, b1.push(n.output), n.decoders.len(), s2, b2.push(n.output));
}

proof fn lemma_dedup_decode_again(
    n: DecodeModel,
    s1: Seq<Seq<char>>,
    b1: Seq<Seq<u8>>,
    s2: Seq<Seq<char>>,
    b2: Seq<Seq<u8>>,
)
    requires
        within(s2, s1),
        within(b2, b1),
    ensures
        dedup_decode(dedup_decode(n, s1, b1).0, s2, b2).0 == dedup_decode(n, s1, b1).0,
        within(dedup_decode(dedup_decode(n, s1, b1).0, s2, b2).1, dedup_decode(n, s1, b1).1),
        within(dedup_decode(dedup_decode(n, s1, b1).0, s2, b2).2, dedup_decode(n, s1, b1).2),
    decreases n, 0nat,
{
    lemma_within_push(s2, s1, n.output);
    lemma_dedup_encode_list_again(n.encoders, s1.push(n.output), b1, n.encoders.len(), s2.push(n.output), b2);
}

proof fn lemma_dedup_decode_list_again(
    ds: Seq<DecodeModel>,
    s1: Seq<Seq<char>>,
    b1: Seq<Seq<u8>>,
    k: nat,
    s2: Seq<Seq<char>>,
    b2: Seq<Seq<u8>>,
)
    requires
        within(s2, s1),
        within(b2, b1),
        k <= ds.len(),
    ensures
        ({
            let r1 = dedup_decode_list(ds, s1, b1, k);
            let r2 = dedup_decode_list(r1.0, s2, b2, r1.0.len());
            r2.0 == r1.0 && within(r2.1, r1.1) && within(r2.2, r1.2)
        }),
    decreases ds, k,
{
    if k > 0 {
        lemma_dedup_decode_list_again(ds, s1, b1, (k - 1) as nat, s2, b2);
        let done1 = dedup_decode_list(ds, s1, b1, (k - 1) as nat);
        let done2 = dedup_decode_list(done1.0, s2, b2, done1.0.len());
        let d = ds[k - 1];
        if !done1.1.contains(d.output) {
            let r = dedup_decode(d, done1.1, done1.2);
            lemma_dedup_decode_extends(d, done1.1, done1.2);
            lemma_extends_within(done1.1, r.1);
            lemma_extends_within(done1.2, r.2);
            if r.0.encoders.len() == 0 && !r.0.is_leaf {
                lemma_within_trans(done2.1, done1.1, r.1);
                lemma_within_trans(done2.2, done1.2, r.2);
            } else {
                let ks = done1.0.push(r.0);
                lemma_decode_list_push(done1.0, r.0, s2, b2, done1.0.len());
                assert(ks[ks.len() - 1] == r.0);
                assert(!done2.1.contains(d.output));
                lemma_dedup_decode_again(d, done1.1, done1.2, done2.1, done2.2);
            }
        }
    }
}

proof fn lemma_dedup_encode_list_again(
    es: Seq<EncodeModel>,
    s1: Seq<Seq<char>>,
    b1: Seq<Seq<u8>>,
    k: nat,
    s2: Seq<Seq<char>>,
    b2: Seq<Seq<u8>>,
)
    requires
        within(s2, s1),
        within(b2, b1),
        k <= es.len(),
    ensures
        ({
            let r1 = dedup_encode_list(es, s1, b1, k);
            let r2 = dedup_encode_list(r1.0, s2, b2, r1.0.len());
            r2.0 == r1.0 && within(r2.1, r1.1) && within(r2.2, r1.2)
        }),
    decreases es, k,
{
    if k > 0 {
        lemma_dedup_encode_list_again(es, s1, b1, (k - 1) as nat, s2, b2);
        let done1 = dedup_encode_list(es, s1, b1, (k - 1) as nat);
        let done2 = dedup_encode_list(done1.0, s2, b2, done1.0.len());
        let e = es[k - 1];
        if !done1.2.contains(e.output) {
            let r = dedup_encode(e, done1.1, done1.2);
            lemma_dedup_encode_extends(e, done1.1, done1.2);
            lemma_extends_within(done1.1, r.1);
            lemma_extends_within(done1.2, r.2);
            if r.0.decoders.len() == 0 {
                lemma_within_trans(done2.1, done1.1, r.1);
                lemma_within_trans(done2.2, done1.2, r.2);
            } else {
                let ks = done1.0.push(r.0);
                lemma_encode_list_push(done1.0, r.0, s2, b2, done1.0.len());
                assert(ks[ks.len() - 1] == r.0);
                assert(!done2.2.contains(e.output));
                lemma_dedup_encode_again(e, done1.1, done1.2, done2.1, done2.2);
            }
        }
    }
}

proof fn lemma_dedup_root_list_again(
    es: Seq<EncodeModel>,
    s1: Seq<Seq<char>>,
    b1: Seq<Seq<u8>>,
    k: nat,
    s2: Seq<Seq<char>>,
    b2: Seq<Seq<u8>>,
)
    requires
        within(s2, s1),
        within(b2, b1),
        k <= es.len(),
    ensures
        ({
            let r1 = dedup_root_list(es, s1, b1, k);
            let r2 = dedup_root_list(r1.0, s2, b2, r1.0.len());
            r2.0 == r1.0 && within(r2.1, r1.1) && within(r2.2, r1.2)
        }),
    decreases k,
{
    if k > 0 {
        lemma_dedup_root_list_again(es, s1, b1, (k - 1) as nat, s2, b2);
        let done1 = dedup_root_list(es, s1, b1, (k - 1) as nat);
        let done2 = dedup_root_list(done1.0, s2, b2, done1.0.len());
        let e = es[k - 1];
        if !done1.2.contains(e.output) {
            let r = dedup_encode(e, done1.1, done1.2);
            let ks = done1.0.push(r.0);
            lemma_root_list_push(done1.0, r.0, s2, b2, done1.0.len());
            assert(ks[ks.len() - 1] == r.0);
            assert(!done2.2.contains(e.output));
            lemma_dedup_encode_again(e, done1.1, done1.2, done2.1, done2.2);
        }
    }
}

/// Deduplication is idempotent: deduplicating a deduplicated tree leaves it
/// as it is.
pub proof fn lemma_dedup_idempotent(t: TreeModel)
    ensures
        dedup_tree(dedup_tree(t).0).0 == dedup_tree(t).0,
{
    lemma_dedup_root_list_again(t.encoders, seq![t.input], seq![], t.encoders.len(), seq![t.input], seq![]);
}

} // verus!

