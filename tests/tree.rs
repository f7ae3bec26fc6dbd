use deencode::deencodetree::{DecodeNode, EncodeNode};
use deencode::{
    deencode, DeencodeError, DeencodeTree, Engine, Latin1Engine, Mixed816BEEngine,
    Mixed816LEEngine, Utf7Engine, Utf8Engine,
};

fn render_encoders(nodes: &[EncodeNode], out: &mut String) {
    for node in nodes {
        out.push_str(&format!("E({}:{:?}[", node.name, node.output));
        render_decoders(&node.decoders, out);
        out.push_str("])");
    }
}

fn render_decoders(nodes: &[DecodeNode], out: &mut String) {
    for node in nodes {
        out.push_str(&format!("D({}:{:?}:{}[", node.name, node.output, node.is_leaf));
        render_encoders(&node.encoders, out);
        out.push_str("])");
    }
}

fn render(tree: &DeencodeTree) -> String {
    let mut out = format!("{:?}", tree.input);
    render_encoders(&tree.encoders, &mut out);
    out
}

fn terminal_path_lengths_enc(nodes: &[EncodeNode], before: usize, lengths: &mut Vec<usize>) {
    for node in nodes {
        for d in &node.decoders {
            if d.encoders.is_empty() {
                lengths.push(before + 2);
            } else {
                terminal_path_lengths_enc(&d.encoders, before + 2, lengths);
            }
        }
    }
}

#[test]
fn hello_with_utf8_and_mixed_le() {
    let utf8 = Utf8Engine {};
    let mixed = Mixed816LEEngine {};
    let engines: Vec<&dyn Engine> = vec![&utf8, &mixed];
    let mut tree = deencode("Hello", &engines, 1).unwrap();

    assert_eq!(tree.encoders.len(), 2);
    assert_eq!(tree.encoders[0].name, "UTF-8");
    assert_eq!(tree.encoders[0].output, vec![0x48, 0x65, 0x6c, 0x6c, 0x6f]);
    assert_eq!(tree.encoders[1].name, "mixed UTF-8/UTF-16LE");
    assert_eq!(tree.encoders[1].output, vec![0x48, 0x65, 0x6c, 0x6c, 0x6f]);

    let (strings, bytes) = tree.deduplicate();
    assert_eq!(tree.encoders.len(), 1);
    assert_eq!(tree.encoders[0].name, "UTF-8");
    assert_eq!(strings, vec!["Hello".to_string()]);
    assert_eq!(bytes, vec![vec![0x48, 0x65, 0x6c, 0x6c, 0x6f]]);
}

#[test]
fn zero_depth_is_refused() {
    let utf8 = Utf8Engine {};
    let engines: Vec<&dyn Engine> = vec![&utf8];
    assert!(matches!(deencode("Hello", &engines, 0), Err(DeencodeError::ZeroDepth)));
    assert!(matches!(DeencodeTree::deencode("Hello", &engines, 0), Err(DeencodeError::ZeroDepth)));
}

#[test]
fn latin1_then_mixed_le_mangles_the_next_letter() {
    let latin1 = Latin1Engine {};
    let mixed = Mixed816LEEngine {};
    let engines: Vec<&dyn Engine> = vec![&latin1, &mixed];
    let tree = deencode("Cl\u{e9}ment", &engines, 1).unwrap();
    assert_eq!(tree.encoders[0].output, vec![0x43, 0x6c, 0xe9, 0x6d, 0x65, 0x6e, 0x74]);
    assert_eq!(tree.encoders[0].decoders[1].output, "Cl\u{6de9}ent");
}

#[test]
fn every_path_has_twice_the_depth() {
    let utf8 = Utf8Engine {};
    let latin1 = Latin1Engine {};
    let be = Mixed816BEEngine {};
    let le = Mixed816LEEngine {};
    let engines: Vec<&dyn Engine> = vec![&utf8, &latin1, &be, &le];
    for depth in 1..3 {
        let tree = deencode("Cl\u{e9}ment", &engines, depth).unwrap();
        let mut lengths = Vec::new();
        terminal_path_lengths_enc(&tree.encoders, 0, &mut lengths);
        assert!(!lengths.is_empty());
        assert!(lengths.iter().all(|&l| l == 2 * depth));
    }
}

#[test]
fn leaves_are_at_the_bottom() {
    let utf8 = Utf8Engine {};
    let le = Mixed816LEEngine {};
    let engines: Vec<&dyn Engine> = vec![&utf8, &le];
    let tree = deencode("\u{e9}", &engines, 2).unwrap();
    let first = &tree.encoders[0].decoders[0];
    assert!(!first.is_leaf);
    assert!(first.encoders[0].decoders.iter().all(|d| d.is_leaf && d.encoders.is_empty()));
}

#[test]
fn deduplicate_is_idempotent() {
    let utf8 = Utf8Engine {};
    let latin1 = Latin1Engine {};
    let be = Mixed816BEEngine {};
    let le = Mixed816LEEngine {};
    let utf7 = Utf7Engine {};
    let engines: Vec<&dyn Engine> = vec![&utf8, &latin1, &be, &le, &utf7];
    let mut tree = deencode("Cl\u{e9}ment", &engines, 2).unwrap();
    let _ = tree.deduplicate();
    let once = render(&tree);
    let _ = tree.deduplicate();
    assert_eq!(render(&tree), once);
}

#[test]
fn input_comes_first() {
    let utf8 = Utf8Engine {};
    let latin1 = Latin1Engine {};
    let le = Mixed816LEEngine {};
    let engines: Vec<&dyn Engine> = vec![&latin1, &le, &utf8];
    let mut tree = deencode("\u{e9}t\u{e9}", &engines, 2).unwrap();
    let (strings, bytes) = tree.deduplicate();
    assert_eq!(strings[0], "\u{e9}t\u{e9}");
    assert!(strings.len() > 1);
    assert!(!bytes.is_empty());
}

#[test]
fn builds_are_deterministic() {
    let utf8 = Utf8Engine {};
    let latin1 = Latin1Engine {};
    let be = Mixed816BEEngine {};
    let engines: Vec<&dyn Engine> = vec![&utf8, &latin1, &be];
    let mut a = deencode("na\u{ef}ve \u{1f600}", &engines, 2).unwrap();
    let mut b = deencode("na\u{ef}ve \u{1f600}", &engines, 2).unwrap();
    assert_eq!(render(&a), render(&b));
    let ra = a.deduplicate();
    let rb = b.deduplicate();
    assert_eq!(ra, rb);
    assert_eq!(render(&a), render(&b));
}

#[test]
fn decode_steps_are_duplicated_per_engine() {
    let utf8 = Utf8Engine {};
    let be = Mixed816BEEngine {};
    let engines: Vec<&dyn Engine> = vec![&utf8, &be];
    let nodes = DecodeNode::make_nodes(&[0x41, 0xe9], &engines, 0);
    assert_eq!(nodes.len(), 2);
    assert_eq!(nodes[0].output, "A\u{fffd}");
    assert_eq!(nodes[1].output, "A\u{fffd}");
    assert!(nodes.iter().all(|n| n.is_leaf && n.encoders.is_empty()));
    let encoded = EncodeNode::make_nodes("A", &engines, 1);
    assert_eq!(encoded.len(), 2);
    assert_eq!(encoded[0].decoders.len(), 2);
}
