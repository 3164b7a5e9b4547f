use style_minimizer::document::Node;
use style_minimizer::language::Language;
use style_minimizer::minimize::{simplify_config, simplify_hash, simplify_single_config};

fn s(t: &str) -> Node {
    Node::Str(t.to_string())
}

fn i(n: i64) -> Node {
    Node::Integer(n)
}

fn map(entries: Vec<(&str, Node)>) -> Vec<(Node, Node)> {
    entries.into_iter().map(|(k, v)| (s(k), v)).collect()
}

fn hash(entries: Vec<(&str, Node)>) -> Node {
    Node::Hash(map(entries))
}

#[test]
fn nested_mapping_keeps_only_changed_key() {
    let target = map(vec![("A", i(1)), ("B", hash(vec![("C", i(2)), ("D", i(3))]))]);
    let base = map(vec![("A", i(1)), ("B", hash(vec![("C", i(2))]))]);
    assert_eq!(simplify_hash(&target, &base), map(vec![("B", hash(vec![("D", i(3))]))]));
}

#[test]
fn equal_value_and_empty_mapping_are_dropped() {
    let target = map(vec![("A", i(1)), ("E", hash(vec![]))]);
    let base = map(vec![("A", i(1))]);
    assert_eq!(simplify_hash(&target, &base), map(vec![]));
}

#[test]
fn mapping_of_empty_mappings_without_base_is_dropped() {
    let target = map(vec![("E", hash(vec![("F", hash(vec![]))])), ("G", hash(vec![("H", i(4)), ("J", hash(vec![]))]))]);
    let base = map(vec![]);
    assert_eq!(simplify_hash(&target, &base), map(vec![("G", hash(vec![("H", i(4))]))]));
}

#[test]
fn changed_scalar_is_kept() {
    let target = map(vec![("A", i(2)), ("B", s("x"))]);
    let base = map(vec![("A", i(1)), ("B", s("x"))]);
    assert_eq!(simplify_hash(&target, &base), map(vec![("A", i(2))]));
}

#[test]
fn mismatched_shapes_replace_wholesale() {
    let target = map(vec![("A", hash(vec![("C", i(1))])), ("B", i(5))]);
    let base = map(vec![("A", i(1)), ("B", hash(vec![("C", i(1))]))]);
    assert_eq!(simplify_hash(&target, &base), target);
}

#[test]
fn sequences_compare_deeply() {
    let target = map(vec![("A", Node::Array(vec![s("a"), s("b")])), ("B", Node::Array(vec![s("a")]))]);
    let base = map(vec![("A", Node::Array(vec![s("a"), s("b")])), ("B", Node::Array(vec![s("b")]))]);
    assert_eq!(simplify_hash(&target, &base), map(vec![("B", Node::Array(vec![s("a")]))]));
}

#[test]
fn base_only_keys_never_appear() {
    let target = map(vec![("A", i(1))]);
    let base = map(vec![("A", i(2)), ("Z", i(9)), ("Y", hash(vec![("Q", i(1))]))]);
    let d = simplify_hash(&target, &base);
    assert_eq!(d, map(vec![("A", i(1))]));
    assert!(d.iter().all(|(k, _)| *k != s("Z") && *k != s("Y")));
}

#[test]
fn identical_mappings_give_no_overrides() {
    let target = map(vec![("A", i(1)), ("B", hash(vec![("C", Node::Boolean(true)), ("D", Node::Null)]))]);
    assert_eq!(simplify_hash(&target, &target.clone()), map(vec![]));
}

#[test]
fn single_config_names_base_and_language() {
    let target = map(vec![("Language", s("Cpp")), ("A", i(2))]);
    let base = map(vec![("Language", s("Cpp")), ("A", i(1))]);
    let r = simplify_single_config(&target, Some(Language::Cpp), "LLVM", &base);
    assert_eq!(r, map(vec![("Language", s("Cpp")), ("BasedOnStyle", s("LLVM")), ("A", i(2))]));
}

#[test]
fn differing_language_entry_moves_to_end() {
    let target = map(vec![("Language", s("Cpp")), ("A", i(2))]);
    let base = map(vec![("A", i(1))]);
    let r = simplify_single_config(&target, Some(Language::Cpp), "LLVM", &base);
    assert_eq!(r, map(vec![("BasedOnStyle", s("LLVM")), ("Language", s("Cpp")), ("A", i(2))]));
}

#[test]
fn minimize_picks_smallest_override() {
    let target = map(vec![("A", i(1)), ("B", i(2)), ("C", i(3))]);
    let far = map(vec![("A", i(0)), ("B", i(0)), ("C", i(0))]);
    let near = map(vec![("A", i(1)), ("B", i(2)), ("C", i(0))]);
    let styles = vec![("Far".to_string(), far), ("Near".to_string(), near)];
    let r = simplify_config(target, None, &styles);
    assert_eq!(r, map(vec![("BasedOnStyle", s("Near")), ("C", i(3))]));
}

#[test]
fn minimize_tie_goes_to_first_candidate() {
    let target = map(vec![("A", i(1))]);
    let styles = vec![
        ("Alpha".to_string(), map(vec![("A", i(1))])),
        ("Beta".to_string(), map(vec![("A", i(1))])),
    ];
    let r = simplify_config(target, None, &styles);
    assert_eq!(r, map(vec![("BasedOnStyle", s("Alpha"))]));
}

#[test]
fn minimize_counts_top_level_entries_only() {
    let target = map(vec![("A", hash(vec![("P", i(1)), ("Q", i(1)), ("R", i(1))])), ("B", i(1)), ("C", i(1))]);
    let one_nested = map(vec![("A", hash(vec![("P", i(0)), ("Q", i(0)), ("R", i(0))])), ("B", i(1)), ("C", i(1))]);
    let two_scalars = map(vec![("A", hash(vec![("P", i(1)), ("Q", i(1)), ("R", i(1))])), ("B", i(0)), ("C", i(0))]);
    let styles = vec![("Two".to_string(), two_scalars), ("One".to_string(), one_nested)];
    let r = simplify_config(target, None, &styles);
    assert_eq!(r[0], (s("BasedOnStyle"), s("One")));
    assert_eq!(r.len(), 2);
}

#[test]
fn minimize_passes_through_based_config() {
    let target = map(vec![("BasedOnStyle", s("Google")), ("A", i(1))]);
    let styles = vec![("LLVM".to_string(), map(vec![("A", i(1))]))];
    assert_eq!(simplify_config(target.clone(), None, &styles), target);
    assert_eq!(simplify_config(target.clone(), Some(Language::Java), &vec![]), target);
}

#[test]
fn minimize_is_deterministic() {
    let target = map(vec![("A", i(1)), ("B", hash(vec![("C", i(2))]))]);
    let styles = vec![
        ("X".to_string(), map(vec![("A", i(2))])),
        ("Y".to_string(), map(vec![("A", i(1)), ("B", hash(vec![("C", i(3))]))])),
    ];
    let first = simplify_config(target.clone(), Some(Language::Proto), &styles);
    let second = simplify_config(target, Some(Language::Proto), &styles);
    assert_eq!(first, second);
}

#[test]
fn documents_are_minimized_independently_in_order() {
    let docs = vec![
        map(vec![("A", i(1)), ("B", i(5))]),
        map(vec![("A", i(7))]),
    ];
    let styles = vec![("S".to_string(), map(vec![("A", i(1)), ("B", i(2))]))];
    let out: Vec<Vec<(Node, Node)>> = docs.into_iter().map(|d| simplify_config(d, None, &styles)).collect();
    assert_eq!(out.len(), 2);
    assert_eq!(out[0], map(vec![("BasedOnStyle", s("S")), ("B", i(5))]));
    assert_eq!(out[1], map(vec![("BasedOnStyle", s("S")), ("A", i(7))]));
}

fn lookup<'a>(m: &'a [(Node, Node)], k: &Node) -> Option<&'a Node> {
    m.iter().find(|(key, _)| key == k).map(|(_, v)| v)
}

fn layer(base: &[(Node, Node)], overrides: &[(Node, Node)]) -> Vec<(Node, Node)> {
    let mut out: Vec<(Node, Node)> = base.to_vec();
    for (k, ov) in overrides {
        let merged = match (lookup(&out, k), ov) {
            (Some(Node::Hash(bh)), Node::Hash(oh)) => Node::Hash(layer(bh, oh)),
            _ => ov.clone(),
        };
        out.retain(|(key, _)| key != k);
        out.push((k.clone(), merged));
    }
    out
}

#[test]
fn overrides_layered_over_base_give_back_target() {
    let target = map(vec![
        ("A", i(1)),
        ("B", hash(vec![("C", i(2)), ("D", i(3))])),
        ("E", s("new")),
        ("F", Node::Array(vec![i(1), i(2)])),
        ("G", hash(vec![])),
    ]);
    let base = map(vec![
        ("A", i(1)),
        ("B", hash(vec![("C", i(2)), ("D", i(4)), ("X", i(0))])),
        ("F", Node::Array(vec![i(1)])),
        ("Z", Node::Boolean(false)),
    ]);
    let overrides = simplify_hash(&target, &base);
    let rebuilt = layer(&base, &overrides);
    assert_eq!(lookup(&rebuilt, &s("A")), Some(&i(1)));
    assert_eq!(lookup(&rebuilt, &s("B")), Some(&hash(vec![("C", i(2)), ("X", i(0)), ("D", i(3))])));
    assert_eq!(lookup(&rebuilt, &s("E")), Some(&s("new")));
    assert_eq!(lookup(&rebuilt, &s("F")), Some(&Node::Array(vec![i(1), i(2)])));
    assert_eq!(lookup(&rebuilt, &s("G")), None);
    assert_eq!(lookup(&rebuilt, &s("Z")), Some(&Node::Boolean(false)));
}
