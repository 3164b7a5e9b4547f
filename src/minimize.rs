use vstd::prelude::*;
use crate::language::{language_name, Language};
use crate::document::{has_key, copy_node, entries_view, find_key, lookup, node_eq, opt_view, Doc, Node};

verus! {

broadcast use {
    vstd::std_specs::vec::axiom_vec_index_decreases,
    vstd::seq::axiom_seq_index_decreases,
    vstd::seq::axiom_seq_subrange_decreases,
};

/// What a mapping must keep of the value `v`, given the value `base` of the
/// same key in the base mapping, if any.
///
/// Two mappings are compared key by key; a mapping with no counterpart is
/// compared against an empty mapping; any other pair is replaced wholesale
/// unless equal.
pub open spec fn value_diff(v: Doc, base: Option<Doc>) -> Option<Doc>
    decreases v,
{
    match v {
        Doc::Hash(th) => {
            let bh = match base {
                Some(Doc::Hash(bh)) => Some(bh),
                Some(_) => None,
                None => Some(Seq::<(Doc, Doc)>::empty()),
            };
            match bh {
                Some(bh) => {
                    let d = diff(th, bh);
                    if d.len() == 0 {
                        None
                    } else {
                        Some(Doc::Hash(d))
                    }
                },
                None => Some(v),
            }
        },
        _ => match base {
            Some(bv) => if bv == v {
                None
            } else {
                Some(v)
            },
            None => Some(v),
        },
    }
}

/// The overrides that turn the base mapping `base` into `target`: the
/// entries of `target`, in order, whose value differs from the base.
pub open spec fn diff(target: Seq<(Doc, Doc)>, base: Seq<(Doc, Doc)>) -> Seq<(Doc, Doc)>
    decreases target,
{
    if target.len() == 0 {
        Seq::empty()
    } else {
        let rest = diff(target.drop_last(), base);
        let (k, v) = target.last();
        match value_diff(v, lookup(base, k)) {
            Some(d) => rest.push((k, d)),
            None => rest,
        }
    }
}

/// The part of `value` that differs from `base`; `None` where nothing does.
pub fn simplify_value(value: &Node, base: Option<&Node>) -> (r: Option<Node>)
    ensures
        match r {
            Some(n) => value_diff(value@, opt_view(base)) == Some(n@),
            None => value_diff(value@, opt_view(base)) is None,
        },
    decreases value,
{
    match value {
        Node::Hash(th) => {
            let empty: Vec<(Node, Node)> = Vec::new();
            let d = match base {
                Some(Node::Hash(bh)) => simplify_hash(th, bh),
                Some(_) => return Some(copy_node(value)),
                None => {
                    assert(entries_view(&empty) =~= Seq::<(Doc, Doc)>::empty());
                    simplify_hash(th, &empty)
                },
            };
            if d.len() == 0 {
                None
            } else {
                Some(Node::Hash(d))
            }
        },
        _ => match base {
            Some(b) => if node_eq(b, value) {
                None
            } else {
                Some(copy_node(value))
            },
            None => Some(copy_node(value)),
        },
    }
}

/// The overrides that turn the mapping `base` into the mapping `target`.
pub fn simplify_hash(target: &Vec<(Node, Node)>, base: &Vec<(Node, Node)>) -> (r: Vec<(Node, Node)>)
    ensures
        entries_view(&r) == diff(entries_view(target), entries_view(base)),
    decreases target,
{
    let ghost tv = entries_view(target);
    let ghost bv = entries_view(base);
    let mut out: Vec<(Node, Node)> = Vec::new();
    let mut i: usize = 0;
    assert(tv.take(0) =~= Seq::<(Doc, Doc)>::empty());
    assert(entries_view(&out) =~= Seq::<(Doc, Doc)>::empty());
    while i < target.len()
        invariant
            0 <= i <= target.len(),
            tv == entries_view(target),
            bv == entries_view(base),
            entries_view(&out) == diff(tv.take(i as int), bv),
        decreases target.len() - i,
    {
        let (k, v) = (&target[i].0, &target[i].1);
        assert(tv.take(i + 1).drop_last() =~= tv.take(i as int));
        assert(tv.take(i + 1).last() == (k@, v@));
        let found = find_key(base, k);
        let b = match found {
            Some(j) => Some(&base[j].1),
            None => None,
        };
        let d = simplify_value(v, b);
        match d {
            Some(n) => {
                let ghost before = entries_view(&out);
                out.push((copy_node(k), n));
                assert(entries_view(&out) =~= before.push((k@, n@)));
            },
            None => {},
        }
        i = i + 1;
    }
    assert(tv.take(i as int) =~= tv);
    out
}


/// The key whose presence marks a configuration as already minimal, and
/// which names the base style of an override document.
pub open spec fn based_on_style_key() -> Doc {
    Doc::Str("BasedOnStyle"@)
}

/// The key that names the language of a configuration.
pub open spec fn language_key() -> Doc {
    Doc::Str("Language"@)
}

/// The mapping `m` without any entry with key `k`.
pub open spec fn remove_key(m: Seq<(Doc, Doc)>, k: Doc) -> Seq<(Doc, Doc)>
    decreases m.len(),
{
    if m.len() == 0 {
        m
    } else {
        let r = remove_key(m.drop_last(), k);
        if m.last().0 == k {
            r
        } else {
            r.push(m.last())
        }
    }
}

/// The mapping `m` with `k` set to `v`: a key already present moves to
/// the end with its new value.
pub open spec fn put(m: Seq<(Doc, Doc)>, k: Doc, v: Doc) -> Seq<(Doc, Doc)> {
    remove_key(m, k).push((k, v))
}

/// The mapping `m` with each entry of `d` put into it in turn.
pub open spec fn extend(m: Seq<(Doc, Doc)>, d: Seq<(Doc, Doc)>) -> Seq<(Doc, Doc)>
    decreases d.len(),
{
    if d.len() == 0 {
        m
    } else {
        let r = extend(m, d.drop_last());
        put(r, d.last().0, d.last().1)
    }
}

/// The override document of `target` over the base style `name`, whose
/// configuration is `base`: the language (if any), the base style's name,
/// then the overrides.
pub open spec fn override_doc(
    target: Seq<(Doc, Doc)>,
    language: Option<Language>,
    name: Seq<char>,
    base: Seq<(Doc, Doc)>,
) -> Seq<(Doc, Doc)> {
    let fixed = match language {
        Some(l) => seq![(language_key(), Doc::Str(language_name(l)))],
        None => Seq::empty(),
    };
    extend(put(fixed, based_on_style_key(), Doc::Str(name)), diff(target, base))
}

/// The candidate styles as names and configurations.
pub open spec fn styles_view(styles: &Vec<(String, Vec<(Node, Node)>)>) -> Seq<(Seq<char>, Seq<(Doc, Doc)>)> {
    Seq::new(
        styles.len() as nat,
        |i: int| (styles[i].0@, entries_view(&styles[i].1)),
    )
}

/// The override document of `target` over the candidate `c`.
pub open spec fn candidate_override(
    target: Seq<(Doc, Doc)>,
    language: Option<Language>,
    c: (Seq<char>, Seq<(Doc, Doc)>),
) -> Seq<(Doc, Doc)> {
    override_doc(target, language, c.0, c.1)
}

/// Candidate `i` gives the override document with the fewest entries, and
/// every candidate before it gives more.
pub open spec fn is_selected(
    target: Seq<(Doc, Doc)>,
    language: Option<Language>,
    cands: Seq<(Seq<char>, Seq<(Doc, Doc)>)>,
    i: int,
) -> bool {
    &&& 0 <= i < cands.len()
    &&& forall|j: int|
        0 <= j < cands.len() ==> candidate_override(target, language, cands[i]).len()
            <= #[trigger] candidate_override(target, language, cands[j]).len()
    &&& forall|j: int|
        0 <= j < i ==> candidate_override(target, language, cands[i]).len()
            < #[trigger] candidate_override(target, language, cands[j]).len()
}

/// A node holding a copy of the text `s`.
fn text_node(s: &str) -> (r: Node)
    ensures
        r@ == Doc::Str(s@),
{
    Node::Str(s.to_owned())
}

/// Sets `k` to `v` in the mapping `m`, moving an existing key to the end.
pub fn insert_entry(m: &mut Vec<(Node, Node)>, k: Node, v: Node)
    ensures
        entries_view(final(m)) == put(entries_view(old(m)), k@, v@),
{
    let ghost mv = entries_view(m);
    let mut out: Vec<(Node, Node)> = Vec::new();
    let mut i: usize = 0;
    assert(entries_view(&out) =~= remove_key(mv.take(0), k@));
    while i < m.len()
        invariant
            0 <= i <= m.len(),
            mv == entries_view(m),
            entries_view(&out) == remove_key(mv.take(i as int), k@),
        decreases m.len() - i,
    {
        assert(mv.take(i + 1).drop_last() =~= mv.take(i as int));
        if !node_eq(&m[i].0, &k) {
            let ghost before = entries_view(&out);
            out.push((copy_node(&m[i].0), copy_node(&m[i].1)));
            assert(entries_view(&out) =~= before.push(mv[i as int]));
        }
        i = i + 1;
    }
    assert(mv.take(i as int) =~= mv);
    let ghost before = entries_view(&out);
    out.push((k, v));
    assert(entries_view(&out) =~= before.push((k@, v@)));
    *m = out;
}

/// Puts each entry of `d` into `m` in turn.
pub fn extend_entries(m: &mut Vec<(Node, Node)>, d: Vec<(Node, Node)>)
    ensures
        entries_view(final(m)) == extend(entries_view(old(m)), entries_view(&d)),
{
    let ghost m0 = entries_view(m);
    let ghost dv = entries_view(&d);
    let mut i: usize = 0;
    assert(dv.take(0) =~= Seq::<(Doc, Doc)>::empty());
    while i < d.len()
        invariant
            0 <= i <= d.len(),
            dv == entries_view(&d),
            entries_view(m) == extend(m0, dv.take(i as int)),
        decreases d.len() - i,
    {
        assert(dv.take(i + 1).drop_last() =~= dv.take(i as int));
        insert_entry(m, copy_node(&d[i].0), copy_node(&d[i].1));
        i = i + 1;
    }
    assert(dv.take(i as int) =~= dv);
}

/// The override document of `config` over the base style `style_name`,
/// whose configuration is `style_config`.
pub fn simplify_single_config(
    config: &Vec<(Node, Node)>,
    language: Option<Language>,
    style_name: &str,
    style_config: &Vec<(Node, Node)>,
) -> (r: Vec<(Node, Node)>)
    ensures
        entries_view(&r) == override_doc(entries_view(config), language, style_name@, entries_view(style_config)),
{
    let mut out: Vec<(Node, Node)> = Vec::new();
    match language {
        Some(l) => {
            out.push((text_node("Language"), text_node(l.get_name())));
        },
        None => {},
    }
    let ghost fixed = entries_view(&out);
    assert(fixed =~= match language {
        Some(l) => seq![(language_key(), Doc::Str(language_name(l)))],
        None => Seq::<(Doc, Doc)>::empty(),
    });
    insert_entry(&mut out, text_node("BasedOnStyle"), text_node(style_name));
    let d = simplify_hash(config, style_config);
    extend_entries(&mut out, d);
    out
}

/// The override document of `config` with the fewest entries over the
/// candidate base styles, the first such one in their order; `config` itself
/// where it already names its base style.
pub fn simplify_config(
    config: Vec<(Node, Node)>,
    language: Option<Language>,
    styles: &Vec<(String, Vec<(Node, Node)>)>,
) -> (r: Vec<(Node, Node)>)
    requires
        !has_key(entries_view(&config), based_on_style_key()) ==> styles.len() > 0,
    ensures
        has_key(entries_view(&config), based_on_style_key()) ==> entries_view(&r) == entries_view(&config),
        !has_key(entries_view(&config), based_on_style_key()) ==> exists|i: int|
            is_selected(entries_view(&config), language, styles_view(styles), i)
                && entries_view(&r) == #[trigger] candidate_override(
                entries_view(&config),
                language,
                styles_view(styles)[i],
            ),
{
    let key = text_node("BasedOnStyle");
    if find_key(&config, &key).is_some() {
        return config;
    }
    let ghost t = entries_view(&config);
    let ghost cands = styles_view(styles);
    let mut best = simplify_single_config(&config, language, styles[0].0.as_str(), &styles[0].1);
    let ghost mut best_idx: int = 0;
    let mut i: usize = 1;
    while i < styles.len()
        invariant
            1 <= i <= styles.len(),
            t == entries_view(&config),
            cands == styles_view(styles),
            0 <= best_idx < i,
            entries_view(&best) == candidate_override(t, language, cands[best_idx]),
            forall|j: int|
                0 <= j < i ==> entries_view(&best).len() <= #[trigger] candidate_override(t, language, cands[j]).len(),
            forall|j: int|
                0 <= j < best_idx ==> entries_view(&best).len() < #[trigger] candidate_override(t, language, cands[j]).len(),
        decreases styles.len() - i,
    {
        let c = simplify_single_config(&config, language, styles[i].0.as_str(), &styles[i].1);
        assert(entries_view(&c) == candidate_override(t, language, cands[i as int]));
        if c.len() < best.len() {
            best = c;
            proof {
                best_idx = i as int;
            }
        }
        i = i + 1;
    }
    assert(is_selected(t, language, cands, best_idx));
    best
}

} // verus!
