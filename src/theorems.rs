use vstd::prelude::*;
use crate::document::{has_key, keys_unique, lemma_lookup_none, lemma_lookup_unique, lookup, Doc};
use crate::language::Language;
use crate::minimize::{candidate_override, diff, is_selected, put, remove_key, value_diff};

verus! {

/// Looking up a key in a mapping with one more entry at the end.
pub proof fn lemma_lookup_push(m: Seq<(Doc, Doc)>, e: (Doc, Doc), k: Doc)
    ensures
        lookup(m.push(e), k) == match lookup(m, k) {
            Some(v) => Some(v),
            None => if e.0 == k {
                Some(e.1)
            } else {
                None
            },
        },
{
    assert(m.push(e).drop_last() =~= m);
}

/// Every key of `diff(t, b)` is a key of `t`.
pub proof fn lemma_diff_keys(t: Seq<(Doc, Doc)>, b: Seq<(Doc, Doc)>)
    ensures
        forall|j: int| 0 <= j < diff(t, b).len() ==> exists|i: int| 0 <= i < t.len() && t[i].0 == #[trigger] diff(t, b)[j].0,
    decreases t.len(),
{
    if t.len() > 0 {
        lemma_diff_keys(t.drop_last(), b);
        let rest = diff(t.drop_last(), b);
        assert forall|j: int| 0 <= j < diff(t, b).len() implies exists|i: int| 0 <= i < t.len() && t[i].0 == #[trigger] diff(t, b)[j].0 by {
            if j < rest.len() {
                assert(diff(t, b)[j] == rest[j]);
                let i = choose|i: int| 0 <= i < t.drop_last().len() && t.drop_last()[i].0 == rest[j].0;
                assert(t[i].0 == diff(t, b)[j].0);
            } else {
                assert(t[t.len() - 1].0 == diff(t, b)[j].0);
            }
        }
    }
}

/// The overrides never hold a key that only the base has: a key of `base`
/// that `target` lacks is absent from `diff(target, base)`.
pub proof fn law_diff_omits_base_only_keys(target: Seq<(Doc, Doc)>, base: Seq<(Doc, Doc)>, k: Doc)
    requires
        has_key(base, k),
        !has_key(target, k),
    ensures
        !has_key(diff(target, base), k),
{
    lemma_diff_keys(target, base);
    lemma_lookup_none(target, k);
    lemma_lookup_none(diff(target, base), k);
}

/// In a mapping with unique keys, the override of a key is what its value
/// keeps over the base's value of that key.
pub proof fn lemma_lookup_diff(t: Seq<(Doc, Doc)>, b: Seq<(Doc, Doc)>, k: Doc)
    requires
        keys_unique(t),
    ensures
        lookup(diff(t, b), k) == match lookup(t, k) {
            Some(v) => value_diff(v, lookup(b, k)),
            None => None,
        },
    decreases t.len(),
{
    if t.len() > 0 {
        let t0 = t.drop_last();
        let (kl, vl) = t.last();
        assert(keys_unique(t0));
        lemma_lookup_diff(t0, b, k);
        if kl == k {
            assert forall|i: int| 0 <= i < t0.len() implies t0[i].0 != k by {
                assert(t[i].0 != t[t.len() - 1].0);
            }
            lemma_lookup_none(t0, k);
        }
        match value_diff(vl, lookup(b, kl)) {
            Some(d) => lemma_lookup_push(diff(t0, b), (kl, d), k),
            None => {},
        }
    }
}

/// The overrides keep no key whose value equals the base's value, and no
/// key whose mapping differs in nothing from the base's mapping.
pub proof fn law_diff_minimal(target: Seq<(Doc, Doc)>, base: Seq<(Doc, Doc)>, i: int)
    requires
        keys_unique(target),
        0 <= i < target.len(),
    ensures
        lookup(base, target[i].0) == Some(target[i].1) && !(target[i].1 is Hash) ==> !has_key(
            diff(target, base),
            target[i].0,
        ),
        (exists|bh: Seq<(Doc, Doc)>|
            lookup(base, target[i].0) == Some(Doc::Hash(bh)) && target[i].1 is Hash
                && #[trigger] diff(target[i].1->Hash_0, bh).len() == 0) ==> !has_key(diff(target, base), target[i].0),
{
    lemma_lookup_unique(target, i);
    lemma_lookup_diff(target, base, target[i].0);
}

/// The candidate that the selection picks is determined by the inputs:
/// two candidates that both meet it are the same one, so minimizing twice
/// on the same inputs gives the same document.
pub proof fn law_selection_deterministic(
    target: Seq<(Doc, Doc)>,
    language: Option<Language>,
    cands: Seq<(Seq<char>, Seq<(Doc, Doc)>)>,
    i: int,
    j: int,
)
    requires
        is_selected(target, language, cands, i),
        is_selected(target, language, cands, j),
    ensures
        i == j,
        candidate_override(target, language, cands[i]) == candidate_override(target, language, cands[j]),
{
    if i < j {
        assert(candidate_override(target, language, cands[j]).len() < candidate_override(target, language, cands[i]).len());
    } else if j < i {
        assert(candidate_override(target, language, cands[i]).len() < candidate_override(target, language, cands[j]).len());
    }
}


/// The mapping `base` with the overrides `o` layered over it in turn: an
/// override of a mapping by a mapping layers the two recursively, any other
/// override replaces the value or adds the key.
pub open spec fn apply(base: Seq<(Doc, Doc)>, o: Seq<(Doc, Doc)>) -> Seq<(Doc, Doc)>
    decreases o,
{
    if o.len() == 0 {
        base
    } else {
        let m = apply(base, o.drop_last());
        let (k, ov) = o.last();
        let v = match (lookup(m, k), ov) {
            (Some(Doc::Hash(mh)), Doc::Hash(oh)) => Doc::Hash(apply(mh, oh)),
            _ => ov,
        };
        put(m, k, v)
    }
}

/// A mapping that holds nothing but (recursively) empty mappings.
pub open spec fn hollow(v: Doc) -> bool
    decreases v,
{
    match v {
        Doc::Hash(h) => hollow_all(h),
        _ => false,
    }
}

pub open spec fn hollow_all(h: Seq<(Doc, Doc)>) -> bool
    decreases h,
{
    if h.len() == 0 {
        true
    } else {
        hollow_all(h.drop_last()) && hollow(h.last().1)
    }
}

/// Every key at every depth of a mapping is unique.
pub open spec fn well_formed(t: Seq<(Doc, Doc)>) -> bool {
    keys_unique(t) && all_well_formed(t)
}

pub open spec fn all_well_formed(t: Seq<(Doc, Doc)>) -> bool
    decreases t,
{
    if t.len() == 0 {
        true
    } else {
        all_well_formed(t.drop_last()) && value_well_formed(t.last().1)
    }
}

pub open spec fn value_well_formed(v: Doc) -> bool
    decreases v,
{
    match v {
        Doc::Hash(h) => keys_unique(h) && all_well_formed(h),
        _ => true,
    }
}

/// The value `r` gives back the value `v`: the same, or for a mapping one
/// that covers it.
pub open spec fn covers_value(r: Doc, v: Doc) -> bool
    decreases v,
{
    match v {
        Doc::Hash(th) => match r {
            Doc::Hash(rh) => covers(rh, th),
            _ => false,
        },
        _ => r == v,
    }
}

/// The mapping `r` gives back the entry `e`, or `e` holds a hollow mapping
/// that `r` lacks.
pub open spec fn covers_entry(r: Seq<(Doc, Doc)>, e: (Doc, Doc)) -> bool
    decreases e,
{
    match lookup(r, e.0) {
        Some(rv) => covers_value(rv, e.1),
        None => hollow(e.1),
    }
}

/// The mapping `r` gives back every entry of `t`, at every depth; keys that
/// only `r` has are allowed.
pub open spec fn covers(r: Seq<(Doc, Doc)>, t: Seq<(Doc, Doc)>) -> bool
    decreases t,
{
    if t.len() == 0 {
        true
    } else {
        covers(r, t.drop_last()) && covers_entry(r, t.last())
    }
}

proof fn lemma_all_well_formed(t: Seq<(Doc, Doc)>, i: int)
    requires
        all_well_formed(t),
        0 <= i < t.len(),
    ensures
        value_well_formed(t[i].1),
    decreases t.len(),
{
    if i < t.len() - 1 {
        lemma_all_well_formed(t.drop_last(), i);
    }
}

proof fn lemma_covers_from_entries(r: Seq<(Doc, Doc)>, t: Seq<(Doc, Doc)>)
    requires
        forall|i: int| 0 <= i < t.len() ==> covers_entry(r, #[trigger] t[i]),
    ensures
        covers(r, t),
    decreases t.len(),
{
    if t.len() > 0 {
        let t0 = t.drop_last();
        assert forall|i: int| 0 <= i < t0.len() implies covers_entry(r, #[trigger] t0[i]) by {
            assert(t0[i] == t[i]);
        }
        lemma_covers_from_entries(r, t0);
        assert(covers_entry(r, t[t.len() - 1]));
    }
}

proof fn lemma_covers_same_lookups(r1: Seq<(Doc, Doc)>, r2: Seq<(Doc, Doc)>, t: Seq<(Doc, Doc)>)
    requires
        covers(r1, t),
        forall|k: Doc| #[trigger] lookup(r1, k) == lookup(r2, k),
    ensures
        covers(r2, t),
    decreases t.len(),
{
    if t.len() > 0 {
        lemma_covers_same_lookups(r1, r2, t.drop_last());
        assert(lookup(r1, t.last().0) == lookup(r2, t.last().0));
        assert(covers_entry(r1, t.last()));
        assert(covers_entry(r2, t.last()));
    }
}

proof fn lemma_lookup_remove_key(m: Seq<(Doc, Doc)>, k: Doc, q: Doc)
    ensures
        lookup(remove_key(m, k), q) == if q == k {
            None
        } else {
            lookup(m, q)
        },
    decreases m.len(),
{
    if m.len() > 0 {
        lemma_lookup_remove_key(m.drop_last(), k, q);
        if m.last().0 != k {
            lemma_lookup_push(remove_key(m.drop_last(), k), m.last(), q);
        }
    }
}

proof fn lemma_lookup_put(m: Seq<(Doc, Doc)>, k: Doc, v: Doc, q: Doc)
    ensures
        lookup(put(m, k, v), q) == if q == k {
            Some(v)
        } else {
            lookup(m, q)
        },
{
    lemma_lookup_remove_key(m, k, q);
    lemma_lookup_push(remove_key(m, k), (k, v), q);
}

proof fn lemma_lookup_apply(b: Seq<(Doc, Doc)>, o: Seq<(Doc, Doc)>, k: Doc)
    requires
        keys_unique(o),
    ensures
        lookup(apply(b, o), k) == match lookup(o, k) {
            None => lookup(b, k),
            Some(ov) => Some(
                match (lookup(b, k), ov) {
                    (Some(Doc::Hash(bh)), Doc::Hash(oh)) => Doc::Hash(apply(bh, oh)),
                    _ => ov,
                },
            ),
        },
    decreases o.len(),
{
    if o.len() > 0 {
        let o0 = o.drop_last();
        let (kl, ovl) = o.last();
        assert(keys_unique(o0));
        lemma_lookup_apply(b, o0, k);
        let m = apply(b, o0);
        let v = match (lookup(m, kl), ovl) {
            (Some(Doc::Hash(mh)), Doc::Hash(oh)) => Doc::Hash(apply(mh, oh)),
            _ => ovl,
        };
        lemma_lookup_put(m, kl, v, k);
        lemma_lookup_push(o0, (kl, ovl), k);
        assert(o0.push((kl, ovl)) == o);
        if kl == k {
            assert forall|i: int| 0 <= i < o0.len() implies o0[i].0 != k by {
                assert(o[i].0 != o[o.len() - 1].0);
            }
            lemma_lookup_none(o0, k);
        }
    }
}

proof fn lemma_diff_keys_unique(t: Seq<(Doc, Doc)>, b: Seq<(Doc, Doc)>)
    requires
        keys_unique(t),
    ensures
        keys_unique(diff(t, b)),
    decreases t.len(),
{
    if t.len() > 0 {
        let t0 = t.drop_last();
        assert(keys_unique(t0));
        lemma_diff_keys_unique(t0, b);
        lemma_diff_keys(t0, b);
        let rest = diff(t0, b);
        let (kl, vl) = t.last();
        match value_diff(vl, lookup(b, kl)) {
            Some(d) => {
                let out = rest.push((kl, d));
                assert forall|i: int, j: int| 0 <= i < j < out.len() implies out[i].0 != out[j].0 by {
                    if j == out.len() - 1 {
                        let x = choose|x: int| 0 <= x < t0.len() && t0[x].0 == #[trigger] rest[i].0;
                        assert(t[x].0 != t[t.len() - 1].0);
                    } else {
                        assert(out[i] == rest[i] && out[j] == rest[j]);
                    }
                }
            },
            None => {},
        }
    }
}

proof fn lemma_empty_diff_hollow(t: Seq<(Doc, Doc)>)
    requires
        diff(t, Seq::empty()).len() == 0,
    ensures
        hollow_all(t),
    decreases t,
{
    if t.len() > 0 {
        let t0 = t.drop_last();
        let (kl, vl) = t.last();
        assert(lookup(Seq::<(Doc, Doc)>::empty(), kl) is None);
        assert(value_diff(vl, None) is None);
        lemma_empty_diff_hollow(t0);
        match vl {
            Doc::Hash(h) => {
                assert(diff(h, Seq::empty()).len() == 0);
                lemma_empty_diff_hollow(h);
                assert(hollow(vl));
            },
            _ => {},
        }
        assert(hollow(t.last().1));
    }
}

proof fn lemma_covers_self(v: Doc)
    requires
        value_well_formed(v),
    ensures
        covers_value(v, v),
    decreases v,
{
    match v {
        Doc::Hash(h) => {
            assert forall|i: int| 0 <= i < h.len() implies covers_entry(h, #[trigger] h[i]) by {
                lemma_lookup_unique(h, i);
                lemma_all_well_formed(h, i);
                lemma_covers_self(h[i].1);
            }
            lemma_covers_from_entries(h, h);
        },
        _ => {},
    }
}

/// Layering the overrides `diff(target, base)` over `base` gives back every
/// entry of `target` at every depth; the only entries lost are nested
/// mappings that hold nothing but empty mappings and that the base lacks.
pub proof fn law_reconstruction(target: Seq<(Doc, Doc)>, base: Seq<(Doc, Doc)>)
    requires
        well_formed(target),
    ensures
        covers(apply(base, diff(target, base)), target),
    decreases target,
{
    let o = diff(target, base);
    let r = apply(base, o);
    lemma_diff_keys_unique(target, base);
    assert forall|i: int| 0 <= i < target.len() implies covers_entry(r, #[trigger] target[i]) by {
        let (k, v) = target[i];
        lemma_lookup_unique(target, i);
        lemma_lookup_diff(target, base, k);
        lemma_lookup_apply(base, o, k);
        lemma_all_well_formed(target, i);
        match v {
            Doc::Hash(th) => {
                match lookup(base, k) {
                    Some(Doc::Hash(bh)) => {
                        law_reconstruction(th, bh);
                    },
                    Some(_) => {
                        lemma_covers_self(v);
                    },
                    None => {
                        let e = Seq::<(Doc, Doc)>::empty();
                        let d = diff(th, e);
                        if d.len() == 0 {
                            lemma_empty_diff_hollow(th);
                        } else {
                            law_reconstruction(th, e);
                            lemma_diff_keys_unique(th, e);
                            assert forall|q: Doc| #[trigger] lookup(apply(e, d), q) == lookup(d, q) by {
                                lemma_lookup_apply(e, d, q);
                            }
                            lemma_covers_same_lookups(apply(e, d), d, th);
                        }
                    },
                }
            },
            _ => {},
        }
    }
    lemma_covers_from_entries(r, target);
}

} // verus!
