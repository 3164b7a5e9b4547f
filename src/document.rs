use vstd::prelude::*;

verus! {

broadcast use {vstd::std_specs::vec::axiom_vec_index_decreases, vstd::seq::axiom_seq_index_decreases};

/// A node of a configuration document tree.
#[derive(Debug)]
pub enum Node {
    Real(String),
    Integer(i64),
    Str(String),
    Boolean(bool),
    Array(Vec<Node>),
    Hash(Vec<(Node, Node)>),
    Alias(usize),
    Null,
    BadValue,
}

/// The mathematical value of a document node.
pub enum Doc {
    Real(Seq<char>),
    Integer(int),
    Str(Seq<char>),
    Boolean(bool),
    Array(Seq<Doc>),
    Hash(Seq<(Doc, Doc)>),
    Alias(nat),
    Null,
    BadValue,
}

impl View for Node {
    type V = Doc;

    open spec fn view(&self) -> Doc
        decreases self,
    {
        match self {
            Node::Real(s) => Doc::Real(s@),
            Node::Integer(i) => Doc::Integer(*i as int),
            Node::Str(s) => Doc::Str(s@),
            Node::Boolean(b) => Doc::Boolean(*b),
            Node::Array(v) => Doc::Array(array_view(v)),
            Node::Hash(v) => Doc::Hash(entries_view(v)),
            Node::Alias(a) => Doc::Alias(*a as nat),
            Node::Null => Doc::Null,
            Node::BadValue => Doc::BadValue,
        }
    }
}

/// The mathematical value of the items of a sequence.
pub open spec fn array_view(v: &Vec<Node>) -> Seq<Doc>
    decreases v,
{
    Seq::new(v.len() as nat, |i: int| if 0 <= i < v.len() { v[i].view() } else { Doc::Null })
}

/// The mathematical value of the entries of a mapping.
pub open spec fn entries_view(v: &Vec<(Node, Node)>) -> Seq<(Doc, Doc)>
    decreases v,
{
    Seq::new(v.len() as nat, |i: int| if 0 <= i < v.len() { (v[i].0.view(), v[i].1.view()) } else { (Doc::Null, Doc::Null) })
}


/// The value of a node that may be missing.
pub open spec fn opt_view(n: Option<&Node>) -> Option<Doc> {
    match n {
        Some(n) => Some(n@),
        None => None,
    }
}

/// The value under the first entry with key `k`, if any.
pub open spec fn lookup(m: Seq<(Doc, Doc)>, k: Doc) -> Option<Doc>
    decreases m.len(),
{
    if m.len() == 0 {
        None
    } else {
        match lookup(m.drop_last(), k) {
            Some(v) => Some(v),
            None => if m.last().0 == k {
                Some(m.last().1)
            } else {
                None
            },
        }
    }
}

pub open spec fn has_key(m: Seq<(Doc, Doc)>, k: Doc) -> bool {
    lookup(m, k) is Some
}

/// No key occurs twice in the mapping.
pub open spec fn keys_unique(m: Seq<(Doc, Doc)>) -> bool {
    forall|i: int, j: int| 0 <= i < j < m.len() ==> m[i].0 != m[j].0
}

pub proof fn lemma_lookup_none(m: Seq<(Doc, Doc)>, k: Doc)
    ensures
        lookup(m, k) is None <==> forall|i: int| 0 <= i < m.len() ==> m[i].0 != k,
    decreases m.len(),
{
    if m.len() > 0 {
        lemma_lookup_none(m.drop_last(), k);
        assert forall|i: int| 0 <= i < m.len() - 1 implies m.drop_last()[i] == m[i] by {}
    }
}

pub proof fn lemma_lookup_first(m: Seq<(Doc, Doc)>, k: Doc, i: int)
    requires
        0 <= i < m.len(),
        m[i].0 == k,
        forall|j: int| 0 <= j < i ==> m[j].0 != k,
    ensures
        lookup(m, k) == Some(m[i].1),
    decreases m.len(),
{
    if i < m.len() - 1 {
        lemma_lookup_first(m.drop_last(), k, i);
    } else {
        lemma_lookup_none(m.drop_last(), k);
    }
}

/// In a mapping with unique keys, the lookup of an entry's key gives its value.
pub proof fn lemma_lookup_unique(m: Seq<(Doc, Doc)>, i: int)
    requires
        0 <= i < m.len(),
        keys_unique(m),
    ensures
        lookup(m, m[i].0) == Some(m[i].1),
{
    lemma_lookup_first(m, m[i].0, i);
}

/// Deep equality of two nodes.
pub fn node_eq(a: &Node, b: &Node) -> (r: bool)
    ensures
        r == (a@ == b@),
    decreases a,
{
    match (a, b) {
        (Node::Real(x), Node::Real(y)) => x.eq(y),
        (Node::Integer(x), Node::Integer(y)) => *x == *y,
        (Node::Str(x), Node::Str(y)) => x.eq(y),
        (Node::Boolean(x), Node::Boolean(y)) => *x == *y,
        (Node::Alias(x), Node::Alias(y)) => *x == *y,
        (Node::Null, Node::Null) => true,
        (Node::BadValue, Node::BadValue) => true,
        (Node::Array(x), Node::Array(y)) => {
            assert(a@ == Doc::Array(array_view(x)));
            assert(b@ == Doc::Array(array_view(y)));
            if x.len() != y.len() {
                assert(array_view(x).len() != array_view(y).len());
                return false;
            }
            let mut i: usize = 0;
            while i < x.len()
                invariant
                    x.len() == y.len(),
                    0 <= i <= x.len(),
                    *a == Node::Array(*x),
                    *b == Node::Array(*y),
                    forall|j: int| 0 <= j < i ==> x[j]@ == y[j]@,
                    a@ == Doc::Array(array_view(x)),
                    b@ == Doc::Array(array_view(y)),
                decreases x.len() - i,
            {
                if !node_eq(&x[i], &y[i]) {
                    assert(array_view(x)[i as int] != array_view(y)[i as int]);
                    return false;
                }
                i = i + 1;
            }
            assert(array_view(x) =~= array_view(y));
            true
        },
        (Node::Hash(x), Node::Hash(y)) => {
            if x.len() != y.len() {
                assert(entries_view(x).len() != entries_view(y).len());
                return false;
            }
            let mut i: usize = 0;
            while i < x.len()
                invariant
                    x.len() == y.len(),
                    0 <= i <= x.len(),
                    *a == Node::Hash(*x),
                    *b == Node::Hash(*y),
                    forall|j: int| 0 <= j < i ==> entries_view(x)[j] == entries_view(y)[j],
                    a@ == Doc::Hash(entries_view(x)),
                    b@ == Doc::Hash(entries_view(y)),
                decreases x.len() - i,
            {
                if !node_eq(&x[i].0, &y[i].0) {
                    assert(entries_view(x)[i as int] != entries_view(y)[i as int]);
                    return false;
                }
                if !node_eq(&x[i].1, &y[i].1) {
                    assert(entries_view(x)[i as int] != entries_view(y)[i as int]);
                    return false;
                }
                i = i + 1;
            }
            assert(entries_view(x) =~= entries_view(y));
            true
        },
        _ => false,
    }
}

/// A copy of a node with the same value.
pub fn copy_node(n: &Node) -> (r: Node)
    ensures
        r@ == n@,
    decreases n,
{
    match n {
        Node::Real(s) => Node::Real(s.clone()),
        Node::Integer(i) => Node::Integer(*i),
        Node::Str(s) => Node::Str(s.clone()),
        Node::Boolean(b) => Node::Boolean(*b),
        Node::Array(v) => Node::Array(copy_array(v)),
        Node::Hash(v) => Node::Hash(copy_entries(v)),
        Node::Alias(a) => Node::Alias(*a),
        Node::Null => Node::Null,
        Node::BadValue => Node::BadValue,
    }
}

impl PartialEq for Node {
    fn eq(&self, other: &Node) -> (r: bool) {
        node_eq(self, other)
    }
}

impl vstd::std_specs::cmp::PartialEqSpecImpl for Node {
    open spec fn obeys_eq_spec() -> bool {
        true
    }

    open spec fn eq_spec(&self, other: &Node) -> bool {
        self@ == other@
    }
}

impl Clone for Node {
    fn clone(&self) -> (r: Node) {
        copy_node(self)
    }
}

/// A copy of the items of a sequence.
pub fn copy_array(v: &Vec<Node>) -> (r: Vec<Node>)
    ensures
        array_view(&r) == array_view(v),
    decreases v,
{
    let mut out: Vec<Node> = Vec::new();
    let mut i: usize = 0;
    while i < v.len()
        invariant
            0 <= i <= v.len(),
            out.len() == i,
            forall|j: int| 0 <= j < i ==> out[j]@ == v[j]@,
        decreases v.len() - i,
    {
        out.push(copy_node(&v[i]));
        i = i + 1;
    }
    assert(array_view(&out) =~= array_view(v));
    out
}

/// A copy of the entries of a mapping.
pub fn copy_entries(v: &Vec<(Node, Node)>) -> (r: Vec<(Node, Node)>)
    ensures
        entries_view(&r) == entries_view(v),
    decreases v,
{
    let mut out: Vec<(Node, Node)> = Vec::new();
    let mut i: usize = 0;
    while i < v.len()
        invariant
            0 <= i <= v.len(),
            out.len() == i,
            forall|j: int| 0 <= j < i ==> out[j].0@ == v[j].0@ && out[j].1@ == v[j].1@,
        decreases v.len() - i,
    {
        out.push((copy_node(&v[i].0), copy_node(&v[i].1)));
        i = i + 1;
    }
    assert(entries_view(&out) =~= entries_view(v));
    out
}

/// The position of the first entry with key `k`, if any.
pub fn find_key(m: &Vec<(Node, Node)>, k: &Node) -> (r: Option<usize>)
    ensures
        match r {
            Some(i) => i < m.len() && lookup(entries_view(m), k@) == Some(m[i as int].1@)
                && m[i as int].0@ == k@,
            None => lookup(entries_view(m), k@) is None,
        },
{
    let ghost mv = entries_view(m);
    let mut i: usize = 0;
    while i < m.len()
        invariant
            0 <= i <= m.len(),
            mv == entries_view(m),
            forall|j: int| 0 <= j < i ==> mv[j].0 != k@,
        decreases m.len() - i,
    {
        if node_eq(&m[i].0, k) {
            proof {
                lemma_lookup_first(mv, k@, i as int);
            }
            return Some(i);
        }
        i = i + 1;
    }
    proof {
        lemma_lookup_none(mv, k@);
    }
    None
}

} // verus!
