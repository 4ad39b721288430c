//! The query's syntax tree, and its lowering to TABULATE statements.
//!
//! Parsing the query text into a tree is the grammar's work; the tree
//! reaches this module as [`SyntaxNode`] values.

pub mod tabulate;

use vstd::prelude::*;

verus! {

/// A node of the query's concrete syntax tree.
pub struct SyntaxNode {
    /// The grammar's kind of the node: `identifier`, `string`, `=>`, ...
    pub kind: String,
    /// Whether the grammar names the node (anonymous nodes are punctuation
    /// and keywords).
    pub named: bool,
    /// The source text the node covers.
    pub text: String,
    /// The field under which the node sits in its parent, if any.
    pub field: Option<String>,
    /// Byte offset of the node's start in the query.
    pub start: usize,
    /// The node's children, in source order.
    pub children: Vec<SyntaxNode>,
}

/// The named nodes of kind `kind` in the subtree of `n`, `n` included, in
/// document order (a node before its descendants).
pub open spec fn find_spec(n: SyntaxNode, kind: Seq<char>) -> Seq<SyntaxNode>
    decreases n,
{
    (if n.named && n.kind@ == kind {
        seq![n]
    } else {
        Seq::empty()
    }) + find_in_spec(n.children@, kind)
}

pub open spec fn find_in_spec(s: Seq<SyntaxNode>, kind: Seq<char>) -> Seq<SyntaxNode>
    decreases s,
{
    if s.len() == 0 {
        Seq::empty()
    } else {
        find_in_spec(s.drop_last(), kind) + find_spec(s.last(), kind)
    }
}

/// The nodes a query `(kind) @c` captures under `n`.
pub fn find_nodes<'a>(n: &'a SyntaxNode, kind: &str) -> (r: Vec<&'a SyntaxNode>)
    ensures
        r@.map_values(|x: &SyntaxNode| *x) == find_spec(*n, kind@),
    decreases n,
{
    let mut r: Vec<&'a SyntaxNode> = Vec::new();
    if n.named && crate::text::str_eq(&n.kind, kind) {
        r.push(n);
    }
    let ghost head = r@.map_values(|x: &SyntaxNode| *x);
    proof {
        assert(head =~= (if n.named && n.kind@ == kind@ {
            seq![*n]
        } else {
            Seq::empty()
        }));
        assert(n.children@.take(0) =~= Seq::<SyntaxNode>::empty());
        assert(r@.map_values(|x: &SyntaxNode| *x) =~= head + find_in_spec(n.children@.take(0), kind@));
    }
    let mut i: usize = 0;
    while i < n.children.len()
        invariant
            i <= n.children@.len(),
            r@.map_values(|x: &SyntaxNode| *x) == head + find_in_spec(n.children@.take(i as int), kind@),
        decreases n.children.len() - i,
    {
        proof {
            assert(decreases_to!(*n => n.children));
            let t = n.children@.take(i + 1);
            assert(t.drop_last() =~= n.children@.take(i as int));
            assert(t.last() == n.children@[i as int]);
        }
        let ghost before = r@.map_values(|x: &SyntaxNode| *x);
        let sub = find_nodes(&n.children[i], kind);
        let mut j: usize = 0;
        while j < sub.len()
            invariant
                j <= sub@.len(),
                r@.map_values(|x: &SyntaxNode| *x) == before + sub@.map_values(|x: &SyntaxNode| *x).take(
                    j as int,
                ),
            decreases sub.len() - j,
        {
            let ghost b2 = r@;
            r.push(sub[j]);
            proof {
                assert(r@.map_values(|x: &SyntaxNode| *x) =~= b2.map_values(|x: &SyntaxNode| *x).push(
                    *sub@[j as int],
                ));
                assert(sub@.map_values(|x: &SyntaxNode| *x).take(j + 1) =~= sub@.map_values(
                    |x: &SyntaxNode| *x,
                ).take(j as int).push(*sub@[j as int]));
            }
            j += 1;
        }
        proof {
            assert(sub@.map_values(|x: &SyntaxNode| *x).take(j as int) =~= sub@.map_values(
                |x: &SyntaxNode| *x,
            ));
        }
        i += 1;
    }
    proof {
        assert(n.children@.take(i as int) =~= n.children@);
    }
    r
}

} // verus!

verus! {

/// The first node a query `(kind) @c` captures under `n`.
pub open spec fn first_found(n: SyntaxNode, kind: Seq<char>) -> Option<SyntaxNode> {
    if find_spec(n, kind).len() > 0 {
        Some(find_spec(n, kind)[0])
    } else {
        None
    }
}

pub fn find_first<'a>(n: &'a SyntaxNode, kind: &str) -> (r: Option<&'a SyntaxNode>)
    ensures
        match first_found(*n, kind@) {
            Some(x) => r matches Some(y) && *y == x,
            None => r is None,
        },
{
    let v = find_nodes(n, kind);
    proof {
        assert(v@.map_values(|x: &SyntaxNode| *x).len() == v@.len());
    }
    if v.len() > 0 {
        proof {
            assert(v@.map_values(|x: &SyntaxNode| *x)[0] == *v@[0]);
        }
        Some(v[0])
    } else {
        None
    }
}

/// The first child of `n` under field `f`.
pub open spec fn field_child_in(s: Seq<SyntaxNode>, f: Seq<char>) -> Option<SyntaxNode>
    decreases s.len(),
{
    if s.len() == 0 {
        None
    } else if s[0].field matches Some(x) && x@ == f {
        Some(s[0])
    } else {
        field_child_in(s.drop_first(), f)
    }
}

pub open spec fn field_child(n: SyntaxNode, f: Seq<char>) -> Option<SyntaxNode> {
    field_child_in(n.children@, f)
}

/// Position among `s` of the first node under field `f`.
pub open spec fn field_index_in(s: Seq<SyntaxNode>, f: Seq<char>) -> Option<int>
    decreases s.len(),
{
    if s.len() == 0 {
        None
    } else if s[0].field matches Some(x) && x@ == f {
        Some(0)
    } else {
        match field_index_in(s.drop_first(), f) {
            Some(k) => Some(k + 1),
            None => None,
        }
    }
}

proof fn lemma_field_index(s: Seq<SyntaxNode>, f: Seq<char>, i: int)
    requires
        0 <= i <= s.len(),
        forall|q: int| 0 <= q < i ==> !((#[trigger] s[q]).field matches Some(x) && x@ == f),
    ensures
        i == s.len() ==> field_index_in(s, f) is None && field_child_in(s, f) is None,
        i < s.len() && (s[i].field matches Some(x) && x@ == f) ==> field_index_in(s, f) == Some(i)
            && field_child_in(s, f) == Some(s[i]),
    decreases i,
{
    if i > 0 {
        let t = s.drop_first();
        assert forall|q: int| 0 <= q < i - 1 implies !((#[trigger] t[q]).field matches Some(x) && x@
            == f) by {
            assert(t[q] == s[q + 1]);
        }
        lemma_field_index(t, f, i - 1);
        assert(!(s[0].field matches Some(x) && x@ == f));
        if i < s.len() {
            assert(t[i - 1] == s[i]);
        }
    }
}

/// Position of `n`'s first child under field `f` (tree-sitter's
/// `child_by_field_name`).
pub fn field_index(n: &SyntaxNode, f: &str) -> (r: Option<usize>)
    ensures
        match field_index_in(n.children@, f@) {
            Some(i) => r is Some && r->0 == i && i < n.children@.len() && field_child(*n, f@) == Some(
                n.children@[i],
            ),
            None => r is None && field_child(*n, f@) is None,
        },
{
    let mut i: usize = 0;
    while i < n.children.len()
        invariant
            i <= n.children@.len(),
            forall|q: int|
                0 <= q < i ==> !((#[trigger] n.children@[q]).field matches Some(x) && x@ == f@),
        decreases n.children.len() - i,
    {
        let hit = match &n.children[i].field {
            Some(x) => crate::text::str_eq(x, f),
            None => false,
        };
        if hit {
            proof {
                lemma_field_index(n.children@, f@, i as int);
            }
            return Some(i);
        }
        i += 1;
    }
    proof {
        lemma_field_index(n.children@, f@, i as int);
    }
    None
}

/// `n`'s first child under field `f`.
pub fn child_by_field<'a>(n: &'a SyntaxNode, f: &str) -> (r: Option<&'a SyntaxNode>)
    ensures
        match field_child(*n, f@) {
            Some(x) => r matches Some(y) && *y == x,
            None => r is None,
        },
{
    match field_index(n, f) {
        Some(i) => Some(&n.children[i]),
        None => None,
    }
}

} // verus!
