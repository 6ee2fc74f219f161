//! Tree shapes: the structural pattern built from a target type, and the
//! relation "same shape up to interchangeable leaves" that it decides.
use vstd::prelude::*;

use crate::syntax::{same_text, SyntaxNode};
use crate::terms::{
    is_type_leaf, leaf_kind, terms_of, terms_of_children,
};

verus! {

/// A structural pattern over type expressions. `Leaf` accepts a concrete type
/// or a type variable; `Node` accepts a node of exactly that kind whose
/// children, exactly as many, are accepted one by one.
pub enum Pattern {
    Leaf,
    Node { kind: String, children: Vec<Pattern> },
}

/// Whether the pattern `p` accepts the tree rooted at `n`.
pub open spec fn pattern_accepts(p: Pattern, n: SyntaxNode) -> bool
    decreases p, 1nat,
{
    match p {
        Pattern::Leaf => is_type_leaf(n),
        Pattern::Node { kind, children } => {
            &&& !is_type_leaf(n)
            &&& kind@ == n.kind@
            &&& children@.len() == n.children@.len()
            &&& pattern_accepts_children(p, n, children@.len() as int)
        },
    }
}

/// Whether the first `i` child patterns of `p` accept the first `i` children of `n`.
pub open spec fn pattern_accepts_children(p: Pattern, n: SyntaxNode, i: int) -> bool
    decreases p, 0nat, i,
{
    match p {
        Pattern::Leaf => true,
        Pattern::Node { kind, children } => {
            if i <= 0 || i > children@.len() || i > n.children@.len() {
                true
            } else {
                pattern_accepts_children(p, n, i - 1) && pattern_accepts(children@[i - 1], n.children@[i - 1])
            }
        },
    }
}

/// Whether two type expressions have the same tree: the same kinds and
/// numbers of children at every structural node, and a leaf (concrete or
/// variable) wherever the other has one.
pub open spec fn same_shape(a: SyntaxNode, b: SyntaxNode) -> bool
    decreases a, 1nat,
{
    if is_type_leaf(a) {
        is_type_leaf(b)
    } else {
        &&& !is_type_leaf(b)
        &&& a.kind@ == b.kind@
        &&& a.children@.len() == b.children@.len()
        &&& same_shape_children(a, b, a.children@.len() as int)
    }
}

/// Whether the first `i` children of `a` and `b` have pairwise the same shape.
pub open spec fn same_shape_children(a: SyntaxNode, b: SyntaxNode, i: int) -> bool
    decreases a, 0nat, i,
{
    if i <= 0 || i > a.children@.len() || i > b.children@.len() {
        true
    } else {
        same_shape_children(a, b, i - 1) && same_shape(a.children@[i - 1], b.children@[i - 1])
    }
}

/// A pattern that accepts `t` accepts exactly the trees of `t`'s shape.
pub proof fn lemma_pattern_decides_shape(p: Pattern, t: SyntaxNode, c: SyntaxNode)
    requires
        pattern_accepts(p, t),
    ensures
        pattern_accepts(p, c) == same_shape(t, c),
    decreases p, 1nat,
{
    match p {
        Pattern::Leaf => {},
        Pattern::Node { kind, children } => {
            if !is_type_leaf(c) && kind@ == c.kind@ && children@.len() == c.children@.len() {
                lemma_pattern_decides_shape_children(p, t, c, children@.len() as int);
            }
        },
    }
}

proof fn lemma_pattern_decides_shape_children(p: Pattern, t: SyntaxNode, c: SyntaxNode, i: int)
    requires
        p is Node,
        0 <= i <= p->children@.len(),
        p->children@.len() == t.children@.len(),
        p->children@.len() == c.children@.len(),
        pattern_accepts_children(p, t, i),
    ensures
        pattern_accepts_children(p, c, i) == same_shape_children(t, c, i),
    decreases p, 0nat, i,
{
    if i > 0 {
        lemma_pattern_decides_shape_children(p, t, c, i - 1);
        lemma_pattern_decides_shape(p->children@[i - 1], t.children@[i - 1], c.children@[i - 1]);
    }
}

/// Trees of the same shape have equally many leaf terms.
pub proof fn lemma_same_shape_term_count(a: SyntaxNode, b: SyntaxNode)
    requires
        same_shape(a, b),
    ensures
        terms_of(a).len() == terms_of(b).len(),
    decreases a, 1nat,
{
    if !is_type_leaf(a) {
        lemma_same_shape_term_count_children(a, b, a.children@.len() as int);
    }
}

proof fn lemma_same_shape_term_count_children(a: SyntaxNode, b: SyntaxNode, i: int)
    requires
        0 <= i <= a.children@.len(),
        a.children@.len() == b.children@.len(),
        same_shape_children(a, b, i),
    ensures
        terms_of_children(a, i).len() == terms_of_children(b, i).len(),
    decreases a, 0nat, i,
{
    if i > 0 {
        lemma_same_shape_term_count_children(a, b, i - 1);
        lemma_same_shape_term_count(a.children@[i - 1], b.children@[i - 1]);
    }
}

/// The pattern of a type expression: its tree with every leaf widened to
/// accept a concrete type or a type variable.
pub fn pattern_of(n: &SyntaxNode) -> (r: Pattern)
    ensures
        pattern_accepts(r, *n),
    decreases n,
{
    let (concrete, variable) = leaf_kind(n);
    if concrete || variable {
        Pattern::Leaf
    } else {
        let mut children: Vec<Pattern> = Vec::new();
        let mut i: usize = 0;
        while i < n.children.len()
            invariant
                i <= n.children@.len(),
                children@.len() == i,
                forall|j: int| 0 <= j < i ==> pattern_accepts(#[trigger] children@[j], n.children@[j]),
            decreases n.children@.len() - i,
        {
            let c = pattern_of(&n.children[i]);
            children.push(c);
            i = i + 1;
        }
        let r = Pattern::Node { kind: n.kind.clone(), children };
        proof {
            lemma_matches_children_of_each(r, *n, i as int);
        }
        r
    }
}

proof fn lemma_matches_children_of_each(p: Pattern, n: SyntaxNode, i: int)
    requires
        p is Node,
        0 <= i <= p->children@.len(),
        i <= n.children@.len(),
        forall|j: int| 0 <= j < i ==> pattern_accepts(#[trigger] p->children@[j], n.children@[j]),
    ensures
        pattern_accepts_children(p, n, i),
    decreases i,
{
    if i > 0 {
        lemma_matches_children_of_each(p, n, i - 1);
    }
}

proof fn lemma_matches_children_each(p: Pattern, n: SyntaxNode, i: int)
    requires
        p is Node,
        0 <= i <= p->children@.len(),
        i <= n.children@.len(),
        pattern_accepts_children(p, n, i),
    ensures
        forall|j: int| 0 <= j < i ==> pattern_accepts(#[trigger] p->children@[j], n.children@[j]),
    decreases i,
{
    if i > 0 {
        lemma_matches_children_each(p, n, i - 1);
    }
}

impl Pattern {
    /// Whether this pattern accepts the tree rooted at `n`.
    pub fn accepts(&self, n: &SyntaxNode) -> (r: bool)
        ensures
            r == pattern_accepts(*self, *n),
        decreases self,
    {
        match self {
            Pattern::Leaf => {
                let (concrete, variable) = leaf_kind(n);
                concrete || variable
            },
            Pattern::Node { kind, children } => {
                let (concrete, variable) = leaf_kind(n);
                if concrete || variable || !same_text(kind.as_str(), n.kind.as_str())
                    || children.len() != n.children.len() {
                    return false;
                }
                let mut i: usize = 0;
                while i < children.len()
                    invariant
                        i <= children@.len(),
                        children@.len() == n.children@.len(),
                        *self == (Pattern::Node { kind: *kind, children: *children }),
                        pattern_accepts_children(*self, *n, i as int),
                    decreases children@.len() - i,
                {
                    proof {
                        assert(decreases_to!(*self => self->children));
                        assert(decreases_to!(self->children => self->children[i as int]));
                    }
                    if !children[i].accepts(&n.children[i]) {
                        proof {
                            if pattern_accepts(*self, *n) {
                                lemma_matches_children_each(*self, *n, children@.len() as int);
                            }
                        }
                        return false;
                    }
                    i = i + 1;
                }
                true
            },
        }
    }
}

} // verus!
