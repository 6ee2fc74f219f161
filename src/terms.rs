//! Flattening a type expression into the ordered sequence of its leaf terms.
use vstd::prelude::*;

use crate::syntax::{same_text, SyntaxNode};

verus! {

/// A leaf of a type expression: a concrete type name or a type variable.
#[derive(Debug, PartialEq)]
pub enum Term {
    Type(String),
    Variable(String),
}

/// The text that a term holds.
pub open spec fn name_of(t: Term) -> Seq<char> {
    match t {
        Term::Type(s) => s@,
        Term::Variable(s) => s@,
    }
}

/// A leaf that names a concrete type: a plain name (`Int`, `Maybe`) or a
/// qualified one (`Map.Map`), taken whole.
pub open spec fn is_concrete_leaf(n: SyntaxNode) -> bool {
    n.kind@ == "name"@ || n.kind@ == "qualified"@
}

/// A leaf that is a type variable (`a`).
pub open spec fn is_variable_leaf(n: SyntaxNode) -> bool {
    n.kind@ == "variable"@
}

/// A leaf of either kind: the positions where concrete types and variables
/// may stand in for each other.
pub open spec fn is_type_leaf(n: SyntaxNode) -> bool {
    is_concrete_leaf(n) || is_variable_leaf(n)
}

/// The leaf terms of the type expression rooted at `n`, left to right.
pub open spec fn terms_of(n: SyntaxNode) -> Seq<Term>
    decreases n, 1nat,
{
    if is_variable_leaf(n) {
        seq![Term::Variable(n.text)]
    } else if is_concrete_leaf(n) {
        seq![Term::Type(n.text)]
    } else {
        terms_of_children(n, n.children@.len() as int)
    }
}

/// The leaf terms under the first `i` children of `n`, left to right.
pub open spec fn terms_of_children(n: SyntaxNode, i: int) -> Seq<Term>
    decreases n, 0nat, i,
{
    if i <= 0 || i > n.children@.len() {
        Seq::empty()
    } else {
        terms_of_children(n, i - 1) + terms_of(n.children@[i - 1])
    }
}

/// Whether `n` is a concrete leaf, a variable leaf, or neither.
pub fn leaf_kind(n: &SyntaxNode) -> (r: (bool, bool))
    ensures
        r.0 == is_concrete_leaf(*n),
        r.1 == is_variable_leaf(*n),
{
    let kind = n.kind.as_str();
    (same_text(kind, "name") || same_text(kind, "qualified"), same_text(kind, "variable"))
}

fn push_terms(n: &SyntaxNode, out: &mut Vec<Term>)
    ensures
        final(out)@ == old(out)@ + terms_of(*n),
    decreases n,
{
    let (concrete, variable) = leaf_kind(n);
    if variable {
        out.push(Term::Variable(n.text.clone()));
        assert(final(out)@ =~= old(out)@ + terms_of(*n));
    } else if concrete {
        out.push(Term::Type(n.text.clone()));
        assert(final(out)@ =~= old(out)@ + terms_of(*n));
    } else {
        let mut i: usize = 0;
        assert(old(out)@ =~= old(out)@ + terms_of_children(*n, 0));
        while i < n.children.len()
            invariant
                i <= n.children@.len(),
                !is_type_leaf(*n),
                out@ == old(out)@ + terms_of_children(*n, i as int),
            decreases n.children@.len() - i,
        {
            push_terms(&n.children[i], out);
            assert(out@ =~= old(out)@ + terms_of_children(*n, i + 1));
            i = i + 1;
        }
    }
}

/// The leaf terms of the type expression rooted at `node`, in source order.
pub fn get_terms(node: &SyntaxNode) -> (r: Vec<Term>)
    ensures
        r@ == terms_of(*node),
{
    let mut out: Vec<Term> = Vec::new();
    push_terms(node, &mut out);
    assert(out@ =~= terms_of(*node));
    out
}

} // verus!
