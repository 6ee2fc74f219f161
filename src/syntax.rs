//! The syntax tree that the matcher reads: a node kind, the node's field name
//! under its parent, its source text and span, and its named children.
use vstd::prelude::*;

verus! {

/// A (row, column) point in the source text; both count from zero.
#[derive(Clone, Copy, Debug, PartialEq, Eq)]
pub struct Position {
    pub row: usize,
    pub col: usize,
}

/// The span of a node, from its first point to the point just past it.
#[derive(Clone, Copy, Debug, PartialEq, Eq)]
pub struct Range {
    pub start: Position,
    pub end: Position,
}

/// One node of a parsed Haskell module, with its named children in source order.
pub struct SyntaxNode {
    /// The grammar's label for the node, such as `type_synonym` or `tuple`.
    pub kind: String,
    /// The field under which the parent holds this node (`type`, `name`, ...),
    /// or the empty string.
    pub field: String,
    /// The node's source text.
    pub text: String,
    /// Whether the parser found a syntax error inside the node.
    pub has_error: bool,
    pub range: Range,
    pub children: Vec<SyntaxNode>,
}

/// All nodes of kind `k` in the tree rooted at `n`, in pre-order.
pub open spec fn nodes_of_kind(n: SyntaxNode, k: Seq<char>) -> Seq<SyntaxNode>
    decreases n, 1nat,
{
    let own = if n.kind@ == k { seq![n] } else { Seq::empty() };
    own + nodes_of_kind_in(n, n.children@.len() as int, k)
}

/// All nodes of kind `k` under the first `i` children of `n`, in pre-order.
pub open spec fn nodes_of_kind_in(n: SyntaxNode, i: int, k: Seq<char>) -> Seq<SyntaxNode>
    decreases n, 0nat, i,
{
    if i <= 0 || i > n.children@.len() {
        Seq::empty()
    } else {
        nodes_of_kind_in(n, i - 1, k) + nodes_of_kind(n.children@[i - 1], k)
    }
}

/// Whether two strings hold the same characters.
pub fn same_text(a: &str, b: &str) -> (r: bool)
    ensures
        r == (a@ == b@),
{
    let n = a.unicode_len();
    if n != b.unicode_len() {
        return false;
    }
    let mut i: usize = 0;
    while i < n
        invariant
            n == a@.len(),
            n == b@.len(),
            i <= n,
            a@.subrange(0, i as int) == b@.subrange(0, i as int),
        decreases n - i,
    {
        if a.get_char(i) != b.get_char(i) {
            return false;
        }
        assert(a@.subrange(0, i + 1) =~= a@.subrange(0, i as int).push(a@[i as int]));
        assert(b@.subrange(0, i + 1) =~= b@.subrange(0, i as int).push(b@[i as int]));
        i = i + 1;
    }
    assert(a@ =~= a@.subrange(0, n as int));
    assert(b@ =~= b@.subrange(0, n as int));
    true
}

/// Appends to `out` every node of kind `k` in the tree rooted at `n`, in pre-order.
pub fn collect_of_kind<'a>(n: &'a SyntaxNode, k: &str, out: &mut Vec<&'a SyntaxNode>)
    ensures
        final(out)@.map_values(|r: &SyntaxNode| *r) == old(out)@.map_values(|r: &SyntaxNode| *r)
            + nodes_of_kind(*n, k@),
    decreases n,
{
    let own = same_text(n.kind.as_str(), k);
    if own {
        out.push(n);
    }
    assert(out@.map_values(|r: &SyntaxNode| *r) =~= old(out)@.map_values(|r: &SyntaxNode| *r)
        + (if n.kind@ == k@ { seq![*n] } else { Seq::<SyntaxNode>::empty() }) + nodes_of_kind_in(*n, 0, k@));
    let mut i: usize = 0;
    while i < n.children.len()
        invariant
            i <= n.children@.len(),
            out@.map_values(|r: &SyntaxNode| *r) == old(out)@.map_values(|r: &SyntaxNode| *r)
                + (if n.kind@ == k@ { seq![*n] } else { Seq::<SyntaxNode>::empty() })
                + nodes_of_kind_in(*n, i as int, k@),
        decreases n.children@.len() - i,
    {
        let ghost before = out@.map_values(|r: &SyntaxNode| *r);
        collect_of_kind(&n.children[i], k, out);
        assert(out@.map_values(|r: &SyntaxNode| *r) =~= before + nodes_of_kind(n.children@[i as int], k@));
        i = i + 1;
    }
}

} // verus!
