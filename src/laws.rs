//! Properties of the matcher as a whole, each proved from the definitions
//! that the functions' contracts use.
use vstd::prelude::*;

use crate::alias::{
    alias_bindings, alias_outcome, alias_rhs, aliases_of, answers, match_outcome,
    replacement_outcome, target_type_of,
};
use crate::error::AliasError;
use crate::shape::{lemma_same_shape_term_count, same_shape};
use crate::syntax::SyntaxNode;
use crate::terms::{name_of, terms_of, Term};
use crate::types::{Match, MatchView, RequestAlias, ResponseMatches};
use crate::unify::{all_concrete, lemma_bindings};

verus! {

/// The type names that `cs` stands for once each bound variable is replaced
/// by its type.
pub open spec fn instantiate_terms(m: Map<Seq<char>, Seq<char>>, cs: Seq<Term>) -> Seq<Seq<char>> {
    cs.map_values(
        |c: Term|
            match c {
                Term::Variable(v) => if m.contains_key(v@) {
                    m[v@]
                } else {
                    v@
                },
                Term::Type(s) => s@,
            },
    )
}

/// The names that the terms hold.
pub open spec fn names(ts: Seq<Term>) -> Seq<Seq<char>> {
    ts.map_values(|t: Term| name_of(t))
}

/// A declaration that matches the target has, on its right-hand side, as
/// many leaf terms as the target has.
pub proof fn law_shape_invariant(t: SyntaxNode, decl: SyntaxNode)
    requires
        alias_bindings(t, decl) is Some,
    ensures
        terms_of(alias_rhs(decl)->0).len() == terms_of(t).len(),
{
    lemma_same_shape_term_count(t, alias_rhs(decl)->0);
}

/// The bindings of a match are sound: putting each bound type in place of
/// its variable turns the declaration's right-hand type into the target,
/// the same tree with the same leaf names.
pub proof fn law_unification_sound(t: SyntaxNode, decl: SyntaxNode)
    requires
        alias_bindings(t, decl) is Some,
    ensures
        same_shape(t, alias_rhs(decl)->0),
        instantiate_terms(alias_bindings(t, decl)->0, terms_of(alias_rhs(decl)->0)) == names(
            terms_of(t),
        ),
{
    let ts = terms_of(t);
    let cs = terms_of(alias_rhs(decl)->0);
    let m = alias_bindings(t, decl)->0;
    lemma_bindings(ts, cs);
    assert forall|i: int| 0 <= i < cs.len() implies #[trigger] instantiate_terms(m, cs)[i] == names(
        ts,
    )[i] by {
        if cs[i] is Variable {
            assert(m[name_of(cs[i])] == name_of(ts[i]));
        } else {
            assert(cs[i] is Type);
        }
    }
    assert(instantiate_terms(m, cs) =~= names(ts));
}

/// Concrete leaves must agree exactly: where the declaration's right-hand
/// type holds a concrete type, the target holds the same name there.
pub proof fn law_concrete_leaves_agree(t: SyntaxNode, decl: SyntaxNode, i: int)
    requires
        alias_bindings(t, decl) is Some,
        0 <= i < terms_of(alias_rhs(decl)->0).len(),
        terms_of(alias_rhs(decl)->0)[i] is Type,
    ensures
        name_of(terms_of(alias_rhs(decl)->0)[i]) == name_of(terms_of(t)[i]),
{
}

proof fn lemma_no_shape_no_match(t: SyntaxNode, decls: Seq<SyntaxNode>)
    requires
        forall|i: int|
            0 <= i < decls.len() && #[trigger] alias_rhs(decls[i]) is Some ==> !same_shape(
                t,
                alias_rhs(decls[i])->0,
            ),
    ensures
        match_outcome(t, decls) == Ok::<Seq<MatchView>, AliasError>(Seq::empty()),
    decreases decls.len(),
{
    if decls.len() > 0 {
        let p = decls.drop_last();
        assert forall|i: int|
            0 <= i < p.len() && #[trigger] alias_rhs(p[i]) is Some implies !same_shape(
            t,
            alias_rhs(p[i])->0,
        ) by {
            assert(p[i] == decls[i]);
        }
        lemma_no_shape_no_match(t, p);
        assert(alias_rhs(decls[decls.len() - 1]) is Some ==> !same_shape(
            t,
            alias_rhs(decls[decls.len() - 1])->0,
        ));
        assert(alias_outcome(t, decls.last()) == Ok::<Option<MatchView>, AliasError>(None));
    }
}

/// A valid, concrete target whose shape (arity and nesting) no alias of the
/// source has gets an empty match list, and no error.
pub proof fn law_no_match_on_shape_mismatch(target_tree: SyntaxNode, source_tree: SyntaxNode)
    requires
        target_type_of(target_tree) is Some,
        all_concrete(terms_of(target_type_of(target_tree)->0)),
        forall|i: int|
            0 <= i < aliases_of(source_tree).len() && #[trigger] alias_rhs(
                aliases_of(source_tree)[i],
            ) is Some ==> !same_shape(
                target_type_of(target_tree)->0,
                alias_rhs(aliases_of(source_tree)[i])->0,
            ),
    ensures
        replacement_outcome(Some(target_tree), Some(source_tree)) == Ok::<
            Seq<MatchView>,
            AliasError,
        >(Seq::empty()),
{
    lemma_no_shape_no_match(target_type_of(target_tree)->0, aliases_of(source_tree));
}

/// Every match reported stands for one of the declarations, one that
/// matches the target: its text, the span of its right-hand type and its
/// bindings.
pub proof fn law_matches_come_from_declarations(t: SyntaxNode, decls: Seq<SyntaxNode>, k: int)
    requires
        match_outcome(t, decls) is Ok,
        0 <= k < match_outcome(t, decls)->Ok_0.len(),
    ensures
        exists|i: int|
            0 <= i < decls.len() && #[trigger] alias_bindings(t, decls[i]) == Some(
                match_outcome(t, decls)->Ok_0[k].variable_map,
            ) && match_outcome(t, decls)->Ok_0[k].matched == decls[i].text@
                && match_outcome(t, decls)->Ok_0[k].location == alias_rhs(decls[i])->0.range,
    decreases decls.len(),
{
    let p = decls.drop_last();
    let n = decls.len() - 1;
    let ms = match_outcome(t, p)->Ok_0;
    if k < ms.len() {
        law_matches_come_from_declarations(t, p, k);
        let i = choose|i: int|
            0 <= i < p.len() && #[trigger] alias_bindings(t, p[i]) == Some(ms[k].variable_map)
                && ms[k].matched == p[i].text@ && ms[k].location == alias_rhs(p[i])->0.range;
        assert(p[i] == decls[i]);
    } else {
        assert(alias_bindings(t, decls[n]) == Some(
            match_outcome(t, decls)->Ok_0[k].variable_map,
        ));
    }
}

/// Asking the same request twice, on the same source, gives the same
/// answer: the same error, or the same matches in the same order.
pub proof fn law_requery_is_stable(
    request: RequestAlias,
    target_tree: Option<SyntaxNode>,
    source_tree: Option<SyntaxNode>,
    first: Result<ResponseMatches, AliasError>,
    second: Result<ResponseMatches, AliasError>,
)
    requires
        answers(request, replacement_outcome(target_tree, source_tree), first),
        answers(request, replacement_outcome(target_tree, source_tree), second),
    ensures
        first is Ok <==> second is Ok,
        first is Err ==> first == second,
        first is Ok ==> first->Ok_0.matches@.map_values(|m: Match| m@) == second->Ok_0.matches@.map_values(
            |m: Match| m@,
        ),
{
}

} // verus!
