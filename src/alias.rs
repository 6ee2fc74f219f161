//! The matching pipeline: build the target from its parsed signature, find
//! the alias declarations of the same shape, unify, and instantiate names.
use vstd::prelude::*;

use crate::error::AliasError;
use crate::rename::{instantiate_name, instantiated_name};
use crate::shape::{
    lemma_pattern_decides_shape, lemma_same_shape_term_count, pattern_accepts, pattern_of, same_shape,
};
use crate::syntax::{collect_of_kind, nodes_of_kind, same_text, SyntaxNode};
use crate::terms::{get_terms, terms_of, Term};
use crate::types::{Match, MatchView, RequestAlias, ResponseMatches, Target};
use crate::unify::{all_concrete, bindings, check_variable_consistency, consistent};

verus! {

/// The first child of `n` held under the field `f`.
pub open spec fn child_in_field(n: SyntaxNode, f: Seq<char>) -> Option<SyntaxNode> {
    child_in_field_from(n, f, 0)
}

/// The first child of `n`, at index `i` or later, held under the field `f`.
pub open spec fn child_in_field_from(n: SyntaxNode, f: Seq<char>, i: int) -> Option<SyntaxNode>
    decreases n.children@.len() - i,
{
    if i < 0 || i >= n.children@.len() {
        None
    } else if n.children@[i].field@ == f {
        Some(n.children@[i])
    } else {
        child_in_field_from(n, f, i + 1)
    }
}

/// The first child of `n` held under the field `f`.
pub fn find_field_child<'a>(n: &'a SyntaxNode, f: &str) -> (r: Option<&'a SyntaxNode>)
    ensures
        r is Some == child_in_field(*n, f@) is Some,
        r matches Some(c) ==> *c == child_in_field(*n, f@)->0,
{
    let mut i: usize = 0;
    while i < n.children.len()
        invariant
            i <= n.children@.len(),
            child_in_field(*n, f@) == child_in_field_from(*n, f@, i as int),
        decreases n.children@.len() - i,
    {
        if same_text(n.children[i].field.as_str(), f) {
            return Some(&n.children[i]);
        }
        i = i + 1;
    }
    None
}

/// The type expression of a parsed target signature: the `type` field of its
/// one signature, where the parse is free of errors and holds exactly one
/// signature.
pub open spec fn target_type_of(sig_tree: SyntaxNode) -> Option<SyntaxNode> {
    let sigs = nodes_of_kind(sig_tree, "signature"@);
    if sig_tree.has_error || sigs.len() != 1 {
        None
    } else {
        child_in_field(sigs[0], "type"@)
    }
}

/// The alias declarations of a parsed module, in source order.
pub open spec fn aliases_of(tree: SyntaxNode) -> Seq<SyntaxNode> {
    nodes_of_kind(tree, "type_synonym"@)
}

/// The right-hand type of an alias declaration.
pub open spec fn alias_rhs(decl: SyntaxNode) -> Option<SyntaxNode> {
    child_in_field(decl, "type"@)
}

/// The bindings under which the declaration `decl` matches the target type
/// `t`: its right-hand type has `t`'s shape and its terms unify with `t`'s.
/// `None` where it does not match.
pub open spec fn alias_bindings(t: SyntaxNode, decl: SyntaxNode) -> Option<
    Map<Seq<char>, Seq<char>>,
> {
    match alias_rhs(decl) {
        Some(rhs) => if same_shape(t, rhs) && consistent(terms_of(t), terms_of(rhs)) {
            Some(bindings(terms_of(t), terms_of(rhs)))
        } else {
            None
        },
        None => None,
    }
}

/// What the declaration `decl` contributes for the target type `t`: no
/// match, a match, or an error where it matches but has no readable header.
pub open spec fn alias_outcome(t: SyntaxNode, decl: SyntaxNode) -> Result<
    Option<MatchView>,
    AliasError,
> {
    match alias_bindings(t, decl) {
        None => Ok(None),
        Some(m) => match instantiated_name(decl.text@, m) {
            None => Err(AliasError::MalformedAliasHeader),
            Some(name) => Ok(
                Some(
                    MatchView {
                        matched: decl.text@,
                        location: alias_rhs(decl)->0.range,
                        variable_map: m,
                        replaced_type: name,
                    },
                ),
            ),
        },
    }
}

/// The matches of the target type `t` among the declarations `decls`, in
/// their order; the first error where there is one.
pub open spec fn match_outcome(t: SyntaxNode, decls: Seq<SyntaxNode>) -> Result<
    Seq<MatchView>,
    AliasError,
>
    decreases decls.len(),
{
    if decls.len() == 0 {
        Ok(Seq::empty())
    } else {
        match match_outcome(t, decls.drop_last()) {
            Err(e) => Err(e),
            Ok(ms) => match alias_outcome(t, decls.last()) {
                Err(e) => Err(e),
                Ok(None) => Ok(ms),
                Ok(Some(mv)) => Ok(ms.push(mv)),
            },
        }
    }
}

/// The outcome of a request, from the parse of its target signature and the
/// parse of its source (`None` where the parser gave no tree).
pub open spec fn replacement_outcome(
    target_tree: Option<SyntaxNode>,
    source_tree: Option<SyntaxNode>,
) -> Result<Seq<MatchView>, AliasError> {
    match target_tree {
        None => Err(AliasError::InvalidTargetSignature),
        Some(tt) => match target_type_of(tt) {
            None => Err(AliasError::InvalidTargetSignature),
            Some(t) => if !all_concrete(terms_of(t)) {
                Err(AliasError::TargetNotConcrete)
            } else {
                match source_tree {
                    None => Err(AliasError::SourceParseFailure),
                    Some(st) => match_outcome(t, aliases_of(st)),
                }
            },
        },
    }
}

/// `r` is the response to `request` that `outcome` calls for: the error, or
/// the request echoed with exactly the matches of `outcome`, in order.
pub open spec fn answers(
    request: RequestAlias,
    outcome: Result<Seq<MatchView>, AliasError>,
    r: Result<ResponseMatches, AliasError>,
) -> bool {
    match outcome {
        Ok(ms) => {
            &&& r is Ok
            &&& r->Ok_0.echo_request == request
            &&& r->Ok_0.matches@.map_values(|m: Match| m@) == ms
        },
        Err(e) => r == Err::<ResponseMatches, AliasError>(e),
    }
}

/// The text handed to the parser for a target type: the type of a made-up
/// function signature, so that it parses as a type.
pub fn signature_text(target_type: &str) -> (r: String)
    ensures
        r@ == "afunc :: "@ + target_type@,
{
    let mut s = String::from_str("afunc :: ");
    s.append(target_type);
    s
}

/// The target of a request, from the parse of its signature text: the
/// pattern, text and terms of the signature's type.
pub fn create_target(sig_tree: &SyntaxNode) -> (r: Result<Target, AliasError>)
    ensures
        match target_type_of(*sig_tree) {
            None => r == Err::<Target, AliasError>(AliasError::InvalidTargetSignature),
            Some(t) => if !all_concrete(terms_of(t)) {
                r == Err::<Target, AliasError>(AliasError::TargetNotConcrete)
            } else {
                &&& r is Ok
                &&& pattern_accepts(r->Ok_0.pattern, t)
                &&& r->Ok_0.source@ == t.text@
                &&& r->Ok_0.terms@ == terms_of(t)
            },
        },
{
    if sig_tree.has_error {
        return Err(AliasError::InvalidTargetSignature);
    }
    let mut sigs: Vec<&SyntaxNode> = Vec::new();
    collect_of_kind(sig_tree, "signature", &mut sigs);
    assert(sigs@.map_values(|r: &SyntaxNode| *r) =~= nodes_of_kind(*sig_tree, "signature"@));
    if sigs.len() != 1 {
        return Err(AliasError::InvalidTargetSignature);
    }
    let sig: &SyntaxNode = sigs[0];
    assert(*sig == nodes_of_kind(*sig_tree, "signature"@)[0]);
    let t = match find_field_child(sig, "type") {
        Some(t) => t,
        None => {
            return Err(AliasError::InvalidTargetSignature);
        },
    };
    let terms = get_terms(t);
    assert(target_type_of(*sig_tree) == Some(*t));
    let mut k: usize = 0;
    while k < terms.len()
        invariant
            target_type_of(*sig_tree) == Some(*t),
            terms@ == terms_of(*t),
            k <= terms@.len(),
            forall|j: int| 0 <= j < k ==> #[trigger] terms@[j] is Type,
        decreases terms@.len() - k,
    {
        if let Term::Variable(_) = &terms[k] {
            assert(!(terms@[k as int] is Type));
            return Err(AliasError::TargetNotConcrete);
        }
        k = k + 1;
    }
    Ok(Target { pattern: pattern_of(t), source: t.text.clone(), terms })
}

/// The match, if any, that the declaration `d` gives for `target`.
fn match_alias(target: &Target, Ghost(t): Ghost<SyntaxNode>, d: &SyntaxNode) -> (r: Result<
    Option<Match>,
    AliasError,
>)
    requires
        pattern_accepts(target.pattern, t),
        target.terms@ == terms_of(t),
        all_concrete(terms_of(t)),
    ensures
        match alias_outcome(t, *d) {
            Ok(None) => r matches Ok(None),
            Ok(Some(mv)) => r matches Ok(Some(found)) && found@ == mv,
            Err(e) => r == Err::<Option<Match>, AliasError>(e),
        },
{
    let rhs = match find_field_child(d, "type") {
        Some(rhs) => rhs,
        None => {
            return Ok(None);
        },
    };
    proof {
        lemma_pattern_decides_shape(target.pattern, t, *rhs);
    }
    if !target.pattern.accepts(rhs) {
        return Ok(None);
    }
    proof {
        lemma_same_shape_term_count(t, *rhs);
    }
    let m = match check_variable_consistency(&target.terms, get_terms(rhs)) {
        Ok(Some(m)) => m,
        Ok(None) => {
            return Ok(None);
        },
        Err(e) => {
            return Err(e);
        },
    };
    let name = match instantiate_name(d.text.as_str(), &m) {
        Ok(name) => name,
        Err(e) => {
            return Err(e);
        },
    };
    Ok(Some(Match { matched: d.text.clone(), location: rhs.range, variable_map: m, replaced_type: name }))
}

proof fn lemma_error_persists(t: SyntaxNode, ds: Seq<SyntaxNode>, i: int)
    requires
        0 <= i <= ds.len(),
        match_outcome(t, ds.take(i)) is Err,
    ensures
        match_outcome(t, ds) == match_outcome(t, ds.take(i)),
    decreases ds.len() - i,
{
    if i < ds.len() {
        assert(ds.take(i + 1).drop_last() =~= ds.take(i));
        lemma_error_persists(t, ds, i + 1);
    } else {
        assert(ds.take(i) =~= ds);
    }
}

/// The matches of `target` among the alias declarations of `source_tree`.
fn collect_matches(target: &Target, Ghost(t): Ghost<SyntaxNode>, source_tree: &SyntaxNode) -> (r:
    Result<Vec<Match>, AliasError>)
    requires
        pattern_accepts(target.pattern, t),
        target.terms@ == terms_of(t),
        all_concrete(terms_of(t)),
    ensures
        match match_outcome(t, aliases_of(*source_tree)) {
            Ok(ms) => r is Ok && r->Ok_0@.map_values(|m: Match| m@) == ms,
            Err(e) => r == Err::<Vec<Match>, AliasError>(e),
        },
{
    let mut decls: Vec<&SyntaxNode> = Vec::new();
    collect_of_kind(source_tree, "type_synonym", &mut decls);
    let ghost ds = decls@.map_values(|r: &SyntaxNode| *r);
    assert(ds =~= aliases_of(*source_tree));
    let mut out: Vec<Match> = Vec::new();
    let mut i: usize = 0;
    assert(ds.take(0) =~= Seq::<SyntaxNode>::empty());
    assert(out@.map_values(|m: Match| m@) =~= Seq::<MatchView>::empty());
    while i < decls.len()
        invariant
            ds == decls@.map_values(|r: &SyntaxNode| *r),
            ds == aliases_of(*source_tree),
            i <= ds.len(),
            pattern_accepts(target.pattern, t),
            target.terms@ == terms_of(t),
            all_concrete(terms_of(t)),
            match_outcome(t, ds.take(i as int)) == Ok::<Seq<MatchView>, AliasError>(
                out@.map_values(|m: Match| m@),
            ),
        decreases ds.len() - i,
    {
        let d: &SyntaxNode = decls[i];
        let ghost prev = out@.map_values(|m: Match| m@);
        assert(ds.take(i + 1).drop_last() =~= ds.take(i as int));
        assert(ds.take(i + 1).last() == *d);
        match match_alias(target, Ghost(t), d) {
            Ok(Some(found)) => {
                out.push(found);
                assert(out@.map_values(|m: Match| m@) =~= prev.push(found@));
            },
            Ok(None) => {},
            Err(e) => {
                proof {
                    lemma_error_persists(t, ds, i + 1);
                }
                return Err(e);
            },
        }
        i = i + 1;
    }
    assert(ds.take(ds.len() as int) =~= ds);
    Ok(out)
}

/// Answers a request from the parse of its signature text (see
/// [`signature_text`]) and the parse of its source; `None` stands for a text
/// that the parser gave no tree for. The response echoes the request and
/// lists, in source order, every alias declaration whose right-hand type has
/// the target's shape and unifies with it. Syntax errors elsewhere in the
/// source do not stop the search: the declarations that parsed are read.
pub fn alias_replacement(
    request: RequestAlias,
    target_tree: &Option<SyntaxNode>,
    source_tree: &Option<SyntaxNode>,
) -> (r: Result<ResponseMatches, AliasError>)
    ensures
        answers(request, replacement_outcome(*target_tree, *source_tree), r),
{
    let sig_tree = match target_tree {
        Some(tt) => tt,
        None => {
            return Err(AliasError::InvalidTargetSignature);
        },
    };
    let target = match create_target(sig_tree) {
        Ok(target) => target,
        Err(e) => {
            return Err(e);
        },
    };
    let src = match source_tree {
        Some(st) => st,
        None => {
            return Err(AliasError::SourceParseFailure);
        },
    };
    let ghost t = target_type_of(*sig_tree)->0;
    match collect_matches(&target, Ghost(t), src) {
        Ok(matches) => Ok(ResponseMatches { echo_request: request, matches }),
        Err(e) => Err(e),
    }
}

} // verus!
