//! Positional unification of a candidate's terms against a concrete target.
use vstd::prelude::*;

use crate::error::AliasError;
use crate::syntax::same_text;
use crate::terms::{name_of, Term};

verus! {

/// The map that a list of (variable, type) entries stands for.
pub open spec fn map_of(s: Seq<(String, String)>) -> Map<Seq<char>, Seq<char>>
    decreases s.len(),
{
    if s.len() == 0 {
        Map::empty()
    } else {
        map_of(s.drop_last()).insert(s.last().0@, s.last().1@)
    }
}

/// No two entries share a variable.
pub open spec fn keys_distinct(s: Seq<(String, String)>) -> bool {
    forall|i: int, j: int| 0 <= i < j < s.len() ==> s[i].0@ != s[j].0@
}

proof fn lemma_map_of(s: Seq<(String, String)>)
    requires
        keys_distinct(s),
    ensures
        map_of(s).dom().finite(),
        map_of(s).dom().len() == s.len(),
        forall|k: Seq<char>| #[trigger]
            map_of(s).contains_key(k) <==> exists|i: int| 0 <= i < s.len() && s[i].0@ == k,
        forall|i: int| 0 <= i < s.len() ==> #[trigger] map_of(s)[s[i].0@] == s[i].1@,
    decreases s.len(),
{
    if s.len() > 0 {
        let p = s.drop_last();
        assert(keys_distinct(p));
        lemma_map_of(p);
        assert forall|k: Seq<char>| #[trigger]
            map_of(s).contains_key(k) <==> exists|i: int| 0 <= i < s.len() && s[i].0@ == k by {
            if map_of(p).contains_key(k) {
                let i = choose|i: int| 0 <= i < p.len() && p[i].0@ == k;
                assert(s[i].0@ == k);
            }
            if exists|i: int| 0 <= i < s.len() && s[i].0@ == k {
                let i = choose|i: int| 0 <= i < s.len() && s[i].0@ == k;
                if i < s.len() - 1 {
                    assert(p[i].0@ == k);
                }
            }
        }
        assert forall|i: int| 0 <= i < s.len() implies #[trigger] map_of(s)[s[i].0@] == s[i].1@ by {
            if i < s.len() - 1 {
                assert(p[i].0@ == s[i].0@);
            }
        }
        assert(!map_of(p).contains_key(s.last().0@)) by {
            if map_of(p).contains_key(s.last().0@) {
                let i = choose|i: int| 0 <= i < p.len() && p[i].0@ == s.last().0@;
                assert(s[i].0@ == s[s.len() - 1].0@);
            }
        }
    }
}

/// A map from type variables to concrete type names, each variable bound once.
#[derive(Debug, PartialEq)]
pub struct BindingMap {
    /// The (variable, type) pairs, in the order the variables were bound.
    pub entries: Vec<(String, String)>,
}

impl View for BindingMap {
    type V = Map<Seq<char>, Seq<char>>;

    open spec fn view(&self) -> Map<Seq<char>, Seq<char>> {
        map_of(self.entries@)
    }
}

impl BindingMap {
    /// The entries hold each variable once.
    pub open spec fn wf(&self) -> bool {
        keys_distinct(self.entries@)
    }

    /// The empty map.
    pub fn new() -> (r: BindingMap)
        ensures
            r.wf(),
            r@ == Map::<Seq<char>, Seq<char>>::empty(),
    {
        BindingMap { entries: Vec::new() }
    }

    /// The number of bound variables.
    pub fn len(&self) -> (r: usize)
        requires
            self.wf(),
        ensures
            r == self@.len(),
    {
        proof {
            lemma_map_of(self.entries@);
        }
        self.entries.len()
    }

    /// The type bound to `var`, if any.
    pub fn get(&self, var: &str) -> (r: Option<&String>)
        requires
            self.wf(),
        ensures
            r is Some == self@.contains_key(var@),
            r matches Some(t) ==> t@ == self@[var@],
    {
        let mut i: usize = 0;
        while i < self.entries.len()
            invariant
                self.wf(),
                i <= self.entries@.len(),
                forall|j: int| 0 <= j < i ==> self.entries@[j].0@ != var@,
            decreases self.entries@.len() - i,
        {
            if same_text(self.entries[i].0.as_str(), var) {
                proof {
                    lemma_map_of(self.entries@);
                }
                assert(self.entries@[i as int].0@ == var@);
                assert(self@.contains_key(var@));
                return Some(&self.entries[i].1);
            }
            i = i + 1;
        }
        proof {
            lemma_map_of(self.entries@);
        }
        None
    }

    /// Binds `var`, which is not bound yet, to `ty`.
    fn bind(&mut self, var: String, ty: String)
        requires
            old(self).wf(),
            !old(self)@.contains_key(var@),
        ensures
            final(self).wf(),
            final(self)@ == old(self)@.insert(var@, ty@),
    {
        proof {
            lemma_map_of(self.entries@);
        }
        let ghost before = self.entries@;
        self.entries.push((var, ty));
        assert(self.entries@.drop_last() =~= before);
        assert forall|i: int, j: int| 0 <= i < j < self.entries@.len() implies
            self.entries@[i].0@ != self.entries@[j].0@ by {
            if j == before.len() {
                assert(before[i].0@ == self.entries@[i].0@);
            }
        }
    }
}

/// Every term of `ts` is a concrete type.
pub open spec fn all_concrete(ts: Seq<Term>) -> bool {
    forall|i: int| 0 <= i < ts.len() ==> #[trigger] ts[i] is Type
}

/// `cs` unifies with the concrete terms `ts`, position by position: equal
/// lengths, each concrete term of `cs` equal to its counterpart, and every
/// occurrence of one variable against one and the same type.
pub open spec fn consistent(ts: Seq<Term>, cs: Seq<Term>) -> bool {
    &&& ts.len() == cs.len()
    &&& forall|i: int|
        0 <= i < cs.len() && #[trigger] cs[i] is Type ==> name_of(cs[i]) == name_of(ts[i])
    &&& forall|i: int, j: int|
        0 <= i < cs.len() && 0 <= j < cs.len() && #[trigger] cs[i] is Variable
            && #[trigger] cs[j] is Variable && name_of(cs[i]) == name_of(cs[j]) ==> name_of(ts[i])
            == name_of(ts[j])
}

/// The bindings read off position by position: each variable of `cs` to the
/// type at its first occurrence.
pub open spec fn bindings(ts: Seq<Term>, cs: Seq<Term>) -> Map<Seq<char>, Seq<char>>
    decreases cs.len(),
{
    if cs.len() == 0 {
        Map::empty()
    } else {
        let m = bindings(ts.take(cs.len() - 1), cs.drop_last());
        match cs.last() {
            Term::Variable(v) => if m.contains_key(v@) {
                m
            } else {
                m.insert(v@, name_of(ts[cs.len() - 1]))
            },
            Term::Type(_) => m,
        }
    }
}

/// What the bindings hold: exactly the variables of `cs`, and where `cs` is
/// consistent with `ts`, each bound to the type at every one of its positions.
pub proof fn lemma_bindings(ts: Seq<Term>, cs: Seq<Term>)
    requires
        ts.len() == cs.len(),
    ensures
        forall|v: Seq<char>| #[trigger]
            bindings(ts, cs).contains_key(v) ==> exists|i: int|
                0 <= i < cs.len() && cs[i] is Variable && name_of(cs[i]) == v
                    && bindings(ts, cs)[v] == name_of(ts[i]),
        forall|i: int|
            0 <= i < cs.len() && #[trigger] cs[i] is Variable ==> bindings(ts, cs).contains_key(
                name_of(cs[i]),
            ),
        consistent(ts, cs) ==> forall|i: int|
            0 <= i < cs.len() && #[trigger] cs[i] is Variable ==> bindings(ts, cs)[name_of(cs[i])]
                == name_of(ts[i]),
    decreases cs.len(),
{
    if cs.len() > 0 {
        let n = cs.len() - 1;
        let tp = ts.take(n as int);
        let cp = cs.drop_last();
        lemma_bindings(tp, cp);
        let m = bindings(tp, cp);
        assert forall|i: int| 0 <= i < n implies cp[i] == cs[i] && tp[i] == ts[i] by {}
        if consistent(ts, cs) {
            assert(consistent(tp, cp)) by {
                assert forall|i: int, j: int|
                    0 <= i < cp.len() && 0 <= j < cp.len() && #[trigger] cp[i] is Variable
                        && #[trigger] cp[j] is Variable && name_of(cp[i]) == name_of(cp[j]) implies
                    name_of(tp[i]) == name_of(tp[j]) by {
                    assert(cs[i] is Variable && cs[j] is Variable);
                }
            }
        }
        assert forall|v: Seq<char>| #[trigger]
            bindings(ts, cs).contains_key(v) implies exists|i: int|
                0 <= i < cs.len() && cs[i] is Variable && name_of(cs[i]) == v
                    && bindings(ts, cs)[v] == name_of(ts[i]) by {
            if m.contains_key(v) {
                let i = choose|i: int|
                    0 <= i < cp.len() && cp[i] is Variable && name_of(cp[i]) == v && m[v] == name_of(
                        tp[i],
                    );
                assert(cs[i] is Variable && name_of(cs[i]) == v && bindings(ts, cs)[v] == name_of(
                    ts[i],
                ));
            } else {
                assert(cs[n as int] is Variable && name_of(cs[n as int]) == v);
            }
        }
        assert forall|i: int| 0 <= i < cs.len() && #[trigger] cs[i] is Variable implies bindings(
            ts,
            cs,
        ).contains_key(name_of(cs[i])) by {
            if i < n {
                assert(cp[i] is Variable);
            }
        }
        if consistent(ts, cs) {
            assert forall|i: int| 0 <= i < cs.len() && #[trigger] cs[i] is Variable implies bindings(
                ts,
                cs,
            )[name_of(cs[i])] == name_of(ts[i]) by {
                if i < n {
                    assert(cp[i] is Variable);
                    assert(m[name_of(cp[i])] == name_of(tp[i]));
                } else {
                    let v = name_of(cs[i]);
                    if m.contains_key(v) {
                        let j = choose|j: int|
                            0 <= j < cp.len() && cp[j] is Variable && name_of(cp[j]) == v && m[v]
                                == name_of(tp[j]);
                        assert(cs[j] is Variable);
                    }
                }
            }
        }
    }
}

/// Unifies the candidate's terms against the target's, position by position.
/// Terms of different counts, or a target that is not concrete, are errors;
/// otherwise the result is the bindings if the candidate is consistent with
/// the target, and `None` if it is not.
pub fn check_variable_consistency(target_terms: &Vec<Term>, candidate_terms: Vec<Term>) -> (r:
    Result<Option<BindingMap>, AliasError>)
    ensures
        target_terms@.len() != candidate_terms@.len() ==> r == Err::<Option<BindingMap>, AliasError>(
            AliasError::TermCountMismatch,
        ),
        target_terms@.len() == candidate_terms@.len() && !all_concrete(target_terms@) ==> r == Err::<
            Option<BindingMap>,
            AliasError,
        >(AliasError::TargetNotConcrete),
        target_terms@.len() == candidate_terms@.len() && all_concrete(target_terms@) ==> {
            &&& r is Ok
            &&& (r->Ok_0 is Some <==> consistent(target_terms@, candidate_terms@))
            &&& (r->Ok_0 matches Some(m) ==> m.wf() && m@ == bindings(
                target_terms@,
                candidate_terms@,
            ))
        },
{
    let n = candidate_terms.len();
    if target_terms.len() != n {
        return Err(AliasError::TermCountMismatch);
    }
    let mut k: usize = 0;
    while k < n
        invariant
            n == target_terms@.len(),
            n == candidate_terms@.len(),
            k <= n,
            forall|j: int| 0 <= j < k ==> #[trigger] target_terms@[j] is Type,
        decreases n - k,
    {
        if let Term::Variable(_) = &target_terms[k] {
            return Err(AliasError::TargetNotConcrete);
        }
        k = k + 1;
    }
    let ghost ts = target_terms@;
    let ghost cs = candidate_terms@;
    let mut m = BindingMap::new();
    let mut i: usize = 0;
    while i < n
        invariant
            n == ts.len(),
            n == cs.len(),
            ts == target_terms@,
            cs == candidate_terms@,
            all_concrete(ts),
            i <= n,
            m.wf(),
            m@ == bindings(ts.take(i as int), cs.take(i as int)),
            consistent(ts.take(i as int), cs.take(i as int)),
        decreases n - i,
    {
        let ghost tp = ts.take(i as int);
        let ghost cp = cs.take(i as int);
        let ghost tq = ts.take(i + 1);
        let ghost cq = cs.take(i + 1);
        assert(tq.take(i as int) =~= tp);
        assert(cq.drop_last() =~= cp);
        proof {
            lemma_bindings(tp, cp);
        }
        let t = match &target_terms[i] {
            Term::Type(t) => t,
            Term::Variable(_) => {
                assert(ts[i as int] is Type);
                return Err(AliasError::TargetNotConcrete);
            },
        };
        match &candidate_terms[i] {
            Term::Type(c) => {
                if !same_text(c.as_str(), t.as_str()) {
                    assert(cs[i as int] is Type);
                    assert(name_of(cs[i as int]) == c@);
                    assert(name_of(ts[i as int]) == t@);
                    return Ok(None);
                }
            },
            Term::Variable(v) => {
                match m.get(v.as_str()) {
                    Some(bound) => {
                        if !same_text(bound.as_str(), t.as_str()) {
                            proof {
                                let j = choose|j: int|
                                    0 <= j < cp.len() && cp[j] is Variable && name_of(cp[j]) == v@
                                        && m@[v@] == name_of(tp[j]);
                                assert(cp[j] == cs[j] && tp[j] == ts[j]);
                                assert(cs[j] is Variable && cs[i as int] is Variable);
                                assert(name_of(cs[i as int]) == v@);
                                assert(name_of(ts[i as int]) == t@);
                                assert(name_of(ts[j]) == bound@);
                            }
                            return Ok(None);
                        }
                    },
                    None => {
                        m.bind(v.clone(), t.clone());
                    },
                }
            },
        }
        assert(consistent(tq, cq)) by {
            assert forall|a: int| 0 <= a < cq.len() && #[trigger] cq[a] is Type implies name_of(cq[a])
                == name_of(tq[a]) by {
                if a < i {
                    assert(cp[a] is Type);
                }
            }
            assert forall|a: int, b: int|
                0 <= a < cq.len() && 0 <= b < cq.len() && #[trigger] cq[a] is Variable
                    && #[trigger] cq[b] is Variable && name_of(cq[a]) == name_of(cq[b]) implies name_of(
                tq[a],
            ) == name_of(tq[b]) by {
                if a < i && b < i {
                    assert(cp[a] is Variable && cp[b] is Variable);
                } else if a < i {
                    assert(cp[a] is Variable);
                    assert(m@[name_of(cp[a])] == name_of(tp[a]));
                } else if b < i {
                    assert(cp[b] is Variable);
                    assert(m@[name_of(cp[b])] == name_of(tp[b]));
                }
            }
        }
        i = i + 1;
    }
    assert(ts.take(n as int) =~= ts);
    assert(cs.take(n as int) =~= cs);
    Ok(Some(m))
}

} // verus!
