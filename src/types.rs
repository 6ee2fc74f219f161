//! Requests, targets and responses of the alias matcher.
use vstd::prelude::*;

use crate::shape::Pattern;
use crate::syntax::Range;
use crate::terms::Term;
use crate::unify::BindingMap;

verus! {

/// A request: a concrete target type, and the Haskell source to search.
#[derive(Debug)]
pub struct RequestAlias {
    pub target_type: String,
    pub source: String,
}

/// A target type, ready for matching: its structural pattern, its text, and
/// its leaf terms.
pub struct Target {
    pub pattern: Pattern,
    pub source: String,
    pub terms: Vec<Term>,
}

/// One alias declaration whose right-hand type matched the target.
#[derive(Debug)]
pub struct Match {
    /// The whole declaration, as written.
    pub matched: String,
    /// The span of the declaration's right-hand type.
    pub location: Range,
    /// The type each of the alias's variables stands for.
    pub variable_map: BindingMap,
    /// The declared name with its variables replaced by their types.
    pub replaced_type: String,
}

/// What a match holds, as mathematical values.
pub struct MatchView {
    pub matched: Seq<char>,
    pub location: Range,
    pub variable_map: Map<Seq<char>, Seq<char>>,
    pub replaced_type: Seq<char>,
}

impl View for Match {
    type V = MatchView;

    open spec fn view(&self) -> MatchView {
        MatchView {
            matched: self.matched@,
            location: self.location,
            variable_map: self.variable_map@,
            replaced_type: self.replaced_type@,
        }
    }
}

/// The answer to a request: the request itself and the matches, in the order
/// their declarations stand in the source.
#[derive(Debug)]
pub struct ResponseMatches {
    pub echo_request: RequestAlias,
    pub matches: Vec<Match>,
}

/// The words of `parts` joined with `sep` between each two.
pub open spec fn joined(parts: Seq<Seq<char>>, sep: Seq<char>) -> Seq<char>
    decreases parts.len(),
{
    if parts.len() == 0 {
        Seq::empty()
    } else if parts.len() == 1 {
        parts[0]
    } else {
        joined(parts.drop_last(), sep) + sep + parts.last()
    }
}

/// The human-readable listing of a response: the target, then each
/// instantiated name on a line of its own, indented by a tab.
pub open spec fn listing(target: Seq<char>, names: Seq<Seq<char>>) -> Seq<char> {
    "Target type: "@ + target + "\nMatched:\n\t"@ + joined(names, "\n\t"@)
}

impl ResponseMatches {
    /// The instantiated names of the matches, in order.
    pub open spec fn replaced_names(&self) -> Seq<Seq<char>> {
        self.matches@.map_values(|m: Match| m.replaced_type@)
    }

    /// The response as text for a reader: the target type, then the
    /// instantiated name of each match.
    pub fn human_readable(&self) -> (r: String)
        ensures
            r@ == listing(self.echo_request.target_type@, self.replaced_names()),
    {
        let ghost names = self.replaced_names();
        let mut out = String::from_str("Target type: ");
        out.append(self.echo_request.target_type.as_str());
        out.append("\nMatched:\n\t");
        let ghost head = out@;
        let mut i: usize = 0;
        assert(names.take(0) =~= Seq::<Seq<char>>::empty());
        while i < self.matches.len()
            invariant
                names == self.replaced_names(),
                i <= names.len(),
                out@ == head + joined(names.take(i as int), "\n\t"@),
            decreases names.len() - i,
        {
            assert(names.take(i + 1).drop_last() =~= names.take(i as int));
            if i > 0 {
                out.append("\n\t");
            }
            out.append(self.matches[i].replaced_type.as_str());
            assert(out@ =~= head + joined(names.take(i + 1), "\n\t"@));
            i = i + 1;
        }
        assert(names.take(names.len() as int) =~= names);
        out
    }
}

} // verus!
