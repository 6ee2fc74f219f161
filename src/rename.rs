//! Instantiating an alias's declared name: reading the `type <name> =`
//! header of its declaration and replacing whole-word variables by their types.
use vstd::prelude::*;

use crate::error::AliasError;
use crate::unify::BindingMap;

verus! {

/// The whitespace that separates words of a header.
pub open spec fn is_space(c: char) -> bool {
    c == ' ' || c == '\t' || c == '\n' || c == '\r'
}

fn space(c: char) -> (r: bool)
    ensures
        r == is_space(c),
{
    c == ' ' || c == '\t' || c == '\n' || c == '\r'
}

/// `s` begins with the keyword `type` and a whitespace character.
pub open spec fn starts_with_type_keyword(s: Seq<char>) -> bool {
    &&& s.len() >= 5
    &&& s[0] == 't' && s[1] == 'y' && s[2] == 'p' && s[3] == 'e'
    &&& is_space(s[4])
}

/// The first index at or after `i` that holds `c`.
pub open spec fn find_char(s: Seq<char>, c: char, i: int) -> Option<int>
    decreases s.len() - i,
{
    if i < 0 || i >= s.len() {
        None
    } else if s[i] == c {
        Some(i)
    } else {
        find_char(s, c, i + 1)
    }
}

/// `s` without its leading whitespace.
pub open spec fn trim_start(s: Seq<char>) -> Seq<char>
    decreases s.len(),
{
    if s.len() > 0 && is_space(s[0]) {
        trim_start(s.drop_first())
    } else {
        s
    }
}

/// `s` without its trailing whitespace.
pub open spec fn trim_end(s: Seq<char>) -> Seq<char>
    decreases s.len(),
{
    if s.len() > 0 && is_space(s.last()) {
        trim_end(s.drop_last())
    } else {
        s
    }
}

/// The declared name and parameters of an alias declaration: the text
/// between the leading `type` keyword and the first `=`, without surrounding
/// whitespace. `None` where the declaration has no such header.
pub open spec fn header_of(decl: Seq<char>) -> Option<Seq<char>> {
    if starts_with_type_keyword(decl) {
        match find_char(decl, '=', 5) {
            Some(e) => Some(trim_end(trim_start(decl.subrange(5, e)))),
            None => None,
        }
    } else {
        None
    }
}

/// The number of characters before the first whitespace of `s`.
pub open spec fn word_len(s: Seq<char>) -> nat
    decreases s.len(),
{
    if s.len() == 0 || is_space(s[0]) {
        0
    } else {
        1 + word_len(s.drop_first())
    }
}

/// `s` with every whole word that `m` binds replaced by its binding; the
/// whitespace and all other words stay as they are. Each word is looked up
/// once, so a replacement is never rewritten again.
pub open spec fn substitute(s: Seq<char>, m: Map<Seq<char>, Seq<char>>) -> Seq<char>
    decreases s.len(),
    via substitute_decreases
{
    if s.len() == 0 {
        Seq::empty()
    } else if is_space(s[0]) {
        seq![s[0]] + substitute(s.drop_first(), m)
    } else {
        let w = s.take(word_len(s) as int);
        let rest = s.skip(word_len(s) as int);
        (if m.contains_key(w) {
            m[w]
        } else {
            w
        }) + substitute(rest, m)
    }
}

proof fn lemma_word_len_bounds(s: Seq<char>)
    ensures
        word_len(s) <= s.len(),
        s.len() > 0 && !is_space(s[0]) ==> word_len(s) >= 1,
    decreases s.len(),
{
    if s.len() > 0 && !is_space(s[0]) {
        lemma_word_len_bounds(s.drop_first());
    }
}

#[via_fn]
proof fn substitute_decreases(s: Seq<char>, m: Map<Seq<char>, Seq<char>>) {
    lemma_word_len_bounds(s);
}

/// The instantiated name of an alias declaration under the bindings `m`.
pub open spec fn instantiated_name(decl: Seq<char>, m: Map<Seq<char>, Seq<char>>) -> Option<
    Seq<char>,
> {
    match header_of(decl) {
        Some(h) => Some(substitute(h, m)),
        None => None,
    }
}

proof fn lemma_word_len(s: Seq<char>, w: int)
    requires
        0 <= w <= s.len(),
        forall|k: int| 0 <= k < w ==> !is_space(#[trigger] s[k]),
        w == s.len() || is_space(s[w]),
    ensures
        word_len(s) == w,
    decreases w,
{
    if w > 0 {
        lemma_word_len(s.drop_first(), w - 1);
    }
}

/// The header of the declaration `decl`: its text between the leading `type`
/// keyword and the first `=`, trimmed of whitespace.
pub fn extract_header(decl: &str) -> (r: Option<String>)
    ensures
        r is Some == header_of(decl@) is Some,
        r matches Some(h) ==> h@ == header_of(decl@)->0,
{
    let ghost s = decl@;
    let n = decl.unicode_len();
    if n < 5 || decl.get_char(0) != 't' || decl.get_char(1) != 'y' || decl.get_char(2) != 'p'
        || decl.get_char(3) != 'e' || !space(decl.get_char(4)) {
        return None;
    }
    let mut e: usize = 5;
    while e < n && decl.get_char(e) != '='
        invariant
            n == s.len(),
            s == decl@,
            5 <= e <= n,
            find_char(s, '=', 5) == find_char(s, '=', e as int),
        decreases n - e,
    {
        e = e + 1;
    }
    if e == n {
        return None;
    }
    let mut a: usize = 5;
    while a < e && space(decl.get_char(a))
        invariant
            n == s.len(),
            s == decl@,
            5 <= a <= e < n,
            trim_start(s.subrange(5, e as int)) == trim_start(s.subrange(a as int, e as int)),
        decreases e - a,
    {
        assert(s.subrange(a as int, e as int).drop_first() =~= s.subrange(a + 1, e as int));
        a = a + 1;
    }
    let ghost t = s.subrange(a as int, e as int);
    assert(trim_start(t) == t);
    let mut b: usize = e;
    while b > a && space(decl.get_char(b - 1))
        invariant
            n == s.len(),
            s == decl@,
            5 <= a <= b <= e < n,
            trim_end(t) == trim_end(s.subrange(a as int, b as int)),
        decreases b - a,
    {
        assert(s.subrange(a as int, b as int).drop_last() =~= s.subrange(a as int, b - 1));
        b = b - 1;
    }
    let h = decl.substring_char(a, b);
    Some(String::from_str(h))
}

/// `header` with every whole word that `bindings` binds replaced by its type.
pub fn substitute_variables(header: &str, bindings: &BindingMap) -> (r: String)
    requires
        bindings.wf(),
    ensures
        r@ == substitute(header@, bindings@),
{
    let ghost s = header@;
    let ghost m = bindings@;
    let n = header.unicode_len();
    let mut out = String::new();
    let mut i: usize = 0;
    assert(s.subrange(0, n as int) =~= s);
    while i < n
        invariant
            n == s.len(),
            s == header@,
            m == bindings@,
            bindings.wf(),
            i <= n,
            out@ + substitute(s.subrange(i as int, n as int), m) == substitute(s, m),
        decreases n - i,
    {
        let ghost rest = s.subrange(i as int, n as int);
        let c = header.get_char(i);
        if space(c) {
            let piece = header.substring_char(i, i + 1);
            assert(rest.drop_first() =~= s.subrange(i + 1, n as int));
            assert(piece@ =~= seq![rest[0]]);
            let ghost before = out@;
            out.append(piece);
            assert(out@ + substitute(s.subrange(i + 1, n as int), m) =~= before + substitute(rest, m));
            i = i + 1;
        } else {
            let mut j: usize = i + 1;
            while j < n && !space(header.get_char(j))
                invariant
                    n == s.len(),
                    s == header@,
                    i < j <= n,
                    forall|k: int| i <= k < j ==> !is_space(#[trigger] s[k]),
                decreases n - j,
            {
                j = j + 1;
            }
            proof {
                assert forall|k: int| 0 <= k < j - i implies !is_space(#[trigger] rest[k]) by {
                    assert(rest[k] == s[i + k]);
                }
                lemma_word_len(rest, j - i);
            }
            assert(rest.take(j - i) =~= s.subrange(i as int, j as int));
            assert(rest.skip(j - i) =~= s.subrange(j as int, n as int));
            let word = header.substring_char(i, j);
            let ghost before = out@;
            match bindings.get(word) {
                Some(ty) => {
                    out.append(ty.as_str());
                },
                None => {
                    out.append(word);
                },
            }
            assert(out@ + substitute(s.subrange(j as int, n as int), m) =~= before + substitute(rest, m));
            i = j;
        }
    }
    assert(s.subrange(n as int, n as int) =~= Seq::<char>::empty());
    assert(out@ =~= substitute(s, m));
    out
}

/// The declared name of the alias declaration `decl` with its variables
/// replaced by the types that `bindings` gives them.
pub fn instantiate_name(decl: &str, bindings: &BindingMap) -> (r: Result<String, AliasError>)
    requires
        bindings.wf(),
    ensures
        instantiated_name(decl@, bindings@) is None ==> r == Err::<String, AliasError>(
            AliasError::MalformedAliasHeader,
        ),
        instantiated_name(decl@, bindings@) matches Some(name) ==> r is Ok && r->Ok_0@ == name,
{
    match extract_header(decl) {
        Some(h) => Ok(substitute_variables(h.as_str(), bindings)),
        None => Err(AliasError::MalformedAliasHeader),
    }
}

} // verus!
