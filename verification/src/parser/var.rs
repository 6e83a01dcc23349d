//! Variable declarations: modifiers, an optional type, a name, an optional
//! initializer that is kept as text, and a closing `;`.

use vstd::prelude::*;
use vstd::string::StringSliceAdditionalSpecFns;
use crate::dart::{
    opt_text_view, opt_type_view, IdentifierExt, TypeModel, Var, VarModel, VarModifier,
    VarModifierSet,
};
use crate::parser::class::{class_modifier_at, scan_class_modifier};
use crate::parser::common::{
    at_keyword, find_byte, ident_at, ident_end, keyword_at, lemma_find_byte, lemma_ident_end,
    lemma_space_end,
    scan_ident, seek_byte, skip_ident, skip_space, space_end, span, EQUALS, GREATER, SEMICOLON,
};
use crate::parser::identifier::{identifier_ext, lemma_type_at, type_at};
use crate::parser::outcome::{Outcome, Scan};

verus! {

/// The variable modifier whose keyword stands at `p`.
pub open spec fn var_modifier_at(s: Seq<u8>, p: int) -> Option<VarModifier> {
    if keyword_at(s, p, "const".spec_bytes()) {
        Some(VarModifier::Const)
    } else if keyword_at(s, p, "final".spec_bytes()) {
        Some(VarModifier::Final)
    } else if keyword_at(s, p, "late".spec_bytes()) {
        Some(VarModifier::Late)
    } else if keyword_at(s, p, "static".spec_bytes()) {
        Some(VarModifier::Static)
    } else {
        None
    }
}

/// The variable modifiers that begin at `p`, in any order and number, each
/// followed by optional whitespace, and the position behind them.
pub open spec fn var_modifiers_at(s: Seq<u8>, p: int) -> (Set<VarModifier>, int)
    decreases s.len() - p,
{
    match var_modifier_at(s, p) {
        Some(m) => {
            let n = space_end(s, ident_end(s, p));
            if p < n <= s.len() {
                let (rest, e) = var_modifiers_at(s, n);
                (rest.insert(m), e)
            } else {
                (Set::empty(), p)
            }
        },
        None => (Set::empty(), p),
    }
}

/// The name that stands behind `var`, with `p` the position of that keyword: no
/// type is written.
pub open spec fn untyped_at(s: Seq<u8>, p: int) -> Option<(Option<TypeModel>, Seq<u8>, int)> {
    let n = space_end(s, ident_end(s, p));
    match ident_at(s, n) {
        Some(e) => Some((None, s.subrange(n, e), e)),
        None => None,
    }
}

/// The type and the name that begin at `p`.
///
/// A type reference followed by an identifier is the type and the name. A type
/// reference that no identifier follows is the name itself, with no type, if it
/// is one plain identifier and a keyword has introduced the declaration.
pub open spec fn typed_at(s: Seq<u8>, p: int, introduced: bool) -> Option<
    (Option<TypeModel>, Seq<u8>, int),
> {
    match type_at(s, p) {
        None => None,
        Some((t, e)) => {
            let n = space_end(s, e);
            match ident_at(s, n) {
                Some(ne) => Some((Some(t), s.subrange(n, ne), ne)),
                None => if introduced && t.type_args.len() == 0 && !t.is_nullable && ident_at(s, p)
                    == Some(e) {
                    Some((None, s.subrange(p, e), e))
                } else {
                    None
                },
            }
        },
    }
}

/// The end of a declaration behind its name, from `p` on: whitespace, then
/// either `;`, or `=`, whitespace, the text of the initializer, which is not
/// empty and runs up to the first `;`, and that `;`. An `=` that begins `=>` is
/// none. The text of the initializer is not looked into: a `;` inside a string
/// ends it like any other.
pub open spec fn initializer_at(s: Seq<u8>, p: int) -> Option<(Option<Seq<u8>>, int)> {
    let q = space_end(s, p);
    if 0 <= q < s.len() && s[q] == SEMICOLON {
        Some((None, q + 1))
    } else if 0 <= q < s.len() && s[q] == EQUALS && !(q + 1 < s.len() && s[q + 1] == GREATER) {
        let i = space_end(s, q + 1);
        let z = find_byte(s, i, SEMICOLON);
        if i < z < s.len() {
            Some((Some(s.subrange(i, z)), z + 1))
        } else {
            None
        }
    } else {
        None
    }
}

/// What follows the modifiers of a variable, from `p` on.
pub open spec fn var_rest_at(
    s: Seq<u8>,
    p: int,
    modifiers: Set<VarModifier>,
    has_var: bool,
    introduced: bool,
) -> Option<(VarModel, int)> {
    match (if has_var {
        untyped_at(s, p)
    } else {
        typed_at(s, p, introduced)
    }) {
        None => None,
        Some((var_type, name, h)) => match initializer_at(s, h) {
            None => None,
            Some((initializer, e)) => Some(
                (VarModel { modifiers, var_type, name, initializer }, e),
            ),
        },
    }
}

/// The variable declaration that begins at `p`.
///
/// A modifier or `var` introduces a declaration; a type and a name do so too.
/// Modifiers followed by a class modifier belong to a class, not to a
/// variable. An introduced declaration that what follows does not complete
/// fails; without a keyword what does not match is no variable declaration.
pub open spec fn var_at(s: Seq<u8>, p: int) -> Scan<VarModel> {
    let (modifiers, m) = var_modifiers_at(s, p);
    let has_var = keyword_at(s, m, "var".spec_bytes());
    let introduced = has_var || modifiers != Set::<VarModifier>::empty();
    if !has_var && class_modifier_at(s, m) is Some {
        Scan::NoMatch
    } else {
        match var_rest_at(s, m, modifiers, has_var, introduced) {
            Some((v, e)) => Scan::Match(v, e),
            None => if introduced {
                Scan::Fail
            } else {
                Scan::NoMatch
            },
        }
    }
}

/// Variable modifiers lie within the input, and there are some only where a
/// keyword stands at the start.
pub proof fn lemma_var_modifiers_at(s: Seq<u8>, p: int)
    requires
        0 <= p <= s.len(),
    ensures
        p <= var_modifiers_at(s, p).1 <= s.len(),
        var_modifiers_at(s, p).0 != Set::<VarModifier>::empty() ==> p < ident_end(s, p),
        var_modifiers_at(s, p).0 == Set::<VarModifier>::empty() ==> var_modifiers_at(s, p).1 == p,
    decreases s.len() - p,
{
    lemma_ident_end(s, p);
    lemma_space_end(s, ident_end(s, p));
    match var_modifier_at(s, p) {
        Some(m) => {
            let n = space_end(s, ident_end(s, p));
            lemma_var_modifiers_at(s, n);
            assert(var_modifiers_at(s, p).0.contains(m));
        },
        None => {},
    }
}

/// A modifier that is written again adds nothing: the modifiers from a keyword
/// on are those from the next word on, where that word is the same keyword.
pub proof fn lemma_repeated_var_modifier(s: Seq<u8>, p: int)
    requires
        0 <= p <= s.len(),
        var_modifier_at(s, p) is Some,
        var_modifier_at(s, space_end(s, ident_end(s, p))) == var_modifier_at(s, p),
    ensures
        var_modifiers_at(s, p) == var_modifiers_at(s, space_end(s, ident_end(s, p))),
{
    let n = space_end(s, ident_end(s, p));
    let m = var_modifier_at(s, p)->Some_0;
    lemma_ident_end(s, p);
    lemma_space_end(s, ident_end(s, p));
    lemma_ident_end(s, n);
    lemma_space_end(s, ident_end(s, n));
    let rest = var_modifiers_at(s, space_end(s, ident_end(s, n))).0;
    assert(rest.insert(m).insert(m) =~= rest.insert(m));
}

/// A variable declaration is not empty, lies within the input and ends with
/// its `;`.
pub proof fn lemma_var_at(s: Seq<u8>, p: int)
    ensures
        var_at(s, p) matches Scan::Match(_, e) ==> 0 <= p < e <= s.len() && s[e - 1] == SEMICOLON,
{
    if 0 <= p <= s.len() {
        lemma_var_modifiers_at(s, p);
        let m = var_modifiers_at(s, p).1;
        lemma_ident_end(s, m);
        lemma_space_end(s, ident_end(s, m));
        let n = space_end(s, ident_end(s, m));
        lemma_ident_end(s, n);
        lemma_type_at(s, m);
        match type_at(s, m) {
            Some((_, e)) => {
                lemma_space_end(s, e);
                lemma_ident_end(s, space_end(s, e));
                lemma_initializer_at(s, e);
                lemma_initializer_at(s, ident_end(s, space_end(s, e)));
            },
            None => {},
        }
        lemma_initializer_at(s, ident_end(s, n));
    }
}

/// The end of a declaration lies within the input, behind a `;`.
pub proof fn lemma_initializer_at(s: Seq<u8>, p: int)
    requires
        0 <= p <= s.len(),
    ensures
        initializer_at(s, p) matches Some((_, e)) ==> p < e <= s.len() && s[e - 1] == SEMICOLON,
{
    lemma_space_end(s, p);
    let q = space_end(s, p);
    if q < s.len() {
        lemma_space_end(s, q + 1);
        lemma_find_byte(s, space_end(s, q + 1), SEMICOLON);
    }
}

/// Recognises the variable modifier whose keyword stands at `p`.
pub(crate) fn scan_var_modifier(b: &[u8], p: usize) -> (r: Option<VarModifier>)
    requires
        p <= b@.len(),
    ensures
        r == var_modifier_at(b@, p as int),
{
    if at_keyword(b, p, "const") {
        Some(VarModifier::Const)
    } else if at_keyword(b, p, "final") {
        Some(VarModifier::Final)
    } else if at_keyword(b, p, "late") {
        Some(VarModifier::Late)
    } else if at_keyword(b, p, "static") {
        Some(VarModifier::Static)
    } else {
        None
    }
}

/// Collects the variable modifiers that begin at `p`.
pub(crate) fn scan_var_modifiers(b: &[u8], p: usize) -> (r: (VarModifierSet, usize))
    requires
        p <= b@.len(),
    ensures
        r.0@ == var_modifiers_at(b@, p as int).0,
        r.1 == var_modifiers_at(b@, p as int).1,
        p <= r.1 <= b@.len(),
{
    let mut found = VarModifierSet::new();
    let mut at: usize = p;
    loop
        invariant
            p <= at <= b@.len(),
            var_modifiers_at(b@, p as int).0 == found@.union(var_modifiers_at(b@, at as int).0),
            var_modifiers_at(b@, p as int).1 == var_modifiers_at(b@, at as int).1,
        decreases b@.len() - at,
    {
        match scan_var_modifier(b, at) {
            Some(m) => {
                let n = skip_space(b, skip_ident(b, at));
                let ghost before = found@;
                found.insert(m);
                proof {
                    let rest = var_modifiers_at(b@, n as int).0;
                    assert(before.insert(m).union(rest) =~= before.union(rest.insert(m)));
                }
                at = n;
            },
            None => {
                assert(found@.union(Set::empty()) =~= found@);
                return (found, at);
            },
        }
    }
}

/// Matches the name behind `var`.
pub(crate) fn scan_untyped<'s>(src: &'s str, p: usize) -> (r: Option<
    (Option<IdentifierExt<'s>>, &'s str, usize),
>)
    requires
        p <= src.spec_bytes().len(),
    ensures
        r matches Some((_, _, e)) ==> p < e <= src.spec_bytes().len() && src.spec_bytes()[e - 1]
            < 0x80,
        match r {
            Some((t, name, e)) => untyped_at(src.spec_bytes(), p as int) == Some(
                (opt_type_view(t), name.spec_bytes(), e as int),
            ),
            None => untyped_at(src.spec_bytes(), p as int) is None,
        },
{
    let b = src.as_bytes();
    let n = skip_space(b, skip_ident(b, p));
    match scan_ident(b, n) {
        Some(e) => Some((None, span(src, n, e), e)),
        None => None,
    }
}

/// Matches the type and the name that begin at `p`.
pub(crate) fn scan_typed<'s>(src: &'s str, p: usize, introduced: bool) -> (r: Option<
    (Option<IdentifierExt<'s>>, &'s str, usize),
>)
    requires
        p <= src.spec_bytes().len(),
    ensures
        r matches Some((_, _, e)) ==> p < e <= src.spec_bytes().len() && src.spec_bytes()[e - 1]
            < 0x80,
        match r {
            Some((t, name, e)) => typed_at(src.spec_bytes(), p as int, introduced) == Some(
                (opt_type_view(t), name.spec_bytes(), e as int),
            ),
            None => typed_at(src.spec_bytes(), p as int, introduced) is None,
        },
{
    let b = src.as_bytes();
    match identifier_ext(src, p) {
        None => None,
        Some((t, e)) => {
            let n = skip_space(b, e);
            match scan_ident(b, n) {
                Some(ne) => Some((Some(t), span(src, n, ne), ne)),
                None => {
                    if introduced && t.type_args.len() == 0 && !t.is_nullable && skip_ident(b, p)
                        == e {
                        proof {
                            t.lemma_view();
                        }
                        Some((None, t.name, e))
                    } else {
                        None
                    }
                },
            }
        },
    }
}

/// Matches the end of a declaration behind its name.
pub(crate) fn scan_initializer<'s>(src: &'s str, p: usize) -> (r: Option<
    (Option<&'s str>, usize),
>)
    requires
        p <= src.spec_bytes().len(),
    ensures
        r matches Some((_, e)) ==> p < e <= src.spec_bytes().len() && src.spec_bytes()[e - 1]
            < 0x80,
        match r {
            Some((t, e)) => initializer_at(src.spec_bytes(), p as int) == Some(
                (opt_text_view(t), e as int),
            ),
            None => initializer_at(src.spec_bytes(), p as int) is None,
        },
{
    let b = src.as_bytes();
    let q = skip_space(b, p);
    if q < b.len() && b[q] == SEMICOLON {
        Some((None, q + 1))
    } else if q < b.len() && b[q] == EQUALS && !(b.len() - q >= 2 && b[q + 1] == GREATER) {
        let i = skip_space(b, q + 1);
        let z = seek_byte(b, i, SEMICOLON);
        if i < z && z < b.len() {
            proof {
                lemma_space_end(b@, q + 1);
            }
            Some((Some(span(src, i, z)), z + 1))
        } else {
            None
        }
    } else {
        None
    }
}

/// Matches the variable declaration that begins at `at`.
pub fn var<'s>(src: &'s str, at: usize) -> (r: Outcome<Var<'s>>)
    ensures
        r matches Outcome::Match(_, e) ==> at < e <= src.spec_bytes().len() && src.spec_bytes()[e
            - 1] < 0x80,
        match r {
            Outcome::Match(v, e) => var_at(src.spec_bytes(), at as int) == Scan::Match(
                v@,
                e as int,
            ),
            Outcome::NoMatch => var_at(src.spec_bytes(), at as int) is NoMatch,
            Outcome::Fail => var_at(src.spec_bytes(), at as int) is Fail,
        },
{
    let b = src.as_bytes();
    if at > b.len() {
        return Outcome::NoMatch;
    }
    let (modifiers, m) = scan_var_modifiers(b, at);
    let has_var = at_keyword(b, m, "var");
    let introduced = has_var || !modifiers.is_empty();
    if !has_var && scan_class_modifier(b, m).is_some() {
        return Outcome::NoMatch;
    }
    let head = if has_var {
        scan_untyped(src, m)
    } else {
        scan_typed(src, m, introduced)
    };
    let miss = if introduced {
        Outcome::Fail
    } else {
        Outcome::NoMatch
    };
    let (var_type, name, h) = match head {
        Some(found) => found,
        None => {
            return miss;
        },
    };
    match scan_initializer(src, h) {
        Some((initializer, e)) => Outcome::Match(Var { modifiers, var_type, name, initializer }, e),
        None => miss,
    }
}

} // verus!
