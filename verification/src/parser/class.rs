//! Class declarations: modifiers, a name, an optional `extends` clause, an
//! optional `implements` clause, and a body that is kept as text.

use vstd::prelude::*;
use vstd::string::StringSliceAdditionalSpecFns;
use crate::dart::{
    opt_type_view, types_view, Class, ClassModel, ClassModifier, ClassModifierSet, IdentifierExt,
    TypeModel,
};
use crate::parser::common::{
    at_keyword, close_at, depth, ident_at, ident_end, is_cut, keyword_at, lemma_close_at,
    lemma_depth_of_span, lemma_ident_end,
    lemma_space_end, scan_ident, seek_close, skip_ident, skip_space, space_end, span, CLOSE_BRACE,
    OPEN_BRACE,
};
use crate::parser::identifier::{
    identifier_ext, lemma_type_at, lemma_type_list_at, scan_type_list, type_at, type_list_at,
};
use crate::parser::outcome::{Outcome, Scan};

verus! {

/// The class modifier whose keyword stands at `p`.
pub open spec fn class_modifier_at(s: Seq<u8>, p: int) -> Option<ClassModifier> {
    if keyword_at(s, p, "abstract".spec_bytes()) {
        Some(ClassModifier::Abstract)
    } else if keyword_at(s, p, "class".spec_bytes()) {
        Some(ClassModifier::Class)
    } else if keyword_at(s, p, "mixin".spec_bytes()) {
        Some(ClassModifier::Mixin)
    } else if keyword_at(s, p, "interface".spec_bytes()) {
        Some(ClassModifier::Interface)
    } else if keyword_at(s, p, "sealed".spec_bytes()) {
        Some(ClassModifier::Sealed)
    } else if keyword_at(s, p, "base".spec_bytes()) {
        Some(ClassModifier::Base)
    } else if keyword_at(s, p, "final".spec_bytes()) {
        Some(ClassModifier::Final)
    } else {
        None
    }
}

/// The class modifiers that begin at `p`, in any order and number, each
/// followed by optional whitespace, and the position behind them.
pub open spec fn class_modifiers_at(s: Seq<u8>, p: int) -> (Set<ClassModifier>, int)
    decreases s.len() - p,
{
    match class_modifier_at(s, p) {
        Some(m) => {
            let n = space_end(s, ident_end(s, p));
            if p < n <= s.len() {
                let (rest, e) = class_modifiers_at(s, n);
                (rest.insert(m), e)
            } else {
                (Set::empty(), p)
            }
        },
        None => (Set::empty(), p),
    }
}

/// The `extends` clause behind `p`: whitespace, `extends`, whitespace, a type
/// reference. Where `extends` does not follow, there is no clause and nothing is
/// consumed; where it follows without a type, the clause is malformed.
pub open spec fn extends_at(s: Seq<u8>, p: int) -> Option<(Option<TypeModel>, int)> {
    let k = space_end(s, p);
    if keyword_at(s, k, "extends".spec_bytes()) {
        match type_at(s, space_end(s, ident_end(s, k))) {
            Some((t, e)) => Some((Some(t), e)),
            None => None,
        }
    } else {
        Some((None, p))
    }
}

/// The `implements` clause behind `p`: whitespace, `implements`, whitespace, a
/// list of type references. Where `implements` does not follow, the list is empty
/// and nothing is consumed; where it follows without a list, the clause is
/// malformed.
pub open spec fn implements_at(s: Seq<u8>, p: int) -> Option<(Seq<TypeModel>, int)> {
    let k = space_end(s, p);
    if keyword_at(s, k, "implements".spec_bytes()) {
        type_list_at(s, space_end(s, ident_end(s, k)))
    } else {
        Some((Seq::empty(), p))
    }
}

/// The block behind `p`: whitespace, then the text from a `{` to the `}` that
/// closes it. Braces are counted and nothing else is looked at, so a brace inside
/// a string or a comment counts like any other.
pub open spec fn block_at(s: Seq<u8>, p: int) -> Option<(Seq<u8>, int)> {
    let o = space_end(s, p);
    if 0 <= o < s.len() && s[o] == OPEN_BRACE {
        match close_at(s, o + 1, 1, OPEN_BRACE, CLOSE_BRACE) {
            Some(e) => Some((s.subrange(o, e), e)),
            None => None,
        }
    } else {
        None
    }
}

/// What follows the modifiers of a class, from `p` on: the name, the clauses
/// and the body.
pub open spec fn class_rest_at(s: Seq<u8>, p: int, modifiers: Set<ClassModifier>) -> Option<
    (ClassModel, int),
> {
    match ident_at(s, p) {
        None => None,
        Some(n) => match extends_at(s, n) {
            None => None,
            Some((extends, x)) => match implements_at(s, x) {
                None => None,
                Some((implements, i)) => match block_at(s, i) {
                    None => None,
                    Some((body, e)) => Some(
                        (
                            ClassModel {
                                modifiers,
                                name: s.subrange(p, n),
                                extends,
                                implements,
                                body,
                            },
                            e,
                        ),
                    ),
                },
            },
        },
    }
}

/// The class declaration that begins at `p`.
///
/// Modifiers that hold `class` or `mixin` make it a class declaration. If what
/// follows does not complete it, the declaration fails: it is not taken for
/// anything else.
pub open spec fn class_at(s: Seq<u8>, p: int) -> Scan<ClassModel> {
    let (modifiers, m) = class_modifiers_at(s, p);
    if modifiers.contains(ClassModifier::Class) || modifiers.contains(ClassModifier::Mixin) {
        match class_rest_at(s, m, modifiers) {
            Some((c, e)) => Scan::Match(c, e),
            None => Scan::Fail,
        }
    } else {
        Scan::NoMatch
    }
}

/// A block begins with `{` and ends with the `}` that matches it: over the
/// whole block the braces balance, and over no shorter text from its start.
pub proof fn lemma_block_balanced(s: Seq<u8>, p: int)
    ensures
        block_at(s, p) matches Some((t, e)) ==> {
            &&& p < e <= s.len()
            &&& s[e - 1] == CLOSE_BRACE
            &&& t.len() >= 2
            &&& t.first() == OPEN_BRACE
            &&& t.last() == CLOSE_BRACE
            &&& depth(t, 0, t.len() as int, OPEN_BRACE, CLOSE_BRACE) == 0
            &&& forall|n: int|
                0 < n < t.len() ==> #[trigger] depth(t, 0, n, OPEN_BRACE, CLOSE_BRACE) > 0
        },
{
    if 0 <= p <= s.len() {
        lemma_space_end(s, p);
        let o = space_end(s, p);
        match block_at(s, p) {
            Some((t, e)) => {
                lemma_close_at(s, o + 1, 1, OPEN_BRACE, CLOSE_BRACE);
                lemma_depth_of_span(s, o, e, 0, e - o, OPEN_BRACE, CLOSE_BRACE);
                assert forall|n: int| 0 < n < t.len() implies #[trigger] depth(
                    t,
                    0,
                    n,
                    OPEN_BRACE,
                    CLOSE_BRACE,
                ) > 0 by {
                    lemma_depth_of_span(s, o, e, 0, n, OPEN_BRACE, CLOSE_BRACE);
                    assert(depth(s, o + 1, o + n, OPEN_BRACE, CLOSE_BRACE) > -1);
                }
            },
            None => {},
        }
    }
}

/// The body of a class is a block: it begins with `{` and ends with the `}`
/// that matches it.
pub proof fn lemma_class_body(s: Seq<u8>, p: int)
    ensures
        class_at(s, p) matches Scan::Match(c, _) ==> {
            &&& c.body.len() >= 2
            &&& c.body.first() == OPEN_BRACE
            &&& c.body.last() == CLOSE_BRACE
            &&& depth(c.body, 0, c.body.len() as int, OPEN_BRACE, CLOSE_BRACE) == 0
            &&& forall|n: int|
                0 < n < c.body.len() ==> #[trigger] depth(c.body, 0, n, OPEN_BRACE, CLOSE_BRACE)
                    > 0
        },
{
    let m = class_modifiers_at(s, p).1;
    match ident_at(s, m) {
        Some(n) => match extends_at(s, n) {
            Some((_, x)) => match implements_at(s, x) {
                Some((_, i)) => {
                    lemma_block_balanced(s, i);
                },
                None => {},
            },
            None => {},
        },
        None => {},
    }
}

/// A class declaration is not empty, lies within the input and ends with the
/// `}` of its body.
pub proof fn lemma_class_at(s: Seq<u8>, p: int)
    ensures
        class_at(s, p) matches Scan::Match(_, e) ==> 0 <= p < e <= s.len() && s[e - 1]
            == CLOSE_BRACE,
{
    if 0 <= p <= s.len() {
        lemma_class_modifiers_at(s, p);
        let m = class_modifiers_at(s, p).1;
        lemma_ident_end(s, m);
        match ident_at(s, m) {
            Some(n) => {
                lemma_space_end(s, n);
                let k = space_end(s, n);
                lemma_ident_end(s, k);
                lemma_space_end(s, ident_end(s, k));
                lemma_type_at(s, space_end(s, ident_end(s, k)));
                match extends_at(s, n) {
                    Some((_, x)) => {
                        lemma_space_end(s, x);
                        let k2 = space_end(s, x);
                        lemma_ident_end(s, k2);
                        lemma_space_end(s, ident_end(s, k2));
                        lemma_type_list_at(s, space_end(s, ident_end(s, k2)));
                        match implements_at(s, x) {
                            Some((_, i)) => {
                                lemma_block_balanced(s, i);
                            },
                            None => {},
                        }
                    },
                    None => {},
                }
            },
            None => {},
        }
    }
}

/// Class modifiers lie within the input, and there are some only where a
/// keyword stands at the start.
pub proof fn lemma_class_modifiers_at(s: Seq<u8>, p: int)
    requires
        0 <= p <= s.len(),
    ensures
        p <= class_modifiers_at(s, p).1 <= s.len(),
        is_cut(s, p) ==> is_cut(s, class_modifiers_at(s, p).1),
        class_modifiers_at(s, p).0 != Set::<ClassModifier>::empty() ==> p < ident_end(s, p),
    decreases s.len() - p,
{
    lemma_ident_end(s, p);
    lemma_space_end(s, ident_end(s, p));
    match class_modifier_at(s, p) {
        Some(m) => {
            let n = space_end(s, ident_end(s, p));
            lemma_class_modifiers_at(s, n);
        },
        None => {},
    }
}

/// Recognises the class modifier whose keyword stands at `p`.
pub(crate) fn scan_class_modifier(b: &[u8], p: usize) -> (r: Option<ClassModifier>)
    requires
        p <= b@.len(),
    ensures
        r == class_modifier_at(b@, p as int),
{
    if at_keyword(b, p, "abstract") {
        Some(ClassModifier::Abstract)
    } else if at_keyword(b, p, "class") {
        Some(ClassModifier::Class)
    } else if at_keyword(b, p, "mixin") {
        Some(ClassModifier::Mixin)
    } else if at_keyword(b, p, "interface") {
        Some(ClassModifier::Interface)
    } else if at_keyword(b, p, "sealed") {
        Some(ClassModifier::Sealed)
    } else if at_keyword(b, p, "base") {
        Some(ClassModifier::Base)
    } else if at_keyword(b, p, "final") {
        Some(ClassModifier::Final)
    } else {
        None
    }
}

/// Collects the class modifiers that begin at `p`.
pub(crate) fn scan_class_modifiers(b: &[u8], p: usize) -> (r: (ClassModifierSet, usize))
    requires
        p <= b@.len(),
    ensures
        r.0@ == class_modifiers_at(b@, p as int).0,
        r.1 == class_modifiers_at(b@, p as int).1,
        p <= r.1 <= b@.len(),
{
    let mut found = ClassModifierSet::new();
    let mut at: usize = p;
    loop
        invariant
            p <= at <= b@.len(),
            class_modifiers_at(b@, p as int).0 == found@.union(
                class_modifiers_at(b@, at as int).0,
            ),
            class_modifiers_at(b@, p as int).1 == class_modifiers_at(b@, at as int).1,
        decreases b@.len() - at,
    {
        match scan_class_modifier(b, at) {
            Some(m) => {
                let n = skip_space(b, skip_ident(b, at));
                let ghost before = found@;
                found.insert(m);
                proof {
                    let rest = class_modifiers_at(b@, n as int).0;
                    assert(before.insert(m).union(rest) =~= before.union(rest.insert(m)));
                }
                at = n;
            },
            None => {
                assert(found@.union(Set::empty()) =~= found@);
                return (found, at);
            },
        }
    }
}

/// Matches the `extends` clause behind `p`.
pub(crate) fn scan_extends<'s>(src: &'s str, p: usize) -> (r: Option<
    (Option<IdentifierExt<'s>>, usize),
>)
    requires
        p <= src.spec_bytes().len(),
        is_cut(src.spec_bytes(), p as int),
    ensures
        r matches Some((_, e)) ==> p <= e <= src.spec_bytes().len() && is_cut(
            src.spec_bytes(),
            e as int,
        ),
        match r {
            Some((t, e)) => extends_at(src.spec_bytes(), p as int) == Some(
                (opt_type_view(t), e as int),
            ),
            None => extends_at(src.spec_bytes(), p as int) is None,
        },
{
    let b = src.as_bytes();
    let k = skip_space(b, p);
    if at_keyword(b, k, "extends") {
        match identifier_ext(src, skip_space(b, skip_ident(b, k))) {
            Some((t, e)) => Some((Some(t), e)),
            None => None,
        }
    } else {
        Some((None, p))
    }
}

/// Matches the `implements` clause behind `p`.
pub(crate) fn scan_implements<'s>(src: &'s str, p: usize) -> (r: Option<
    (Vec<IdentifierExt<'s>>, usize),
>)
    requires
        p <= src.spec_bytes().len(),
        is_cut(src.spec_bytes(), p as int),
    ensures
        r matches Some((_, e)) ==> p <= e <= src.spec_bytes().len() && is_cut(
            src.spec_bytes(),
            e as int,
        ),
        match r {
            Some((list, e)) => implements_at(src.spec_bytes(), p as int) == Some(
                (types_view(list@), e as int),
            ),
            None => implements_at(src.spec_bytes(), p as int) is None,
        },
{
    let b = src.as_bytes();
    let k = skip_space(b, p);
    if at_keyword(b, k, "implements") {
        scan_type_list(src, skip_space(b, skip_ident(b, k)))
    } else {
        let none: Vec<IdentifierExt<'s>> = Vec::new();
        assert(types_view(none@) =~= Seq::empty());
        Some((none, p))
    }
}

/// Matches the block behind `p`.
pub(crate) fn scan_block<'s>(src: &'s str, p: usize) -> (r: Option<(&'s str, usize)>)
    requires
        p <= src.spec_bytes().len(),
    ensures
        r matches Some((_, e)) ==> p < e <= src.spec_bytes().len() && src.spec_bytes()[e - 1]
            < 0x80,
        match r {
            Some((t, e)) => block_at(src.spec_bytes(), p as int) == Some(
                (t.spec_bytes(), e as int),
            ),
            None => block_at(src.spec_bytes(), p as int) is None,
        },
{
    let b = src.as_bytes();
    let o = skip_space(b, p);
    if o < b.len() && b[o] == OPEN_BRACE {
        match seek_close(b, o + 1, OPEN_BRACE, CLOSE_BRACE) {
            Some(e) => Some((span(src, o, e), e)),
            None => None,
        }
    } else {
        None
    }
}

/// Matches the class declaration that begins at `at`.
pub fn class<'s>(src: &'s str, at: usize) -> (r: Outcome<Class<'s>>)
    ensures
        r matches Outcome::Match(_, e) ==> at < e <= src.spec_bytes().len() && src.spec_bytes()[e
            - 1] < 0x80,
        match r {
            Outcome::Match(c, e) => class_at(src.spec_bytes(), at as int) == Scan::Match(
                c@,
                e as int,
            ),
            Outcome::NoMatch => class_at(src.spec_bytes(), at as int) is NoMatch,
            Outcome::Fail => class_at(src.spec_bytes(), at as int) is Fail,
        },
{
    let b = src.as_bytes();
    if at > b.len() {
        return Outcome::NoMatch;
    }
    let (modifiers, m) = scan_class_modifiers(b, at);
    if !(modifiers.contains(ClassModifier::Class) || modifiers.contains(ClassModifier::Mixin)) {
        return Outcome::NoMatch;
    }
    let n = match scan_ident(b, m) {
        Some(n) => n,
        None => {
            return Outcome::Fail;
        },
    };
    let name = span(src, m, n);
    let (extends, x) = match scan_extends(src, n) {
        Some(found) => found,
        None => {
            return Outcome::Fail;
        },
    };
    let (implements, i) = match scan_implements(src, x) {
        Some(found) => found,
        None => {
            return Outcome::Fail;
        },
    };
    match scan_block(src, i) {
        Some((body, e)) => Outcome::Match(Class { modifiers, name, extends, implements, body }, e),
        None => Outcome::Fail,
    }
}

} // verus!
