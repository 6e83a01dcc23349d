//! Type references: a simple or dotted name, an optional list of type arguments
//! between `<` and `>`, each a type reference again, and an optional `?`.
//!
//! The arguments nest without bound, and the matcher recurses as deep as they
//! do: the depth of the input is the depth of the call stack.

use vstd::prelude::*;
use vstd::string::StringSliceAdditionalSpecFns;
use crate::dart::{types_view, IdentifierExt, TypeModel};
use crate::parser::common::{
    ident_at, ident_end, is_cut, is_ident_part, is_ident_start, lemma_ident_end, lemma_space_end,
    scan_ident, skip_space, space_end, span,
    COMMA, DOT, GREATER, LESS, QUESTION,
};

verus! {

/// The end of what continues a dotted name behind an identifier that ends at
/// `e`: each time a dot and, directly behind it, another identifier.
pub open spec fn dotted_tail(s: Seq<u8>, e: int) -> int
    decreases s.len() - e,
{
    if 0 <= e < s.len() && s[e] == DOT {
        match ident_at(s, e + 1) {
            Some(e2) => if e < e2 <= s.len() {
                dotted_tail(s, e2)
            } else {
                e
            },
            None => e,
        }
    } else {
        e
    }
}

/// The end of the dotted name that begins at `p`: identifiers joined by single
/// dots, with nothing between them. A dot that no identifier follows is left out.
pub open spec fn dotted_end(s: Seq<u8>, p: int) -> Option<int> {
    match ident_at(s, p) {
        Some(e) => Some(dotted_tail(s, e)),
        None => None,
    }
}

/// The type reference that begins at `p`, and its end.
///
/// The name is a dotted name. A `<` directly behind it opens the argument list;
/// where that list is not well formed, the reference is the bare name and ends
/// before the `<`. A `?` directly behind the name or the closing `>` marks the
/// reference nullable and belongs to it.
pub open spec fn type_at(s: Seq<u8>, p: int) -> Option<(TypeModel, int)>
    decreases s.len() - p, 1int,
{
    match dotted_end(s, p) {
        None => None,
        Some(e) => {
            let (type_args, a) = if p < e <= s.len() {
                match type_args_at(s, e) {
                    Some((args, a)) => (args, a),
                    None => (Seq::empty(), e),
                }
            } else {
                (Seq::empty(), e)
            };
            let is_nullable = 0 <= a < s.len() && s[a] == QUESTION;
            Some(
                (
                    TypeModel { name: s.subrange(p, e), type_args, is_nullable },
                    if is_nullable {
                        a + 1
                    } else {
                        a
                    },
                ),
            )
        },
    }
}

/// The argument list that begins at `p` with `<`, and the position behind its
/// `>`. Whitespace may stand before and behind each argument.
pub open spec fn type_args_at(s: Seq<u8>, p: int) -> Option<(Seq<TypeModel>, int)>
    decreases s.len() - p, 0int,
{
    if 0 <= p < s.len() && s[p] == LESS {
        let q = space_end(s, p + 1);
        if p < q <= s.len() {
            match type_list_at(s, q) {
                Some((list, e)) => if 0 <= e < s.len() && s[e] == GREATER {
                    Some((list, e + 1))
                } else {
                    None
                },
                None => None,
            }
        } else {
            None
        }
    } else {
        None
    }
}

/// The type references that begin at `p`, one or more, separated by commas, and
/// the position behind the last of them and the whitespace that follows it.
pub open spec fn type_list_at(s: Seq<u8>, p: int) -> Option<(Seq<TypeModel>, int)>
    decreases s.len() - p, 2int,
{
    match type_at(s, p) {
        None => None,
        Some((t, e)) => {
            let c = space_end(s, e);
            if 0 <= c < s.len() && s[c] == COMMA {
                let q = space_end(s, c + 1);
                if p < q <= s.len() {
                    match type_list_at(s, q) {
                        Some((rest, end)) => Some((seq![t] + rest, end)),
                        None => None,
                    }
                } else {
                    None
                }
            } else {
                Some((seq![t], c))
            }
        },
    }
}

/// A list that is to be continued: the types found so far, put before what the
/// rest of the list yields.
pub open spec fn continued(
    found: Seq<TypeModel>,
    rest: Option<(Seq<TypeModel>, int)>,
) -> Option<(Seq<TypeModel>, int)> {
    match rest {
        Some((list, e)) => Some((found + list, e)),
        None => None,
    }
}

/// What continues a dotted name lies within the input and ends behind an
/// identifier byte.
pub proof fn lemma_dotted_tail(s: Seq<u8>, e: int)
    requires
        0 < e <= s.len(),
        is_ident_part(s[e - 1]),
    ensures
        e <= dotted_tail(s, e) <= s.len(),
        is_ident_part(s[dotted_tail(s, e) - 1]),
    decreases s.len() - e,
{
    if e < s.len() && s[e] == DOT {
        lemma_ident_end(s, e + 1);
        match ident_at(s, e + 1) {
            Some(e2) => {
                lemma_dotted_tail(s, e2);
            },
            None => {},
        }
    }
}

/// A type reference begins with an identifier, is not empty, lies within the
/// input, and is nullable exactly where it ends with `?`.
pub proof fn lemma_type_at(s: Seq<u8>, p: int)
    ensures
        type_at(s, p) matches Some((t, e)) ==> {
            &&& 0 <= p < e <= s.len()
            &&& is_ident_start(s[p])
            &&& t.is_nullable <==> s[e - 1] == QUESTION
        },
    decreases s.len() - p, 1int,
{
    if 0 <= p < s.len() && is_ident_start(s[p]) {
        lemma_ident_end(s, p);
        let i = ident_end(s, p);
        lemma_dotted_tail(s, i);
        let e = dotted_tail(s, i);
        lemma_type_args_at(s, e);
    }
}

/// An argument list is not empty, lies within the input and ends with `>`.
pub proof fn lemma_type_args_at(s: Seq<u8>, p: int)
    ensures
        type_args_at(s, p) matches Some((list, e)) ==> 0 <= p < e <= s.len() && s[e - 1]
            == GREATER && list.len() >= 1,
    decreases s.len() - p, 0int,
{
    if 0 <= p < s.len() && s[p] == LESS {
        lemma_space_end(s, p + 1);
        lemma_type_list_at(s, space_end(s, p + 1));
    }
}

/// A list of type references is not empty and lies within the input.
pub proof fn lemma_type_list_at(s: Seq<u8>, p: int)
    ensures
        type_list_at(s, p) matches Some((list, e)) ==> 0 <= p < e <= s.len() && list.len() >= 1,
    decreases s.len() - p, 2int,
{
    lemma_type_at(s, p);
    match type_at(s, p) {
        Some((t, e)) => {
            lemma_space_end(s, e);
            let c = space_end(s, e);
            if c < s.len() && s[c] == COMMA {
                lemma_space_end(s, c + 1);
                lemma_type_list_at(s, space_end(s, c + 1));
            }
        },
        None => {},
    }
}

/// Finds the end of the dotted name that begins at `p`.
pub(crate) fn scan_dotted(b: &[u8], p: usize) -> (r: Option<usize>)
    requires
        p <= b@.len(),
    ensures
        r matches Some(e) ==> p < e <= b@.len() && b@[p as int] < 0x80 && b@[e - 1] < 0x80,
        match r {
            Some(e) => dotted_end(b@, p as int) == Some(e as int),
            None => dotted_end(b@, p as int) is None,
        },
{
    let first = match scan_ident(b, p) {
        Some(e) => e,
        None => {
            return None;
        },
    };
    let mut e: usize = first;
    let mut open = true;
    while open
        invariant
            p < e <= b@.len(),
            b@[e - 1] < 0x80,
            dotted_tail(b@, first as int) == dotted_tail(b@, e as int),
            !open ==> dotted_tail(b@, e as int) == e,
        decreases b@.len() - e + (if open { 1int } else { 0int }),
    {
        if e < b.len() && b[e] == DOT {
            match scan_ident(b, e + 1) {
                Some(e2) => {
                    e = e2;
                },
                None => {
                    open = false;
                },
            }
        } else {
            open = false;
        }
    }
    Some(e)
}

/// Matches the type reference that begins at `p`.
pub fn identifier_ext<'s>(src: &'s str, p: usize) -> (r: Option<(IdentifierExt<'s>, usize)>)
    ensures
        r matches Some((_, e)) ==> p < e <= src.spec_bytes().len() && src.spec_bytes()[e - 1]
            < 0x80 && src.spec_bytes()[p as int] < 0x80,
        match r {
            Some((t, e)) => type_at(src.spec_bytes(), p as int) == Some((t@, e as int)),
            None => type_at(src.spec_bytes(), p as int) is None,
        },
    decreases src.spec_bytes().len() - p, 1int,
{
    let b = src.as_bytes();
    if p > b.len() {
        return None;
    }
    match scan_dotted(b, p) {
        None => None,
        Some(e) => {
            let name = span(src, p, e);
            let (type_args, a) = match scan_type_args(src, e) {
                Some((args, a)) => (args, a),
                None => (Vec::new(), e),
            };
            let is_nullable = a < b.len() && b[a] == QUESTION;
            let end = if is_nullable {
                a + 1
            } else {
                a
            };
            let t = IdentifierExt { name, type_args, is_nullable };
            proof {
                t.lemma_view();
                if type_args_at(b@, e as int) is None {
                    assert(types_view(t.type_args@) =~= Seq::empty());
                }
            }
            Some((t, end))
        },
    }
}

/// Matches the argument list that begins at `p` with `<`.
pub(crate) fn scan_type_args<'s>(src: &'s str, p: usize) -> (r: Option<(Vec<IdentifierExt<'s>>, usize)>)
    requires
        p <= src.spec_bytes().len(),
    ensures
        r matches Some((_, e)) ==> p < e <= src.spec_bytes().len() && src.spec_bytes()[e - 1]
            < 0x80,
        match r {
            Some((list, e)) => type_args_at(src.spec_bytes(), p as int) == Some(
                (types_view(list@), e as int),
            ),
            None => type_args_at(src.spec_bytes(), p as int) is None,
        },
    decreases src.spec_bytes().len() - p, 0int,
{
    let b = src.as_bytes();
    if p < b.len() && b[p] == LESS {
        let q = skip_space(b, p + 1);
        match scan_type_list(src, q) {
            Some((list, e)) => {
                if e < b.len() && b[e] == GREATER {
                    Some((list, e + 1))
                } else {
                    None
                }
            },
            None => None,
        }
    } else {
        None
    }
}

/// Matches the comma-separated type references that begin at `p`.
pub(crate) fn scan_type_list<'s>(src: &'s str, p: usize) -> (r: Option<(Vec<IdentifierExt<'s>>, usize)>)
    requires
        p <= src.spec_bytes().len(),
    ensures
        r matches Some((_, e)) ==> p < e <= src.spec_bytes().len() && is_cut(
            src.spec_bytes(),
            e as int,
        ),
        match r {
            Some((list, e)) => type_list_at(src.spec_bytes(), p as int) == Some(
                (types_view(list@), e as int),
            ),
            None => type_list_at(src.spec_bytes(), p as int) is None,
        },
    decreases src.spec_bytes().len() - p, 2int,
{
    let b = src.as_bytes();
    let mut found: Vec<IdentifierExt<'s>> = Vec::new();
    let mut at: usize = p;
    assert(types_view(found@) =~= Seq::empty());
    assert(continued(Seq::empty(), type_list_at(b@, p as int)) =~= type_list_at(b@, p as int));
    loop
        invariant
            b@ == src.spec_bytes(),
            p <= at <= b@.len(),
            continued(types_view(found@), type_list_at(b@, at as int)) == type_list_at(
                b@,
                p as int,
            ),
        decreases b@.len() - at,
    {
        match identifier_ext(src, at) {
            None => {
                return None;
            },
            Some((t, e)) => {
                let c = skip_space(b, e);
                let ghost before = types_view(found@);
                found.push(t);
                proof {
                    lemma_space_end(b@, e as int);
                    assert(types_view(found@) =~= before + seq![t@]);
                }
                if c < b.len() && b[c] == COMMA {
                    let q = skip_space(b, c + 1);
                    proof {
                        match type_list_at(b@, q as int) {
                            Some((rest, end)) => {
                                assert(before + (seq![t@] + rest) =~= (before + seq![t@]) + rest);
                            },
                            None => {},
                        }
                    }
                    at = q;
                } else {
                    proof {
                        assert(before + seq![t@] =~= types_view(found@));
                    }
                    return Some((found, c));
                }
            },
        }
    }
}

} // verus!
