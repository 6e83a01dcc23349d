//! Directives: `import`, `export` and `part`, each with a quoted target and a
//! closing `;`. An import or export may name an alias behind `as`, and may list
//! names behind `show` or `hide`.

use vstd::prelude::*;
use vstd::string::StringSliceAdditionalSpecFns;
use crate::dart::{
    texts_view, Directive, DirectiveModel, Export, Filter, FilterModel, Import, ImportModel,
};
use crate::parser::common::{
    at_keyword, find_byte, ident_at, ident_end, is_cut, is_ident_start, keyword_at,
    lemma_find_byte, lemma_ident_end, lemma_space_end, scan_ident, seek_byte,
    skip_ident, skip_space, space_end, span, COMMA, DOUBLE_QUOTE, QUOTE, SEMICOLON,
};
use crate::parser::outcome::{Outcome, Scan};

verus! {

/// The quoted text that begins at `p`: what stands between the quote at `p` and
/// the next quote of the same kind, and the position behind that quote. Nothing
/// inside the quotes is an escape.
pub open spec fn quoted_at(s: Seq<u8>, p: int) -> Option<(Seq<u8>, int)> {
    if 0 <= p < s.len() && (s[p] == QUOTE || s[p] == DOUBLE_QUOTE) {
        let q = find_byte(s, p + 1, s[p]);
        if q < s.len() {
            Some((s.subrange(p + 1, q), q + 1))
        } else {
            None
        }
    } else {
        None
    }
}

/// The alias clause behind `p`: whitespace, `as`, whitespace, an identifier.
/// Where `as` does not follow, there is no alias and nothing is consumed; where
/// `as` follows without an identifier, the clause is malformed.
pub open spec fn alias_at(s: Seq<u8>, p: int) -> Option<(Option<Seq<u8>>, int)> {
    let k = space_end(s, p);
    if keyword_at(s, k, "as".spec_bytes()) {
        let n = space_end(s, ident_end(s, k));
        match ident_at(s, n) {
            Some(e) => Some((Some(s.subrange(n, e)), e)),
            None => None,
        }
    } else {
        Some((None, p))
    }
}

/// The identifiers that begin at `p`, one or more, separated by commas, and the
/// position behind the last of them.
pub open spec fn names_at(s: Seq<u8>, p: int) -> Option<(Seq<Seq<u8>>, int)>
    decreases s.len() - p,
{
    match ident_at(s, p) {
        None => None,
        Some(e) => {
            let c = space_end(s, e);
            if 0 <= c < s.len() && s[c] == COMMA {
                let q = space_end(s, c + 1);
                if p < q <= s.len() {
                    match names_at(s, q) {
                        Some((rest, end)) => Some((seq![s.subrange(p, e)] + rest, end)),
                        None => None,
                    }
                } else {
                    None
                }
            } else {
                Some((seq![s.subrange(p, e)], e))
            }
        },
    }
}

/// The filter clause behind `p`: whitespace, `show` or `hide`, whitespace, a
/// list of names. Where neither keyword follows, there is no filter and nothing
/// is consumed; where one follows without a list, the clause is malformed.
pub open spec fn filter_at(s: Seq<u8>, p: int) -> Option<(Option<FilterModel>, int)> {
    let k = space_end(s, p);
    let show = keyword_at(s, k, "show".spec_bytes());
    if show || keyword_at(s, k, "hide".spec_bytes()) {
        match names_at(s, space_end(s, ident_end(s, k))) {
            Some((names, e)) => Some(
                (
                    Some(
                        if show {
                            FilterModel::Show(names)
                        } else {
                            FilterModel::Hide(names)
                        },
                    ),
                    e,
                ),
            ),
            None => None,
        }
    } else {
        Some((None, p))
    }
}

/// The position behind the `;` that closes a statement, with whitespace allowed
/// before it.
pub open spec fn semicolon_at(s: Seq<u8>, p: int) -> Option<int> {
    let z = space_end(s, p);
    if 0 <= z < s.len() && s[z] == SEMICOLON {
        Some(z + 1)
    } else {
        None
    }
}

/// What follows the keyword of an import or export, from `p` on: the target,
/// the optional alias, the optional filter and the `;`.
pub open spec fn import_at(s: Seq<u8>, p: int) -> Option<(ImportModel, int)> {
    match quoted_at(s, space_end(s, p)) {
        None => None,
        Some((target, t)) => match alias_at(s, t) {
            None => None,
            Some((alias, a)) => match filter_at(s, a) {
                None => None,
                Some((filter, f)) => match semicolon_at(s, f) {
                    None => None,
                    Some(e) => Some((ImportModel { target, alias, filter }, e)),
                },
            },
        },
    }
}

/// What follows the keyword `part`, from `p` on: the target and the `;`.
pub open spec fn part_at(s: Seq<u8>, p: int) -> Option<(Seq<u8>, int)> {
    match quoted_at(s, space_end(s, p)) {
        None => None,
        Some((target, t)) => match semicolon_at(s, t) {
            None => None,
            Some(e) => Some((target, e)),
        },
    }
}

/// The directive that begins at `p`.
///
/// One of the three keywords at `p` makes it a directive. If what follows does
/// not complete it, the directive fails: it is not taken for anything else.
pub open spec fn directive_at(s: Seq<u8>, p: int) -> Scan<DirectiveModel> {
    let k = ident_end(s, p);
    if keyword_at(s, p, "import".spec_bytes()) {
        match import_at(s, k) {
            Some((i, e)) => Scan::Match(DirectiveModel::Import(i), e),
            None => Scan::Fail,
        }
    } else if keyword_at(s, p, "export".spec_bytes()) {
        match import_at(s, k) {
            Some((i, e)) => Scan::Match(DirectiveModel::Export(i), e),
            None => Scan::Fail,
        }
    } else if keyword_at(s, p, "part".spec_bytes()) {
        match part_at(s, k) {
            Some((target, e)) => Scan::Match(DirectiveModel::Part(target), e),
            None => Scan::Fail,
        }
    } else {
        Scan::NoMatch
    }
}

/// A quoted text lies within the input and ends behind its closing quote.
pub proof fn lemma_quoted_at(s: Seq<u8>, p: int)
    ensures
        quoted_at(s, p) matches Some((_, e)) ==> 0 <= p < e <= s.len(),
{
    if 0 <= p < s.len() {
        lemma_find_byte(s, p + 1, s[p]);
    }
}

/// A list of names is not empty and lies within the input.
pub proof fn lemma_names_at(s: Seq<u8>, p: int)
    ensures
        names_at(s, p) matches Some((list, e)) ==> 0 <= p < e <= s.len() && list.len() >= 1,
    decreases s.len() - p,
{
    if 0 <= p < s.len() && is_ident_start(s[p]) {
        lemma_ident_end(s, p);
        let e = ident_end(s, p);
        lemma_space_end(s, e);
        let c = space_end(s, e);
        if c < s.len() && s[c] == COMMA {
            lemma_space_end(s, c + 1);
            lemma_names_at(s, space_end(s, c + 1));
        }
    }
}

/// An alias clause lies within the input.
pub proof fn lemma_alias_at(s: Seq<u8>, p: int)
    requires
        0 <= p <= s.len(),
    ensures
        alias_at(s, p) matches Some((_, e)) ==> p <= e <= s.len(),
{
    lemma_space_end(s, p);
    let k = space_end(s, p);
    lemma_ident_end(s, k);
    lemma_space_end(s, ident_end(s, k));
    let n = space_end(s, ident_end(s, k));
    lemma_ident_end(s, n);
}

/// A filter clause lies within the input.
pub proof fn lemma_filter_at(s: Seq<u8>, p: int)
    requires
        0 <= p <= s.len(),
    ensures
        filter_at(s, p) matches Some((_, e)) ==> p <= e <= s.len(),
{
    lemma_space_end(s, p);
    let k = space_end(s, p);
    lemma_ident_end(s, k);
    lemma_space_end(s, ident_end(s, k));
    lemma_names_at(s, space_end(s, ident_end(s, k)));
}

/// The `;` that closes a statement lies within the input.
pub proof fn lemma_semicolon_at(s: Seq<u8>, p: int)
    requires
        0 <= p <= s.len(),
    ensures
        semicolon_at(s, p) matches Some(e) ==> p < e <= s.len() && s[e - 1] == SEMICOLON,
{
    lemma_space_end(s, p);
}

/// A directive is not empty, lies within the input and ends with its `;`.
pub proof fn lemma_directive_at(s: Seq<u8>, p: int)
    ensures
        directive_at(s, p) matches Scan::Match(_, e) ==> 0 <= p < e <= s.len() && s[e - 1]
            == SEMICOLON,
{
    if 0 <= p <= s.len() {
        lemma_ident_end(s, p);
        let k = ident_end(s, p);
        lemma_space_end(s, k);
        lemma_quoted_at(s, space_end(s, k));
        match quoted_at(s, space_end(s, k)) {
            Some((_, t)) => {
                lemma_semicolon_at(s, t);
                lemma_alias_at(s, t);
                match alias_at(s, t) {
                    Some((_, a)) => {
                        lemma_filter_at(s, a);
                        match filter_at(s, a) {
                            Some((_, f)) => {
                                lemma_semicolon_at(s, f);
                            },
                            None => {},
                        }
                    },
                    None => {},
                }
            },
            None => {},
        }
    }
}

/// A list of names that is to be continued: the names found so far, put before
/// what the rest of the list yields.
pub open spec fn continued_names(
    found: Seq<Seq<u8>>,
    rest: Option<(Seq<Seq<u8>>, int)>,
) -> Option<(Seq<Seq<u8>>, int)> {
    match rest {
        Some((list, e)) => Some((found + list, e)),
        None => None,
    }
}

/// Matches the quoted text that begins at `p`.
pub(crate) fn scan_quoted<'s>(src: &'s str, p: usize) -> (r: Option<(&'s str, usize)>)
    requires
        p <= src.spec_bytes().len(),
    ensures
        r matches Some((_, e)) ==> p < e <= src.spec_bytes().len() && src.spec_bytes()[e - 1]
            < 0x80,
        match r {
            Some((t, e)) => quoted_at(src.spec_bytes(), p as int) == Some(
                (t.spec_bytes(), e as int),
            ),
            None => quoted_at(src.spec_bytes(), p as int) is None,
        },
{
    let b = src.as_bytes();
    if p < b.len() && (b[p] == QUOTE || b[p] == DOUBLE_QUOTE) {
        let q = seek_byte(b, p + 1, b[p]);
        if q < b.len() {
            Some((span(src, p + 1, q), q + 1))
        } else {
            None
        }
    } else {
        None
    }
}

/// Matches the alias clause behind `p`.
pub(crate) fn scan_alias<'s>(src: &'s str, p: usize) -> (r: Option<(Option<&'s str>, usize)>)
    requires
        p <= src.spec_bytes().len(),
        is_cut(src.spec_bytes(), p as int),
    ensures
        r matches Some((_, e)) ==> p <= e <= src.spec_bytes().len() && is_cut(
            src.spec_bytes(),
            e as int,
        ),
        match r {
            Some((Some(t), e)) => alias_at(src.spec_bytes(), p as int) == Some(
                (Some(t.spec_bytes()), e as int),
            ),
            Some((None, e)) => alias_at(src.spec_bytes(), p as int) == Some(
                (None::<Seq<u8>>, e as int),
            ),
            None => alias_at(src.spec_bytes(), p as int) is None,
        },
{
    let b = src.as_bytes();
    let k = skip_space(b, p);
    if at_keyword(b, k, "as") {
        let n = skip_space(b, skip_ident(b, k));
        match scan_ident(b, n) {
            Some(e) => Some((Some(span(src, n, e)), e)),
            None => None,
        }
    } else {
        Some((None, p))
    }
}

/// Matches the comma-separated names that begin at `p`.
pub(crate) fn scan_names<'s>(src: &'s str, p: usize) -> (r: Option<(Vec<&'s str>, usize)>)
    requires
        p <= src.spec_bytes().len(),
    ensures
        r matches Some((_, e)) ==> p < e <= src.spec_bytes().len() && src.spec_bytes()[e - 1]
            < 0x80,
        match r {
            Some((list, e)) => names_at(src.spec_bytes(), p as int) == Some(
                (texts_view(list@), e as int),
            ),
            None => names_at(src.spec_bytes(), p as int) is None,
        },
{
    let b = src.as_bytes();
    let mut found: Vec<&'s str> = Vec::new();
    let mut at: usize = p;
    assert(texts_view(found@) =~= Seq::empty());
    assert(continued_names(Seq::empty(), names_at(b@, p as int)) =~= names_at(b@, p as int));
    loop
        invariant
            b@ == src.spec_bytes(),
            p <= at <= b@.len(),
            continued_names(texts_view(found@), names_at(b@, at as int)) == names_at(
                b@,
                p as int,
            ),
        decreases b@.len() - at,
    {
        match scan_ident(b, at) {
            None => {
                return None;
            },
            Some(e) => {
                let c = skip_space(b, e);
                let ghost before = texts_view(found@);
                let name = span(src, at, e);
                found.push(name);
                proof {
                    assert(texts_view(found@) =~= before + seq![name.spec_bytes()]);
                }
                if c < b.len() && b[c] == COMMA {
                    let q = skip_space(b, c + 1);
                    proof {
                        match names_at(b@, q as int) {
                            Some((rest, end)) => {
                                assert(before + (seq![name.spec_bytes()] + rest) =~= (before
                                    + seq![name.spec_bytes()]) + rest);
                            },
                            None => {},
                        }
                    }
                    at = q;
                } else {
                    return Some((found, e));
                }
            },
        }
    }
}

/// Matches the filter clause behind `p`.
pub(crate) fn scan_filter<'s>(src: &'s str, p: usize) -> (r: Option<(Option<Filter<'s>>, usize)>)
    requires
        p <= src.spec_bytes().len(),
        is_cut(src.spec_bytes(), p as int),
    ensures
        r matches Some((_, e)) ==> p <= e <= src.spec_bytes().len() && is_cut(
            src.spec_bytes(),
            e as int,
        ),
        match r {
            Some((Some(f), e)) => filter_at(src.spec_bytes(), p as int) == Some(
                (Some(f@), e as int),
            ),
            Some((None, e)) => filter_at(src.spec_bytes(), p as int) == Some(
                (None::<FilterModel>, e as int),
            ),
            None => filter_at(src.spec_bytes(), p as int) is None,
        },
{
    let b = src.as_bytes();
    let k = skip_space(b, p);
    let show = at_keyword(b, k, "show");
    if show || at_keyword(b, k, "hide") {
        match scan_names(src, skip_space(b, skip_ident(b, k))) {
            Some((names, e)) => {
                let f = if show {
                    Filter::Show(names)
                } else {
                    Filter::Hide(names)
                };
                Some((Some(f), e))
            },
            None => None,
        }
    } else {
        Some((None, p))
    }
}

/// Matches the `;` that closes a statement, with whitespace before it.
pub(crate) fn scan_semicolon(b: &[u8], p: usize) -> (r: Option<usize>)
    requires
        p <= b@.len(),
    ensures
        r matches Some(e) ==> p < e <= b@.len() && b@[e - 1] < 0x80,
        match r {
            Some(e) => semicolon_at(b@, p as int) == Some(e as int),
            None => semicolon_at(b@, p as int) is None,
        },
{
    let z = skip_space(b, p);
    if z < b.len() && b[z] == SEMICOLON {
        Some(z + 1)
    } else {
        None
    }
}

/// Matches what follows the keyword of an import or export.
pub(crate) fn scan_import<'s>(src: &'s str, p: usize) -> (r: Option<(Import<'s>, usize)>)
    requires
        p <= src.spec_bytes().len(),
    ensures
        r matches Some((_, e)) ==> p < e <= src.spec_bytes().len() && src.spec_bytes()[e - 1]
            < 0x80,
        match r {
            Some((i, e)) => import_at(src.spec_bytes(), p as int) == Some((i@, e as int)),
            None => import_at(src.spec_bytes(), p as int) is None,
        },
{
    let b = src.as_bytes();
    let (target, t) = match scan_quoted(src, skip_space(b, p)) {
        Some(found) => found,
        None => {
            return None;
        },
    };
    let (alias, a) = match scan_alias(src, t) {
        Some(found) => found,
        None => {
            return None;
        },
    };
    let (filter, f) = match scan_filter(src, a) {
        Some(found) => found,
        None => {
            return None;
        },
    };
    match scan_semicolon(b, f) {
        Some(e) => Some((Import { target, alias, filter }, e)),
        None => None,
    }
}

/// Matches the directive that begins at `at`.
pub fn directive<'s>(src: &'s str, at: usize) -> (r: Outcome<Directive<'s>>)
    ensures
        r matches Outcome::Match(_, e) ==> at < e <= src.spec_bytes().len() && src.spec_bytes()[e
            - 1] < 0x80,
        match r {
            Outcome::Match(d, e) => directive_at(src.spec_bytes(), at as int) == Scan::Match(
                d@,
                e as int,
            ),
            Outcome::NoMatch => directive_at(src.spec_bytes(), at as int) is NoMatch,
            Outcome::Fail => directive_at(src.spec_bytes(), at as int) is Fail,
        },
{
    let b = src.as_bytes();
    if at > b.len() {
        return Outcome::NoMatch;
    }
    let k = skip_ident(b, at);
    if at_keyword(b, at, "import") {
        match scan_import(src, k) {
            Some((i, e)) => Outcome::Match(Directive::Import(i), e),
            None => Outcome::Fail,
        }
    } else if at_keyword(b, at, "export") {
        match scan_import(src, k) {
            Some((i, e)) => Outcome::Match(
                Directive::Export(Export { target: i.target, alias: i.alias, filter: i.filter }),
                e,
            ),
            None => Outcome::Fail,
        }
    } else if at_keyword(b, at, "part") {
        let (target, t) = match scan_quoted(src, skip_space(b, k)) {
            Some(found) => found,
            None => {
                return Outcome::Fail;
            },
        };
        match scan_semicolon(b, t) {
            Some(e) => Outcome::Match(Directive::Part(target), e),
            None => Outcome::Fail,
        }
    } else {
        Outcome::NoMatch
    }
}

} // verus!
