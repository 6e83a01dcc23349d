//! Function declarations, kept as text: an optional return type, a name, a
//! parameter list between parentheses, an optional `async`, `async*` or `sync*`,
//! and a body that is a block or `=>` with an expression and a `;`.

use vstd::prelude::*;
use vstd::string::StringSliceAdditionalSpecFns;
use crate::parser::class::{block_at, lemma_block_balanced, scan_block};
use crate::parser::common::{
    at_keyword, close_at, find_byte, ident_end, keyword_at, lemma_close_at, lemma_find_byte,
    lemma_ident_end, lemma_space_end, seek_byte, seek_close, skip_ident,
    skip_space, space_end, span, CLOSE_PAREN, EQUALS, GREATER, OPEN_PAREN, SEMICOLON, STAR,
};
use crate::parser::identifier::{identifier_ext, lemma_type_at, type_at};

verus! {

/// The end of what names a function, from `p` on: one type reference, which is
/// the name, or two with optional whitespace between them, which are the
/// return type and the name.
pub open spec fn func_name_at(s: Seq<u8>, p: int) -> Option<int> {
    match type_at(s, p) {
        None => None,
        Some((_, e)) => match type_at(s, space_end(s, e)) {
            Some((_, e2)) => Some(e2),
            None => Some(e),
        },
    }
}

/// The end of the parameter list behind `p`: whitespace, then the text from a
/// `(` to the `)` that closes it. Parentheses are counted and nothing else is
/// looked at.
pub open spec fn params_at(s: Seq<u8>, p: int) -> Option<int> {
    let o = space_end(s, p);
    if 0 <= o < s.len() && s[o] == OPEN_PAREN {
        close_at(s, o + 1, 1, OPEN_PAREN, CLOSE_PAREN)
    } else {
        None
    }
}

/// The end of the marker behind `p`: whitespace, `async` or `sync`, and a `*`
/// directly behind it. Where neither keyword follows, nothing is consumed.
pub open spec fn marker_end(s: Seq<u8>, p: int) -> int {
    let k = space_end(s, p);
    if keyword_at(s, k, "async".spec_bytes()) || keyword_at(s, k, "sync".spec_bytes()) {
        let e = ident_end(s, k);
        if 0 <= e < s.len() && s[e] == STAR {
            e + 1
        } else {
            e
        }
    } else {
        p
    }
}

/// The end of the function body behind `p`: whitespace, then a block, or `=>`
/// and everything up to the first `;`, that `;` included.
pub open spec fn func_body_at(s: Seq<u8>, p: int) -> Option<int> {
    let o = space_end(s, p);
    if 0 <= o && o + 1 < s.len() && s[o] == EQUALS && s[o + 1] == GREATER {
        let z = find_byte(s, o + 2, SEMICOLON);
        if z < s.len() {
            Some(z + 1)
        } else {
            None
        }
    } else {
        match block_at(s, p) {
            Some((_, e)) => Some(e),
            None => None,
        }
    }
}

/// The function declaration that begins at `p`: its text and its end.
pub open spec fn func_at(s: Seq<u8>, p: int) -> Option<(Seq<u8>, int)> {
    match func_name_at(s, p) {
        None => None,
        Some(n) => match params_at(s, n) {
            None => None,
            Some(c) => match func_body_at(s, marker_end(s, c)) {
                None => None,
                Some(e) => Some((s.subrange(p, e), e)),
            },
        },
    }
}

/// A function declaration is not empty and lies within the input.
pub proof fn lemma_func_at(s: Seq<u8>, p: int)
    ensures
        func_at(s, p) matches Some((_, e)) ==> 0 <= p < e <= s.len(),
{
    lemma_type_at(s, p);
    match type_at(s, p) {
        Some((_, e1)) => {
            lemma_space_end(s, e1);
            lemma_type_at(s, space_end(s, e1));
            let n = func_name_at(s, p)->Some_0;
            lemma_space_end(s, n);
            let o = space_end(s, n);
            if o < s.len() {
                lemma_close_at(s, o + 1, 1, OPEN_PAREN, CLOSE_PAREN);
            }
            match params_at(s, n) {
                Some(c) => {
                    lemma_space_end(s, c);
                    let k = space_end(s, c);
                    lemma_ident_end(s, k);
                    let m = marker_end(s, c);
                    lemma_space_end(s, m);
                    lemma_block_balanced(s, m);
                    let b = space_end(s, m);
                    if b + 1 < s.len() {
                        lemma_find_byte(s, b + 2, SEMICOLON);
                    }
                },
                None => {},
            }
        },
        None => {},
    }
}

/// Finds the end of the marker behind `p`.
pub(crate) fn scan_marker(b: &[u8], p: usize) -> (e: usize)
    requires
        p <= b@.len(),
    ensures
        e == marker_end(b@, p as int),
        p <= e <= b@.len(),
{
    let k = skip_space(b, p);
    if at_keyword(b, k, "async") || at_keyword(b, k, "sync") {
        let e = skip_ident(b, k);
        if e < b.len() && b[e] == STAR {
            e + 1
        } else {
            e
        }
    } else {
        p
    }
}

/// Finds the end of the function body behind `p`.
pub(crate) fn scan_func_body<'s>(src: &'s str, p: usize) -> (r: Option<usize>)
    requires
        p <= src.spec_bytes().len(),
    ensures
        r matches Some(e) ==> p < e <= src.spec_bytes().len() && src.spec_bytes()[e - 1] < 0x80,
        match r {
            Some(e) => func_body_at(src.spec_bytes(), p as int) == Some(e as int),
            None => func_body_at(src.spec_bytes(), p as int) is None,
        },
{
    let b = src.as_bytes();
    let o = skip_space(b, p);
    if o < b.len() && b.len() - o >= 2 && b[o] == EQUALS && b[o + 1] == GREATER {
        let z = seek_byte(b, o + 2, SEMICOLON);
        if z < b.len() {
            Some(z + 1)
        } else {
            None
        }
    } else {
        match scan_block(src, p) {
            Some((_, e)) => Some(e),
            None => None,
        }
    }
}

/// Matches the function declaration that begins at `at`.
pub fn func<'s>(src: &'s str, at: usize) -> (r: Option<(&'s str, usize)>)
    ensures
        r matches Some((_, e)) ==> at < e <= src.spec_bytes().len() && src.spec_bytes()[e - 1]
            < 0x80,
        match r {
            Some((t, e)) => func_at(src.spec_bytes(), at as int) == Some(
                (t.spec_bytes(), e as int),
            ),
            None => func_at(src.spec_bytes(), at as int) is None,
        },
{
    let b = src.as_bytes();
    let e1 = match identifier_ext(src, at) {
        Some((_, e)) => e,
        None => {
            return None;
        },
    };
    let n = match identifier_ext(src, skip_space(b, e1)) {
        Some((_, e2)) => e2,
        None => e1,
    };
    let o = skip_space(b, n);
    if !(o < b.len() && b[o] == OPEN_PAREN) {
        return None;
    }
    let c = match seek_close(b, o + 1, OPEN_PAREN, CLOSE_PAREN) {
        Some(c) => c,
        None => {
            return None;
        },
    };
    match scan_func_body(src, scan_marker(b, c)) {
        Some(e) => Some((span(src, at, e), e)),
        None => None,
    }
}

} // verus!
