//! Byte classes, maximal runs, keywords and delimiters, and the cutting of spans
//! out of the input.
//!
//! The grammar is stated over the bytes of the input's UTF-8 encoding. Every
//! token of the grammar is ASCII; bytes of multi-byte characters occur only inside
//! spans that are taken over as they are.

use vstd::prelude::*;
use vstd::string::StringSliceAdditionalSpecFns;
use vstd::utf8::*;

verus! {

/// The space character.
pub const SPACE: u8 = 0x20;
/// The horizontal tab.
pub const TAB: u8 = 0x09;
/// The line feed, which ends a line.
pub const LINE_FEED: u8 = 0x0a;
/// The carriage return.
pub const CARRIAGE_RETURN: u8 = 0x0d;
/// `'`
pub const QUOTE: u8 = 0x27;
/// `"`
pub const DOUBLE_QUOTE: u8 = 0x22;
/// `$`
pub const DOLLAR: u8 = 0x24;
/// `(`
pub const OPEN_PAREN: u8 = 0x28;
/// `)`
pub const CLOSE_PAREN: u8 = 0x29;
/// `*`
pub const STAR: u8 = 0x2a;
/// `,`
pub const COMMA: u8 = 0x2c;
/// `.`
pub const DOT: u8 = 0x2e;
/// `/`
pub const SLASH: u8 = 0x2f;
/// `;`
pub const SEMICOLON: u8 = 0x3b;
/// `<`
pub const LESS: u8 = 0x3c;
/// `=`
pub const EQUALS: u8 = 0x3d;
/// `>`
pub const GREATER: u8 = 0x3e;
/// `?`
pub const QUESTION: u8 = 0x3f;
/// `_`
pub const UNDERSCORE: u8 = 0x5f;
/// `{`
pub const OPEN_BRACE: u8 = 0x7b;
/// `}`
pub const CLOSE_BRACE: u8 = 0x7d;

/// A space, a tab, a line feed or a carriage return.
pub open spec fn is_space(b: u8) -> bool {
    b == SPACE || b == TAB || b == LINE_FEED || b == CARRIAGE_RETURN
}

/// A byte that may begin an identifier: an ASCII letter (`a` to `z` is 0x61 to
/// 0x7a, `A` to `Z` is 0x41 to 0x5a), `_` or `$`.
pub open spec fn is_ident_start(b: u8) -> bool {
    (0x61 <= b <= 0x7a) || (0x41 <= b <= 0x5a) || b == UNDERSCORE || b == DOLLAR
}

/// A byte that may continue an identifier: one that may begin it, or a digit
/// (`0` to `9` is 0x30 to 0x39).
pub open spec fn is_ident_part(b: u8) -> bool {
    is_ident_start(b) || (0x30 <= b <= 0x39)
}

/// The end of the longest run of whitespace that begins at `p`.
pub open spec fn space_end(s: Seq<u8>, p: int) -> int
    decreases s.len() - p,
{
    if 0 <= p < s.len() && is_space(s[p]) {
        space_end(s, p + 1)
    } else {
        p
    }
}

/// The end of the longest run of identifier bytes that begins at `p`.
pub open spec fn ident_end(s: Seq<u8>, p: int) -> int
    decreases s.len() - p,
{
    if 0 <= p < s.len() && is_ident_part(s[p]) {
        ident_end(s, p + 1)
    } else {
        p
    }
}

/// The first position at or after `p` that holds the byte `b`, or the length of
/// `s` where no such position exists.
pub open spec fn find_byte(s: Seq<u8>, p: int, b: u8) -> int
    decreases s.len() - p,
{
    if 0 <= p < s.len() && s[p] != b {
        find_byte(s, p + 1, b)
    } else {
        p
    }
}

/// The first position at or after `p` that holds `a` directly followed by `b`,
/// or the length of `s` where the pair does not occur.
pub open spec fn find_pair(s: Seq<u8>, p: int, a: u8, b: u8) -> int
    decreases s.len() - p,
{
    if 0 <= p < s.len() && !(s[p] == a && p + 1 < s.len() && s[p + 1] == b) {
        find_pair(s, p + 1, a, b)
    } else {
        p
    }
}

/// The position just behind the closing delimiter that brings the nesting depth
/// back to zero, counted from `p` with `nesting` delimiters open. `None` where the
/// input ends first.
pub open spec fn close_at(s: Seq<u8>, p: int, nesting: nat, open: u8, close: u8) -> Option<int>
    decreases s.len() - p,
{
    if 0 <= p < s.len() {
        if s[p] == open {
            close_at(s, p + 1, nesting + 1, open, close)
        } else if s[p] == close {
            if nesting <= 1 {
                Some(p + 1)
            } else {
                close_at(s, p + 1, (nesting - 1) as nat, open, close)
            }
        } else {
            close_at(s, p + 1, nesting, open, close)
        }
    } else {
        None
    }
}

/// The nesting depth that the bytes from `from` up to `to` add: how many of
/// them are `open`, less how many are `close`.
pub open spec fn depth(s: Seq<u8>, from: int, to: int, open: u8, close: u8) -> int
    decreases to - from,
{
    if from >= to {
        0
    } else {
        (if s[from] == open {
            1int
        } else if s[from] == close {
            -1int
        } else {
            0int
        }) + depth(s, from + 1, to, open, close)
    }
}

/// Whether the identifier bytes that begin at `p` spell exactly `word`.
///
/// The run is taken whole, so `finally` does not hold the keyword `final`.
pub open spec fn keyword_at(s: Seq<u8>, p: int, word: Seq<u8>) -> bool {
    p < ident_end(s, p) && s.subrange(p, ident_end(s, p)) == word
}

/// The end of the identifier that begins at `p`, where one begins there.
pub open spec fn ident_at(s: Seq<u8>, p: int) -> Option<int> {
    if 0 <= p < s.len() && is_ident_start(s[p]) {
        Some(ident_end(s, p))
    } else {
        None
    }
}

/// A position at which the input may be cut without splitting a character: an
/// end of the input, or a position next to an ASCII byte.
pub open spec fn is_cut(s: Seq<u8>, i: int) -> bool {
    0 <= i <= s.len() && (i == 0 || i == s.len() || s[i - 1] < 0x80 || s[i] < 0x80)
}

/// A run of whitespace lies within the input, holds whitespace only, stops at the
/// first byte that is none, and ends on a cut where it begins on one.
pub proof fn lemma_space_end(s: Seq<u8>, p: int)
    requires
        0 <= p <= s.len(),
    ensures
        p <= space_end(s, p) <= s.len(),
        forall|i: int| p <= i < space_end(s, p) ==> is_space(#[trigger] s[i]),
        space_end(s, p) < s.len() ==> !is_space(s[space_end(s, p)]),
        is_cut(s, p) ==> is_cut(s, space_end(s, p)),
    decreases s.len() - p,
{
    if p < s.len() && is_space(s[p]) {
        lemma_space_end(s, p + 1);
    }
}

/// A run of identifier bytes lies within the input, holds identifier bytes only,
/// stops at the first byte that is none, and ends on a cut where it begins on one.
pub proof fn lemma_ident_end(s: Seq<u8>, p: int)
    requires
        0 <= p <= s.len(),
    ensures
        p <= ident_end(s, p) <= s.len(),
        forall|i: int| p <= i < ident_end(s, p) ==> is_ident_part(#[trigger] s[i]),
        ident_end(s, p) < s.len() ==> !is_ident_part(s[ident_end(s, p)]),
        is_cut(s, p) ==> is_cut(s, ident_end(s, p)),
        p < s.len() && is_ident_part(s[p]) ==> p < ident_end(s, p),
    decreases s.len() - p,
{
    if p < s.len() && is_ident_part(s[p]) {
        lemma_ident_end(s, p + 1);
    }
}

/// The search for a byte ends within the input, on the first occurrence.
pub proof fn lemma_find_byte(s: Seq<u8>, p: int, b: u8)
    requires
        0 <= p <= s.len(),
    ensures
        p <= find_byte(s, p, b) <= s.len(),
        forall|i: int| p <= i < find_byte(s, p, b) ==> #[trigger] s[i] != b,
        find_byte(s, p, b) < s.len() ==> s[find_byte(s, p, b)] == b,
    decreases s.len() - p,
{
    if p < s.len() && s[p] != b {
        lemma_find_byte(s, p + 1, b);
    }
}

/// The search for a pair of bytes ends within the input, on the first occurrence.
pub proof fn lemma_find_pair(s: Seq<u8>, p: int, a: u8, b: u8)
    requires
        0 <= p <= s.len(),
    ensures
        p <= find_pair(s, p, a, b) <= s.len(),
        forall|i: int|
            p <= i < find_pair(s, p, a, b) && i + 1 < s.len() ==> !(#[trigger] s[i] == a && s[i + 1]
                == b),
        find_pair(s, p, a, b) < s.len() ==> find_pair(s, p, a, b) + 1 < s.len() && s[find_pair(
            s,
            p,
            a,
            b,
        )] == a && s[find_pair(s, p, a, b) + 1] == b,
    decreases s.len() - p,
{
    if p < s.len() && !(s[p] == a && p + 1 < s.len() && s[p + 1] == b) {
        lemma_find_pair(s, p + 1, a, b);
    }
}

/// The closing delimiter that is found is the matching one: it lies within the
/// input, the text up to it takes the depth down by what was open, and no
/// shorter text from the start does.
pub proof fn lemma_close_at(s: Seq<u8>, p: int, d: nat, open: u8, close: u8)
    requires
        0 <= p <= s.len(),
        open != close,
        d >= 1,
    ensures
        close_at(s, p, d, open, close) matches Some(e) ==> {
            &&& p < e <= s.len()
            &&& s[e - 1] == close
            &&& depth(s, p, e, open, close) == -d
            &&& forall|n: int| p <= n < e ==> #[trigger] depth(s, p, n, open, close) > -d
        },
    decreases s.len() - p,
{
    if p < s.len() {
        if s[p] == open {
            lemma_close_at(s, p + 1, d + 1, open, close);
        } else if s[p] == close {
            if d > 1 {
                lemma_close_at(s, p + 1, (d - 1) as nat, open, close);
            } else {
                assert(depth(s, p + 1, p + 1, open, close) == 0);
            }
        } else {
            lemma_close_at(s, p + 1, d, open, close);
        }
        match close_at(s, p, d, open, close) {
            Some(e) => {
                assert forall|n: int| p <= n < e implies #[trigger] depth(s, p, n, open, close)
                    > -d by {
                    if n > p {
                        assert(depth(s, p + 1, n, open, close) > -d - 1 || s[p] != open);
                    }
                }
            },
            None => {},
        }
    }
}

/// The depth that a stretch of a span adds is the depth that the same stretch of
/// the input adds.
pub proof fn lemma_depth_of_span(s: Seq<u8>, a: int, b: int, i: int, j: int, open: u8, close: u8)
    requires
        0 <= a <= b <= s.len(),
        0 <= i <= j <= b - a,
    ensures
        depth(s.subrange(a, b), i, j, open, close) == depth(s, a + i, a + j, open, close),
    decreases j - i,
{
    if i < j {
        lemma_depth_of_span(s, a, b, i + 1, j, open, close);
    }
}

/// In well-formed UTF-8 every cut is a character boundary.
pub proof fn lemma_cut_is_boundary(s: Seq<u8>, i: int)
    requires
        valid_utf8(s),
        is_cut(s, i),
    ensures
        is_char_boundary(s, i),
{
    if i == 0 || i == s.len() {
        is_char_boundary_start_end_of_seq(s);
    } else if s[i] < 0x80 {
        assert(is_leading_byte_width_1(s[i]));
        is_char_boundary_iff_is_leading_byte(s, i);
    } else {
        assert(is_leading_byte_width_1(s[i - 1]));
        is_char_boundary_iff_is_leading_byte(s, i - 1);
        valid_utf8_split(s, i - 1);
        let t = s.subrange(i - 1, s.len() as int);
        assert(t[0] == s[i - 1]);
        assert(valid_utf8(t));
        assert(length_of_first_scalar(t) == 1);
        let u = pop_first_scalar(t);
        assert(u =~= s.subrange(i, s.len() as int));
        assert(valid_utf8(u));
        assert(u[0] == s[i]);
        assert(valid_first_scalar(u));
        is_char_boundary_iff_is_leading_byte(s, i);
    }
}

/// Tests a byte for whitespace.
pub(crate) fn space_byte(b: u8) -> (r: bool)
    ensures
        r == is_space(b),
{
    b == SPACE || b == TAB || b == LINE_FEED || b == CARRIAGE_RETURN
}

/// Tests a byte for one that may begin an identifier.
pub(crate) fn ident_start_byte(b: u8) -> (r: bool)
    ensures
        r == is_ident_start(b),
{
    (0x61 <= b && b <= 0x7a) || (0x41 <= b && b <= 0x5a) || b == UNDERSCORE || b == DOLLAR
}

/// Tests a byte for one that may continue an identifier.
pub(crate) fn ident_part_byte(b: u8) -> (r: bool)
    ensures
        r == is_ident_part(b),
{
    ident_start_byte(b) || (0x30 <= b && b <= 0x39)
}

/// Walks over the whitespace that begins at `p`.
pub(crate) fn skip_space(b: &[u8], p: usize) -> (e: usize)
    requires
        p <= b@.len(),
    ensures
        e == space_end(b@, p as int),
        p <= e <= b@.len(),
{
    let mut e: usize = p;
    while e < b.len() && space_byte(b[e])
        invariant
            p <= e <= b@.len(),
            space_end(b@, p as int) == space_end(b@, e as int),
        decreases b@.len() - e,
    {
        e += 1;
    }
    e
}

/// Walks over the identifier bytes that begin at `p`.
pub(crate) fn skip_ident(b: &[u8], p: usize) -> (e: usize)
    requires
        p <= b@.len(),
    ensures
        e == ident_end(b@, p as int),
        p <= e <= b@.len(),
{
    let mut e: usize = p;
    while e < b.len() && ident_part_byte(b[e])
        invariant
            p <= e <= b@.len(),
            ident_end(b@, p as int) == ident_end(b@, e as int),
        decreases b@.len() - e,
    {
        e += 1;
    }
    e
}

/// Finds the end of the identifier that begins at `p`, where one begins there.
pub(crate) fn scan_ident(b: &[u8], p: usize) -> (r: Option<usize>)
    requires
        p <= b@.len(),
    ensures
        r matches Some(e) ==> p < e <= b@.len() && b@[p as int] < 0x80 && b@[e - 1] < 0x80,
        match r {
            Some(e) => ident_at(b@, p as int) == Some(e as int),
            None => ident_at(b@, p as int) is None,
        },
{
    if p < b.len() && ident_start_byte(b[p]) {
        proof {
            lemma_ident_end(b@, p as int);
        }
        Some(skip_ident(b, p))
    } else {
        None
    }
}

/// Searches for the byte `x` from `p` on.
pub(crate) fn seek_byte(b: &[u8], p: usize, x: u8) -> (e: usize)
    requires
        p <= b@.len(),
    ensures
        e == find_byte(b@, p as int, x),
        p <= e <= b@.len(),
        e < b@.len() ==> b@[e as int] == x,
{
    let mut e: usize = p;
    while e < b.len() && b[e] != x
        invariant
            p <= e <= b@.len(),
            find_byte(b@, p as int, x) == find_byte(b@, e as int, x),
        decreases b@.len() - e,
    {
        e += 1;
    }
    e
}

/// Searches for the byte `x` directly followed by `y` from `p` on.
pub(crate) fn seek_pair(b: &[u8], p: usize, x: u8, y: u8) -> (e: usize)
    requires
        p <= b@.len(),
    ensures
        e == find_pair(b@, p as int, x, y),
        p <= e <= b@.len(),
        e < b@.len() ==> e + 1 < b@.len() && b@[e as int] == x && b@[e + 1] == y,
{
    let mut e: usize = p;
    while e < b.len() && !(b[e] == x && e + 1 < b.len() && b[e + 1] == y)
        invariant
            p <= e <= b@.len(),
            find_pair(b@, p as int, x, y) == find_pair(b@, e as int, x, y),
        decreases b@.len() - e,
    {
        e += 1;
    }
    e
}

/// Searches from `p` for the closing delimiter that matches one already open.
pub(crate) fn seek_close(b: &[u8], p: usize, open: u8, close: u8) -> (r: Option<usize>)
    requires
        p <= b@.len(),
        open != close,
    ensures
        r matches Some(e) ==> p < e <= b@.len() && b@[e - 1] == close,
        match r {
            Some(e) => close_at(b@, p as int, 1, open, close) == Some(e as int),
            None => close_at(b@, p as int, 1, open, close) is None,
        },
{
    let mut e: usize = p;
    let mut nested: usize = 0;
    while e < b.len()
        invariant
            p <= e <= b@.len(),
            nested <= e - p,
            close_at(b@, p as int, 1, open, close) == close_at(
                b@,
                e as int,
                (nested + 1) as nat,
                open,
                close,
            ),
        decreases b@.len() - e,
    {
        let x = b[e];
        e += 1;
        if x == open {
            nested += 1;
        } else if x == close {
            if nested == 0 {
                return Some(e);
            }
            nested -= 1;
        }
    }
    None
}

/// Tests whether the identifier bytes that begin at `p` spell exactly `word`.
pub(crate) fn at_keyword(b: &[u8], p: usize, word: &str) -> (r: bool)
    requires
        p <= b@.len(),
    ensures
        r == keyword_at(b@, p as int, word.spec_bytes()),
{
    let e = skip_ident(b, p);
    let w = word.as_bytes();
    if e == p || e - p != w.len() {
        assert(b@.subrange(p as int, e as int).len() == e - p);
        return false;
    }
    let mut i: usize = 0;
    while i < w.len()
        invariant
            p < e <= b@.len(),
            e == ident_end(b@, p as int),
            w@ == word.spec_bytes(),
            e - p == w@.len(),
            0 <= i <= w@.len(),
            forall|j: int| 0 <= j < i ==> b@[p + j] == w@[j],
        decreases w@.len() - i,
    {
        if b[p + i] != w[i] {
            assert(b@.subrange(p as int, e as int)[i as int] != w@[i as int]);
            return false;
        }
        i += 1;
    }
    assert(b@.subrange(p as int, e as int) =~= w@);
    true
}

/// Cuts the text between two character boundaries out of the input.
pub(crate) fn slice<'s>(src: &'s str, from: usize, to: usize) -> (r: &'s str)
    requires
        from <= to,
        is_char_boundary(src.spec_bytes(), from as int),
        is_char_boundary(src.spec_bytes(), to as int),
    ensures
        r.spec_bytes() == src.spec_bytes().subrange(from as int, to as int),
{
    broadcast use group_utf8_lib;

    let (head, _) = src.split_at(to);
    proof {
        if from < to {
            is_char_boundary_iff_not_is_continuation_byte(src.spec_bytes(), from as int);
            is_char_boundary_iff_not_is_continuation_byte(head.spec_bytes(), from as int);
        } else {
            is_char_boundary_start_end_of_seq(head.spec_bytes());
        }
    }
    let (_, r) = head.split_at(from);
    assert(r.spec_bytes() =~= src.spec_bytes().subrange(from as int, to as int));
    r
}

/// Cuts the span from `from` to `to` out of the input.
pub(crate) fn span<'s>(src: &'s str, from: usize, to: usize) -> (r: &'s str)
    requires
        from <= to <= src.spec_bytes().len(),
        is_cut(src.spec_bytes(), from as int),
        is_cut(src.spec_bytes(), to as int),
    ensures
        r.spec_bytes() == src.spec_bytes().subrange(from as int, to as int),
{
    broadcast use group_utf8_lib;

    proof {
        lemma_cut_is_boundary(src.spec_bytes(), from as int);
        lemma_cut_is_boundary(src.spec_bytes(), to as int);
    }
    slice(src, from, to)
}

} // verus!
