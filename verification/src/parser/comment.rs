//! Comments: from `//` to the end of the line, and from `/*` to the first `*/`.
//!
//! Block comments do not nest: the first `*/` ends the comment, whatever was
//! opened in between.

use vstd::prelude::*;
use vstd::string::StringSliceAdditionalSpecFns;
use crate::dart::{Comment, CommentModel};
use crate::parser::common::{
    find_byte, find_pair, is_cut, lemma_find_byte, lemma_find_pair, seek_byte, seek_pair, span,
    LINE_FEED, SLASH, STAR,
};

verus! {

/// The position behind the first line feed at or after `p`, or the end of the
/// input where none follows.
pub open spec fn line_end(s: Seq<u8>, p: int) -> int {
    let n = find_byte(s, p, LINE_FEED);
    if n < s.len() {
        n + 1
    } else {
        n
    }
}

/// The comment that begins at `p`, and its end.
///
/// A line comment runs to the end of its line and takes the line feed with it;
/// at the end of the input it needs none. A block comment needs its `*/`: where
/// none follows, no comment begins at `p`.
pub open spec fn comment_at(s: Seq<u8>, p: int) -> Option<(CommentModel, int)> {
    if 0 <= p && p + 1 < s.len() && s[p] == SLASH && s[p + 1] == SLASH {
        let e = line_end(s, p + 2);
        Some((CommentModel::SingleLine(s.subrange(p, e)), e))
    } else if 0 <= p && p + 1 < s.len() && s[p] == SLASH && s[p + 1] == STAR {
        let c = find_pair(s, p + 2, STAR, SLASH);
        if c < s.len() {
            Some((CommentModel::MultiLine(s.subrange(p, c + 2)), c + 2))
        } else {
            None
        }
    } else {
        None
    }
}

/// A line comment begins with `//` and holds one line: it ends with the first
/// line feed behind the `//`, or with the input where no line feed follows.
pub proof fn lemma_line_comment(s: Seq<u8>, p: int)
    ensures
        comment_at(s, p) matches Some((CommentModel::SingleLine(t), e)) ==> {
            &&& p + 2 <= e <= s.len()
            &&& t == s.subrange(p, e)
            &&& t[0] == SLASH
            &&& t[1] == SLASH
            &&& forall|i: int| 2 <= i < t.len() - 1 ==> #[trigger] t[i] != LINE_FEED
            &&& (t.len() > 2 && t.last() == LINE_FEED) || (e == s.len() && (t.len() == 2
                || t.last() != LINE_FEED))
        },
{
    if 0 <= p && p + 1 < s.len() {
        lemma_find_byte(s, p + 2, LINE_FEED);
    }
}

/// A block comment begins with `/*` and ends with the first `*/` behind it:
/// there is no other `*/` inside.
pub proof fn lemma_block_comment(s: Seq<u8>, p: int)
    ensures
        comment_at(s, p) matches Some((CommentModel::MultiLine(t), e)) ==> {
            &&& p + 4 <= e <= s.len()
            &&& t == s.subrange(p, e)
            &&& t[0] == SLASH
            &&& t[1] == STAR
            &&& t[t.len() - 2] == STAR
            &&& t[t.len() - 1] == SLASH
            &&& forall|i: int|
                2 <= i < t.len() - 2 ==> !(#[trigger] t[i] == STAR && t[i + 1] == SLASH)
        },
{
    if 0 <= p && p + 1 < s.len() {
        lemma_find_pair(s, p + 2, STAR, SLASH);
    }
}

/// Matches the comment that begins at `at`.
pub fn comment<'s>(src: &'s str, at: usize) -> (r: Option<(Comment<'s>, usize)>)
    ensures
        r matches Some((_, e)) ==> at < e <= src.spec_bytes().len() && is_cut(
            src.spec_bytes(),
            e as int,
        ),
        match r {
            Some((c, e)) => comment_at(src.spec_bytes(), at as int) == Some((c@, e as int)),
            None => comment_at(src.spec_bytes(), at as int) is None,
        },
{
    let b = src.as_bytes();
    if at >= b.len() || b.len() - at < 2 || b[at] != SLASH {
        return None;
    }
    if b[at + 1] == SLASH {
        let n = seek_byte(b, at + 2, LINE_FEED);
        let e = if n < b.len() {
            n + 1
        } else {
            n
        };
        Some((Comment::SingleLine(span(src, at, e)), e))
    } else if b[at + 1] == STAR {
        let c = seek_pair(b, at + 2, STAR, SLASH);
        if c < b.len() {
            Some((Comment::MultiLine(span(src, at, c + 2)), c + 2))
        } else {
            None
        }
    } else {
        None
    }
}

} // verus!
