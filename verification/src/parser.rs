//! The top-level parser: it cuts the whole input into nodes.
//!
//! At each position the parser takes, in this order, a verbatim run, a
//! directive, a variable declaration, a function declaration, a class
//! declaration or a comment, and goes on behind what it took. A verbatim run is
//! whitespace, or text at which none of the other constructs begins; so every
//! position of the input yields a node or a failed construct, and a parse that
//! succeeds has consumed all the input.

pub mod class;
pub mod comment;
pub mod common;
pub mod directive;
pub mod func;
pub mod identifier;
pub mod outcome;
pub mod var;

use vstd::prelude::*;
use vstd::string::StringSliceAdditionalSpecFns;
use vstd::utf8::{encode_utf8_valid_utf8, group_utf8_lib, is_char_boundary};
use crate::dart::{nodes_view, texts_view, Dart, NodeModel, ParseError};
use crate::parser::class::{class, class_at, lemma_class_at, lemma_class_modifiers_at};
use crate::parser::comment::{comment, comment_at, lemma_block_comment, lemma_line_comment};
use crate::parser::common::{
    ident_part_byte, is_cut, is_ident_part, is_space, lemma_cut_is_boundary, lemma_ident_end,
    lemma_space_end, skip_space, slice, space_byte, space_end,
};
use crate::parser::directive::{directive, directive_at, lemma_directive_at};
use crate::parser::func::{func, func_at, lemma_func_at};
use crate::parser::outcome::{Outcome, Scan};
use crate::parser::var::{lemma_var_at, lemma_var_modifiers_at, var, var_at};

verus! {

/// The construct that begins at `p`: the first of directive, variable, function,
/// class and comment that begins there. A construct that fails is not passed
/// over for the next.
#[verifier::opaque]
pub open spec fn construct_at(s: Seq<u8>, p: int) -> Scan<NodeModel> {
    match directive_at(s, p) {
        Scan::Match(d, e) => Scan::Match(NodeModel::Directive(d), e),
        Scan::Fail => Scan::Fail,
        Scan::NoMatch => match var_at(s, p) {
            Scan::Match(v, e) => Scan::Match(NodeModel::Var(v), e),
            Scan::Fail => Scan::Fail,
            Scan::NoMatch => match func_at(s, p) {
                Some((t, e)) => Scan::Match(NodeModel::Func(t), e),
                None => match class_at(s, p) {
                    Scan::Match(c, e) => Scan::Match(NodeModel::Class(c), e),
                    Scan::Fail => Scan::Fail,
                    Scan::NoMatch => match comment_at(s, p) {
                        Some((c, e)) => Scan::Match(NodeModel::Comment(c), e),
                        None => Scan::NoMatch,
                    },
                },
            },
        },
    }
}

/// Whether `p` lies inside a word: an identifier byte stands at `p` and
/// another directly before it. No construct is looked for inside a word.
pub open spec fn inside_word(s: Seq<u8>, p: int) -> bool {
    0 < p < s.len() && is_ident_part(s[p - 1]) && is_ident_part(s[p])
}

/// The end of the text that belongs to no construct, from `p` on: it runs up to
/// the next whitespace, or the next position outside a word at which a
/// construct begins, or the end of the input.
pub open spec fn unknown_end(s: Seq<u8>, p: int) -> int
    decreases s.len() - p,
{
    if 0 <= p < s.len() && !is_space(s[p]) && (inside_word(s, p) || construct_at(s, p) is NoMatch) {
        unknown_end(s, p + 1)
    } else {
        p
    }
}

/// The verbatim run that begins at `p`: the longest run of whitespace; or else,
/// where no construct begins at `p`, the byte at `p` and the text behind it that
/// belongs to no construct.
pub open spec fn verbatim_at(s: Seq<u8>, p: int) -> Option<(Seq<u8>, int)> {
    if p < space_end(s, p) {
        Some((s.subrange(p, space_end(s, p)), space_end(s, p)))
    } else if 0 <= p < s.len() && construct_at(s, p) is NoMatch {
        Some((s.subrange(p, unknown_end(s, p + 1)), unknown_end(s, p + 1)))
    } else {
        None
    }
}

/// The node that begins at `p`: a verbatim run, or else a construct.
pub open spec fn node_at(s: Seq<u8>, p: int) -> Scan<NodeModel> {
    match verbatim_at(s, p) {
        Some((t, e)) => Scan::Match(NodeModel::Verbatim(t), e),
        None => construct_at(s, p),
    }
}

/// A node together with the text that it was made from.
pub ghost struct Piece {
    pub node: NodeModel,
    pub text: Seq<u8>,
}

/// The nodes of a list of pieces.
pub open spec fn nodes_of(pieces: Seq<Piece>) -> Seq<NodeModel> {
    Seq::new(pieces.len(), |i: int| pieces[i].node)
}

/// The texts of a list of pieces.
pub open spec fn texts_of(pieces: Seq<Piece>) -> Seq<Seq<u8>> {
    Seq::new(pieces.len(), |i: int| pieces[i].text)
}

/// The pieces into which the input is cut from `p` to its end, or the first
/// failure.
///
/// The parse goes from node to node. A construct that fails at a position makes
/// the parse fail there with a syntax error. A position that yields no node, or
/// none that goes forward within the input, makes it fail there as unconsumed.
pub open spec fn pieces_from(s: Seq<u8>, p: int) -> Result<Seq<Piece>, ParseError>
    decreases s.len() - p,
{
    if p < 0 || p >= s.len() {
        Ok(Seq::empty())
    } else {
        match node_at(s, p) {
            Scan::Match(node, e) => if p < e <= s.len() {
                match pieces_from(s, e) {
                    Ok(rest) => Ok(seq![Piece { node, text: s.subrange(p, e) }] + rest),
                    Err(err) => Err(err),
                }
            } else {
                Err(ParseError::Unconsumed { offset: p as usize })
            },
            Scan::Fail => Err(ParseError::Syntax { offset: p as usize }),
            Scan::NoMatch => Err(ParseError::Unconsumed { offset: p as usize }),
        }
    }
}

/// A parse that is to be continued: the pieces found so far, put before what
/// the rest of the input yields.
pub open spec fn continued_pieces(found: Seq<Piece>, rest: Result<Seq<Piece>, ParseError>) -> Result<
    Seq<Piece>,
    ParseError,
> {
    match rest {
        Ok(pieces) => Ok(found + pieces),
        Err(err) => Err(err),
    }
}

/// A walk through the input from `p` to its end: positions that begin with
/// `p` and end with the length of the input, each the start of a node that ends
/// at the next.
pub open spec fn walk_from(s: Seq<u8>, p: int, cuts: Seq<int>) -> bool {
    &&& cuts.len() >= 1
    &&& cuts[0] == p
    &&& cuts.last() == s.len()
    &&& forall|i: int|
        0 <= i < cuts.len() - 1 ==> cuts[i] < #[trigger] cuts[i + 1] <= s.len() && (node_at(
            s,
            cuts[i],
        ) matches Scan::Match(_, e) && e == cuts[i + 1])
}

/// The positions at which the nodes from `p` on begin, and the position at which
/// the parse ends.
pub open spec fn cuts_from(s: Seq<u8>, p: int) -> Seq<int>
    decreases s.len() - p,
{
    if p < 0 || p >= s.len() {
        seq![p]
    } else {
        match node_at(s, p) {
            Scan::Match(_, e) => if p < e <= s.len() {
                seq![p] + cuts_from(s, e)
            } else {
                seq![p]
            },
            _ => seq![p],
        }
    }
}

/// Nothing is lost: the texts of the pieces of a parse, put end to end, are
/// the input from where the parse began.
pub proof fn lemma_pieces_lossless(s: Seq<u8>, p: int)
    requires
        0 <= p <= s.len(),
    ensures
        pieces_from(s, p) matches Ok(pieces) ==> texts_of(pieces).flatten() == s.subrange(
            p,
            s.len() as int,
        ),
    decreases s.len() - p,
{
    match pieces_from(s, p) {
        Ok(pieces) => {
            if p >= s.len() {
                assert(texts_of(pieces) =~= Seq::<Seq<u8>>::empty());
                assert(texts_of(pieces).flatten() =~= s.subrange(p, s.len() as int));
            } else {
                let e = node_at(s, p)->Match_1;
                let rest = pieces_from(s, e)->Ok_0;
                lemma_pieces_lossless(s, e);
                assert(texts_of(pieces).first() == s.subrange(p, e));
                assert(texts_of(pieces).drop_first() =~= texts_of(rest));
                assert(texts_of(pieces).flatten() =~= s.subrange(p, e) + s.subrange(
                    e,
                    s.len() as int,
                ));
                assert(texts_of(pieces).flatten() =~= s.subrange(p, s.len() as int));
            }
        },
        Err(_) => {},
    }
}

/// A parse that succeeds from `p` walks the input from `p` to its end.
pub proof fn lemma_success_walks(s: Seq<u8>, p: int)
    requires
        0 <= p <= s.len(),
        pieces_from(s, p) is Ok,
    ensures
        walk_from(s, p, cuts_from(s, p)),
    decreases s.len() - p,
{
    if p < s.len() {
        let e = node_at(s, p)->Match_1;
        lemma_success_walks(s, e);
        let rest = cuts_from(s, e);
        let cuts = cuts_from(s, p);
        assert(cuts =~= seq![p] + rest);
        assert forall|i: int| 0 <= i < cuts.len() - 1 implies cuts[i] < #[trigger] cuts[i + 1]
            <= s.len() && (node_at(s, cuts[i]) matches Scan::Match(_, e2) && e2 == cuts[i + 1]) by {
            if i > 0 {
                assert(cuts[i] == rest[i - 1]);
                assert(cuts[i + 1] == rest[i - 1 + 1]);
            }
        }
    }
}

/// Where the input can be walked from `p` to its end, the parse from `p`
/// succeeds.
pub proof fn lemma_walk_succeeds(s: Seq<u8>, p: int, cuts: Seq<int>)
    requires
        0 <= p <= s.len(),
        walk_from(s, p, cuts),
    ensures
        pieces_from(s, p) is Ok,
    decreases cuts.len(),
{
    if p < s.len() {
        assert(cuts.len() >= 2);
        assert(cuts[0] < cuts[0int + 1]);
        let rest = cuts.drop_first();
        assert forall|i: int| 0 <= i < rest.len() - 1 implies rest[i] < #[trigger] rest[i + 1]
            <= s.len() && (node_at(s, rest[i]) matches Scan::Match(_, e2) && e2 == rest[i + 1]) by {
            assert(rest[i] == cuts[i + 1]);
            assert(rest[i + 1] == cuts[i + 1 + 1]);
        }
        lemma_walk_succeeds(s, cuts[1], rest);
    }
}

/// A parse succeeds exactly where the input can be walked from node to node,
/// from its first byte to its end.
pub proof fn lemma_success_iff_walk(s: Seq<u8>)
    ensures
        pieces_from(s, 0) is Ok <==> exists|cuts: Seq<int>| walk_from(s, 0, cuts),
{
    if pieces_from(s, 0) is Ok {
        lemma_success_walks(s, 0);
    }
    if exists|cuts: Seq<int>| walk_from(s, 0, cuts) {
        let cuts = choose|cuts: Seq<int>| walk_from(s, 0, cuts);
        lemma_walk_succeeds(s, 0, cuts);
    }
}

/// A construct begins on an ASCII byte of the input.
pub proof fn lemma_construct_start(s: Seq<u8>, p: int)
    ensures
        !(construct_at(s, p) is NoMatch) ==> 0 <= p < s.len() && s[p] < 0x80,
{
    reveal(construct_at);
    if 0 <= p <= s.len() {
        lemma_ident_end(s, p);
        lemma_var_modifiers_at(s, p);
        lemma_class_modifiers_at(s, p);
    }
}

/// A construct is not empty and lies within the input.
pub proof fn lemma_construct_moves(s: Seq<u8>, p: int)
    ensures
        construct_at(s, p) matches Scan::Match(_, e) ==> 0 <= p < e <= s.len(),
{
    reveal(construct_at);
    lemma_directive_at(s, p);
    lemma_var_at(s, p);
    lemma_func_at(s, p);
    lemma_class_at(s, p);
    lemma_line_comment(s, p);
    lemma_block_comment(s, p);
}

/// Text that belongs to no construct lies within the input.
pub proof fn lemma_unknown_end(s: Seq<u8>, p: int)
    requires
        0 <= p <= s.len(),
    ensures
        p <= unknown_end(s, p) <= s.len(),
    decreases s.len() - p,
{
    if p < s.len() && !is_space(s[p]) && (inside_word(s, p) || construct_at(s, p) is NoMatch) {
        lemma_unknown_end(s, p + 1);
    }
}

/// A node is not empty and lies within the input.
pub proof fn lemma_node_moves(s: Seq<u8>, p: int)
    requires
        0 <= p <= s.len(),
    ensures
        node_at(s, p) matches Scan::Match(_, e) ==> p < e <= s.len(),
{
    lemma_space_end(s, p);
    lemma_construct_moves(s, p);
    if p < s.len() {
        lemma_unknown_end(s, p + 1);
    }
}

/// The only way for a parse to fail is a construct that fails: no position of
/// the input is left without a node.
pub proof fn lemma_only_syntax_errors(s: Seq<u8>, p: int)
    requires
        0 <= p <= s.len(),
    ensures
        pieces_from(s, p) matches Err(err) ==> err is Syntax,
    decreases s.len() - p,
{
    if p < s.len() {
        lemma_node_found(s, p);
        lemma_node_moves(s, p);
        match node_at(s, p) {
            Scan::Match(_, e) => {
                lemma_only_syntax_errors(s, e);
            },
            _ => {},
        }
    }
}

/// Before the end of the input every position yields a node or a construct
/// that fails.
pub proof fn lemma_node_found(s: Seq<u8>, p: int)
    requires
        0 <= p < s.len(),
    ensures
        !(node_at(s, p) is NoMatch),
{
    lemma_space_end(s, p + 1);
}

/// Matches the construct that begins at `at`.
pub fn construct<'s>(src: &'s str, at: usize) -> (r: Outcome<Dart<'s>>)
    ensures
        r matches Outcome::Match(_, e) ==> at < e <= src.spec_bytes().len() && is_cut(
            src.spec_bytes(),
            e as int,
        ),
        match r {
            Outcome::Match(n, e) => construct_at(src.spec_bytes(), at as int) == Scan::Match(
                n@,
                e as int,
            ),
            Outcome::NoMatch => construct_at(src.spec_bytes(), at as int) is NoMatch,
            Outcome::Fail => construct_at(src.spec_bytes(), at as int) is Fail,
        },
{
    reveal(construct_at);
    match directive(src, at) {
        Outcome::Match(d, e) => {
            return Outcome::Match(Dart::Directive(d), e);
        },
        Outcome::Fail => {
            return Outcome::Fail;
        },
        Outcome::NoMatch => {},
    }
    match var(src, at) {
        Outcome::Match(v, e) => {
            return Outcome::Match(Dart::Var(v), e);
        },
        Outcome::Fail => {
            return Outcome::Fail;
        },
        Outcome::NoMatch => {},
    }
    match func(src, at) {
        Some((t, e)) => {
            return Outcome::Match(Dart::Func(t), e);
        },
        None => {},
    }
    match class(src, at) {
        Outcome::Match(c, e) => {
            return Outcome::Match(Dart::Class(c), e);
        },
        Outcome::Fail => {
            return Outcome::Fail;
        },
        Outcome::NoMatch => {},
    }
    match comment(src, at) {
        Some((c, e)) => Outcome::Match(Dart::Comment(c), e),
        None => Outcome::NoMatch,
    }
}

/// Matches the verbatim run that begins at `at`, a position between two
/// characters of the input.
pub fn verbatim<'s>(src: &'s str, at: usize) -> (r: Option<(&'s str, usize)>)
    requires
        is_char_boundary(src.spec_bytes(), at as int),
    ensures
        r matches Some((_, e)) ==> at < e <= src.spec_bytes().len() && is_char_boundary(
            src.spec_bytes(),
            e as int,
        ),
        match r {
            Some((t, e)) => verbatim_at(src.spec_bytes(), at as int) == Some(
                (t.spec_bytes(), e as int),
            ),
            None => verbatim_at(src.spec_bytes(), at as int) is None,
        },
{
    broadcast use group_utf8_lib;

    let b = src.as_bytes();
    let w = skip_space(b, at);
    if at < w {
        proof {
            lemma_space_end(b@, at as int);
            assert(is_cut(b@, w as int));
            lemma_cut_is_boundary(b@, w as int);
        }
        return Some((slice(src, at, w), w));
    }
    if at >= b.len() {
        return None;
    }
    match construct(src, at) {
        Outcome::NoMatch => {},
        _ => {
            return None;
        },
    }
    let mut u: usize = at + 1;
    let mut open = true;
    while open
        invariant
            b@ == src.spec_bytes(),
            at < u <= b@.len(),
            unknown_end(b@, at + 1) == unknown_end(b@, u as int),
            !open ==> unknown_end(b@, u as int) == u && is_cut(b@, u as int),
        decreases b@.len() - u + (if open { 1int } else { 0int }),
    {
        if u >= b.len() || space_byte(b[u]) {
            open = false;
        } else if ident_part_byte(b[u - 1]) && ident_part_byte(b[u]) {
            u += 1;
        } else {
            match construct(src, u) {
                Outcome::NoMatch => {
                    u += 1;
                },
                _ => {
                    proof {
                        lemma_construct_start(b@, u as int);
                    }
                    open = false;
                },
            }
        }
    }
    proof {
        lemma_cut_is_boundary(b@, u as int);
    }
    Some((slice(src, at, u), u))
}

/// Matches the node that begins at `at`, a position between two characters of
/// the input. Before the end of the input there always is a node, or a
/// construct that fails.
pub fn node<'s>(src: &'s str, at: usize) -> (r: Outcome<Dart<'s>>)
    requires
        is_char_boundary(src.spec_bytes(), at as int),
    ensures
        r matches Outcome::Match(_, e) ==> at < e <= src.spec_bytes().len() && is_char_boundary(
            src.spec_bytes(),
            e as int,
        ),
        at < src.spec_bytes().len() ==> !(r is NoMatch),
        match r {
            Outcome::Match(n, e) => node_at(src.spec_bytes(), at as int) == Scan::Match(
                n@,
                e as int,
            ),
            Outcome::NoMatch => node_at(src.spec_bytes(), at as int) is NoMatch,
            Outcome::Fail => node_at(src.spec_bytes(), at as int) is Fail,
        },
{
    proof {
        if at < src.spec_bytes().len() {
            lemma_node_found(src.spec_bytes(), at as int);
        }
    }
    match verbatim(src, at) {
        Some((t, e)) => Outcome::Match(Dart::Verbatim(t), e),
        None => {
            let r = construct(src, at);
            proof {
                if let Outcome::Match(_, e) = r {
                    encode_utf8_valid_utf8(src@);
                    lemma_cut_is_boundary(src.spec_bytes(), e as int);
                }
            }
            r
        },
    }
}

/// Parses the whole input and gives, side by side, the text of each node and
/// the node.
///
/// The texts, put end to end, are the input: nothing is lost and nothing is
/// left. The only failure is a syntax error, at the position of the construct
/// that fails.
pub fn parse_spanned<'s>(src: &'s str) -> (r: Result<(Vec<&'s str>, Vec<Dart<'s>>), ParseError>)
    ensures
        match r {
            Ok((texts, nodes)) => pieces_from(src.spec_bytes(), 0) matches Ok(pieces)
                && texts_view(texts@) == texts_of(pieces) && nodes_view(nodes@) == nodes_of(pieces)
                && texts_view(texts@).flatten() == src.spec_bytes(),
            Err(err) => pieces_from(src.spec_bytes(), 0) == Err::<Seq<Piece>, ParseError>(err)
                && err is Syntax,
        },
{
    broadcast use group_utf8_lib;

    let b = src.as_bytes();
    let mut texts: Vec<&'s str> = Vec::new();
    let mut nodes: Vec<Dart<'s>> = Vec::new();
    let mut at: usize = 0;
    let ghost mut found: Seq<Piece> = Seq::empty();
    proof {
        assert(texts_view(texts@) =~= texts_of(found));
        assert(nodes_view(nodes@) =~= nodes_of(found));
        assert(texts_of(found).flatten() =~= b@.subrange(0, 0));
        match pieces_from(b@, 0) {
            Ok(pieces) => {
                assert(found + pieces =~= pieces);
            },
            Err(_) => {},
        }
    }
    while at < b.len()
        invariant
            b@ == src.spec_bytes(),
            at <= b@.len(),
            is_char_boundary(b@, at as int),
            texts_view(texts@) == texts_of(found),
            nodes_view(nodes@) == nodes_of(found),
            texts_of(found).flatten() == b@.subrange(0, at as int),
            continued_pieces(found, pieces_from(b@, at as int)) == pieces_from(b@, 0),
        decreases b@.len() - at,
    {
        match node(src, at) {
            Outcome::Match(n, e) => {
                let text = slice(src, at, e);
                proof {
                    let piece = Piece { node: n@, text: b@.subrange(at as int, e as int) };
                    let before = found;
                    found = found.push(piece);
                    assert(texts_of(found) =~= texts_of(before).push(piece.text));
                    assert(nodes_of(found) =~= nodes_of(before).push(piece.node));
                    Seq::lemma_flatten_push(texts_of(before), piece.text);
                    assert(texts_of(found).flatten() =~= b@.subrange(0, e as int));
                    match pieces_from(b@, e as int) {
                        Ok(rest) => {
                            assert(before + (seq![piece] + rest) =~= before.push(piece) + rest);
                        },
                        Err(_) => {},
                    }
                }
                let ghost texts_before = texts_view(texts@);
                let ghost nodes_before = nodes_view(nodes@);
                texts.push(text);
                nodes.push(n);
                proof {
                    assert(texts_view(texts@) =~= texts_before.push(text.spec_bytes()));
                    assert(nodes_view(nodes@) =~= nodes_before.push(n@));
                }
                at = e;
            },
            Outcome::Fail => {
                return Err(ParseError::Syntax { offset: at });
            },
            Outcome::NoMatch => {
                return Err(ParseError::Unconsumed { offset: at });
            },
        }
    }
    proof {
        assert(found + Seq::<Piece>::empty() =~= found);
        assert(b@.subrange(0, at as int) =~= b@);
    }
    Ok((texts, nodes))
}

/// Parses the whole input into its nodes, in source order.
///
/// On success nothing of the input remains: the text that is returned beside
/// the nodes is empty, and the nodes are those of the pieces into which the
/// input is cut, whose texts, put end to end, are the input. The only failure
/// is a syntax error, at the position of the construct that fails.
pub fn parse<'s>(src: &'s str) -> (r: Result<(&'s str, Vec<Dart<'s>>), ParseError>)
    ensures
        match r {
            Ok((rest, nodes)) => pieces_from(src.spec_bytes(), 0) matches Ok(pieces) && nodes_view(
                nodes@,
            ) == nodes_of(pieces) && texts_of(pieces).flatten() == src.spec_bytes()
                && rest.spec_bytes().len() == 0,
            Err(err) => pieces_from(src.spec_bytes(), 0) == Err::<Seq<Piece>, ParseError>(err)
                && err is Syntax,
        },
{
    broadcast use group_utf8_lib;

    match parse_spanned(src) {
        Ok((_, nodes)) => {
            let end = src.as_bytes().len();
            let rest = slice(src, end, end);
            Ok((rest, nodes))
        },
        Err(err) => Err(err),
    }
}

} // verus!
