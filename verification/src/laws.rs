//! What holds of every document that the parser makes: facts about the
//! stream of tokens first, then about the tree.

use crate::ast::{Position, Tree};
use crate::parser::{
    block_at, blockquote_at, blocks_from, closed_stream, code_block_at, count_kind, heading_at,
    heading_level, is_bullet, is_item, item_at, items_end, items_from, kind_at, language_of,
    lemma_block_progress, lemma_count_kind_closed, lemma_item_progress, lemma_run_len,
    lemma_run_len_closed,
    list_at, literal, marker_len, newline_len, paragraph_at, parse_spec, run_len, stops, Parsed,
    Stop,
};
use crate::text::{is_blank, is_whitespace};
use crate::tokenizer::{
    column_at, eof_token, fence_at, lemma_digit_run, lemma_position_bounds, lemma_text_run,
    lemma_token_len, line_at, marker_kind, position_at, token_at, token_kind, token_len,
    tokenize_spec, tokens_from, TokenModel, TokenType,
};
use vstd::prelude::*;

verus! {

/// The tokens from an offset inside the text are the token that starts there
/// and the tokens from its end.
pub proof fn lemma_tokens_step(text: Seq<char>, i: int)
    requires
        0 <= i < text.len(),
    ensures
        tokens_from(text, i) == seq![token_at(text, i)] + tokens_from(
            text,
            i + token_len(text, i),
        ),
        tokens_from(text, i).len() >= 2,
        tokens_from(text, i)[0] == token_at(text, i),
        tokens_from(text, i)[0].kind == token_kind(text, i),
        tokens_from(text, i)[0].value == text.subrange(i, i + token_len(text, i)),
        tokens_from(text, i).skip(1) == tokens_from(text, i + token_len(text, i)),
        i < i + token_len(text, i) <= text.len(),
{
    lemma_token_len(text, i);
}

/// The tokens from any offset end with the end-of-stream token, and no
/// other token of them is one.
pub proof fn lemma_tokens_end(text: Seq<char>, i: int)
    requires
        0 <= i <= text.len(),
    ensures
        tokens_from(text, i).len() >= 1,
        tokens_from(text, i).last() == eof_token(text),
        closed_stream(tokens_from(text, i)),
        i == text.len() ==> tokens_from(text, i) == seq![eof_token(text)],
    decreases text.len() - i,
{
    if i < text.len() {
        lemma_token_len(text, i);
        let rest = tokens_from(text, i + token_len(text, i));
        lemma_tokens_end(text, i + token_len(text, i));
        let toks = tokens_from(text, i);
        assert(toks == seq![token_at(text, i)] + rest);
    }
}

/// The tokens of a text end with its only end-of-stream token.
pub proof fn lemma_tokens_closed(text: Seq<char>)
    ensures
        closed_stream(tokenize_spec(text)),
{
    lemma_tokens_end(text, 0);
}

/// `a` stands at or before `b`: by its offset, and by its line and column.
pub open spec fn not_after(a: Position, b: Position) -> bool {
    a.offset <= b.offset && a.le(b)
}

/// The positions of the tokens do not go back.
pub open spec fn positions_ordered(toks: Seq<TokenModel>) -> bool {
    forall|a: int, b: int|
        0 <= a <= b < toks.len() ==> not_after(
            (#[trigger] toks[a]).position,
            (#[trigger] toks[b]).position,
        )
}

/// A later offset has a later position.
pub proof fn lemma_position_monotone(text: Seq<char>, a: int, b: int)
    requires
        0 <= a <= b <= usize::MAX,
    ensures
        not_after(position_at(text, a), position_at(text, b)),
    decreases b - a,
{
    lemma_position_bounds(text, b);
    if a < b {
        lemma_position_monotone(text, a, b - 1);
    }
}

/// Every token from offset `i` on stands at an offset from `i` to the end
/// of the text, at the position of that offset, and no token stands before
/// the one in front of it.
pub proof fn lemma_tokens_placed(text: Seq<char>, i: int)
    requires
        0 <= i <= text.len() <= usize::MAX,
    ensures
        forall|k: int|
            0 <= k < tokens_from(text, i).len() ==> {
                let p = (#[trigger] tokens_from(text, i)[k]).position;
                i <= p.offset <= text.len() && p == position_at(text, p.offset as int)
            },
        positions_ordered(tokens_from(text, i)),
    decreases text.len() - i,
{
    let toks = tokens_from(text, i);
    if i < text.len() {
        lemma_tokens_step(text, i);
        let next = i + token_len(text, i);
        let rest = tokens_from(text, next);
        lemma_tokens_placed(text, next);
        assert forall|a: int, b: int| 0 <= a <= b < toks.len() implies not_after(
            (#[trigger] toks[a]).position,
            (#[trigger] toks[b]).position,
        ) by {
            if a > 0 {
                assert(toks[b] == rest[b - 1]);
            } else if b > 0 {
                lemma_position_monotone(text, i, toks[b].position.offset as int);
            }
        }
    }
}

/// The positions of the tokens of a text do not go back.
pub proof fn lemma_tokens_ordered(text: Seq<char>)
    requires
        text.len() <= usize::MAX,
    ensures
        positions_ordered(tokenize_spec(text)),
{
    lemma_tokens_placed(text, 0);
}

/// `b` starts where `a` ends, or after it.
pub open spec fn follows(a: Tree, b: Tree) -> bool {
    a.end_pos() is Some && b.start_pos() is Some && not_after(
        a.end_pos()->0,
        b.start_pos()->0,
    )
}

/// Among the children of every node of the tree, a later child starts where
/// an earlier one ends, or after it.
pub open spec fn siblings_ordered(tree: Tree) -> bool
    decreases tree,
{
    &&& forall|i: int, j: int|
        0 <= i < j < tree.children().len() ==> follows(
            #[trigger] tree.children()[i],
            #[trigger] tree.children()[j],
        )
    &&& forall|i: int|
        0 <= i < tree.children().len() ==> siblings_ordered(#[trigger] tree.children()[i])
}

/// The nodes of `nodes` are placed through and through, their own children
/// are in order, each starts at or after `from`, and a later one starts where
/// an earlier one ends, or after it.
pub open spec fn in_order_from(nodes: Seq<Tree>, from: Position) -> bool {
    &&& forall|k: int|
        0 <= k < nodes.len() ==> {
            &&& (#[trigger] nodes[k]).all_positioned()
            &&& siblings_ordered(nodes[k])
            &&& not_after(from, nodes[k].start_pos()->0)
        }
    &&& forall|k: int, l: int|
        0 <= k < l < nodes.len() ==> follows(#[trigger] nodes[k], #[trigger] nodes[l])
}

/// In a closed stream an item ends after its marker and before or at the
/// last token.
pub proof fn lemma_item_bounds(toks: Seq<TokenModel>, pos: int, ordered: bool)
    requires
        closed_stream(toks),
        0 <= pos < toks.len(),
        is_item(toks, pos, ordered),
    ensures
        pos < item_at(toks, pos, ordered).next < toks.len(),
{
    let body = pos + marker_len(ordered);
    lemma_count_kind_closed(toks, body, TokenType::Space);
    let from = body + count_kind(toks, body, TokenType::Space);
    lemma_run_len_closed(toks, from, Stop::Line);
}

/// In a closed stream whose positions do not go back, the items of a list
/// are placed and in order, and the list ends before or at the last token.
pub proof fn lemma_items_in_order(toks: Seq<TokenModel>, pos: int, ordered: bool)
    requires
        closed_stream(toks),
        positions_ordered(toks),
        0 <= pos < toks.len(),
    ensures
        in_order_from(items_from(toks, pos, ordered), toks[pos].position),
        pos <= items_end(toks, pos, ordered) < toks.len(),
    decreases toks.len() - pos,
{
    if is_item(toks, pos, ordered) {
        lemma_item_bounds(toks, pos, ordered);
        let item = item_at(toks, pos, ordered);
        lemma_items_in_order(toks, item.next, ordered);
        assert(item.node->0.children() =~= Seq::empty());
    }
}

/// What is parsed at `pos` ends after `pos` and before or at the last token;
/// a node made of it is placed through and through, spans from the token at
/// `pos` to the first token behind it, and has its own children in order.
pub open spec fn well_placed(parsed: Parsed, toks: Seq<TokenModel>, pos: int) -> bool {
    &&& pos < parsed.next < toks.len()
    &&& parsed.node matches Some(node) ==> {
        &&& node.all_positioned()
        &&& siblings_ordered(node)
        &&& node.start_pos() == Some(toks[pos].position)
        &&& node.end_pos() == Some(toks[parsed.next].position)
    }
}

proof fn lemma_heading_placed(toks: Seq<TokenModel>, pos: int)
    requires
        closed_stream(toks),
        0 <= pos < toks.len(),
        toks[pos].kind == TokenType::Hash,
    ensures
        well_placed(heading_at(toks, pos), toks, pos),
{
    lemma_count_kind_closed(toks, pos, TokenType::Hash);
    let body = pos + count_kind(toks, pos, TokenType::Hash);
    lemma_count_kind_closed(toks, body, TokenType::Space);
    let from = body + count_kind(toks, body, TokenType::Space);
    lemma_run_len_closed(toks, from, Stop::Line);
}

proof fn lemma_code_block_placed(toks: Seq<TokenModel>, pos: int)
    requires
        closed_stream(toks),
        0 <= pos < toks.len(),
        toks[pos].kind == TokenType::TripleBacktick,
    ensures
        well_placed(code_block_at(toks, pos), toks, pos),
{
    lemma_run_len_closed(toks, pos + 1, Stop::Line);
    let tag_to = pos + 1 + run_len(toks, pos + 1, Stop::Line);
    let from = tag_to + newline_len(toks, tag_to);
    lemma_run_len_closed(toks, from, Stop::Fence);
    assert(code_block_at(toks, pos).node->0.children() =~= Seq::empty());
}

proof fn lemma_list_placed(toks: Seq<TokenModel>, pos: int, ordered: bool)
    requires
        closed_stream(toks),
        positions_ordered(toks),
        0 <= pos < toks.len(),
        is_item(toks, pos, ordered),
    ensures
        well_placed(list_at(toks, pos, ordered), toks, pos),
{
    lemma_items_in_order(toks, pos, ordered);
    lemma_item_bounds(toks, pos, ordered);
    lemma_items_in_order(toks, item_at(toks, pos, ordered).next, ordered);
}

proof fn lemma_blockquote_placed(toks: Seq<TokenModel>, pos: int)
    requires
        closed_stream(toks),
        0 <= pos < toks.len(),
        toks[pos].kind == TokenType::GT,
    ensures
        well_placed(blockquote_at(toks, pos), toks, pos),
{
    lemma_count_kind_closed(toks, pos + 1, TokenType::Space);
    let from = pos + 1 + count_kind(toks, pos + 1, TokenType::Space);
    lemma_run_len_closed(toks, from, Stop::Line);
    let quote = blockquote_at(toks, pos).node->0;
    let inner = quote.children()[0];
    assert(inner.all_positioned());
    assert(siblings_ordered(inner));
}

proof fn lemma_paragraph_placed(toks: Seq<TokenModel>, pos: int)
    requires
        closed_stream(toks),
        0 <= pos < toks.len(),
        !stops(Stop::Block, toks[pos].kind),
    ensures
        well_placed(paragraph_at(toks, pos), toks, pos),
{
    lemma_run_len_closed(toks, pos, Stop::Block);
    let paragraph = paragraph_at(toks, pos);
    if paragraph.node is Some {
        assert(paragraph.node->0.children() =~= Seq::empty());
    }
}

/// In a closed stream whose positions do not go back, a block that starts
/// at a token which is neither a newline nor the end of the stream is well
/// placed.
pub proof fn lemma_block_bounds(toks: Seq<TokenModel>, pos: int)
    requires
        closed_stream(toks),
        positions_ordered(toks),
        0 <= pos < toks.len(),
        toks[pos].kind != TokenType::Eof,
        toks[pos].kind != TokenType::Newline,
    ensures
        well_placed(block_at(toks, pos), toks, pos),
{
    let kind = toks[pos].kind;
    if kind == TokenType::Hash {
        lemma_heading_placed(toks, pos);
    } else if kind == TokenType::TripleBacktick {
        lemma_code_block_placed(toks, pos);
    } else if is_bullet(kind) {
        lemma_list_placed(toks, pos, false);
    } else if kind == TokenType::Number && kind_at(toks, pos + 1) == TokenType::Dot {
        lemma_list_placed(toks, pos, true);
    } else if kind == TokenType::GT {
        lemma_blockquote_placed(toks, pos);
    } else {
        lemma_paragraph_placed(toks, pos);
    }
}

/// In a closed stream whose positions do not go back, the blocks from
/// `pos` on are placed and in order.
pub proof fn lemma_blocks_in_order(toks: Seq<TokenModel>, pos: int)
    requires
        closed_stream(toks),
        positions_ordered(toks),
        0 <= pos < toks.len(),
    ensures
        in_order_from(blocks_from(toks, pos), toks[pos].position),
    decreases toks.len() - pos,
{
    if toks[pos].kind == TokenType::Newline {
        lemma_blocks_in_order(toks, pos + 1);
    } else if toks[pos].kind != TokenType::Eof {
        lemma_block_bounds(toks, pos);
        let block = block_at(toks, pos);
        lemma_blocks_in_order(toks, block.next);
        assert(in_order_from(blocks_from(toks, block.next), toks[block.next].position));
    }
}

/// Every node of a parsed document has both positions, and among the
/// children of each node a later child starts where an earlier one ends, or
/// after it.
pub proof fn lemma_parsed_in_order(text: Seq<char>)
    requires
        text.len() <= usize::MAX,
    ensures
        parse_spec(text).all_positioned(),
        siblings_ordered(parse_spec(text)),
{
    let toks = tokenize_spec(text);
    lemma_tokens_closed(text);
    lemma_tokens_ordered(text);
    lemma_blocks_in_order(toks, 0);
}

/// The token behind a newline token stands on the next line.
pub open spec fn newlines_advance(toks: Seq<TokenModel>) -> bool {
    forall|k: int, l: int|
        0 <= k && l == k + 1 && l < toks.len() && (#[trigger] toks[k]).kind == TokenType::Newline
            ==> (#[trigger] toks[l]).position.line == toks[k].position.line + 1
}

/// Among the tokens from offset `i` on, the token behind a newline token
/// stands on the next line.
pub proof fn lemma_newlines_advance(text: Seq<char>, i: int)
    requires
        0 <= i <= text.len() <= usize::MAX,
    ensures
        newlines_advance(tokens_from(text, i)),
        tokens_from(text, i)[0].position == position_at(text, i),
    decreases text.len() - i,
{
    let toks = tokens_from(text, i);
    if i < text.len() {
        lemma_tokens_step(text, i);
        lemma_token_chars(text, i);
        let next = i + token_len(text, i);
        let rest = tokens_from(text, next);
        lemma_newlines_advance(text, next);
        lemma_position_bounds(text, i + 1);
        assert forall|k: int, l: int|
            0 <= k && l == k + 1 && l < toks.len() && (#[trigger] toks[k]).kind
                == TokenType::Newline implies (#[trigger] toks[l]).position.line
            == toks[k].position.line + 1 by {
            assert(toks[l] == rest[k]);
            if k > 0 {
                assert(toks[k] == rest[k - 1]);
            }
        }
    }
}

/// Every node of `nodes` that stands behind a heading starts on a later
/// line than the heading.
pub open spec fn below_headings(nodes: Seq<Tree>) -> bool {
    forall|k: int, l: int|
        0 <= k < l < nodes.len() && (#[trigger] nodes[k]) is Heading ==> (
        #[trigger] nodes[l]).start_pos()->0.line > nodes[k].start_pos()->0.line
}

/// In the tokens of a text, a heading that is followed by a block ends on a
/// later line than it starts on.
proof fn lemma_heading_ends_below(toks: Seq<TokenModel>, pos: int)
    requires
        closed_stream(toks),
        positions_ordered(toks),
        newlines_advance(toks),
        0 <= pos < toks.len(),
        toks[pos].kind == TokenType::Hash,
    ensures
        ({
            let next = heading_at(toks, pos).next;
            blocks_from(toks, next).len() > 0 ==> toks[next].position.line
                > toks[pos].position.line
        }),
{
    lemma_count_kind_closed(toks, pos, TokenType::Hash);
    let body = pos + count_kind(toks, pos, TokenType::Hash);
    lemma_count_kind_closed(toks, body, TokenType::Space);
    let from = body + count_kind(toks, body, TokenType::Space);
    lemma_run_len_closed(toks, from, Stop::Line);
    lemma_run_len(toks, from, Stop::Line);
    let to = from + run_len(toks, from, Stop::Line);
    if toks[to].kind == TokenType::Newline {
        assert(not_after(toks[pos].position, toks[to].position));
        assert(toks[to + 1].position.line == toks[to].position.line + 1);
    }
}

/// In the tokens of a text, every block that stands behind a heading starts
/// on a later line than the heading.
pub proof fn lemma_blocks_below_headings(toks: Seq<TokenModel>, pos: int)
    requires
        closed_stream(toks),
        positions_ordered(toks),
        newlines_advance(toks),
        0 <= pos < toks.len(),
    ensures
        below_headings(blocks_from(toks, pos)),
    decreases toks.len() - pos,
{
    lemma_blocks_in_order(toks, pos);
    if toks[pos].kind == TokenType::Newline {
        lemma_blocks_below_headings(toks, pos + 1);
    } else if toks[pos].kind != TokenType::Eof {
        lemma_block_bounds(toks, pos);
        let block = block_at(toks, pos);
        let rest = blocks_from(toks, block.next);
        lemma_blocks_below_headings(toks, block.next);
        lemma_blocks_in_order(toks, block.next);
        let blocks = blocks_from(toks, pos);
        if let Some(node) = block.node {
            assert(blocks == seq![node] + rest);
            if toks[pos].kind == TokenType::Hash {
                lemma_heading_ends_below(toks, pos);
            }
            assert forall|k: int, l: int|
                0 <= k < l < blocks.len() && (#[trigger] blocks[k]) is Heading implies (
            #[trigger] blocks[l]).start_pos()->0.line > blocks[k].start_pos()->0.line by {
                assert(blocks[l] == rest[l - 1]);
                if k > 0 {
                    assert(blocks[k] == rest[k - 1]);
                } else {
                    assert(node is Heading ==> toks[pos].kind == TokenType::Hash);
                    assert(not_after(toks[block.next].position, rest[l - 1].start_pos()->0));
                }
            }
        }
    }
}

/// In a parsed document every block that stands behind a heading starts on
/// a later line than the heading. So the line before the heading that
/// closes a heading is never above the heading's own line.
pub proof fn lemma_parsed_below_headings(text: Seq<char>)
    requires
        text.len() <= usize::MAX,
    ensures
        below_headings(parse_spec(text).children()),
{
    lemma_tokens_closed(text);
    lemma_tokens_ordered(text);
    lemma_newlines_advance(text, 0);
    lemma_blocks_below_headings(tokenize_spec(text), 0);
}

/// A list takes every item line it can: where it ends, no item of its kind
/// starts.
pub proof fn lemma_list_is_maximal(toks: Seq<TokenModel>, pos: int, ordered: bool)
    requires
        0 <= pos <= toks.len(),
    ensures
        !is_item(toks, items_end(toks, pos, ordered), ordered),
    decreases toks.len() - pos,
{
    if is_item(toks, pos, ordered) {
        lemma_item_progress(toks, pos, ordered);
        lemma_list_is_maximal(toks, item_at(toks, pos, ordered).next, ordered);
    }
}

/// A block as the parser makes it. A heading has a level from one to six
/// and no children; a paragraph has a text that is not blank, and no inline
/// nodes; a code block has a language; a list has at least one item, and its
/// items are list items without children; a blockquote holds one paragraph
/// without inline nodes. The parser makes no other kind of block.
pub open spec fn block_shaped(node: Tree) -> bool {
    match node {
        Tree::Heading { level, children, .. } => 1 <= level <= 6 && children.len() == 0,
        Tree::Paragraph { text, inline_nodes, .. } => !is_blank(text) && inline_nodes.len() == 0,
        Tree::CodeBlock { language, .. } => language.len() > 0,
        Tree::List { items, .. } => items.len() >= 1 && forall|i: int|
            0 <= i < items.len() ==> is_plain_item(#[trigger] items[i]),
        Tree::Blockquote { children, .. } => children.len() == 1 && children[0] is Paragraph
            && children[0].children().len() == 0,
        _ => false,
    }
}

/// A list item without children.
pub open spec fn is_plain_item(node: Tree) -> bool {
    node is ListItem && node.children().len() == 0
}

/// A document as the parser makes it: a document node whose children are
/// blocks as the parser makes them.
pub open spec fn document_shaped(tree: Tree) -> bool {
    tree is Document && forall|i: int|
        0 <= i < tree.children().len() ==> block_shaped(#[trigger] tree.children()[i])
}

/// The items of a list are list items without children.
pub proof fn lemma_items_shaped(toks: Seq<TokenModel>, pos: int, ordered: bool)
    requires
        0 <= pos <= toks.len(),
    ensures
        forall|i: int|
            0 <= i < items_from(toks, pos, ordered).len() ==> is_plain_item(
                #[trigger] items_from(toks, pos, ordered)[i],
            ),
        is_item(toks, pos, ordered) ==> items_from(toks, pos, ordered).len() >= 1,
    decreases toks.len() - pos,
{
    if is_item(toks, pos, ordered) {
        lemma_item_progress(toks, pos, ordered);
        let item = item_at(toks, pos, ordered);
        let rest = items_from(toks, item.next, ordered);
        lemma_items_shaped(toks, item.next, ordered);
        assert(items_from(toks, pos, ordered) == seq![item.node->0] + rest);
    }
}

/// A block that the parser makes at a token which is neither a newline nor
/// the end of the stream has the shape of a block.
pub proof fn lemma_block_shaped(toks: Seq<TokenModel>, pos: int)
    requires
        0 <= pos < toks.len(),
        toks[pos].kind != TokenType::Eof,
        toks[pos].kind != TokenType::Newline,
    ensures
        block_at(toks, pos).node matches Some(node) ==> block_shaped(node),
{
    let kind = toks[pos].kind;
    if kind == TokenType::TripleBacktick {
        reveal_strlit("text");
    } else if is_bullet(kind) {
        lemma_items_shaped(toks, pos, false);
    } else if kind == TokenType::Number && kind_at(toks, pos + 1) == TokenType::Dot {
        lemma_items_shaped(toks, pos, true);
    } else if kind != TokenType::Hash && kind != TokenType::GT {
        assert(block_at(toks, pos) == paragraph_at(toks, pos));
    }
}

/// The blocks that the parser makes from `pos` on have the shape of blocks.
pub proof fn lemma_blocks_shaped(toks: Seq<TokenModel>, pos: int)
    requires
        0 <= pos <= toks.len(),
    ensures
        forall|i: int|
            0 <= i < blocks_from(toks, pos).len() ==> block_shaped(
                #[trigger] blocks_from(toks, pos)[i],
            ),
    decreases toks.len() - pos,
{
    if kind_at(toks, pos) == TokenType::Newline {
        lemma_blocks_shaped(toks, pos + 1);
    } else if kind_at(toks, pos) != TokenType::Eof {
        lemma_block_progress(toks, pos);
        lemma_block_shaped(toks, pos);
        let block = block_at(toks, pos);
        let rest = blocks_from(toks, block.next);
        lemma_blocks_shaped(toks, block.next);
        assert(blocks_from(toks, pos) == match block.node {
            Some(node) => seq![node] + rest,
            None => rest,
        });
    }
}

/// A parsed document is a document of headings, paragraphs, code blocks,
/// lists and blockquotes, each in the shape the parser gives it: the levels
/// of the headings run from one to six, no paragraph is blank, every code
/// block has a language, every list has items, which are list items, and
/// every blockquote holds just one paragraph. No heading, paragraph or list
/// item has children of its own.
pub proof fn lemma_parsed_shape(text: Seq<char>)
    ensures
        document_shaped(parse_spec(text)),
{
    lemma_blocks_shaped(tokenize_spec(text), 0);
}

/// The text without tokens is the empty document, placed at the origin.
pub proof fn lemma_parse_empty()
    ensures
        parse_spec(Seq::empty()) == (Tree::Document {
            children: Seq::empty(),
            start_pos: Some(Position { line: 0, column: 0, offset: 0 }),
            end_pos: Some(Position { line: 0, column: 0, offset: 0 }),
        }),
{
    let text = Seq::<char>::empty();
    assert(tokenize_spec(text) == seq![eof_token(text)]);
}

/// Counting a run of tokens does not depend on the tokens in front of it.
pub proof fn lemma_count_kind_skip(toks: Seq<TokenModel>, pos: int, kind: TokenType, d: int)
    requires
        0 <= d <= pos,
        d <= toks.len(),
    ensures
        count_kind(toks, pos, kind) == count_kind(toks.skip(d), pos - d, kind),
    decreases toks.len() - pos,
{
    if pos < toks.len() && toks[pos].kind == kind {
        lemma_count_kind_skip(toks, pos + 1, kind, d);
    }
}

/// The length of a run of literal text does not depend on the tokens in
/// front of it.
pub proof fn lemma_run_len_skip(toks: Seq<TokenModel>, pos: int, stop: Stop, d: int)
    requires
        0 <= d <= pos,
        d <= toks.len(),
    ensures
        run_len(toks, pos, stop) == run_len(toks.skip(d), pos - d, stop),
    decreases toks.len() - pos,
{
    if pos < toks.len() && !stops(stop, toks[pos].kind) {
        lemma_run_len_skip(toks, pos + 1, stop, d);
    }
}

/// The text of a range of tokens does not depend on the tokens in front of
/// it.
pub proof fn lemma_literal_skip(toks: Seq<TokenModel>, from: int, to: int, d: int)
    requires
        0 <= d <= from,
        to <= toks.len(),
    ensures
        literal(toks, from, to) == literal(toks.skip(d), from - d, to - d),
    decreases to - from,
{
    if from < to {
        lemma_literal_skip(toks, from, to - 1, d);
    }
}

/// The text of a range of tokens starts with the text of its first token.
pub proof fn lemma_literal_first(toks: Seq<TokenModel>, from: int, to: int)
    requires
        0 <= from < to <= toks.len(),
    ensures
        literal(toks, from, to) == toks[from].value + literal(toks, from + 1, to),
    decreases to - from,
{
    if from + 1 < to {
        lemma_literal_first(toks, from, to - 1);
    } else {
        assert(literal(toks, from, from) =~= Seq::empty());
    }
}

/// A run of literal text that does not stop at its first token is that
/// token and the run behind it.
pub proof fn lemma_run_step(toks: Seq<TokenModel>, stop: Stop)
    requires
        toks.len() >= 1,
        !stops(stop, toks[0].kind),
    ensures
        run_len(toks, 0, stop) == 1 + run_len(toks.skip(1), 0, stop),
{
    lemma_run_len_skip(toks, 1, stop, 1);
}

/// The text of the first tokens is the text of the first one and the text
/// of those behind it.
pub proof fn lemma_literal_step(toks: Seq<TokenModel>, count: int)
    requires
        0 <= count < toks.len(),
    ensures
        literal(toks, 0, 1 + count) == toks[0].value + literal(toks.skip(1), 0, count),
{
    lemma_literal_first(toks, 0, 1 + count);
    lemma_literal_skip(toks, 1, 1 + count, 1);
}

/// What a scan of the tokens from offset `i` finds when it reads on past the
/// token there, given what it finds from the end of that token: one token
/// more, whose text stands in front.
proof fn lemma_scan_step(text: Seq<char>, i: int, stop: Stop, end: int)
    requires
        0 <= i < text.len(),
        !stops(stop, token_kind(text, i)),
        i + token_len(text, i) <= end <= text.len(),
        ({
            let rest = tokens_from(text, i + token_len(text, i));
            let run = run_len(rest, 0, stop);
            &&& run < rest.len()
            &&& literal(rest, 0, run as int) == text.subrange(i + token_len(text, i), end)
            &&& rest.skip(run as int) == tokens_from(text, end)
        }),
    ensures
        ({
            let toks = tokens_from(text, i);
            let run = run_len(toks, 0, stop);
            &&& run < toks.len()
            &&& literal(toks, 0, run as int) == text.subrange(i, end)
            &&& toks.skip(run as int) == tokens_from(text, end)
        }),
{
    let toks = tokens_from(text, i);
    let next = i + token_len(text, i);
    let rest = tokens_from(text, next);
    let run = run_len(rest, 0, stop) as int;
    lemma_tokens_step(text, i);
    lemma_run_step(toks, stop);
    lemma_literal_step(toks, run);
    assert(toks.skip(1 + run) =~= toks.skip(1).skip(run));
}

/// The offset of the first newline at or after `i`; the end of the text
/// where there is none.
pub open spec fn line_end(text: Seq<char>, i: int) -> int
    decreases text.len() - i,
{
    if 0 <= i < text.len() && text[i] != '\n' {
        line_end(text, i + 1)
    } else {
        i
    }
}

/// The end of the line is the same from every offset in front of which the
/// line has no newline.
pub proof fn lemma_line_end_skip(text: Seq<char>, i: int, j: int)
    requires
        0 <= i <= j <= text.len(),
        forall|k: int| i <= k < j ==> text[k] != '\n',
    ensures
        line_end(text, i) == line_end(text, j),
        j <= line_end(text, j) <= text.len(),
        forall|k: int| j <= k < line_end(text, j) ==> text[k] != '\n',
        line_end(text, j) < text.len() ==> text[line_end(text, j)] == '\n',
    decreases text.len() - i,
{
    if i < j {
        lemma_line_end_skip(text, i + 1, j);
    } else if j < text.len() && text[j] != '\n' {
        lemma_line_end_skip(text, j + 1, j + 1);
    }
}

/// A token that starts with a newline is that newline; any other token
/// holds no newline and is no newline token.
pub proof fn lemma_token_chars(text: Seq<char>, i: int)
    requires
        0 <= i < text.len(),
    ensures
        text[i] == '\n' ==> token_kind(text, i) == TokenType::Newline && token_len(text, i) == 1,
        text[i] != '\n' ==> token_kind(text, i) != TokenType::Newline,
        text[i] != '\n' ==> forall|k: int| i <= k < i + token_len(text, i) ==> text[k] != '\n',
        token_kind(text, i) != TokenType::Eof,
{
    lemma_digit_run(text, i + 1);
    lemma_text_run(text, i + 1);
}

/// Reading a line: from the tokens at offset `i`, the run up to the end of
/// the line spells the text up to the first newline, and ends at the token
/// that starts there.
pub proof fn lemma_line_scan(text: Seq<char>, i: int)
    requires
        0 <= i <= text.len(),
    ensures
        ({
            let toks = tokens_from(text, i);
            let run = run_len(toks, 0, Stop::Line);
            &&& run < toks.len()
            &&& literal(toks, 0, run as int) == text.subrange(i, line_end(text, i))
            &&& toks.skip(run as int) == tokens_from(text, line_end(text, i))
        }),
    decreases text.len() - i,
{
    if i < text.len() {
        lemma_token_chars(text, i);
    }
    if i < text.len() && text[i] != '\n' {
        let next = i + token_len(text, i);
        lemma_token_len(text, i);
        lemma_line_scan(text, next);
        lemma_line_end_skip(text, i, next);
        lemma_scan_step(text, i, Stop::Line, line_end(text, i));
    }
}

/// Two characters that make tokens of one kind on their own are one
/// character.
pub proof fn lemma_marker_kind_injective(a: char, b: char)
    requires
        marker_kind(a) is Some,
        marker_kind(a) == marker_kind(b),
    ensures
        a == b,
{
}

/// The token at a marker character other than a backtick is that character
/// alone; the token at any other character is of another kind.
pub proof fn lemma_marker_token(text: Seq<char>, i: int, c: char, kind: TokenType)
    requires
        0 <= i < text.len(),
        marker_kind(c) == Some(kind),
        c != '`',
    ensures
        text[i] == c ==> token_kind(text, i) == kind && token_len(text, i) == 1,
        text[i] != c ==> token_kind(text, i) != kind,
{
    if text[i] != c && token_kind(text, i) == kind {
        lemma_marker_kind_injective(c, text[i]);
    }
}

/// A run of one marker character, other than a backtick, makes as many
/// tokens of its kind, and the tokens behind them are the tokens from the
/// end of the run.
pub proof fn lemma_marker_run(text: Seq<char>, i: int, m: nat, c: char, kind: TokenType)
    requires
        0 <= i,
        i + m <= text.len(),
        marker_kind(c) == Some(kind),
        c != '`',
        forall|k: int| i <= k < i + m ==> text[k] == c,
        i + m < text.len() ==> text[i + m] != c,
    ensures
        count_kind(tokens_from(text, i), 0, kind) == m,
        m < tokens_from(text, i).len(),
        tokens_from(text, i).skip(m as int) == tokens_from(text, i + m),
    decreases m,
{
    let toks = tokens_from(text, i);
    lemma_tokens_end(text, i);
    if i < text.len() {
        lemma_tokens_step(text, i);
        lemma_marker_token(text, i, c, kind);
    }
    if m > 0 {
        lemma_marker_run(text, i + 1, (m - 1) as nat, c, kind);
        lemma_count_kind_skip(toks, 1, kind, 1);
    }
}

/// The tokens in front of the `k`-th token from offset `i` spell the text
/// from `i` to the offset of that token, and the tokens from it on are the
/// tokens from its offset.
pub proof fn lemma_tokens_spell_from(text: Seq<char>, i: int, k: int)
    requires
        0 <= i <= text.len() <= usize::MAX,
        0 <= k < tokens_from(text, i).len(),
    ensures
        ({
            let toks = tokens_from(text, i);
            let offset = toks[k].position.offset as int;
            &&& i <= offset <= text.len()
            &&& literal(toks, 0, k) == text.subrange(i, offset)
            &&& toks.skip(k) == tokens_from(text, offset)
        }),
    decreases k,
{
    let toks = tokens_from(text, i);
    lemma_tokens_placed(text, i);
    if k > 0 {
        lemma_tokens_step(text, i);
        let next = i + token_len(text, i);
        lemma_tokens_spell_from(text, next, k - 1);
        lemma_literal_first(toks, 0, k);
        lemma_literal_skip(toks, 1, k, 1);
    }
}

/// The tokens of a text keep it as it stands: the tokens from one token up
/// to another spell the text from the offset of the one to the offset of the
/// other. So every text that the parser takes from a range of tokens, be it
/// that of a heading, a paragraph, a list item or the code of a fence, is a
/// piece of the text, character for character.
pub proof fn lemma_literal_is_slice(text: Seq<char>, from: int, to: int)
    requires
        text.len() <= usize::MAX,
        0 <= from <= to < tokenize_spec(text).len(),
    ensures
        ({
            let toks = tokenize_spec(text);
            let start = toks[from].position.offset as int;
            let end = toks[to].position.offset as int;
            &&& 0 <= start <= end <= text.len()
            &&& literal(toks, from, to) == text.subrange(start, end)
        }),
{
    let toks = tokenize_spec(text);
    lemma_tokens_spell_from(text, 0, from);
    let start = toks[from].position.offset as int;
    lemma_tokens_spell_from(text, start, to - from);
    lemma_literal_skip(toks, from, to, from);
}

/// The tokens of a text spell the text.
pub proof fn lemma_tokens_spell_text(text: Seq<char>)
    requires
        text.len() <= usize::MAX,
    ensures
        literal(tokenize_spec(text), 0, tokenize_spec(text).len() as int) == text,
{
    let toks = tokenize_spec(text);
    let last = toks.len() - 1;
    lemma_tokens_end(text, 0);
    lemma_literal_is_slice(text, 0, last);
}

/// `n` heading markers.
pub open spec fn hashes(n: nat) -> Seq<char> {
    Seq::new(n, |i: int| '#')
}

/// The number of spaces at the start of `s`.
pub open spec fn leading_spaces(s: Seq<char>) -> nat
    decreases s.len(),
{
    if s.len() > 0 && s[0] == ' ' {
        1 + leading_spaces(s.drop_first())
    } else {
        0
    }
}

/// The line of a heading: `n` markers, a space, the text and a newline.
pub open spec fn heading_line(n: nat, text: Seq<char>) -> Seq<char> {
    hashes(n) + seq![' '] + text + seq!['\n']
}

/// The leading spaces are a prefix of spaces that stops at the first other
/// character.
pub proof fn lemma_leading_spaces(s: Seq<char>)
    ensures
        leading_spaces(s) <= s.len(),
        forall|i: int| 0 <= i < leading_spaces(s) ==> s[i] == ' ',
        leading_spaces(s) < s.len() ==> s[leading_spaces(s) as int] != ' ',
    decreases s.len(),
{
    if s.len() > 0 && s[0] == ' ' {
        let rest = s.drop_first();
        lemma_leading_spaces(rest);
        assert forall|i: int| 0 <= i < leading_spaces(s) implies s[i] == ' ' by {
            if i > 0 {
                assert(s[i] == rest[i - 1]);
            }
        }
    }
}

/// Before the first newline every offset is on line zero, in the column of
/// its own number.
pub proof fn lemma_first_line(text: Seq<char>, i: int)
    requires
        0 <= i,
        forall|k: int| 0 <= k < i ==> text[k] != '\n',
    ensures
        line_at(text, i) == 0,
        column_at(text, i) == i,
    decreases i,
{
    if i > 0 {
        lemma_first_line(text, i - 1);
    }
}

/// The tokens of a heading line: `n` markers, the spaces, the tokens of the
/// text, which spell it, the newline, and the end of the stream.
#[verifier::rlimit(50)]
proof fn lemma_heading_line_tokens(n: nat, text: Seq<char>)
    requires
        n >= 1,
        forall|i: int| 0 <= i < text.len() ==> text[i] != '\n',
        heading_line(n, text).len() <= usize::MAX,
    ensures
        ({
            let s = heading_line(n, text);
            let toks = tokenize_spec(s);
            let from = (n + 1 + leading_spaces(text)) as int;
            let to = from + run_len(toks, from, Stop::Line);
            &&& count_kind(toks, 0, TokenType::Hash) == n
            &&& count_kind(toks, n as int, TokenType::Space) == 1 + leading_spaces(text)
            &&& literal(toks, from, to) == text.skip(leading_spaces(text) as int)
            &&& toks.len() == to + 2
            &&& toks[0].kind == TokenType::Hash
            &&& toks[0].position == Position { line: 0, column: 0, offset: 0 }
            &&& toks[to].kind == TokenType::Newline
            &&& toks[to + 1].kind == TokenType::Eof
            &&& toks[to + 1].position == Position { line: 1, column: 0, offset: s.len() as usize }
        }),
{
    let s = heading_line(n, text);
    let len = s.len() as int;
    let toks = tokens_from(s, 0);
    let sp = leading_spaces(text) as int;
    lemma_leading_spaces(text);
    assert(len == n + 2 + text.len());
    assert forall|k: int| 0 <= k < n implies s[k] == '#' by {}
    assert(s[n as int] == ' ');
    assert forall|j: int| 0 <= j < text.len() implies s[n + 1 + j] == text[j] by {}
    assert(s[len - 1] == '\n');

    // The markers and the spaces behind them.
    lemma_marker_run(s, 0, n, '#', TokenType::Hash);
    let spaces = (1 + sp) as nat;
    assert forall|k: int| n <= k < n + spaces implies s[k] == ' ' by {
        if k > n {
            assert(s[k] == text[k - n - 1]);
        }
    }
    lemma_marker_run(s, n as int, spaces, ' ', TokenType::Space);
    lemma_count_kind_skip(toks, n as int, TokenType::Space, n as int);
    let from = n + 1 + sp;
    assert(toks.skip(from) =~= toks.skip(n as int).skip(1 + sp));
    assert(toks.skip(from) == tokens_from(s, from));

    // The text up to the newline.
    lemma_line_scan(s, from);
    assert forall|k: int| from <= k < len - 1 implies s[k] != '\n' by {
        assert(s[k] == text[k - n - 1]);
    }
    lemma_line_end_skip(s, from, len - 1);
    assert(line_end(s, len - 1) == len - 1);
    let run = run_len(tokens_from(s, from), 0, Stop::Line) as int;
    lemma_run_len_skip(toks, from, Stop::Line, from);
    let to = from + run;
    assert(toks.len() == from + tokens_from(s, from).len());
    lemma_literal_skip(toks, from, to, from);
    assert(s.subrange(from, len - 1) =~= text.skip(sp));
    assert(toks.skip(to) =~= tokens_from(s, from).skip(run));

    // The newline and the end of the stream.
    lemma_tokens_step(s, len - 1);
    lemma_token_chars(s, len - 1);
    lemma_tokens_end(s, len);
    let tail = tokens_from(s, len - 1);
    assert(toks[to] == tail[0]);
    assert(toks[to + 1] == tail[1]);
    assert(toks.len() == to + 2);
    lemma_first_line(s, len - 1);
    lemma_first_line(s, 0);
    lemma_tokens_step(s, 0);
    assert(toks[0] == token_at(s, 0));
}

/// A line of `n` heading markers, a space, a text without a newline, and a
/// newline is parsed as a document of one heading. Its level is `n`, or six
/// where `n` is greater; its text is the text without its leading spaces;
/// it spans from the origin to the start of the next line.
pub proof fn lemma_heading_law(n: nat, text: Seq<char>)
    requires
        n >= 1,
        forall|i: int| 0 <= i < text.len() ==> text[i] != '\n',
        heading_line(n, text).len() <= usize::MAX,
    ensures
        ({
            let end = Position {
                line: 1,
                column: 0,
                offset: heading_line(n, text).len() as usize,
            };
            parse_spec(heading_line(n, text)) == (Tree::Document {
                children: seq![
                    Tree::Heading {
                        level: heading_level(n),
                        text: text.skip(leading_spaces(text) as int),
                        children: Seq::empty(),
                        start_pos: Some(Position { line: 0, column: 0, offset: 0 }),
                        end_pos: Some(end),
                    },
                ],
                start_pos: Some(Position { line: 0, column: 0, offset: 0 }),
                end_pos: Some(end),
            })
        }),
{
    let s = heading_line(n, text);
    let toks = tokenize_spec(s);
    lemma_heading_line_tokens(n, text);
    let from = (n + 1 + leading_spaces(text)) as int;
    let to = from + run_len(toks, from, Stop::Line);
    assert(blocks_from(toks, to + 1) =~= Seq::empty());
}

/// The offset of the first fence at or after `i`; the end of the text
/// where there is none.
pub open spec fn fence_start(text: Seq<char>, i: int) -> int
    decreases text.len() - i,
{
    if 0 <= i < text.len() && !fence_at(text, i) {
        fence_start(text, i + 1)
    } else {
        i
    }
}

/// The first fence is the same from every offset in front of which no
/// fence starts.
pub proof fn lemma_fence_start_skip(text: Seq<char>, i: int, j: int)
    requires
        0 <= i <= j <= text.len(),
        forall|k: int| i <= k < j ==> !fence_at(text, k),
    ensures
        fence_start(text, i) == fence_start(text, j),
        j <= fence_start(text, j) <= text.len(),
        forall|k: int| j <= k < fence_start(text, j) ==> !fence_at(text, k),
        fence_start(text, j) < text.len() ==> fence_at(text, fence_start(text, j)),
    decreases text.len() - i,
{
    if i < j {
        lemma_fence_start_skip(text, i + 1, j);
    } else if j < text.len() && !fence_at(text, j) {
        lemma_fence_start_skip(text, j + 1, j + 1);
    }
}

/// The token at a fence is the fence; no other token is a fence token, and
/// no fence starts inside one.
pub proof fn lemma_token_fences(text: Seq<char>, i: int)
    requires
        0 <= i < text.len(),
    ensures
        fence_at(text, i) ==> token_kind(text, i) == TokenType::TripleBacktick && token_len(
            text,
            i,
        ) == 3,
        !fence_at(text, i) ==> token_kind(text, i) != TokenType::TripleBacktick,
        !fence_at(text, i) ==> forall|k: int|
            i <= k < i + token_len(text, i) ==> !fence_at(text, k),
{
    lemma_digit_run(text, i + 1);
    lemma_text_run(text, i + 1);
}

/// Reading the code of a fence: from the tokens at offset `i`, the run up to
/// the next fence spells the text up to where that fence starts, and ends at
/// the token that starts there.
pub proof fn lemma_fence_scan(text: Seq<char>, i: int)
    requires
        0 <= i <= text.len(),
    ensures
        ({
            let toks = tokens_from(text, i);
            let run = run_len(toks, 0, Stop::Fence);
            &&& run < toks.len()
            &&& literal(toks, 0, run as int) == text.subrange(i, fence_start(text, i))
            &&& toks.skip(run as int) == tokens_from(text, fence_start(text, i))
        }),
    decreases text.len() - i,
{
    if i < text.len() {
        lemma_token_fences(text, i);
    }
    if i < text.len() && !fence_at(text, i) {
        let next = i + token_len(text, i);
        lemma_token_len(text, i);
        lemma_fence_scan(text, next);
        lemma_fence_start_skip(text, i, next);
        lemma_scan_step(text, i, Stop::Fence, fence_start(text, i));
    }
}

/// Three backticks.
pub open spec fn fence() -> Seq<char> {
    seq!['`', '`', '`']
}

/// A fenced block: the opening fence with its tag, the code, and the
/// closing fence.
pub open spec fn fenced(tag: Seq<char>, code: Seq<char>) -> Seq<char> {
    fence() + tag + seq!['\n'] + code + fence()
}

/// The tokens of a fenced block: the fence, the tokens of the tag, which
/// spell it, the newline, the tokens of the code, which spell it, the fence
/// and the end of the stream.
#[verifier::rlimit(50)]
proof fn lemma_fenced_tokens(tag: Seq<char>, code: Seq<char>)
    requires
        forall|i: int| 0 <= i < tag.len() ==> tag[i] != '\n',
        forall|i: int| 0 <= i < code.len() ==> !fence_at(code + fence(), i),
        fenced(tag, code).len() <= usize::MAX,
    ensures
        ({
            let s = fenced(tag, code);
            let toks = tokenize_spec(s);
            let tag_to = 1 + run_len(toks, 1, Stop::Line) as int;
            let to = tag_to + 1 + run_len(toks, tag_to + 1, Stop::Fence);
            &&& toks[0].kind == TokenType::TripleBacktick
            &&& toks[0].position == Position { line: 0, column: 0, offset: 0 }
            &&& literal(toks, 1, tag_to) == tag
            &&& toks[tag_to].kind == TokenType::Newline
            &&& literal(toks, tag_to + 1, to) == code
            &&& toks[to].kind == TokenType::TripleBacktick
            &&& toks[to + 1].kind == TokenType::Eof
            &&& toks[to + 1].position == position_at(s, s.len() as int)
            &&& toks.len() == to + 2
        }),
{
    let s = fenced(tag, code);
    let len = s.len() as int;
    let toks = tokens_from(s, 0);
    let t = tag.len() as int;
    let c = code.len() as int;
    assert(len == t + c + 7);
    assert(fence_at(s, 0));
    assert forall|j: int| 0 <= j < t implies s[3 + j] == tag[j] by {}
    assert(s[3 + t] == '\n');
    assert forall|j: int| 0 <= j < c + 3 implies s[4 + t + j] == (code + fence())[j] by {}
    assert(fence_at(s, 4 + t + c));

    // The opening fence.
    lemma_tokens_step(s, 0);
    lemma_token_fences(s, 0);
    lemma_first_line(s, 0);
    let opened = tokens_from(s, 3);
    assert(toks.skip(1) == opened);

    // The tag up to the newline.
    lemma_line_scan(s, 3);
    assert forall|k: int| 3 <= k < 3 + t implies s[k] != '\n' by {
        assert(s[k] == tag[k - 3]);
    }
    lemma_line_end_skip(s, 3, 3 + t);
    assert(line_end(s, 3 + t) == 3 + t);
    let tag_run = run_len(opened, 0, Stop::Line) as int;
    lemma_run_len_skip(toks, 1, Stop::Line, 1);
    let tag_to = 1 + tag_run;
    lemma_literal_skip(toks, 1, tag_to, 1);
    assert(s.subrange(3, 3 + t) =~= tag);
    assert(toks.skip(tag_to) =~= opened.skip(tag_run));

    // The newline.
    lemma_tokens_step(s, 3 + t);
    lemma_token_chars(s, 3 + t);
    let line = tokens_from(s, 3 + t);
    assert(toks[tag_to] == line[0]);
    let body = tokens_from(s, 4 + t);
    assert(toks.skip(tag_to + 1) =~= line.skip(1));

    // The code up to the closing fence.
    lemma_fence_scan(s, 4 + t);
    assert forall|k: int| 4 + t <= k < 4 + t + c implies !fence_at(s, k) by {
        let j = k - 4 - t;
        assert(!fence_at(code + fence(), j));
        if fence_at(s, k) {
            assert(s[k] == (code + fence())[j]);
            assert(s[k + 1] == (code + fence())[j + 1]);
            assert(s[k + 2] == (code + fence())[j + 2]);
        }
    }
    lemma_fence_start_skip(s, 4 + t, 4 + t + c);
    assert(fence_start(s, 4 + t + c) == 4 + t + c);
    let code_run = run_len(body, 0, Stop::Fence) as int;
    lemma_run_len_skip(toks, tag_to + 1, Stop::Fence, tag_to + 1);
    let to = tag_to + 1 + code_run;
    assert(toks.len() == tag_to + 1 + body.len());
    lemma_literal_skip(toks, tag_to + 1, to, tag_to + 1);
    assert(s.subrange(4 + t, 4 + t + c) =~= code);
    assert(toks.skip(to) =~= body.skip(code_run));

    // The closing fence and the end of the stream.
    lemma_tokens_step(s, 4 + t + c);
    lemma_token_fences(s, 4 + t + c);
    lemma_tokens_end(s, len);
    let closing = tokens_from(s, 4 + t + c);
    assert(toks[to] == closing[0]);
    assert(toks[to + 1] == closing[1]);
    assert(toks.len() == to + 2);
}

/// A fence with a tag that has no newline, around a code in which no fence
/// starts, not even one that runs into the closing fence, is parsed as a
/// document of one code block. The language is the tag without the
/// whitespace around it, or `text` where nothing is left: a tag that neither
/// starts nor ends with whitespace is the language as it stands. The code is
/// the code as it stands, character for character.
pub proof fn lemma_fence_law(tag: Seq<char>, code: Seq<char>)
    requires
        forall|i: int| 0 <= i < tag.len() ==> tag[i] != '\n',
        forall|i: int| 0 <= i < code.len() ==> !fence_at(code + fence(), i),
        fenced(tag, code).len() <= usize::MAX,
    ensures
        tag.len() > 0 && !is_whitespace(tag[0]) && !is_whitespace(tag.last()) ==> language_of(tag)
            == tag,
        ({
            let end = position_at(fenced(tag, code), fenced(tag, code).len() as int);
            parse_spec(fenced(tag, code)) == (Tree::Document {
                children: seq![
                    Tree::CodeBlock {
                        language: language_of(tag),
                        code,
                        start_pos: Some(Position { line: 0, column: 0, offset: 0 }),
                        end_pos: Some(end),
                    },
                ],
                start_pos: Some(Position { line: 0, column: 0, offset: 0 }),
                end_pos: Some(end),
            })
        }),
{
    let s = fenced(tag, code);
    let toks = tokenize_spec(s);
    lemma_fenced_tokens(tag, code);
    let tag_to = 1 + run_len(toks, 1, Stop::Line) as int;
    let to = tag_to + 1 + run_len(toks, tag_to + 1, Stop::Fence);
    assert(blocks_from(toks, to + 1) =~= Seq::empty());
}

} // verus!
