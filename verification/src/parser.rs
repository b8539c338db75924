//! The parser: a recursive descent over the tokens of a text that builds the
//! document tree, one block at a time.

use crate::ast::{views, ASTNode, Position, Tree};
use crate::text::{all_whitespace, chars_of, is_blank, trim, trimmed};
use crate::tokenizer::{token_views, tokenize_spec, Token, TokenModel, TokenType, Tokenizer};
use vstd::prelude::*;

verus! {

/// What ends a run of literal text. The end of the stream always does.
#[derive(Debug, Clone, Copy, PartialEq, Eq, Structural)]
pub enum Stop {
    /// The end of the line.
    Line,
    /// A closing fence.
    Fence,
    /// The end of the line, or a token that may start another block.
    Block,
}

/// The kind of the token at `pos`; past the tokens it is the end of stream.
pub open spec fn kind_at(toks: Seq<TokenModel>, pos: int) -> TokenType {
    if 0 <= pos < toks.len() {
        toks[pos].kind
    } else {
        TokenType::Eof
    }
}

/// The position of the token at `pos`, if there is one.
pub open spec fn position_of(toks: Seq<TokenModel>, pos: int) -> Option<Position> {
    if 0 <= pos < toks.len() {
        Some(toks[pos].position)
    } else {
        None
    }
}

/// A marker of an unordered list item.
pub open spec fn is_bullet(kind: TokenType) -> bool {
    kind == TokenType::Dash || kind == TokenType::Asterisk || kind == TokenType::Plus
}

/// Whether a token of this kind ends a run of literal text.
pub open spec fn stops(stop: Stop, kind: TokenType) -> bool {
    kind == TokenType::Eof || match stop {
        Stop::Line => kind == TokenType::Newline,
        Stop::Fence => kind == TokenType::TripleBacktick,
        Stop::Block => kind == TokenType::Newline || kind == TokenType::Hash || kind
            == TokenType::TripleBacktick || is_bullet(kind),
    }
}

/// The number of consecutive tokens of the given kind from `pos` on.
pub open spec fn count_kind(toks: Seq<TokenModel>, pos: int, kind: TokenType) -> nat
    decreases toks.len() - pos,
{
    if 0 <= pos < toks.len() && toks[pos].kind == kind {
        1 + count_kind(toks, pos + 1, kind)
    } else {
        0
    }
}

/// The number of tokens from `pos` up to the first one that stops the run.
pub open spec fn run_len(toks: Seq<TokenModel>, pos: int, stop: Stop) -> nat
    decreases toks.len() - pos,
{
    if 0 <= pos < toks.len() && !stops(stop, toks[pos].kind) {
        1 + run_len(toks, pos + 1, stop)
    } else {
        0
    }
}

/// One if a newline stands at `pos`, else zero.
pub open spec fn newline_len(toks: Seq<TokenModel>, pos: int) -> nat {
    if kind_at(toks, pos) == TokenType::Newline {
        1
    } else {
        0
    }
}

/// The text of the tokens in `[from, to)`, joined as it stands.
pub open spec fn literal(toks: Seq<TokenModel>, from: int, to: int) -> Seq<char>
    decreases to - from,
{
    if from >= to {
        Seq::empty()
    } else {
        literal(toks, from, to - 1) + toks[to - 1].value
    }
}

/// The result of parsing one construct: the node, if one is made, and the
/// index of the first token after it.
pub struct Parsed {
    pub node: Option<Tree>,
    pub next: int,
}

/// The level of a heading that opens with `hashes` markers.
pub open spec fn heading_level(hashes: nat) -> u8 {
    if hashes > 6 {
        6
    } else {
        hashes as u8
    }
}

/// A heading at `pos`: the markers give the level, the spaces after them
/// are dropped, and the rest of the line is the text. The newline that ends
/// the line belongs to the heading.
pub open spec fn heading_at(toks: Seq<TokenModel>, pos: int) -> Parsed {
    let hashes = count_kind(toks, pos, TokenType::Hash);
    let from = pos + hashes + count_kind(toks, pos + hashes, TokenType::Space);
    let to = from + run_len(toks, from, Stop::Line);
    let next = to + newline_len(toks, to);
    Parsed {
        node: Some(
            Tree::Heading {
                level: heading_level(hashes),
                text: literal(toks, from, to),
                children: Seq::empty(),
                start_pos: position_of(toks, pos),
                end_pos: position_of(toks, next),
            },
        ),
        next,
    }
}

/// The language tag of a fence whose opening line holds `tag`.
pub open spec fn language_of(tag: Seq<char>) -> Seq<char> {
    if trim(tag).len() == 0 {
        "text"@
    } else {
        trim(tag)
    }
}

/// A fenced code block at `pos`: the rest of the opening line is the
/// language tag, and everything up to the closing fence, or to the end of the
/// stream, is the code. The closing fence and a newline after it belong to
/// the block.
pub open spec fn code_block_at(toks: Seq<TokenModel>, pos: int) -> Parsed {
    let tag_to = pos + 1 + run_len(toks, pos + 1, Stop::Line);
    let from = tag_to + newline_len(toks, tag_to);
    let to = from + run_len(toks, from, Stop::Fence);
    let after = if kind_at(toks, to) == TokenType::TripleBacktick {
        to + 1
    } else {
        to
    };
    let next = after + newline_len(toks, after);
    Parsed {
        node: Some(
            Tree::CodeBlock {
                language: language_of(literal(toks, pos + 1, tag_to)),
                code: literal(toks, from, to),
                start_pos: position_of(toks, pos),
                end_pos: position_of(toks, next),
            },
        ),
        next,
    }
}

/// Whether a list item of the given kind starts at `pos`.
pub open spec fn is_item(toks: Seq<TokenModel>, pos: int, ordered: bool) -> bool {
    if ordered {
        kind_at(toks, pos) == TokenType::Number && kind_at(toks, pos + 1) == TokenType::Dot
    } else {
        is_bullet(kind_at(toks, pos))
    }
}

/// The number of tokens of an item's marker.
pub open spec fn marker_len(ordered: bool) -> nat {
    if ordered {
        2
    } else {
        1
    }
}

/// A list item at `pos`: after the marker and the spaces that follow it, the
/// rest of the line is the text. The newline that ends the line belongs to
/// the item.
pub open spec fn item_at(toks: Seq<TokenModel>, pos: int, ordered: bool) -> Parsed {
    let body = pos + marker_len(ordered);
    let from = body + count_kind(toks, body, TokenType::Space);
    let to = from + run_len(toks, from, Stop::Line);
    let next = to + newline_len(toks, to);
    Parsed {
        node: Some(
            Tree::ListItem {
                text: literal(toks, from, to),
                children: Seq::empty(),
                start_pos: position_of(toks, pos),
                end_pos: position_of(toks, next),
            },
        ),
        next,
    }
}

/// The items of the longest run of item lines of one kind that starts at
/// `pos`.
pub open spec fn items_from(toks: Seq<TokenModel>, pos: int, ordered: bool) -> Seq<Tree>
    decreases
            if pos <= toks.len() {
                toks.len() - pos
            } else {
                0
            },
{
    if is_item(toks, pos, ordered) {
        let item = item_at(toks, pos, ordered);
        seq![item.node->0] + items_from(toks, item.next, ordered)
    } else {
        Seq::empty()
    }
}

/// The index of the first token after the run of item lines that starts at
/// `pos`.
pub open spec fn items_end(toks: Seq<TokenModel>, pos: int, ordered: bool) -> int
    decreases
            if pos <= toks.len() {
                toks.len() - pos
            } else {
                0
            },
{
    if is_item(toks, pos, ordered) {
        items_end(toks, item_at(toks, pos, ordered).next, ordered)
    } else {
        pos
    }
}

/// A list at `pos`: the longest run of item lines of one kind. The first
/// line that is no such item ends the list and is left where it is.
pub open spec fn list_at(toks: Seq<TokenModel>, pos: int, ordered: bool) -> Parsed {
    let next = items_end(toks, pos, ordered);
    Parsed {
        node: Some(
            Tree::List {
                ordered,
                items: items_from(toks, pos, ordered),
                start_pos: position_of(toks, pos),
                end_pos: position_of(toks, next),
            },
        ),
        next,
    }
}

/// A blockquote at `pos`: one quoted line, held as a single paragraph. The
/// paragraph starts where the quoted text starts and ends with the quote.
pub open spec fn blockquote_at(toks: Seq<TokenModel>, pos: int) -> Parsed {
    let from = pos + 1 + count_kind(toks, pos + 1, TokenType::Space);
    let to = from + run_len(toks, from, Stop::Line);
    let next = to + newline_len(toks, to);
    Parsed {
        node: Some(
            Tree::Blockquote {
                children: seq![
                    Tree::Paragraph {
                        text: literal(toks, from, to),
                        inline_nodes: Seq::empty(),
                        start_pos: position_of(toks, from),
                        end_pos: position_of(toks, next),
                    },
                ],
                start_pos: position_of(toks, pos),
                end_pos: position_of(toks, next),
            },
        ),
        next,
    }
}

/// A paragraph at `pos`: the text up to the end of the line or to a token
/// that may start another block. A newline that ends it is consumed. Text
/// that is empty or all whitespace makes no node.
pub open spec fn paragraph_at(toks: Seq<TokenModel>, pos: int) -> Parsed {
    let to = pos + run_len(toks, pos, Stop::Block);
    let next = to + newline_len(toks, to);
    let text = literal(toks, pos, to);
    Parsed {
        node: if is_blank(text) {
            None
        } else {
            Some(
                Tree::Paragraph {
                    text,
                    inline_nodes: Seq::empty(),
                    start_pos: position_of(toks, pos),
                    end_pos: position_of(toks, next),
                },
            )
        },
        next,
    }
}

/// The block at `pos`, chosen by the kind of the token there.
pub open spec fn block_at(toks: Seq<TokenModel>, pos: int) -> Parsed {
    let kind = kind_at(toks, pos);
    if kind == TokenType::Hash {
        heading_at(toks, pos)
    } else if kind == TokenType::TripleBacktick {
        code_block_at(toks, pos)
    } else if is_bullet(kind) {
        list_at(toks, pos, false)
    } else if kind == TokenType::Number && kind_at(toks, pos + 1) == TokenType::Dot {
        list_at(toks, pos, true)
    } else if kind == TokenType::GT {
        blockquote_at(toks, pos)
    } else if kind == TokenType::Eof {
        Parsed { node: None, next: pos }
    } else {
        paragraph_at(toks, pos)
    }
}

/// The blocks from `pos` to the end of the stream. Newlines between blocks
/// make no node.
pub open spec fn blocks_from(toks: Seq<TokenModel>, pos: int) -> Seq<Tree>
    decreases
            if pos <= toks.len() {
                toks.len() - pos
            } else {
                0
            },
{
    if kind_at(toks, pos) == TokenType::Eof {
        Seq::empty()
    } else if kind_at(toks, pos) == TokenType::Newline {
        blocks_from(toks, pos + 1)
    } else {
        let block = block_at(toks, pos);
        // A block always ends after its first token.
        let rest = if pos < block.next {
            blocks_from(toks, block.next)
        } else {
            Seq::empty()
        };
        match block.node {
            Some(node) => seq![node] + rest,
            None => rest,
        }
    }
}

/// The document made of a stream of tokens. It spans from the first token to
/// the last.
pub open spec fn document_of(toks: Seq<TokenModel>) -> Tree {
    Tree::Document {
        children: blocks_from(toks, 0),
        start_pos: position_of(toks, 0),
        end_pos: position_of(toks, toks.len() - 1),
    }
}

/// The document that a text stands for.
pub open spec fn parse_spec(text: Seq<char>) -> Tree {
    document_of(tokenize_spec(text))
}

/// A run of tokens of one kind stays inside the stream.
pub proof fn lemma_count_kind(toks: Seq<TokenModel>, pos: int, kind: TokenType)
    requires
        0 <= pos <= toks.len(),
    ensures
        pos + count_kind(toks, pos, kind) <= toks.len(),
        kind_at(toks, pos + count_kind(toks, pos, kind)) != kind || kind == TokenType::Eof,
    decreases toks.len() - pos,
{
    if pos < toks.len() && toks[pos].kind == kind {
        lemma_count_kind(toks, pos + 1, kind);
    }
}

/// A run of literal text stays inside the stream and ends at a stop.
pub proof fn lemma_run_len(toks: Seq<TokenModel>, pos: int, stop: Stop)
    requires
        0 <= pos <= toks.len(),
    ensures
        pos + run_len(toks, pos, stop) <= toks.len(),
        stops(stop, kind_at(toks, pos + run_len(toks, pos, stop))),
        forall|k: int|
            pos <= k < pos + run_len(toks, pos, stop) ==> !stops(
                stop,
                #[trigger] kind_at(toks, k),
            ),
    decreases toks.len() - pos,
{
    if pos < toks.len() && !stops(stop, toks[pos].kind) {
        lemma_run_len(toks, pos + 1, stop);
    }
}

/// A stream that ends with its only end-of-stream token.
pub open spec fn closed_stream(toks: Seq<TokenModel>) -> bool {
    &&& toks.len() >= 1
    &&& toks.last().kind == TokenType::Eof
    &&& forall|k: int| 0 <= k < toks.len() - 1 ==> (#[trigger] toks[k]).kind != TokenType::Eof
}

/// In a closed stream a run of tokens of one kind ends before the last token.
pub proof fn lemma_count_kind_closed(toks: Seq<TokenModel>, pos: int, kind: TokenType)
    requires
        closed_stream(toks),
        0 <= pos < toks.len(),
        kind != TokenType::Eof,
    ensures
        pos + count_kind(toks, pos, kind) < toks.len(),
    decreases toks.len() - pos,
{
    if toks[pos].kind == kind {
        lemma_count_kind_closed(toks, pos + 1, kind);
    }
}

/// In a closed stream a run of literal text ends before or at the last token.
pub proof fn lemma_run_len_closed(toks: Seq<TokenModel>, pos: int, stop: Stop)
    requires
        closed_stream(toks),
        0 <= pos < toks.len(),
    ensures
        pos + run_len(toks, pos, stop) < toks.len(),
    decreases toks.len() - pos,
{
    if !stops(stop, toks[pos].kind) {
        lemma_run_len_closed(toks, pos + 1, stop);
    }
}

/// A markdown parser. It keeps the tokens of the text it parsed last and a
/// list of diagnostics.
pub struct MarkdownParser {
    tokens: Vec<Token>,
    pos: usize,
    errors: Vec<String>,
}

impl MarkdownParser {
    /// The tokens being parsed.
    pub closed spec fn stream(&self) -> Seq<TokenModel> {
        token_views(self.tokens@)
    }

    /// The index of the next token to read.
    pub closed spec fn cursor(&self) -> int {
        self.pos as int
    }

    /// The diagnostics gathered by the last parse.
    pub closed spec fn diagnostics(&self) -> Seq<Seq<char>> {
        Seq::new(self.errors@.len(), |i: int| self.errors@[i]@)
    }

    #[verifier::type_invariant]
    closed spec fn wf(&self) -> bool {
        self.pos <= self.tokens.len()
    }

    /// The parser has the same tokens and diagnostics as `other`.
    spec fn same_input(&self, other: &Self) -> bool {
        self.tokens == other.tokens && self.errors == other.errors
    }

    /// A parser that has parsed nothing yet.
    pub fn new() -> (parser: Self)
        ensures
            parser.stream().len() == 0,
            parser.diagnostics().len() == 0,
    {
        MarkdownParser { tokens: Vec::new(), pos: 0, errors: Vec::new() }
    }

    /// Parses a text into its document. Every text has one: a construct that
    /// lacks its end runs to the end of the text. No diagnostics are made.
    pub fn parse(&mut self, text: &str) -> (document: ASTNode)
        ensures
            document@ == parse_spec(text@),
            final(self).stream() == tokenize_spec(text@),
            final(self).diagnostics().len() == 0,
    {
        let mut tokenizer = Tokenizer::new(text.to_owned());
        self.pos = 0;
        self.tokens = tokenizer.tokenize();
        self.errors = Vec::new();
        let ghost toks = self.stream();
        let start_pos = self.position();
        let mut children: Vec<ASTNode> = Vec::new();
        loop
            invariant
                self.stream() == toks,
                self.errors@.len() == 0,
                0 <= self.pos <= self.tokens.len(),
                views(children@) + blocks_from(toks, self.pos as int) == blocks_from(toks, 0),
            ensures
                self.stream() == toks,
                self.errors@.len() == 0,
                views(children@) == blocks_from(toks, 0),
            decreases self.tokens.len() - self.pos,
        {
            let kind = self.peek_type();
            if kind == TokenType::Eof {
                break ;
            }
            if kind == TokenType::Newline {
                self.advance();
                continue ;
            }
            let ghost at = self.pos as int;
            proof {
                lemma_block_progress(toks, at);
            }
            match self.parse_block() {
                Some(node) => {
                    children.push(node);
                },
                None => {},
            }
            proof {
                use_type_invariant(&*self);
            }
        }
        let end_pos = self.last_position();
        let document = ASTNode::Document { children, start_pos, end_pos };
        assert(document@.children() =~= blocks_from(toks, 0));
        document
    }

    /// The diagnostics of the last parse.
    pub fn errors(&self) -> (errors: &[String])
        ensures
            errors@.len() == self.diagnostics().len(),
            forall|i: int| 0 <= i < errors@.len() ==> errors@[i]@ == self.diagnostics()[i],
    {
        self.errors.as_slice()
    }

    fn peek(&self) -> (token: Option<&Token>)
        ensures
            token is Some <==> self.cursor() < self.stream().len(),
            token matches Some(t) ==> t@ == self.stream()[self.cursor()],
    {
        if self.pos < self.tokens.len() {
            Some(&self.tokens[self.pos])
        } else {
            None
        }
    }

    fn peek_type(&self) -> (kind: TokenType)
        ensures
            kind == kind_at(self.stream(), self.cursor()),
    {
        match self.peek() {
            Some(token) => token.token_type,
            None => TokenType::Eof,
        }
    }

    fn peek_offset(&self, offset: usize) -> (token: Option<&Token>)
        ensures
            token is Some <==> self.cursor() + offset < self.stream().len(),
            token matches Some(t) ==> t@ == self.stream()[self.cursor() + offset],
    {
        proof {
            use_type_invariant(self);
        }
        if offset < self.tokens.len() - self.pos {
            Some(&self.tokens[self.pos + offset])
        } else {
            None
        }
    }

    /// The position of the token at the cursor.
    fn position(&self) -> (p: Option<Position>)
        ensures
            p == position_of(self.stream(), self.cursor()),
    {
        match self.peek() {
            Some(token) => Some(token.position),
            None => None,
        }
    }

    /// The position of the last token.
    fn last_position(&self) -> (p: Option<Position>)
        ensures
            p == position_of(self.stream(), self.stream().len() - 1),
    {
        if self.tokens.len() > 0 {
            Some(self.tokens[self.tokens.len() - 1].position)
        } else {
            None
        }
    }

    /// Moves past the token at the cursor, if there is one.
    fn advance(&mut self)
        ensures
            final(self).same_input(old(self)),
            final(self).cursor() == if old(self).cursor() < old(self).stream().len() {
                old(self).cursor() + 1
            } else {
                old(self).cursor()
            },
    {
        if self.pos < self.tokens.len() {
            self.pos = self.pos + 1;
        }
    }

    /// Moves past a newline, if one stands at the cursor.
    fn skip_newline(&mut self)
        ensures
            final(self).same_input(old(self)),
            final(self).cursor() == old(self).cursor() + newline_len(
                old(self).stream(),
                old(self).cursor(),
            ),
    {
        if self.peek_type() == TokenType::Newline {
            self.advance();
        }
    }

    /// Moves past the tokens of the given kind and counts them.
    fn skip_kind(&mut self, kind: TokenType) -> (count: usize)
        requires
            kind != TokenType::Eof,
        ensures
            final(self).same_input(old(self)),
            count == count_kind(old(self).stream(), old(self).cursor(), kind),
            final(self).cursor() == old(self).cursor() + count,
    {
        let mut count: usize = 0;
        proof {
            use_type_invariant(&*self);
        }
        while self.peek_type() == kind
            invariant
                self.same_input(old(self)),
                kind != TokenType::Eof,
                self.pos <= self.tokens.len(),
                self.cursor() == old(self).cursor() + count,
                count_kind(old(self).stream(), old(self).cursor(), kind) == count + count_kind(
                    self.stream(),
                    self.cursor(),
                    kind,
                ),
            decreases self.tokens.len() - self.pos,
        {
            self.advance();
            count = count + 1;
            proof {
                use_type_invariant(&*self);
            }
        }
        count
    }

    fn skip_whitespace(&mut self)
        ensures
            final(self).same_input(old(self)),
            final(self).cursor() == old(self).cursor() + count_kind(
                old(self).stream(),
                old(self).cursor(),
                TokenType::Space,
            ),
    {
        self.skip_kind(TokenType::Space);
    }

    /// Gathers the text of the tokens up to the next stop.
    fn collect(&mut self, stop: Stop) -> (text: String)
        ensures
            final(self).same_input(old(self)),
            final(self).cursor() == old(self).cursor() + run_len(
                old(self).stream(),
                old(self).cursor(),
                stop,
            ),
            text@ == literal(old(self).stream(), old(self).cursor(), final(self).cursor()),
    {
        let mut text = String::new();
        proof {
            use_type_invariant(&*self);
        }
        loop
            invariant
                self.same_input(old(self)),
                self.pos <= self.tokens.len(),
                old(self).cursor() <= self.cursor(),
                run_len(old(self).stream(), old(self).cursor(), stop) == self.cursor() - old(
                    self,
                ).cursor() + run_len(self.stream(), self.cursor(), stop),
                text@ == literal(self.stream(), old(self).cursor(), self.cursor()),
            ensures
                self.same_input(old(self)),
                self.cursor() == old(self).cursor() + run_len(
                    old(self).stream(),
                    old(self).cursor(),
                    stop,
                ),
                text@ == literal(self.stream(), old(self).cursor(), self.cursor()),
            decreases self.tokens.len() - self.pos,
        {
            let kind = self.peek_type();
            if Self::is_stop(stop, kind) {
                break ;
            }
            match self.peek() {
                Some(token) => {
                    text.append(token.value.as_str());
                },
                None => {},
            }
            self.advance();
            proof {
                use_type_invariant(&*self);
            }
        }
        text
    }

    fn is_stop(stop: Stop, kind: TokenType) -> (b: bool)
        ensures
            b == stops(stop, kind),
    {
        kind == TokenType::Eof || match stop {
            Stop::Line => kind == TokenType::Newline,
            Stop::Fence => kind == TokenType::TripleBacktick,
            Stop::Block => kind == TokenType::Newline || kind == TokenType::Hash || kind
                == TokenType::TripleBacktick || Self::bullet(kind),
        }
    }

    fn bullet(kind: TokenType) -> (b: bool)
        ensures
            b == is_bullet(kind),
    {
        kind == TokenType::Dash || kind == TokenType::Asterisk || kind == TokenType::Plus
    }

    /// Whether a list item of the given kind starts at the cursor.
    fn at_item(&self, ordered: bool) -> (b: bool)
        ensures
            b == is_item(self.stream(), self.cursor(), ordered),
    {
        if ordered {
            self.peek_type() == TokenType::Number && match self.peek_offset(1) {
                Some(next) => next.token_type == TokenType::Dot,
                None => false,
            }
        } else {
            Self::bullet(self.peek_type())
        }
    }

    fn parse_block(&mut self) -> (node: Option<ASTNode>)
        ensures
            final(self).same_input(old(self)),
            final(self).cursor() == block_at(old(self).stream(), old(self).cursor()).next,
            match node {
                Some(n) => block_at(old(self).stream(), old(self).cursor()).node == Some(n@),
                None => block_at(old(self).stream(), old(self).cursor()).node is None,
            },
    {
        let kind = self.peek_type();
        match kind {
            TokenType::Hash => Some(self.parse_heading()),
            TokenType::TripleBacktick => Some(self.parse_code_block()),
            TokenType::Dash | TokenType::Asterisk | TokenType::Plus => Some(self.parse_list(false)),
            TokenType::Number => {
                if self.at_item(true) {
                    Some(self.parse_list(true))
                } else {
                    self.parse_paragraph()
                }
            },
            TokenType::GT => Some(self.parse_blockquote()),
            TokenType::Eof => None,
            _ => self.parse_paragraph(),
        }
    }

    fn parse_heading(&mut self) -> (node: ASTNode)
        ensures
            final(self).same_input(old(self)),
            final(self).cursor() == heading_at(old(self).stream(), old(self).cursor()).next,
            heading_at(old(self).stream(), old(self).cursor()).node == Some(node@),
    {
        let start_pos = self.position();
        let hashes = self.skip_kind(TokenType::Hash);
        let level: u8 = if hashes > 6 {
            6
        } else {
            hashes as u8
        };
        self.skip_whitespace();
        let text = self.collect(Stop::Line);
        self.skip_newline();
        let end_pos = self.position();
        let node = ASTNode::Heading { level, text, children: Vec::new(), start_pos, end_pos };
        assert(node@.children() =~= Seq::empty());
        node
    }

    fn parse_code_block(&mut self) -> (node: ASTNode)
        requires
            old(self).cursor() < old(self).stream().len(),
        ensures
            final(self).same_input(old(self)),
            final(self).cursor() == code_block_at(old(self).stream(), old(self).cursor()).next,
            code_block_at(old(self).stream(), old(self).cursor()).node == Some(node@),
    {
        let start_pos = self.position();
        self.advance();
        let tag = self.collect(Stop::Line);
        let tag_chars = chars_of(tag.as_str());
        let trimmed_tag = trimmed(&tag_chars);
        let language = if trimmed_tag.as_str().is_empty() {
            "text".to_owned()
        } else {
            trimmed_tag
        };
        self.skip_newline();
        let code = self.collect(Stop::Fence);
        if self.peek_type() == TokenType::TripleBacktick {
            self.advance();
        }
        self.skip_newline();
        let end_pos = self.position();
        ASTNode::CodeBlock { language, code, start_pos, end_pos }
    }

    fn parse_list(&mut self, ordered: bool) -> (node: ASTNode)
        ensures
            final(self).same_input(old(self)),
            final(self).cursor() == list_at(old(self).stream(), old(self).cursor(), ordered).next,
            list_at(old(self).stream(), old(self).cursor(), ordered).node == Some(node@),
    {
        let start_pos = self.position();
        let mut items: Vec<ASTNode> = Vec::new();
        let ghost toks = self.stream();
        let ghost start = self.cursor();
        proof {
            use_type_invariant(&*self);
        }
        loop
            invariant
                self.same_input(old(self)),
                self.stream() == toks,
                self.pos <= self.tokens.len(),
                views(items@) + items_from(toks, self.cursor(), ordered) == items_from(
                    toks,
                    start,
                    ordered,
                ),
                items_end(toks, self.cursor(), ordered) == items_end(toks, start, ordered),
            ensures
                self.same_input(old(self)),
                self.stream() == toks,
                views(items@) == items_from(toks, start, ordered),
                self.cursor() == items_end(toks, start, ordered),
            decreases self.tokens.len() - self.pos,
        {
            if !self.at_item(ordered) {
                break ;
            }
            let item_start = self.position();
            self.advance();
            if ordered {
                self.advance();
            }
            self.skip_whitespace();
            let text = self.collect(Stop::Line);
            self.skip_newline();
            let item_end = self.position();
            let item = ASTNode::ListItem {
                text,
                children: Vec::new(),
                start_pos: item_start,
                end_pos: item_end,
            };
            proof {
                use_type_invariant(&*self);
                assert(item@.children() =~= Seq::empty());
            }
            items.push(item);
        }
        let end_pos = self.position();
        let node = ASTNode::List { ordered, items, start_pos, end_pos };
        assert(node@.children() =~= items_from(toks, start, ordered));
        node
    }

    fn parse_blockquote(&mut self) -> (node: ASTNode)
        requires
            old(self).cursor() < old(self).stream().len(),
        ensures
            final(self).same_input(old(self)),
            final(self).cursor() == blockquote_at(old(self).stream(), old(self).cursor()).next,
            blockquote_at(old(self).stream(), old(self).cursor()).node == Some(node@),
    {
        let start_pos = self.position();
        self.advance();
        self.skip_whitespace();
        let text_pos = self.position();
        let text = self.collect(Stop::Line);
        self.skip_newline();
        let end_pos = self.position();
        let paragraph = ASTNode::Paragraph {
            text,
            inline_nodes: Vec::new(),
            start_pos: text_pos,
            end_pos,
        };
        assert(paragraph@.children() =~= Seq::empty());
        let mut children: Vec<ASTNode> = Vec::new();
        children.push(paragraph);
        let node = ASTNode::Blockquote { children, start_pos, end_pos };
        assert(node@.children() =~= seq![paragraph@]);
        node
    }

    fn parse_paragraph(&mut self) -> (node: Option<ASTNode>)
        ensures
            final(self).same_input(old(self)),
            final(self).cursor() == paragraph_at(old(self).stream(), old(self).cursor()).next,
            match node {
                Some(n) => paragraph_at(old(self).stream(), old(self).cursor()).node == Some(n@),
                None => paragraph_at(old(self).stream(), old(self).cursor()).node is None,
            },
    {
        let start_pos = self.position();
        let text = self.collect(Stop::Block);
        self.skip_newline();
        let chars = chars_of(text.as_str());
        if all_whitespace(&chars) {
            return None;
        }
        let end_pos = self.position();
        let node = ASTNode::Paragraph { text, inline_nodes: Vec::new(), start_pos, end_pos };
        assert(node@.children() =~= Seq::empty());
        Some(node)
    }
}

impl Default for MarkdownParser {
    fn default() -> (parser: Self)
        ensures
            parser.stream().len() == 0,
            parser.diagnostics().len() == 0,
    {
        Self::new()
    }
}

/// A block that starts at a token which is neither a newline nor the end of
/// the stream takes at least that token and ends inside the stream.
pub proof fn lemma_block_progress(toks: Seq<TokenModel>, pos: int)
    requires
        0 <= pos < toks.len(),
        toks[pos].kind != TokenType::Eof,
        toks[pos].kind != TokenType::Newline,
    ensures
        pos < block_at(toks, pos).next <= toks.len(),
{
    let kind = toks[pos].kind;
    if kind == TokenType::Hash {
        lemma_count_kind(toks, pos, TokenType::Hash);
        let body = pos + count_kind(toks, pos, TokenType::Hash);
        lemma_count_kind(toks, body, TokenType::Space);
        let from = body + count_kind(toks, body, TokenType::Space);
        lemma_run_len(toks, from, Stop::Line);
    } else if kind == TokenType::TripleBacktick {
        lemma_run_len(toks, pos + 1, Stop::Line);
        let tag_to = pos + 1 + run_len(toks, pos + 1, Stop::Line);
        let from = tag_to + newline_len(toks, tag_to);
        lemma_run_len(toks, from, Stop::Fence);
    } else if is_bullet(kind) {
        lemma_items_end(toks, pos, false);
    } else if kind == TokenType::Number && kind_at(toks, pos + 1) == TokenType::Dot {
        lemma_items_end(toks, pos, true);
    } else if kind == TokenType::GT {
        lemma_count_kind(toks, pos + 1, TokenType::Space);
        let from = pos + 1 + count_kind(toks, pos + 1, TokenType::Space);
        lemma_run_len(toks, from, Stop::Line);
    } else {
        lemma_run_len(toks, pos, Stop::Block);
    }
}

/// An item takes at least its marker and ends inside the stream.
pub proof fn lemma_item_progress(toks: Seq<TokenModel>, pos: int, ordered: bool)
    requires
        0 <= pos < toks.len(),
        is_item(toks, pos, ordered),
    ensures
        pos < item_at(toks, pos, ordered).next <= toks.len(),
{
    let body = pos + marker_len(ordered);
    lemma_count_kind(toks, body, TokenType::Space);
    let from = body + count_kind(toks, body, TokenType::Space);
    lemma_run_len(toks, from, Stop::Line);
}

/// A run of items that starts with an item ends after it, inside the stream.
pub proof fn lemma_items_end(toks: Seq<TokenModel>, pos: int, ordered: bool)
    requires
        0 <= pos <= toks.len(),
    ensures
        pos <= items_end(toks, pos, ordered) <= toks.len(),
        0 <= pos < toks.len() && is_item(toks, pos, ordered) ==> pos < items_end(
            toks,
            pos,
            ordered,
        ),
    decreases toks.len() - pos,
{
    if pos < toks.len() && is_item(toks, pos, ordered) {
        lemma_item_progress(toks, pos, ordered);
        lemma_items_end(toks, item_at(toks, pos, ordered).next, ordered);
    }
}

} // verus!
