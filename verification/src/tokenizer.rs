//! The tokenizer: one left-to-right scan of the text into tokens.

use crate::ast::Position;
use crate::text::string_of;
use vstd::prelude::*;

verus! {

/// The kinds of token.
#[derive(Debug, Clone, Copy, PartialEq, Eq, Structural)]
pub enum TokenType {
    Hash,
    Backtick,
    TripleBacktick,
    Asterisk,
    Underscore,
    Dash,
    Plus,
    LBracket,
    RBracket,
    LParen,
    RParen,
    Space,
    Newline,
    Text,
    Number,
    Dot,
    Colon,
    GT,
    Equals,
    Eof,
}

/// A token: its kind, the text it was read from, and where that text starts.
#[derive(Debug)]
pub struct Token {
    pub token_type: TokenType,
    pub value: String,
    pub position: Position,
}

/// The mathematical model of a token.
pub struct TokenModel {
    pub kind: TokenType,
    pub value: Seq<char>,
    pub position: Position,
}

impl View for Token {
    type V = TokenModel;

    open spec fn view(&self) -> TokenModel {
        TokenModel { kind: self.token_type, value: self.value@, position: self.position }
    }
}

impl Clone for Token {
    fn clone(&self) -> (copy: Self)
        ensures
            copy@ == self@,
    {
        Token {
            token_type: self.token_type,
            value: self.value.clone(),
            position: self.position,
        }
    }
}

/// The models of a sequence of tokens, one for one.
pub open spec fn token_views(tokens: Seq<Token>) -> Seq<TokenModel> {
    Seq::new(tokens.len(), |i: int| tokens[i]@)
}

/// The kind of the token that a structural or whitespace character makes on
/// its own; `None` for a digit and for any other character.
pub open spec fn marker_kind(c: char) -> Option<TokenType> {
    if c == '#' {
        Some(TokenType::Hash)
    } else if c == '`' {
        Some(TokenType::Backtick)
    } else if c == '*' {
        Some(TokenType::Asterisk)
    } else if c == '_' {
        Some(TokenType::Underscore)
    } else if c == '-' {
        Some(TokenType::Dash)
    } else if c == '+' {
        Some(TokenType::Plus)
    } else if c == '[' {
        Some(TokenType::LBracket)
    } else if c == ']' {
        Some(TokenType::RBracket)
    } else if c == '(' {
        Some(TokenType::LParen)
    } else if c == ')' {
        Some(TokenType::RParen)
    } else if c == ' ' {
        Some(TokenType::Space)
    } else if c == '\n' {
        Some(TokenType::Newline)
    } else if c == '.' {
        Some(TokenType::Dot)
    } else if c == ':' {
        Some(TokenType::Colon)
    } else if c == '>' {
        Some(TokenType::GT)
    } else if c == '=' {
        Some(TokenType::Equals)
    } else {
        None
    }
}

/// An ASCII digit.
pub open spec fn is_digit(c: char) -> bool {
    '0' <= c <= '9'
}

/// A character of a text run: neither a marker nor a digit.
pub open spec fn is_text_char(c: char) -> bool {
    marker_kind(c) is None && !is_digit(c)
}

/// Three backticks start at `i`.
pub open spec fn fence_at(text: Seq<char>, i: int) -> bool {
    0 <= i && i + 3 <= text.len() && text[i] == '`' && text[i + 1] == '`' && text[i + 2] == '`'
}

/// The length of the longest run of digits that starts at `i`.
pub open spec fn digit_run(text: Seq<char>, i: int) -> nat
    decreases text.len() - i,
{
    if 0 <= i < text.len() && is_digit(text[i]) {
        1 + digit_run(text, i + 1)
    } else {
        0
    }
}

/// The length of the longest run of text characters that starts at `i`.
pub open spec fn text_run(text: Seq<char>, i: int) -> nat
    decreases text.len() - i,
{
    if 0 <= i < text.len() && is_text_char(text[i]) {
        1 + text_run(text, i + 1)
    } else {
        0
    }
}

/// The kind of the token that starts at `i`, for `i` inside the text.
pub open spec fn token_kind(text: Seq<char>, i: int) -> TokenType {
    if fence_at(text, i) {
        TokenType::TripleBacktick
    } else if marker_kind(text[i]) is Some {
        marker_kind(text[i])->0
    } else if is_digit(text[i]) {
        TokenType::Number
    } else {
        TokenType::Text
    }
}

/// The number of characters of the token that starts at `i`, for `i` inside
/// the text: three for a fence, one for any other marker, and the whole run
/// for digits and for text.
pub open spec fn token_len(text: Seq<char>, i: int) -> nat {
    if fence_at(text, i) {
        3
    } else if marker_kind(text[i]) is Some {
        1
    } else if is_digit(text[i]) {
        1 + digit_run(text, i + 1)
    } else {
        1 + text_run(text, i + 1)
    }
}

/// The number of newlines among the first `i` characters.
pub open spec fn line_at(text: Seq<char>, i: int) -> nat
    decreases i,
{
    if i <= 0 {
        0
    } else if text[i - 1] == '\n' {
        line_at(text, i - 1) + 1
    } else {
        line_at(text, i - 1)
    }
}

/// The number of characters between the last newline before `i` and `i`.
pub open spec fn column_at(text: Seq<char>, i: int) -> nat
    decreases i,
{
    if i <= 0 || text[i - 1] == '\n' {
        0
    } else {
        column_at(text, i - 1) + 1
    }
}

/// The position of the character at offset `i`.
pub open spec fn position_at(text: Seq<char>, i: int) -> Position {
    Position {
        line: line_at(text, i) as usize,
        column: column_at(text, i) as usize,
        offset: i as usize,
    }
}

/// The token that starts at `i`, for `i` inside the text.
pub open spec fn token_at(text: Seq<char>, i: int) -> TokenModel {
    TokenModel {
        kind: token_kind(text, i),
        value: text.subrange(i, i + token_len(text, i)),
        position: position_at(text, i),
    }
}

/// The end-of-stream token of a text.
pub open spec fn eof_token(text: Seq<char>) -> TokenModel {
    TokenModel {
        kind: TokenType::Eof,
        value: Seq::empty(),
        position: position_at(text, text.len() as int),
    }
}

/// The tokens of the text from offset `i` on, closed by the end-of-stream
/// token.
pub open spec fn tokens_from(text: Seq<char>, i: int) -> Seq<TokenModel>
    decreases
            if i <= text.len() {
                text.len() - i
            } else {
                0
            },
{
    if 0 <= i < text.len() {
        seq![token_at(text, i)] + tokens_from(text, i + token_len(text, i))
    } else {
        seq![eof_token(text)]
    }
}

/// The tokens of a text.
pub open spec fn tokenize_spec(text: Seq<char>) -> Seq<TokenModel> {
    tokens_from(text, 0)
}

/// Lines and columns never run ahead of the offset.
pub proof fn lemma_position_bounds(text: Seq<char>, i: int)
    requires
        0 <= i,
    ensures
        line_at(text, i) <= i,
        column_at(text, i) <= i,
    decreases i,
{
    if i > 0 {
        lemma_position_bounds(text, i - 1);
    }
}

/// A run of digits stays inside the text.
pub proof fn lemma_digit_run(text: Seq<char>, i: int)
    requires
        0 <= i <= text.len(),
    ensures
        i + digit_run(text, i) <= text.len(),
        forall|k: int| i <= k < i + digit_run(text, i) ==> is_digit(#[trigger] text[k]),
        i + digit_run(text, i) < text.len() ==> !is_digit(text[i + digit_run(text, i)]),
    decreases text.len() - i,
{
    if i < text.len() && is_digit(text[i]) {
        lemma_digit_run(text, i + 1);
    }
}

/// A run of text characters stays inside the text.
pub proof fn lemma_text_run(text: Seq<char>, i: int)
    requires
        0 <= i <= text.len(),
    ensures
        i + text_run(text, i) <= text.len(),
        forall|k: int| i <= k < i + text_run(text, i) ==> is_text_char(#[trigger] text[k]),
        i + text_run(text, i) < text.len() ==> !is_text_char(text[i + text_run(text, i)]),
    decreases text.len() - i,
{
    if i < text.len() && is_text_char(text[i]) {
        lemma_text_run(text, i + 1);
    }
}

/// A token is never empty and ends inside the text.
pub proof fn lemma_token_len(text: Seq<char>, i: int)
    requires
        0 <= i < text.len(),
    ensures
        1 <= token_len(text, i),
        i + token_len(text, i) <= text.len(),
{
    lemma_digit_run(text, i + 1);
    lemma_text_run(text, i + 1);
}

fn marker_type(c: char) -> (kind: Option<TokenType>)
    ensures
        kind == marker_kind(c),
{
    match c {
        '#' => Some(TokenType::Hash),
        '`' => Some(TokenType::Backtick),
        '*' => Some(TokenType::Asterisk),
        '_' => Some(TokenType::Underscore),
        '-' => Some(TokenType::Dash),
        '+' => Some(TokenType::Plus),
        '[' => Some(TokenType::LBracket),
        ']' => Some(TokenType::RBracket),
        '(' => Some(TokenType::LParen),
        ')' => Some(TokenType::RParen),
        ' ' => Some(TokenType::Space),
        '\n' => Some(TokenType::Newline),
        '.' => Some(TokenType::Dot),
        ':' => Some(TokenType::Colon),
        '>' => Some(TokenType::GT),
        '=' => Some(TokenType::Equals),
        _ => None,
    }
}

fn digit(c: char) -> (b: bool)
    ensures
        b == is_digit(c),
{
    c >= '0' && c <= '9'
}

impl Token {
    fn new(token_type: TokenType, value: String, position: Position) -> (token: Self)
        ensures
            token@ == (TokenModel { kind: token_type, value: value@, position }),
    {
        Token { token_type, value, position }
    }
}

/// A scanner over a text. It remembers how far it has read.
pub struct Tokenizer {
    chars: Vec<char>,
    cursor: Position,
}

impl Tokenizer {
    /// The text being scanned.
    pub closed spec fn text(&self) -> Seq<char> {
        self.chars@
    }

    /// The offset of the next character to read.
    pub closed spec fn offset(&self) -> int {
        self.cursor.offset as int
    }

    #[verifier::type_invariant]
    closed spec fn wf(&self) -> bool {
        &&& self.cursor.offset <= self.chars.len()
        &&& self.cursor == position_at(self.chars@, self.cursor.offset as int)
    }

    /// A scanner at the start of the text.
    pub fn new(text: String) -> (tokenizer: Self)
        ensures
            tokenizer.text() == text@,
            tokenizer.offset() == 0,
    {
        let chars = crate::text::chars_of(text.as_str());
        Tokenizer { chars, cursor: Position::zero() }
    }

    fn current_position(&self) -> (p: Position)
        ensures
            p == position_at(self.text(), self.offset()),
    {
        proof {
            use_type_invariant(self);
        }
        self.cursor
    }

    /// The character `offset` places ahead, if the text reaches that far.
    fn peek(&self, offset: usize) -> (c: Option<char>)
        ensures
            c == if self.offset() + offset < self.text().len() {
                Some(self.text()[self.offset() + offset])
            } else {
                None
            },
    {
        proof {
            use_type_invariant(self);
        }
        if offset < self.chars.len() - self.cursor.offset {
            Some(self.chars[self.cursor.offset + offset])
        } else {
            None
        }
    }

    /// Reads one character, if any is left, and moves the position past it.
    fn advance(&mut self) -> (c: Option<char>)
        ensures
            final(self).text() == old(self).text(),
            c == if old(self).offset() < old(self).text().len() {
                Some(old(self).text()[old(self).offset()])
            } else {
                None
            },
            final(self).offset() == if c is Some {
                old(self).offset() + 1
            } else {
                old(self).offset()
            },
    {
        proof {
            use_type_invariant(&*self);
            lemma_position_bounds(self.chars@, self.cursor.offset as int);
        }
        let at = self.cursor;
        if at.offset >= self.chars.len() {
            return None;
        }
        let c = self.chars[at.offset];
        self.cursor = if c == '\n' {
            Position::new(at.line + 1, 0, at.offset + 1)
        } else {
            Position::new(at.line, at.column + 1, at.offset + 1)
        };
        Some(c)
    }

    /// Whether the next three characters are backticks.
    fn at_fence(&self) -> (b: bool)
        ensures
            b == fence_at(self.text(), self.offset()),
    {
        self.peek(0) == Some('`') && self.peek(1) == Some('`') && self.peek(2) == Some('`')
    }

    /// Reads characters while they are digits (`digits`) or text characters
    /// (otherwise).
    fn advance_run(&mut self, digits: bool)
        ensures
            final(self).text() == old(self).text(),
            final(self).offset() == old(self).offset() + if digits {
                digit_run(old(self).text(), old(self).offset())
            } else {
                text_run(old(self).text(), old(self).offset())
            },
    {
        proof {
            use_type_invariant(&*self);
        }
        loop
            invariant
                self.text() == old(self).text(),
                old(self).offset() <= self.offset() <= self.text().len(),
                digits ==> digit_run(old(self).text(), old(self).offset()) == self.offset() - old(
                    self,
                ).offset() + digit_run(self.text(), self.offset()),
                !digits ==> text_run(old(self).text(), old(self).offset()) == self.offset() - old(
                    self,
                ).offset() + text_run(self.text(), self.offset()),
            ensures
                self.text() == old(self).text(),
                self.offset() == old(self).offset() + if digits {
                    digit_run(old(self).text(), old(self).offset())
                } else {
                    text_run(old(self).text(), old(self).offset())
                },
            decreases self.text().len() - self.offset(),
        {
            match self.peek(0) {
                Some(c) => {
                    let in_run = if digits {
                        digit(c)
                    } else {
                        marker_type(c).is_none() && !digit(c)
                    };
                    if !in_run {
                        break ;
                    }
                    self.advance();
                },
                None => {
                    break ;
                },
            }
        }
    }

    /// Scans the rest of the text. The tokens come in source order and end
    /// with the end-of-stream token; afterwards nothing is left to read.
    pub fn tokenize(&mut self) -> (tokens: Vec<Token>)
        ensures
            token_views(tokens@) == tokens_from(old(self).text(), old(self).offset()),
            final(self).text() == old(self).text(),
            final(self).offset() == old(self).text().len(),
    {
        let mut tokens: Vec<Token> = Vec::new();
        proof {
            use_type_invariant(&*self);
        }
        loop
            invariant
                self.text() == old(self).text(),
                0 <= self.offset() <= self.text().len(),
                token_views(tokens@) + tokens_from(self.text(), self.offset()) == tokens_from(
                    old(self).text(),
                    old(self).offset(),
                ),
            ensures
                self.text() == old(self).text(),
                self.offset() == self.text().len(),
                token_views(tokens@) + tokens_from(self.text(), self.offset()) == tokens_from(
                    old(self).text(),
                    old(self).offset(),
                ),
            decreases self.text().len() - self.offset(),
        {
            let c = match self.peek(0) {
                Some(c) => c,
                None => {
                    break ;
                },
            };
            let start = self.cursor.offset;
            let position = self.current_position();
            let kind = if self.at_fence() {
                self.advance();
                self.advance();
                self.advance();
                TokenType::TripleBacktick
            } else {
                match marker_type(c) {
                    Some(kind) => {
                        self.advance();
                        kind
                    },
                    None => {
                        self.advance();
                        if digit(c) {
                            self.advance_run(true);
                            TokenType::Number
                        } else {
                            self.advance_run(false);
                            TokenType::Text
                        }
                    },
                }
            };
            proof {
                use_type_invariant(&*self);
                lemma_token_len(self.text(), start as int);
            }
            let value = string_of(&self.chars, start, self.cursor.offset);
            tokens.push(Token::new(kind, value, position));
        }
        let position = self.current_position();
        tokens.push(Token::new(TokenType::Eof, String::new(), position));
        tokens
    }
}

} // verus!
