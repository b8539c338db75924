use cybermd::ast::Position;
use cybermd::tokenizer::{Token, TokenType, Tokenizer};

fn kinds(tokens: &[Token]) -> Vec<TokenType> {
    tokens.iter().map(|t| t.token_type).collect()
}

fn tokens_of(text: &str) -> Vec<Token> {
    Tokenizer::new(text.to_string()).tokenize()
}

#[test]
fn test_basic_tokenization() {
    let mut tokenizer = Tokenizer::new("# Hello".to_string());
    let tokens = tokenizer.tokenize();

    assert_eq!(tokens.len(), 4); // HASH, SPACE, TEXT, EOF
    assert_eq!(tokens[0].token_type, TokenType::Hash);
    assert_eq!(tokens[1].token_type, TokenType::Space);
    assert_eq!(tokens[2].token_type, TokenType::Text);
    assert_eq!(tokens[2].value, "Hello");
}

#[test]
fn test_triple_backtick() {
    let mut tokenizer = Tokenizer::new("```".to_string());
    let tokens = tokenizer.tokenize();

    assert_eq!(tokens[0].token_type, TokenType::TripleBacktick);
    assert_eq!(tokens[0].value, "```");
}

#[test]
fn test_numbers() {
    let mut tokenizer = Tokenizer::new("123".to_string());
    let tokens = tokenizer.tokenize();

    assert_eq!(tokens[0].token_type, TokenType::Number);
    assert_eq!(tokens[0].value, "123");
}

#[test]
fn empty_text_gives_only_the_end_token() {
    let tokens = tokens_of("");
    assert_eq!(tokens.len(), 1);
    assert_eq!(tokens[0].token_type, TokenType::Eof);
    assert_eq!(tokens[0].value, "");
    assert_eq!(tokens[0].position, Position::new(0, 0, 0));
}

#[test]
fn every_marker_is_its_own_token() {
    let tokens = tokens_of("#`*_-+[]() \n.:>=");
    assert_eq!(
        kinds(&tokens),
        vec![
            TokenType::Hash,
            TokenType::Backtick,
            TokenType::Asterisk,
            TokenType::Underscore,
            TokenType::Dash,
            TokenType::Plus,
            TokenType::LBracket,
            TokenType::RBracket,
            TokenType::LParen,
            TokenType::RParen,
            TokenType::Space,
            TokenType::Newline,
            TokenType::Dot,
            TokenType::Colon,
            TokenType::GT,
            TokenType::Equals,
            TokenType::Eof,
        ]
    );
    let text = "#`*_-+[]() \n.:>=";
    for (i, c) in text.chars().enumerate() {
        assert_eq!(tokens[i].value, c.to_string());
    }
}

#[test]
fn positions_follow_lines_and_columns() {
    let tokens = tokens_of("ab\ncd 12\n");
    let got: Vec<(TokenType, String, Position)> =
        tokens.iter().map(|t| (t.token_type, t.value.clone(), t.position)).collect();
    assert_eq!(
        got,
        vec![
            (TokenType::Text, "ab".to_string(), Position::new(0, 0, 0)),
            (TokenType::Newline, "\n".to_string(), Position::new(0, 2, 2)),
            (TokenType::Text, "cd".to_string(), Position::new(1, 0, 3)),
            (TokenType::Space, " ".to_string(), Position::new(1, 2, 5)),
            (TokenType::Number, "12".to_string(), Position::new(1, 3, 6)),
            (TokenType::Newline, "\n".to_string(), Position::new(1, 5, 8)),
            (TokenType::Eof, "".to_string(), Position::new(2, 0, 9)),
        ]
    );
}

#[test]
fn fence_needs_three_backticks() {
    assert_eq!(
        kinds(&tokens_of("``")),
        vec![TokenType::Backtick, TokenType::Backtick, TokenType::Eof]
    );
    assert_eq!(
        kinds(&tokens_of("````")),
        vec![TokenType::TripleBacktick, TokenType::Backtick, TokenType::Eof]
    );
    assert_eq!(
        kinds(&tokens_of("``````")),
        vec![TokenType::TripleBacktick, TokenType::TripleBacktick, TokenType::Eof]
    );
    let tokens = tokens_of("a```b");
    assert_eq!(
        kinds(&tokens),
        vec![TokenType::Text, TokenType::TripleBacktick, TokenType::Text, TokenType::Eof]
    );
    assert_eq!(tokens[2].position, Position::new(0, 4, 4));
}

#[test]
fn digits_and_text_split_into_runs() {
    let tokens = tokens_of("abc123def");
    assert_eq!(
        kinds(&tokens),
        vec![TokenType::Text, TokenType::Number, TokenType::Text, TokenType::Eof]
    );
    assert_eq!(tokens[0].value, "abc");
    assert_eq!(tokens[1].value, "123");
    assert_eq!(tokens[2].value, "def");
}

#[test]
fn tabs_and_other_characters_are_text() {
    let tokens = tokens_of("\ta\r\u{e9}\u{4e16}!");
    assert_eq!(kinds(&tokens), vec![TokenType::Text, TokenType::Eof]);
    assert_eq!(tokens[0].value, "\ta\r\u{e9}\u{4e16}!");
    assert_eq!(tokens[1].position, Position::new(0, 6, 6));
}

#[test]
fn positions_count_characters_not_bytes() {
    let tokens = tokens_of("\u{e9}\u{e9} x");
    assert_eq!(tokens[1].token_type, TokenType::Space);
    assert_eq!(tokens[1].position, Position::new(0, 2, 2));
    assert_eq!(tokens[2].position, Position::new(0, 3, 3));
}

#[test]
fn token_values_spell_the_text() {
    let text = "# T 1.\n```rs\nx=(y)[0]\n```\n> q\n- a_b *c* +d: e\n\u{4e16}";
    let joined: String = tokens_of(text).iter().map(|t| t.value.as_str()).collect();
    assert_eq!(joined, text);
}

#[test]
fn a_second_scan_finds_nothing_left() {
    let mut tokenizer = Tokenizer::new("a b".to_string());
    assert_eq!(tokenizer.tokenize().len(), 4);
    let again = tokenizer.tokenize();
    assert_eq!(again.len(), 1);
    assert_eq!(again[0].token_type, TokenType::Eof);
    assert_eq!(again[0].position, Position::new(0, 3, 3));
}
