use cybermd::ast::{ASTNode, Position};
use cybermd::parser::MarkdownParser;

fn parse(text: &str) -> ASTNode {
    MarkdownParser::new().parse(text)
}

fn span(node: &ASTNode) -> (Position, Position) {
    (node.start_pos().expect("start"), node.end_pos().expect("end"))
}

#[test]
fn test_parse_heading() {
    let mut parser = MarkdownParser::new();
    let ast = parser.parse("# Hello World");

    assert_eq!(ast.children().len(), 1);
    match &ast.children()[0] {
        ASTNode::Heading { level, text, .. } => {
            assert_eq!(*level, 1);
            assert_eq!(text, "Hello World");
        }
        _ => panic!("Expected heading node"),
    }
}

#[test]
fn test_parse_code_block() {
    let mut parser = MarkdownParser::new();
    let ast = parser.parse("```rust\nfn main() {}\n```");

    assert_eq!(ast.children().len(), 1);
    match &ast.children()[0] {
        ASTNode::CodeBlock { language, code, .. } => {
            assert_eq!(language, "rust");
            assert!(code.contains("fn main"));
        }
        _ => panic!("Expected code block node"),
    }
}

#[test]
fn test_parse_list() {
    let mut parser = MarkdownParser::new();
    let ast = parser.parse("- Item 1\n- Item 2");

    assert_eq!(ast.children().len(), 1);
    match &ast.children()[0] {
        ASTNode::List { ordered, items, .. } => {
            assert!(!ordered);
            assert_eq!(items.len(), 2);
        }
        _ => panic!("Expected list node"),
    }
}

#[test]
fn test_parse_paragraph() {
    let mut parser = MarkdownParser::new();
    let ast = parser.parse("This is a paragraph.");

    assert_eq!(ast.children().len(), 1);
    match &ast.children()[0] {
        ASTNode::Paragraph { text, .. } => {
            assert!(text.contains("paragraph"));
        }
        _ => panic!("Expected paragraph node"),
    }
}

#[test]
fn empty_text_is_an_empty_document() {
    let mut parser = MarkdownParser::new();
    let ast = parser.parse("");
    assert_eq!(ast.node_type(), "document");
    assert_eq!(ast.children().len(), 0);
    assert_eq!(span(&ast), (Position::new(0, 0, 0), Position::new(0, 0, 0)));
    assert!(parser.errors().is_empty());
}

#[test]
fn blank_lines_make_no_nodes() {
    let ast = parse("\n\n\n");
    assert_eq!(ast.children().len(), 0);
    assert_eq!(span(&ast), (Position::new(0, 0, 0), Position::new(3, 0, 3)));
}

#[test]
fn heading_level_is_the_number_of_markers_up_to_six() {
    for n in 1..=8usize {
        let text = format!("{} Title text\n", "#".repeat(n));
        let ast = parse(&text);
        assert_eq!(ast.children().len(), 1);
        match &ast.children()[0] {
            ASTNode::Heading { level, text: heading, children, start_pos, end_pos } => {
                assert_eq!(*level as usize, n.min(6));
                assert_eq!(heading, "Title text");
                assert!(children.is_empty());
                assert_eq!(*start_pos, Some(Position::new(0, 0, 0)));
                assert_eq!(*end_pos, Some(Position::new(1, 0, text.chars().count())));
            }
            _ => panic!("expected a heading"),
        }
    }
}

#[test]
fn heading_drops_the_spaces_after_the_markers() {
    match &parse("##    spaced  out \n").children()[0] {
        ASTNode::Heading { level, text, .. } => {
            assert_eq!(*level, 2);
            assert_eq!(text, "spaced  out ");
        }
        _ => panic!("expected a heading"),
    }
    match &parse("#").children()[0] {
        ASTNode::Heading { level, text, .. } => {
            assert_eq!(*level, 1);
            assert_eq!(text, "");
        }
        _ => panic!("expected a heading"),
    }
}

#[test]
fn fence_keeps_the_code_as_it_stands() {
    let ast = parse("```lang\nLINE1\nLINE2\n```");
    assert_eq!(ast.children().len(), 1);
    match &ast.children()[0] {
        ASTNode::CodeBlock { language, code, start_pos, end_pos } => {
            assert_eq!(language, "lang");
            assert_eq!(code, "LINE1\nLINE2\n");
            assert_eq!(*start_pos, Some(Position::new(0, 0, 0)));
            assert_eq!(*end_pos, Some(Position::new(3, 3, 23)));
        }
        _ => panic!("expected a code block"),
    }
}

#[test]
fn fence_code_is_not_read_as_markdown() {
    let ast = parse("```\n# not a heading\n- not a list <b> & \"q\"\n```\nafter");
    assert_eq!(ast.children().len(), 2);
    match &ast.children()[0] {
        ASTNode::CodeBlock { language, code, .. } => {
            assert_eq!(language, "text");
            assert_eq!(code, "# not a heading\n- not a list <b> & \"q\"\n");
        }
        _ => panic!("expected a code block"),
    }
    match &ast.children()[1] {
        ASTNode::Paragraph { text, .. } => assert_eq!(text, "after"),
        _ => panic!("expected a paragraph"),
    }
}

#[test]
fn fence_language_is_trimmed() {
    match &parse("```  rust \t\ncode\n```\n").children()[0] {
        ASTNode::CodeBlock { language, code, .. } => {
            assert_eq!(language, "rust \t".trim());
            assert_eq!(language, "rust");
            assert_eq!(code, "code\n");
        }
        _ => panic!("expected a code block"),
    }
    match &parse("```   \nx").children()[0] {
        ASTNode::CodeBlock { language, .. } => assert_eq!(language, "text"),
        _ => panic!("expected a code block"),
    }
}

#[test]
fn unterminated_fence_runs_to_the_end() {
    let ast = parse("```py\nprint(1)\nmore");
    assert_eq!(ast.children().len(), 1);
    match &ast.children()[0] {
        ASTNode::CodeBlock { language, code, end_pos, .. } => {
            assert_eq!(language, "py");
            assert_eq!(code, "print(1)\nmore");
            assert_eq!(*end_pos, Some(Position::new(2, 4, 19)));
        }
        _ => panic!("expected a code block"),
    }
}

#[test]
fn lists_hold_items_of_one_kind() {
    let ast = parse("- a\n- b\n1. c");
    assert_eq!(ast.children().len(), 2);
    match &ast.children()[0] {
        ASTNode::List { ordered, items, start_pos, end_pos } => {
            assert!(!ordered);
            assert_eq!(items.len(), 2);
            assert_eq!(*start_pos, Some(Position::new(0, 0, 0)));
            assert_eq!(*end_pos, Some(Position::new(2, 0, 8)));
        }
        _ => panic!("expected a list"),
    }
    match &ast.children()[1] {
        ASTNode::List { ordered, items, start_pos, .. } => {
            assert!(*ordered);
            assert_eq!(items.len(), 1);
            assert_eq!(*start_pos, Some(Position::new(2, 0, 8)));
            match &items[0] {
                ASTNode::ListItem { text, .. } => assert_eq!(text, "c"),
                _ => panic!("expected a list item"),
            }
        }
        _ => panic!("expected a list"),
    }
}

#[test]
fn list_items_carry_their_text_and_span() {
    let ast = parse("* one\n+   two words\n- \n");
    match &ast.children()[0] {
        ASTNode::List { ordered, items, .. } => {
            assert!(!ordered);
            let got: Vec<(String, Position, Position)> = items
                .iter()
                .map(|item| match item {
                    ASTNode::ListItem { text, children, start_pos, end_pos } => {
                        assert!(children.is_empty());
                        (text.clone(), start_pos.unwrap(), end_pos.unwrap())
                    }
                    _ => panic!("expected a list item"),
                })
                .collect();
            assert_eq!(
                got,
                vec![
                    ("one".to_string(), Position::new(0, 0, 0), Position::new(1, 0, 6)),
                    ("two words".to_string(), Position::new(1, 0, 6), Position::new(2, 0, 20)),
                    ("".to_string(), Position::new(2, 0, 20), Position::new(3, 0, 23)),
                ]
            );
        }
        _ => panic!("expected a list"),
    }
}

#[test]
fn ordered_list_needs_number_and_dot() {
    let ast = parse("1. a\n22. b\n3 c\n");
    assert_eq!(ast.children().len(), 2);
    match &ast.children()[0] {
        ASTNode::List { ordered, items, .. } => {
            assert!(*ordered);
            assert_eq!(items.len(), 2);
        }
        _ => panic!("expected a list"),
    }
    match &ast.children()[1] {
        ASTNode::Paragraph { text, .. } => assert_eq!(text, "3 c"),
        _ => panic!("expected a paragraph"),
    }
}

#[test]
fn each_quoted_line_is_its_own_blockquote() {
    let ast = parse("> first\n>second\n");
    assert_eq!(ast.children().len(), 2);
    let expected = [
        ("first", Position::new(0, 0, 0), Position::new(0, 2, 2), Position::new(1, 0, 8)),
        ("second", Position::new(1, 0, 8), Position::new(1, 1, 9), Position::new(2, 0, 16)),
    ];
    for (node, (want, start, text_start, end)) in ast.children().iter().zip(expected) {
        match node {
            ASTNode::Blockquote { children, start_pos, end_pos } => {
                assert_eq!(*start_pos, Some(start));
                assert_eq!(*end_pos, Some(end));
                assert_eq!(children.len(), 1);
                match &children[0] {
                    ASTNode::Paragraph { text, inline_nodes, start_pos, end_pos } => {
                        assert_eq!(text, want);
                        assert!(inline_nodes.is_empty());
                        assert_eq!(*start_pos, Some(text_start));
                        assert_eq!(*end_pos, Some(end));
                    }
                    _ => panic!("expected a paragraph"),
                }
            }
            _ => panic!("expected a blockquote"),
        }
    }
}

#[test]
fn paragraph_ends_at_a_block_marker() {
    let ast = parse("a - b\nc # d\n");
    let kinds: Vec<&str> = ast.children().iter().map(|n| n.node_type()).collect();
    assert_eq!(kinds, vec!["paragraph", "list", "paragraph", "heading"]);
    match &ast.children()[0] {
        ASTNode::Paragraph { text, start_pos, end_pos, .. } => {
            assert_eq!(text, "a ");
            assert_eq!(*start_pos, Some(Position::new(0, 0, 0)));
            assert_eq!(*end_pos, Some(Position::new(0, 2, 2)));
        }
        _ => panic!("expected a paragraph"),
    }
    match &ast.children()[3] {
        ASTNode::Heading { level, text, .. } => {
            assert_eq!(*level, 1);
            assert_eq!(text, "d");
        }
        _ => panic!("expected a heading"),
    }
}

#[test]
fn blank_paragraph_makes_no_node() {
    assert_eq!(parse("   \n").children().len(), 0);
    assert_eq!(parse(" \t \n# h").children().len(), 1);
    let ast = parse("   # h\n");
    assert_eq!(ast.children().len(), 1);
    assert_eq!(ast.children()[0].node_type(), "heading");
}

#[test]
fn lone_number_is_a_paragraph() {
    match &parse("42 is the answer\n").children()[0] {
        ASTNode::Paragraph { text, .. } => assert_eq!(text, "42 is the answer"),
        _ => panic!("expected a paragraph"),
    }
}

fn assert_placed(node: &ASTNode) {
    assert!(node.start_pos().is_some(), "{} lacks a start", node.node_type());
    assert!(node.end_pos().is_some(), "{} lacks an end", node.node_type());
    for child in node.children() {
        assert_placed(child);
    }
}

#[test]
fn every_parsed_node_has_both_positions() {
    assert_placed(&parse("# h\n\npara\n- a\n- b\n1. c\n> q\n```x\ncode\n```\ntail"));
    assert_placed(&parse(""));
}

fn assert_in_order(node: &ASTNode) {
    let kids = node.children();
    for pair in kids.windows(2) {
        let end = pair[0].end_pos().unwrap();
        let start = pair[1].start_pos().unwrap();
        assert!(end.offset <= start.offset);
        assert!((end.line, end.column) <= (start.line, start.column));
    }
    for child in kids {
        assert_in_order(child);
    }
}

#[test]
fn siblings_do_not_overlap() {
    assert_in_order(&parse("# h\n\n\npara\n- a\n- b\n1. c\n2. d\n> q\n> r\n```x\ncode\n```\n\ntail"));
}

#[test]
fn parser_can_be_used_again() {
    let mut parser = MarkdownParser::new();
    assert_eq!(parser.parse("# a\n# b").children().len(), 2);
    assert_eq!(parser.parse("x").children().len(), 1);
    assert!(parser.errors().is_empty());
}

#[test]
fn heading_text_is_the_line_without_markers_and_leading_spaces() {
    let texts = ["plain", "  two spaces first", "a # b * c - d", "#not a marker", "", "   ", "1. x `y`"];
    for n in 1..=8usize {
        for text in texts {
            let line = format!("{} {}\n", "#".repeat(n), text);
            let ast = parse(&line);
            assert_eq!(ast.children().len(), 1, "{:?}", line);
            match &ast.children()[0] {
                ASTNode::Heading { level, text: heading, start_pos, end_pos, .. } => {
                    assert_eq!(*level as usize, n.min(6));
                    assert_eq!(heading, text.trim_start_matches(' '));
                    assert_eq!(*start_pos, Some(Position::new(0, 0, 0)));
                    assert_eq!(*end_pos, Some(Position::new(1, 0, line.chars().count())));
                }
                _ => panic!("expected a heading"),
            }
            assert_eq!(span(&ast), (Position::new(0, 0, 0), Position::new(1, 0, line.chars().count())));
        }
    }
}

#[test]
fn fence_keeps_any_code_without_a_fence_in_it() {
    let codes = [
        "",
        "one line\n",
        "x = `a` + ``b``\n# h\n- l\n> q\n1. n\n",
        "<b>&amp;</b> \"q\" 'r'\n\n\n",
        "\u{e9}\u{4e16} tabs\tand\rreturns\n",
    ];
    let tags = ["rust", "", "  padded  ", "c++ -O2", "a`b"];
    for code in codes {
        for tag in tags {
            let text = format!("```{}\n{}```", tag, code);
            let ast = parse(&text);
            assert_eq!(ast.children().len(), 1, "{:?}", text);
            match &ast.children()[0] {
                ASTNode::CodeBlock { language, code: kept, start_pos, end_pos } => {
                    let expected = if tag.trim().is_empty() { "text" } else { tag.trim() };
                    assert_eq!(language, expected);
                    assert_eq!(kept, code);
                    assert_eq!(*start_pos, Some(Position::new(0, 0, 0)));
                    assert_eq!(end_pos.unwrap().offset, text.chars().count());
                }
                _ => panic!("expected a code block"),
            }
        }
    }
}

#[test]
fn a_backtick_before_the_closing_fence_joins_it() {
    // Four backticks: the fence is read from the first, and one is left over.
    let ast = parse("```\nx````");
    match &ast.children()[0] {
        ASTNode::CodeBlock { code, .. } => assert_eq!(code, "x"),
        _ => panic!("expected a code block"),
    }
}

#[test]
fn parsed_documents_hold_only_the_blocks_the_parser_makes() {
    let text = "# h\n####### deep\np *b* _i_ [l](u) `c`\n- a\n* b\n+ c\n9. d\n> q\n>\n```\nx\n```\n---\n   \n=\n";
    let ast = parse(text);
    assert_eq!(ast.node_type(), "document");
    for block in ast.children() {
        match block {
            ASTNode::Heading { level, children, .. } => {
                assert!((1..=6).contains(level));
                assert!(children.is_empty());
            }
            ASTNode::Paragraph { text, inline_nodes, .. } => {
                assert!(!text.trim().is_empty());
                assert!(inline_nodes.is_empty());
            }
            ASTNode::CodeBlock { language, .. } => assert!(!language.is_empty()),
            ASTNode::List { items, .. } => {
                assert!(!items.is_empty());
                for item in items {
                    match item {
                        ASTNode::ListItem { children, .. } => assert!(children.is_empty()),
                        _ => panic!("expected a list item"),
                    }
                }
            }
            ASTNode::Blockquote { children, .. } => {
                assert_eq!(children.len(), 1);
                match &children[0] {
                    ASTNode::Paragraph { inline_nodes, .. } => assert!(inline_nodes.is_empty()),
                    _ => panic!("expected a paragraph"),
                }
            }
            other => panic!("unexpected block {}", other.node_type()),
        }
    }
}

#[test]
fn a_list_ends_at_the_first_line_that_is_no_item() {
    let ast = parse("- a\n- b\nplain\n- c\n");
    let kinds: Vec<&str> = ast.children().iter().map(|n| n.node_type()).collect();
    assert_eq!(kinds, vec!["list", "paragraph", "list"]);
    let ast = parse("1. a\n- b\n2. c\n");
    let shapes: Vec<(bool, usize)> = ast
        .children()
        .iter()
        .map(|n| match n {
            ASTNode::List { ordered, items, .. } => (*ordered, items.len()),
            _ => panic!("expected a list"),
        })
        .collect();
    assert_eq!(shapes, vec![(true, 1), (false, 1), (true, 1)]);
}
