use cybermd::analyzer::DocumentAnalyzer;
use cybermd::ast::{ASTNode, Position};
use cybermd::highlighter::SemanticHighlighter;
use cybermd::parser::MarkdownParser;
use cybermd::renderer::HtmlRenderer;
use cybermd::tokenizer::{TokenType, Tokenizer};
use cybermd::walker::ASTWalker;

/// The pieces that the generated texts are made of.
const ALPHABET: [&str; 24] = [
    "#", "`", "```", "*", "_", "-", "+", "[", "]", "(", ")", " ", "\n", "\n", ".", ":", ">", "=", "7",
    "42", "a", "word", "\u{e9}", "\t",
];

/// A small generator of texts over the characters that matter to the
/// tokenizer, with a fixed seed.
struct Texts {
    state: u64,
}

impl Texts {
    fn new() -> Self {
        Texts { state: 0x2545_f491_4f6c_dd1d }
    }

    fn next(&mut self) -> u64 {
        self.state ^= self.state << 13;
        self.state ^= self.state >> 7;
        self.state ^= self.state << 17;
        self.state
    }

    fn text(&mut self) -> String {
        let len = (self.next() % 40) as usize;
        let mut out = String::new();
        for _ in 0..len {
            out.push_str(ALPHABET[(self.next() % ALPHABET.len() as u64) as usize]);
        }
        out
    }
}

fn position_of_offset(text: &str, offset: usize) -> Position {
    let mut line = 0;
    let mut column = 0;
    for c in text.chars().take(offset) {
        if c == '\n' {
            line += 1;
            column = 0;
        } else {
            column += 1;
        }
    }
    Position::new(line, column, offset)
}

fn all_nodes(node: &ASTNode) -> Vec<&ASTNode> {
    let mut out = vec![node];
    for child in node.children() {
        out.extend(all_nodes(child));
    }
    out
}

#[test]
fn tokens_spell_the_text_and_stand_where_they_were_read() {
    let mut texts = Texts::new();
    for _ in 0..400 {
        let text = texts.text();
        let tokens = Tokenizer::new(text.clone()).tokenize();
        let joined: String = tokens.iter().map(|t| t.value.as_str()).collect();
        assert_eq!(joined, text);
        let mut offset = 0;
        for token in &tokens {
            assert_eq!(token.position, position_of_offset(&text, offset), "{:?}", text);
            offset += token.value.chars().count();
        }
        let (last, rest) = tokens.split_last().unwrap();
        assert_eq!(last.token_type, TokenType::Eof);
        assert!(rest.iter().all(|t| t.token_type != TokenType::Eof && !t.value.is_empty()));
    }
}

#[test]
fn parsed_documents_are_placed_in_order_and_in_shape() {
    let mut texts = Texts::new();
    for _ in 0..400 {
        let text = texts.text();
        let doc = MarkdownParser::new().parse(&text);
        let end = position_of_offset(&text, text.chars().count());
        assert_eq!(doc.start_pos(), Some(Position::zero()));
        assert_eq!(doc.end_pos(), Some(end));
        for node in all_nodes(&doc) {
            let start = node.start_pos().expect("start");
            let stop = node.end_pos().expect("end");
            assert!(start.offset <= stop.offset);
            assert_eq!(start, position_of_offset(&text, start.offset));
            assert_eq!(stop, position_of_offset(&text, stop.offset));
            for pair in node.children().windows(2) {
                assert!(pair[0].end_pos().unwrap().offset <= pair[1].start_pos().unwrap().offset);
            }
        }
        for block in doc.children() {
            match block {
                ASTNode::Heading { level, children, .. } => {
                    assert!((1..=6).contains(level) && children.is_empty())
                }
                ASTNode::Paragraph { text, inline_nodes, .. } => {
                    assert!(!text.trim().is_empty() && inline_nodes.is_empty())
                }
                ASTNode::CodeBlock { language, .. } => assert!(!language.is_empty()),
                ASTNode::List { items, .. } => {
                    assert!(!items.is_empty());
                    assert!(items.iter().all(|i| i.node_type() == "list_item"));
                }
                ASTNode::Blockquote { children, .. } => {
                    assert_eq!(children.len(), 1);
                    assert_eq!(children[0].node_type(), "paragraph");
                }
                other => panic!("unexpected block {} in {:?}", other.node_type(), text),
            }
        }
    }
}

#[test]
fn every_text_of_a_parsed_node_is_a_piece_of_the_source() {
    let mut texts = Texts::new();
    for _ in 0..400 {
        let source = texts.text();
        let doc = MarkdownParser::new().parse(&source);
        for node in all_nodes(&doc) {
            match node {
                ASTNode::Heading { text, .. }
                | ASTNode::Paragraph { text, .. }
                | ASTNode::ListItem { text, .. } => assert!(source.contains(text.as_str())),
                ASTNode::CodeBlock { code, .. } => assert!(source.contains(code.as_str())),
                _ => {}
            }
        }
    }
}

#[test]
fn consumers_agree_with_the_walker_on_parsed_documents() {
    let mut texts = Texts::new();
    for _ in 0..200 {
        let text = texts.text();
        let doc = MarkdownParser::new().parse(&text);
        let nodes = all_nodes(&doc);
        let mut walker = ASTWalker::new(&doc);
        let walked = walker.filter_nodes(|_| true);
        assert_eq!(walked.len(), nodes.len());
        for (a, b) in walked.iter().zip(&nodes) {
            assert!(std::ptr::eq(*a, *b));
        }
        for kind in ["document", "heading", "paragraph", "code_block", "list", "list_item", "blockquote"] {
            let expected = nodes.iter().filter(|n| n.node_type() == kind).count();
            assert_eq!(walker.count_nodes(kind), expected);
            assert_eq!(walker.find_all(kind).len(), expected);
        }

        let ranged = nodes
            .iter()
            .filter(|n| matches!(n.node_type(), "heading" | "paragraph" | "code_block"))
            .count();
        assert_eq!(SemanticHighlighter::dark().highlight(&doc).len(), ranged);

        let mut analyzer = DocumentAnalyzer::new(&doc);
        let headings = nodes.iter().filter(|n| n.node_type() == "heading").count();
        assert_eq!(analyzer.get_outline().len(), headings);
        assert_eq!(analyzer.get_heading_hierarchy().len(), headings);
        assert_eq!(analyzer.get_statistics().get("headings"), Some(&headings));
        let regions = analyzer.get_foldable_regions();
        assert!(regions.windows(2).all(|p| p[0].start_line <= p[1].start_line));
        let folded: Vec<(usize, u8)> = regions
            .iter()
            .filter(|r| r.region_type == "heading")
            .map(|r| (r.start_line, r.level))
            .collect();
        let expected: Vec<(usize, u8)> = nodes
            .iter()
            .filter_map(|n| match n {
                ASTNode::Heading { level, start_pos, .. } => Some((start_pos.unwrap().line, *level)),
                _ => None,
            })
            .collect();
        assert_eq!(folded, expected);
        assert!(regions.iter().all(|r| r.start_line <= r.end_line));

        let html = HtmlRenderer::new().render(&doc);
        assert_eq!(html.matches("<h").count(), headings);
    }
}

#[test]
fn the_last_node_that_holds_a_place_is_found() {
    let mut texts = Texts::new();
    for _ in 0..100 {
        let text = texts.text();
        let doc = MarkdownParser::new().parse(&text);
        let nodes = all_nodes(&doc);
        let mut walker = ASTWalker::new(&doc);
        for offset in 0..=text.chars().count() {
            let place = position_of_offset(&text, offset);
            let holds = |node: &&&ASTNode| {
                let (s, e) = (node.start_pos().unwrap(), node.end_pos().unwrap());
                (s.line, s.column) <= (place.line, place.column)
                    && (place.line, place.column) <= (e.line, e.column)
            };
            let expected = nodes.iter().filter(holds).last();
            let found = walker.find_by_position(place.line, place.column);
            match (found, expected) {
                (Some(a), Some(b)) => assert!(std::ptr::eq(a, *b)),
                (None, None) => {}
                _ => panic!("disagreement at {:?} in {:?}", place, text),
            }
        }
    }
}
