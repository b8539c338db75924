use cybermd::ast::{ASTNode, Position};

#[test]
fn test_node_display() {
    let heading = ASTNode::new_heading(2, "Test Heading".to_string());
    let display = heading.to_string();
    assert!(display.contains("Heading"));
    assert!(display.contains("L2"));
}

#[test]
fn position_shows_line_and_column() {
    assert_eq!(Position::new(5, 10, 100).to_string(), "L5:C10");
    assert_eq!(Position::zero().to_string(), "L0:C0");
    assert_eq!(
        Position::new(usize::MAX, 1234567, 0).to_string(),
        format!("L{}:C1234567", usize::MAX)
    );
}

#[test]
fn every_kind_of_node_has_its_description() {
    let text = || "t".to_string();
    assert_eq!(ASTNode::new_document().to_string(), "Document");
    assert_eq!(ASTNode::new_heading(2, "Test Heading".to_string()).to_string(), "Heading(L2: Test Heading)");
    assert_eq!(ASTNode::new_heading(255, String::new()).to_string(), "Heading(L255: )");
    assert_eq!(ASTNode::new_paragraph("some text".to_string()).to_string(), "Paragraph(some text)");
    assert_eq!(
        ASTNode::new_code_block("rust".to_string(), "fn main() {}".to_string()).to_string(),
        "CodeBlock(rust: fn main() {})"
    );
    assert_eq!(ASTNode::new_list(true).to_string(), "List(ordered, 0 items)");
    let mut list = ASTNode::new_list(false);
    for i in 0..12 {
        let _ = list.add_child(ASTNode::new_list_item(i.to_string()));
    }
    assert_eq!(list.to_string(), "List(unordered, 12 items)");
    assert_eq!(ASTNode::new_list_item("item".to_string()).to_string(), "ListItem(item)");
    assert_eq!(
        ASTNode::InlineCode { text: text(), start_pos: None, end_pos: None }.to_string(),
        "InlineCode(`t`)"
    );
    assert_eq!(
        ASTNode::Bold { text: text(), start_pos: None, end_pos: None }.to_string(),
        "Bold(**t**)"
    );
    assert_eq!(
        ASTNode::Italic { text: text(), start_pos: None, end_pos: None }.to_string(),
        "Italic(*t*)"
    );
    assert_eq!(
        ASTNode::Link { text: text(), url: "u".to_string(), start_pos: None, end_pos: None }
            .to_string(),
        "Link([t](u))"
    );
    assert_eq!(
        ASTNode::Blockquote { children: Vec::new(), start_pos: None, end_pos: None }.to_string(),
        "Blockquote"
    );
    assert_eq!(
        ASTNode::HorizontalRule { start_pos: None, end_pos: None }.to_string(),
        "HorizontalRule"
    );
}

#[test]
fn long_texts_are_cut_to_thirty_bytes() {
    let thirty = "123456789012345678901234567890";
    assert_eq!(
        ASTNode::new_paragraph(thirty.to_string()).to_string(),
        format!("Paragraph({})", thirty)
    );
    assert_eq!(
        ASTNode::new_paragraph(format!("{}tail", thirty)).to_string(),
        format!("Paragraph({})", thirty)
    );
    assert_eq!(
        ASTNode::new_heading(1, format!("{}tail", thirty)).to_string(),
        format!("Heading(L1: {})", thirty)
    );
    assert_eq!(
        ASTNode::new_list_item(format!("{}x", thirty)).to_string(),
        format!("ListItem({})", thirty)
    );
    assert_eq!(
        ASTNode::new_code_block("a-language-name-longer-than-thirty-bytes".to_string(), format!("{}x", thirty))
            .to_string(),
        format!("CodeBlock(a-language-name-longer-than-thirty-bytes: {})", thirty)
    );
    // Inline texts are shown in full.
    assert_eq!(
        ASTNode::Bold { text: format!("{}tail", thirty), start_pos: None, end_pos: None }
            .to_string(),
        format!("Bold(**{}tail**)", thirty)
    );
}

#[test]
fn previews_end_on_whole_characters() {
    // Fifteen characters of two bytes each are thirty bytes.
    let fifteen = "\u{e9}".repeat(15);
    assert_eq!(
        ASTNode::new_paragraph(format!("{}z", fifteen)).to_string(),
        format!("Paragraph({})", fifteen)
    );
    // Twenty-nine bytes, then a character of two: it does not fit.
    let text = format!("{}\u{e9}z", "a".repeat(29));
    assert_eq!(
        ASTNode::new_paragraph(text).to_string(),
        format!("Paragraph({})", "a".repeat(29))
    );
    // Characters of three and of four bytes.
    let text = format!("{}{}", "\u{4e16}".repeat(9), "\u{1f600}".repeat(2));
    assert_eq!(
        ASTNode::new_paragraph(text).to_string(),
        format!("Paragraph({})", "\u{4e16}".repeat(9))
    );
    let text = "\u{1f600}".repeat(8);
    assert_eq!(
        ASTNode::new_paragraph(text).to_string(),
        format!("Paragraph({})", "\u{1f600}".repeat(7))
    );
    // Where the cut falls between characters, it is the first thirty bytes.
    let text = format!("{}rest", "\u{e9}\u{4e16}".repeat(6));
    assert_eq!(
        ASTNode::new_paragraph(text.clone()).to_string(),
        format!("Paragraph({})", &text[..30])
    );
}
