use cybermd::analyzer::{DocumentAnalyzer, FoldableRegion, OutlineItem};
use cybermd::ast::{ASTNode, Position};
use cybermd::parser::MarkdownParser;

fn heading(level: u8, text: &str, line: Option<usize>) -> ASTNode {
    ASTNode::Heading {
        level,
        text: text.to_string(),
        children: Vec::new(),
        start_pos: line.map(|l| Position::new(l, 0, 0)),
        end_pos: line.map(|l| Position::new(l + 1, 0, 0)),
    }
}

/// The heading with its start set to the start of a line.
fn placed_at(mut node: ASTNode, line: usize) -> ASTNode {
    match &mut node {
        ASTNode::Heading { start_pos, end_pos, .. } => {
            *start_pos = Some(Position::new(line, 0, 0));
            *end_pos = Some(Position::new(line + 1, 0, 0));
        }
        _ => panic!("no heading"),
    }
    node
}

fn document(children: Vec<ASTNode>) -> ASTNode {
    ASTNode::Document { children, start_pos: None, end_pos: None }
}

fn regions_of(doc: &ASTNode) -> Vec<(usize, usize, String, u8)> {
    DocumentAnalyzer::new(doc)
        .get_foldable_regions()
        .iter()
        .map(|r| (r.start_line, r.end_line, r.region_type.clone(), r.level))
        .collect()
}

#[test]
fn test_build_outline() {
    let mut doc = ASTNode::new_document();
    let _ = doc.add_child(ASTNode::new_heading(1, "Title".to_string()));
    let _ = doc.add_child(ASTNode::new_heading(2, "Subtitle".to_string()));

    let mut analyzer = DocumentAnalyzer::new(&doc);
    let outline = analyzer.get_outline();

    assert_eq!(outline.len(), 2);
    assert_eq!(outline[0].level, 1);
    assert_eq!(outline[1].level, 2);
}

#[test]
fn test_find_foldable_regions() {
    let mut doc = ASTNode::new_document();
    let _ = doc.add_child(placed_at(ASTNode::new_heading(1, "Title".to_string()), 0));
    let _ = doc.add_child(ASTNode::new_code_block("rust".to_string(), "code".to_string()));

    let mut analyzer = DocumentAnalyzer::new(&doc);
    let regions = analyzer.get_foldable_regions();

    assert!(regions.len() >= 1); // At least heading should be foldable
}

#[test]
fn nodes_without_positions_fold_nothing() {
    let mut doc = ASTNode::new_document();
    let _ = doc.add_child(ASTNode::new_heading(1, "Title".to_string()));
    let _ = doc.add_child(ASTNode::new_code_block("rust".to_string(), "code".to_string()));
    let mut list = ASTNode::new_list(false);
    let _ = list.add_child(ASTNode::new_list_item("a".to_string()));
    let _ = list.add_child(ASTNode::new_list_item("b".to_string()));
    let _ = doc.add_child(list);
    assert_eq!(regions_of(&doc), vec![]);
}

#[test]
fn test_statistics() {
    let mut doc = ASTNode::new_document();
    let _ = doc.add_child(ASTNode::new_heading(1, "Title".to_string()));
    let _ = doc.add_child(ASTNode::new_paragraph("Text".to_string()));
    let _ = doc.add_child(ASTNode::new_code_block("rust".to_string(), "code".to_string()));

    let mut analyzer = DocumentAnalyzer::new(&doc);
    let stats = analyzer.get_statistics();

    assert_eq!(stats.get("headings"), Some(&1));
    assert_eq!(stats.get("paragraphs"), Some(&1));
    assert_eq!(stats.get("code_blocks"), Some(&1));
}

#[test]
fn outline_entries_carry_text_and_line() {
    let doc = document(vec![
        heading(1, "Top", Some(0)),
        ASTNode::new_paragraph("p".to_string()),
        heading(3, "Deep", Some(7)),
        heading(2, "Unplaced", None),
    ]);
    let mut analyzer = DocumentAnalyzer::new(&doc);
    let got: Vec<(u8, String, usize, usize)> = analyzer
        .get_outline()
        .iter()
        .map(|item| (item.level, item.text.clone(), item.line, item.children.len()))
        .collect();
    assert_eq!(
        got,
        vec![
            (1, "Top".to_string(), 0, 0),
            (3, "Deep".to_string(), 7, 0),
            (2, "Unplaced".to_string(), 0, 0),
        ]
    );
}

#[test]
fn outline_of_a_document_without_headings_is_empty() {
    let doc = document(vec![ASTNode::new_paragraph("p".to_string())]);
    assert!(DocumentAnalyzer::new(&doc).get_outline().is_empty());
}

#[test]
fn outline_item_and_region_constructors() {
    let item = OutlineItem::new(2, "t".to_string(), 9);
    assert_eq!((item.level, item.text.as_str(), item.line), (2, "t", 9));
    assert!(item.children.is_empty());
    let copy = item.clone();
    assert_eq!((copy.level, copy.text.as_str(), copy.line), (2, "t", 9));
    let region = FoldableRegion::new(1, 5, "list".to_string(), 0);
    assert_eq!(
        (region.start_line, region.end_line, region.region_type.as_str(), region.level),
        (1, 5, "list", 0)
    );
}

#[test]
fn heading_region_ends_before_the_closing_heading() {
    let doc = document(vec![
        heading(1, "a", Some(0)),
        heading(2, "b", Some(4)),
        heading(3, "c", Some(6)),
        heading(2, "d", Some(10)),
        heading(1, "e", Some(20)),
    ]);
    assert_eq!(
        regions_of(&doc),
        vec![
            (0, 19, "heading".to_string(), 1),
            (4, 9, "heading".to_string(), 2),
            (6, 9, "heading".to_string(), 3),
            (10, 19, "heading".to_string(), 2),
            (20, 120, "heading".to_string(), 1),
        ]
    );
}

#[test]
fn heading_region_falls_back_to_a_hundred_lines() {
    let doc = document(vec![heading(2, "only", Some(3)), heading(3, "below", Some(5))]);
    assert_eq!(
        regions_of(&doc),
        vec![(3, 103, "heading".to_string(), 2), (5, 105, "heading".to_string(), 3)]
    );
}

#[test]
fn headings_on_adjacent_lines_fold_their_own_line() {
    let doc = MarkdownParser::new().parse("# A\n# B\n");
    assert_eq!(
        regions_of(&doc),
        vec![(0, 0, "heading".to_string(), 1), (1, 101, "heading".to_string(), 1)]
    );
}

#[test]
fn every_placed_heading_has_a_region() {
    // The closing heading stands on the next line, on the same line, or
    // above; on line zero it has no line before it.
    let doc = document(vec![
        heading(1, "a", Some(5)),
        heading(1, "b", Some(6)),
        heading(1, "c", Some(6)),
        heading(1, "d", Some(0)),
        heading(1, "e", Some(3)),
    ]);
    assert_eq!(
        regions_of(&doc),
        vec![
            (0, 2, "heading".to_string(), 1),
            (3, 103, "heading".to_string(), 1),
            (5, 5, "heading".to_string(), 1),
            (6, 5, "heading".to_string(), 1),
            (6, 0, "heading".to_string(), 1),
        ]
    );
}

#[test]
fn heading_region_stops_at_the_largest_line() {
    let doc = document(vec![heading(1, "far", Some(usize::MAX - 50))]);
    assert_eq!(regions_of(&doc), vec![(usize::MAX - 50, usize::MAX, "heading".to_string(), 1)]);
    let doc = document(vec![heading(1, "last", Some(usize::MAX))]);
    assert_eq!(regions_of(&doc), vec![(usize::MAX, usize::MAX, "heading".to_string(), 1)]);
}

#[test]
fn unplaced_headings_fold_nothing_and_close_nothing() {
    let doc = document(vec![
        heading(2, "a", Some(1)),
        heading(1, "unplaced", None),
        heading(2, "b", Some(9)),
    ]);
    assert_eq!(
        regions_of(&doc),
        vec![(1, 8, "heading".to_string(), 2), (9, 109, "heading".to_string(), 2)]
    );
}

#[test]
fn code_blocks_and_long_lists_fold() {
    let code = ASTNode::CodeBlock {
        language: "rs".to_string(),
        code: "x".to_string(),
        start_pos: Some(Position::new(12, 0, 0)),
        end_pos: Some(Position::new(15, 0, 0)),
    };
    let list = |start: usize, items: usize| ASTNode::List {
        ordered: false,
        items: (0..items).map(|i| ASTNode::new_list_item(i.to_string())).collect(),
        start_pos: Some(Position::new(start, 0, 0)),
        end_pos: Some(Position::new(start + items, 0, 0)),
    };
    let doc = document(vec![list(30, 3), code, list(2, 1), list(4, 2), heading(1, "h", Some(4))]);
    assert_eq!(
        regions_of(&doc),
        vec![
            (4, 104, "heading".to_string(), 1),
            (4, 6, "list".to_string(), 0),
            (12, 15, "code_block".to_string(), 0),
            (30, 33, "list".to_string(), 0),
        ]
    );
}

#[test]
fn regions_of_a_parsed_document() {
    let text = "# A\nintro\n## B\n- x\n- y\n```rs\ncode\n```\n# C\n";
    let doc = MarkdownParser::new().parse(text);
    assert_eq!(
        regions_of(&doc),
        vec![
            (0, 7, "heading".to_string(), 1),
            (2, 7, "heading".to_string(), 2),
            (3, 5, "list".to_string(), 0),
            (5, 8, "code_block".to_string(), 0),
            (8, 108, "heading".to_string(), 1),
        ]
    );
}

#[test]
fn hierarchy_lists_direct_children() {
    let doc = document(vec![
        heading(1, "a", None),
        heading(2, "b", None),
        heading(3, "c", None),
        heading(2, "d", None),
        heading(4, "skipped level", None),
        heading(1, "e", None),
        heading(2, "f", None),
    ]);
    let mut analyzer = DocumentAnalyzer::new(&doc);
    let hierarchy = analyzer.get_heading_hierarchy();
    assert_eq!(hierarchy.len(), 7);
    assert_eq!(hierarchy[&0], vec![1, 3]);
    assert_eq!(hierarchy[&1], vec![2]);
    assert_eq!(hierarchy[&2], Vec::<usize>::new());
    assert_eq!(hierarchy[&3], Vec::<usize>::new());
    assert_eq!(hierarchy[&4], Vec::<usize>::new());
    assert_eq!(hierarchy[&5], vec![6]);
    assert_eq!(hierarchy[&6], Vec::<usize>::new());
}

#[test]
fn hierarchy_of_the_deepest_level_has_no_children() {
    let doc = document(vec![heading(255, "a", None), heading(0, "b", None), heading(1, "c", None)]);
    let mut analyzer = DocumentAnalyzer::new(&doc);
    let hierarchy = analyzer.get_heading_hierarchy();
    assert_eq!(hierarchy[&0], Vec::<usize>::new());
    assert_eq!(hierarchy[&1], vec![2]);
}

#[test]
fn statistics_count_every_kind_and_the_greatest_level() {
    let mut quote = ASTNode::Blockquote { children: Vec::new(), start_pos: None, end_pos: None };
    let _ = quote.add_child(ASTNode::new_paragraph("q".to_string()));
    let doc = document(vec![
        heading(2, "a", None),
        heading(5, "b", None),
        heading(3, "c", None),
        quote,
        ASTNode::new_paragraph("p".to_string()),
        ASTNode::new_list(false),
        ASTNode::new_list(true),
        ASTNode::new_code_block("x".to_string(), "y".to_string()),
    ]);
    let mut analyzer = DocumentAnalyzer::new(&doc);
    let stats = analyzer.get_statistics();
    assert_eq!(stats.len(), 5);
    assert_eq!(stats.get("headings"), Some(&3));
    assert_eq!(stats.get("paragraphs"), Some(&2));
    assert_eq!(stats.get("code_blocks"), Some(&1));
    assert_eq!(stats.get("lists"), Some(&2));
    assert_eq!(stats.get("max_heading_level"), Some(&5));
    assert_eq!(stats.get("words"), None);
}

#[test]
fn statistics_of_an_empty_document() {
    let doc = ASTNode::new_document();
    let mut analyzer = DocumentAnalyzer::new(&doc);
    let stats = analyzer.get_statistics();
    for key in ["headings", "paragraphs", "code_blocks", "lists", "max_heading_level"] {
        assert_eq!(stats.get(key), Some(&0));
    }
}

#[test]
fn results_are_kept_between_calls() {
    let doc = document(vec![heading(1, "a", Some(0)), heading(2, "b", Some(3))]);
    let mut analyzer = DocumentAnalyzer::new(&doc);
    assert_eq!(analyzer.get_outline().len(), 2);
    assert_eq!(analyzer.get_outline().len(), 2);
    analyzer.analyze();
    assert_eq!(analyzer.get_foldable_regions().len(), 2);
    assert_eq!(analyzer.get_heading_hierarchy()[&0], vec![1]);
}

#[test]
fn regions_come_in_the_order_of_their_start_lines() {
    let text = "```\na\n```\n# A\n- x\n- y\n## B\n```\nb\n```\n# C\n1. p\n2. q\n";
    let doc = MarkdownParser::new().parse(text);
    let regions = regions_of(&doc);
    assert_eq!(regions.len(), 7);
    for pair in regions.windows(2) {
        assert!(pair[0].0 <= pair[1].0);
    }
    // Regions that start on one line keep the order: headings, code, lists.
    let doc = document(vec![
        ASTNode::List {
            ordered: true,
            items: vec![ASTNode::new_list_item("a".to_string()), ASTNode::new_list_item("b".to_string())],
            start_pos: Some(Position::new(3, 0, 0)),
            end_pos: Some(Position::new(5, 0, 0)),
        },
        ASTNode::CodeBlock {
            language: "x".to_string(),
            code: String::new(),
            start_pos: Some(Position::new(3, 0, 0)),
            end_pos: Some(Position::new(4, 0, 0)),
        },
        heading(2, "h", Some(3)),
    ]);
    let kinds: Vec<String> = regions_of(&doc).into_iter().map(|r| r.2).collect();
    assert_eq!(kinds, vec!["heading", "code_block", "list"]);
}
