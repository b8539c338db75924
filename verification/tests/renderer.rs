use cybermd::ast::ASTNode;
use cybermd::parser::MarkdownParser;
use cybermd::renderer::{escape_html, HtmlRenderer};

fn render(node: &ASTNode) -> String {
    HtmlRenderer::new().render(node)
}

#[test]
fn test_render_heading() {
    let mut renderer = HtmlRenderer::new();
    let heading = ASTNode::new_heading(1, "Test".to_string());
    let html = renderer.render(&heading);
    assert!(html.contains("<h1>"));
    assert!(html.contains("Test"));
    assert!(html.contains("</h1>"));
}

#[test]
fn test_render_code_block() {
    let mut renderer = HtmlRenderer::new();
    let code = ASTNode::new_code_block("rust".to_string(), "fn main() {}".to_string());
    let html = renderer.render(&code);
    assert!(html.contains("<pre>"));
    assert!(html.contains("language-rust"));
    assert!(html.contains("fn main()"));
}

#[test]
fn test_escape_html() {
    assert_eq!(escape_html("<script>"), "&lt;script&gt;");
    assert_eq!(escape_html("a & b"), "a &amp; b");
}

#[test]
fn escape_replaces_each_special_character_once() {
    assert_eq!(escape_html(""), "");
    assert_eq!(escape_html("plain \u{e9}\n"), "plain \u{e9}\n");
    assert_eq!(escape_html("&<>\"'"), "&amp;&lt;&gt;&quot;&#39;");
    assert_eq!(escape_html("&amp;"), "&amp;amp;");
    assert_eq!(escape_html("a<b>'c'"), "a&lt;b&gt;&#39;c&#39;");
    let chained = "x&<>\"'y"
        .replace('&', "&amp;")
        .replace('<', "&lt;")
        .replace('>', "&gt;")
        .replace('"', "&quot;")
        .replace('\'', "&#39;");
    assert_eq!(escape_html("x&<>\"'y"), chained);
}

#[test]
fn paragraph_text_is_escaped() {
    let html = render(&ASTNode::new_paragraph("<script>".to_string()));
    assert_eq!(html, "<p>&lt;script&gt;</p>\n");
}

#[test]
fn mermaid_code_is_written_as_it_stands() {
    let node = ASTNode::new_code_block("mermaid".to_string(), "<script>".to_string());
    assert_eq!(render(&node), "<div class=\"mermaid\">\n<script>\n</div>\n");
}

#[test]
fn other_code_is_escaped() {
    let node = ASTNode::new_code_block("rust".to_string(), "a < b && c".to_string());
    assert_eq!(
        render(&node),
        "<pre><code class=\"language-rust\">a &lt; b &amp;&amp; c</code></pre>\n"
    );
    let node = ASTNode::new_code_block("Mermaid".to_string(), "<x>".to_string());
    assert_eq!(render(&node), "<pre><code class=\"language-Mermaid\">&lt;x&gt;</code></pre>\n");
    let node = ASTNode::new_code_block("a\"b".to_string(), String::new());
    assert_eq!(render(&node), "<pre><code class=\"language-a&quot;b\"></code></pre>\n");
    let node = ASTNode::new_code_block(String::new(), "x".to_string());
    assert_eq!(render(&node), "<pre><code>x</code></pre>\n");
}

#[test]
fn headings_use_their_level() {
    assert_eq!(render(&ASTNode::new_heading(3, "a & b".to_string())), "<h3>a &amp; b</h3>\n");
    assert_eq!(render(&ASTNode::new_heading(0, "z".to_string())), "<h0>z</h0>\n");
    assert_eq!(render(&ASTNode::new_heading(10, "t".to_string())), "<h10>t</h10>\n");
    assert_eq!(render(&ASTNode::new_heading(255, "m".to_string())), "<h255>m</h255>\n");
}

#[test]
fn inline_nodes_render_inside_their_parent() {
    let mut para = ASTNode::new_paragraph("see ".to_string());
    let _ = para.add_child(ASTNode::Bold { text: "b<".to_string(), start_pos: None, end_pos: None });
    let _ =
        para.add_child(ASTNode::Italic { text: "i".to_string(), start_pos: None, end_pos: None });
    let _ = para.add_child(ASTNode::InlineCode {
        text: "c'".to_string(),
        start_pos: None,
        end_pos: None,
    });
    let _ = para.add_child(ASTNode::Link {
        text: "t>".to_string(),
        url: "u?a=1&b=\"2\"".to_string(),
        start_pos: None,
        end_pos: None,
    });
    assert_eq!(
        render(&para),
        "<p>see <strong>b&lt;</strong><em>i</em><code>c&#39;</code>\
         <a href=\"u?a=1&amp;b=&quot;2&quot;\">t&gt;</a></p>\n"
    );
}

#[test]
fn lists_quotes_and_rules() {
    let mut list = ASTNode::new_list(true);
    let _ = list.add_child(ASTNode::new_list_item("one".to_string()));
    let _ = list.add_child(ASTNode::new_list_item("<two>".to_string()));
    assert_eq!(render(&list), "<ol>\n<li>one</li>\n<li>&lt;two&gt;</li>\n</ol>\n");
    assert_eq!(render(&ASTNode::new_list(false)), "<ul>\n</ul>\n");

    let mut quote = ASTNode::Blockquote { children: Vec::new(), start_pos: None, end_pos: None };
    let _ = quote.add_child(ASTNode::new_paragraph("q".to_string()));
    assert_eq!(render(&quote), "<blockquote>\n<p>q</p>\n</blockquote>\n");

    let rule = ASTNode::HorizontalRule { start_pos: None, end_pos: None };
    assert_eq!(render(&rule), "<hr>\n");
    assert_eq!(render(&ASTNode::new_document()), "");
}

#[test]
fn render_of_a_parsed_document() {
    let doc = MarkdownParser::new().parse("# T\ntext <b>\n- a\n- b\n1. c\n> q\n```mermaid\nA-->B\n```\n");
    assert_eq!(
        render(&doc),
        "<h1>T</h1>\n<p>text &lt;b&gt;</p>\n<ul>\n<li>a</li>\n<li>b</li>\n</ul>\n\
         <ol>\n<li>c</li>\n</ol>\n<blockquote>\n<p>q</p>\n</blockquote>\n\
         <div class=\"mermaid\">\nA-->B\n\n</div>\n"
    );
}

#[test]
fn render_starts_afresh_each_time() {
    let mut renderer = HtmlRenderer::default();
    assert_eq!(renderer.render(&ASTNode::new_paragraph("a".to_string())), "<p>a</p>\n");
    assert_eq!(renderer.render(&ASTNode::new_paragraph("b".to_string())), "<p>b</p>\n");
}

#[test]
fn escaped_text_holds_no_markup() {
    let samples = ["<a href=\"x\">'y'</a>", "&&&", "a<b>c\"d'e&f", "\u{e9}<\u{4e16}>"];
    for sample in samples {
        let escaped = escape_html(sample);
        assert!(!escaped.contains(|c| c == '<' || c == '>' || c == '"' || c == '\''));
    }
    assert_eq!(escape_html("nothing to escape; here."), "nothing to escape; here.");
}
