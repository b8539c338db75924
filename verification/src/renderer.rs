//! The renderer: the HTML of a tree.

use crate::ast::{views, ASTNode, Tree};
use crate::text::{decimal, push_decimal};
use vstd::prelude::*;

verus! {

/// What a character is written as in HTML.
pub open spec fn escape_char(c: char) -> Seq<char> {
    if c == '&' {
        "&amp;"@
    } else if c == '<' {
        "&lt;"@
    } else if c == '>' {
        "&gt;"@
    } else if c == '"' {
        "&quot;"@
    } else if c == '\'' {
        "&#39;"@
    } else {
        seq![c]
    }
}

/// A text with each of its characters written as it is in HTML.
pub open spec fn escape(s: Seq<char>) -> Seq<char>
    decreases s.len(),
{
    if s.len() == 0 {
        Seq::empty()
    } else {
        escape(s.drop_last()) + escape_char(s.last())
    }
}

/// The attribute that names the language of a code block; nothing where
/// the language is empty.
pub open spec fn language_attribute(language: Seq<char>) -> Seq<char> {
    if language.len() > 0 {
        " class=\"language-"@ + escape(language) + "\""@
    } else {
        Seq::empty()
    }
}

/// The HTML of a code block. A block in the language `mermaid` is written
/// as it stands, for a diagram to be drawn from it; any other is escaped.
pub open spec fn code_block_html(language: Seq<char>, code: Seq<char>) -> Seq<char> {
    if language == "mermaid"@ {
        "<div class=\"mermaid\">\n"@ + code + "\n</div>\n"@
    } else {
        "<pre><code"@ + language_attribute(language) + ">"@ + escape(code) + "</code></pre>\n"@
    }
}

/// What stands in front of a node's children in its HTML.
pub open spec fn opening(node: Tree) -> Seq<char> {
    match node {
        Tree::Document { .. } => Seq::empty(),
        Tree::Heading { level, text, .. } => "<h"@ + decimal(level as nat) + ">"@ + escape(text),
        Tree::Paragraph { text, .. } => "<p>"@ + escape(text),
        Tree::CodeBlock { language, code, .. } => code_block_html(language, code),
        Tree::InlineCode { text, .. } => "<code>"@ + escape(text) + "</code>"@,
        Tree::Bold { text, .. } => "<strong>"@ + escape(text) + "</strong>"@,
        Tree::Italic { text, .. } => "<em>"@ + escape(text) + "</em>"@,
        Tree::Link { text, url, .. } => "<a href=\""@ + escape(url) + "\">"@ + escape(text)
            + "</a>"@,
        Tree::List { ordered, .. } => if ordered {
            "<ol>\n"@
        } else {
            "<ul>\n"@
        },
        Tree::ListItem { text, .. } => "<li>"@ + escape(text),
        Tree::Blockquote { .. } => "<blockquote>\n"@,
        Tree::HorizontalRule { .. } => "<hr>\n"@,
    }
}

/// What stands behind a node's children in its HTML.
pub open spec fn closing(node: Tree) -> Seq<char> {
    match node {
        Tree::Heading { level, .. } => "</h"@ + decimal(level as nat) + ">\n"@,
        Tree::Paragraph { .. } => "</p>\n"@,
        Tree::List { ordered, .. } => if ordered {
            "</ol>\n"@
        } else {
            "</ul>\n"@
        },
        Tree::ListItem { .. } => "</li>\n"@,
        Tree::Blockquote { .. } => "</blockquote>\n"@,
        _ => Seq::empty(),
    }
}

impl Tree {
    /// The HTML of the tree.
    pub open spec fn html(self) -> Seq<char>
        decreases self, self.children().len() + 1,
    {
        opening(self) + self.children_html(self.children().len()) + closing(self)
    }

    /// The HTML of the first `n` children, one after the other.
    pub open spec fn children_html(self, n: nat) -> Seq<char>
        decreases self, n,
    {
        if n == 0 || n > self.children().len() {
            Seq::empty()
        } else {
            self.children_html((n - 1) as nat) + self.children()[n - 1].html()
        }
    }
}

/// A text with each of its characters written as it is in HTML: `&`, `<`,
/// `>` and both quotes are replaced, the rest is kept.
pub fn escape_html(s: &str) -> (escaped: String)
    ensures
        escaped@ == escape(s@),
{
    let mut escaped = String::new();
    for c in it: s.chars()
        invariant
            it.seq() == s@,
            escaped@ == escape(s@.take(it.index() as int)),
    {
        let ghost read = it.index() as int;
        match c {
            '&' => escaped.append("&amp;"),
            '<' => escaped.append("&lt;"),
            '>' => escaped.append("&gt;"),
            '"' => escaped.append("&quot;"),
            '\'' => escaped.append("&#39;"),
            _ => escaped.push(c),
        }
        assert(s@.take(read + 1).drop_last() =~= s@.take(read));
    }
    assert(s@.take(s@.len() as int) =~= s@);
    escaped
}

/// A renderer of HTML. It gathers its output in a buffer.
pub struct HtmlRenderer {
    buffer: String,
}

impl HtmlRenderer {
    /// What the renderer has written last.
    pub closed spec fn output(&self) -> Seq<char> {
        self.buffer@
    }

    /// A renderer that has written nothing yet.
    pub fn new() -> (renderer: Self)
        ensures
            renderer.output() == Seq::<char>::empty(),
    {
        HtmlRenderer { buffer: String::new() }
    }

    /// The HTML of a tree. What was written before is dropped.
    pub fn render(&mut self, node: &ASTNode) -> (html: String)
        ensures
            html@ == node@.html(),
            final(self).output() == node@.html(),
    {
        self.buffer = String::new();
        self.render_node(node);
        self.buffer.clone()
    }

    fn render_node(&mut self, node: &ASTNode)
        ensures
            final(self).buffer@ == old(self).buffer@ + node@.html(),
        decreases node,
    {
        let ghost before = self.buffer@;
        match node {
            ASTNode::Document { .. } => {},
            ASTNode::Heading { level, text, .. } => {
                self.buffer.append("<h");
                push_decimal(&mut self.buffer, *level as usize);
                self.buffer.append(">");
                self.buffer.append(escape_html(text.as_str()).as_str());
            },
            ASTNode::Paragraph { text, .. } => {
                self.buffer.append("<p>");
                self.buffer.append(escape_html(text.as_str()).as_str());
            },
            ASTNode::CodeBlock { language, code, .. } => {
                if *language == "mermaid".to_owned() {
                    self.buffer.append("<div class=\"mermaid\">\n");
                    self.buffer.append(code.as_str());
                    self.buffer.append("\n</div>\n");
                } else {
                    self.buffer.append("<pre><code");
                    if !language.as_str().is_empty() {
                        self.buffer.append(" class=\"language-");
                        self.buffer.append(escape_html(language.as_str()).as_str());
                        self.buffer.append("\"");
                    }
                    self.buffer.append(">");
                    self.buffer.append(escape_html(code.as_str()).as_str());
                    self.buffer.append("</code></pre>\n");
                }
            },
            ASTNode::InlineCode { text, .. } => {
                self.buffer.append("<code>");
                self.buffer.append(escape_html(text.as_str()).as_str());
                self.buffer.append("</code>");
            },
            ASTNode::Bold { text, .. } => {
                self.buffer.append("<strong>");
                self.buffer.append(escape_html(text.as_str()).as_str());
                self.buffer.append("</strong>");
            },
            ASTNode::Italic { text, .. } => {
                self.buffer.append("<em>");
                self.buffer.append(escape_html(text.as_str()).as_str());
                self.buffer.append("</em>");
            },
            ASTNode::Link { text, url, .. } => {
                self.buffer.append("<a href=\"");
                self.buffer.append(escape_html(url.as_str()).as_str());
                self.buffer.append("\">");
                self.buffer.append(escape_html(text.as_str()).as_str());
                self.buffer.append("</a>");
            },
            ASTNode::List { ordered, .. } => {
                if *ordered {
                    self.buffer.append("<ol>\n");
                } else {
                    self.buffer.append("<ul>\n");
                }
            },
            ASTNode::ListItem { text, .. } => {
                self.buffer.append("<li>");
                self.buffer.append(escape_html(text.as_str()).as_str());
            },
            ASTNode::Blockquote { .. } => {
                self.buffer.append("<blockquote>\n");
            },
            ASTNode::HorizontalRule { .. } => {
                self.buffer.append("<hr>\n");
            },
        }
        let kids = node.children();
        let mut i: usize = 0;
        while i < kids.len()
            invariant
                i <= kids.len(),
                kids@ == node.child_nodes(),
                views(kids@) == node@.children(),
                self.buffer@ == before + opening(node@) + node@.children_html(i as nat),
            decreases kids.len() - i,
        {
            self.render_node(&kids[i]);
            i += 1;
        }
        match node {
            ASTNode::Heading { level, .. } => {
                self.buffer.append("</h");
                push_decimal(&mut self.buffer, *level as usize);
                self.buffer.append(">\n");
            },
            ASTNode::Paragraph { .. } => {
                self.buffer.append("</p>\n");
            },
            ASTNode::List { ordered, .. } => {
                if *ordered {
                    self.buffer.append("</ol>\n");
                } else {
                    self.buffer.append("</ul>\n");
                }
            },
            ASTNode::ListItem { .. } => {
                self.buffer.append("</li>\n");
            },
            ASTNode::Blockquote { .. } => {
                self.buffer.append("</blockquote>\n");
            },
            _ => {},
        }
    }
}

impl Default for HtmlRenderer {
    fn default() -> (renderer: Self)
        ensures
            renderer.output() == Seq::<char>::empty(),
    {
        Self::new()
    }
}

/// A character that starts or ends a tag or an attribute value in HTML.
pub open spec fn is_markup(c: char) -> bool {
    c == '<' || c == '>' || c == '"' || c == '\''
}

/// What a character is written as holds no markup.
pub proof fn lemma_escape_char_is_inert(c: char)
    ensures
        forall|i: int| 0 <= i < escape_char(c).len() ==> !is_markup(#[trigger] escape_char(c)[i]),
        escape_char(c).len() >= 1,
        is_markup(c) || c == '&' <==> escape_char(c) != seq![c],
{
    reveal_strlit("&amp;");
    reveal_strlit("&lt;");
    reveal_strlit("&gt;");
    reveal_strlit("&quot;");
    reveal_strlit("&#39;");
}

/// An escaped text holds no markup: no character of it starts or ends a tag
/// or an attribute value.
pub proof fn lemma_escape_is_inert(s: Seq<char>)
    ensures
        forall|i: int| 0 <= i < escape(s).len() ==> !is_markup(#[trigger] escape(s)[i]),
    decreases s.len(),
{
    if s.len() > 0 {
        let head = escape(s.drop_last());
        lemma_escape_is_inert(s.drop_last());
        lemma_escape_char_is_inert(s.last());
        assert forall|i: int| 0 <= i < escape(s).len() implies !is_markup(
            #[trigger] escape(s)[i],
        ) by {
            if i < head.len() {
                assert(escape(s)[i] == head[i]);
            } else {
                assert(escape(s)[i] == escape_char(s.last())[i - head.len()]);
            }
        }
    }
}

/// A text without markup and without `&` is escaped as itself.
pub proof fn lemma_escape_plain(s: Seq<char>)
    requires
        forall|i: int| 0 <= i < s.len() ==> !is_markup(#[trigger] s[i]) && s[i] != '&',
    ensures
        escape(s) == s,
    decreases s.len(),
{
    if s.len() > 0 {
        lemma_escape_plain(s.drop_last());
    }
}

} // verus!
