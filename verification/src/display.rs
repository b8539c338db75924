//! One-line descriptions of positions and nodes.

use crate::ast::{ASTNode, Position, Tree};
use crate::text::{chars_of, decimal, push_decimal};
use vstd::prelude::*;

verus! {

/// The most bytes of a text that a description shows.
pub const PREVIEW_BYTES: usize = 30;

/// The number of bytes that a character takes in UTF-8.
pub open spec fn utf8_len(c: char) -> nat {
    if c <= '\u{7f}' {
        1
    } else if c <= '\u{7ff}' {
        2
    } else if c <= '\u{ffff}' {
        3
    } else {
        4
    }
}

/// The number of leading characters of `s` that fit into `budget` bytes of
/// UTF-8.
pub open spec fn prefix_within(s: Seq<char>, budget: nat) -> nat
    decreases s.len(),
{
    if s.len() > 0 && utf8_len(s[0]) <= budget {
        1 + prefix_within(s.drop_first(), (budget - utf8_len(s[0])) as nat)
    } else {
        0
    }
}

/// The preview of a text: its longest prefix of whole characters that takes
/// no more bytes than a description shows. A text that short is its own
/// preview.
pub open spec fn preview(s: Seq<char>) -> Seq<char> {
    s.take(prefix_within(s, PREVIEW_BYTES as nat) as int)
}

/// The description of a position.
pub open spec fn position_text(p: Position) -> Seq<char> {
    "L"@ + decimal(p.line as nat) + ":C"@ + decimal(p.column as nat)
}

/// The description of a node.
pub open spec fn node_text(node: Tree) -> Seq<char> {
    match node {
        Tree::Document { .. } => "Document"@,
        Tree::Heading { level, text, .. } => "Heading(L"@ + decimal(level as nat) + ": "@
            + preview(text) + ")"@,
        Tree::Paragraph { text, .. } => "Paragraph("@ + preview(text) + ")"@,
        Tree::CodeBlock { language, code, .. } => "CodeBlock("@ + language + ": "@ + preview(code)
            + ")"@,
        Tree::List { ordered, items, .. } => "List("@ + (if ordered {
            "ordered"@
        } else {
            "unordered"@
        }) + ", "@ + decimal(items.len()) + " items)"@,
        Tree::ListItem { text, .. } => "ListItem("@ + preview(text) + ")"@,
        Tree::InlineCode { text, .. } => "InlineCode(`"@ + text + "`)"@,
        Tree::Bold { text, .. } => "Bold(**"@ + text + "**)"@,
        Tree::Italic { text, .. } => "Italic(*"@ + text + "*)"@,
        Tree::Link { text, url, .. } => "Link(["@ + text + "]("@ + url + "))"@,
        Tree::Blockquote { .. } => "Blockquote"@,
        Tree::HorizontalRule { .. } => "HorizontalRule"@,
    }
}

fn char_width(c: char) -> (width: usize)
    ensures
        width == utf8_len(c),
{
    if c <= '\u{7f}' {
        1
    } else if c <= '\u{7ff}' {
        2
    } else if c <= '\u{ffff}' {
        3
    } else {
        4
    }
}

/// Appends the preview of `text` to `out`.
fn push_preview(out: &mut String, text: &str)
    ensures
        final(out)@ == old(out)@ + preview(text@),
{
    let chars = chars_of(text);
    let mut left: usize = PREVIEW_BYTES;
    let mut i: usize = 0;
    proof {
        assert(chars@.skip(0) =~= chars@);
    }
    while i < chars.len() && char_width(chars[i]) <= left
        invariant
            i <= chars.len(),
            left <= PREVIEW_BYTES,
            text@ == chars@,
            out@ == old(out)@ + chars@.take(i as int),
            prefix_within(chars@, PREVIEW_BYTES as nat) == i + prefix_within(
                chars@.skip(i as int),
                left as nat,
            ),
        decreases chars.len() - i,
    {
        let c = chars[i];
        proof {
            assert(chars@.skip(i as int).drop_first() =~= chars@.skip(i + 1));
        }
        out.push(c);
        left = left - char_width(c);
        i += 1;
    }
}

impl Position {
    /// The description of the position: its line and its column.
    pub fn to_string(&self) -> (s: String)
        ensures
            s@ == position_text(*self),
    {
        let mut s = String::new();
        s.append("L");
        push_decimal(&mut s, self.line);
        s.append(":C");
        push_decimal(&mut s, self.column);
        s
    }
}

impl ASTNode {
    /// The description of the node: its kind and, where it has one, a
    /// preview of its text.
    pub fn to_string(&self) -> (s: String)
        ensures
            s@ == node_text(self@),
    {
        let mut s = String::new();
        match self {
            ASTNode::Document { .. } => {
                s.append("Document");
            },
            ASTNode::Heading { level, text, .. } => {
                s.append("Heading(L");
                push_decimal(&mut s, *level as usize);
                s.append(": ");
                push_preview(&mut s, text.as_str());
                s.append(")");
            },
            ASTNode::Paragraph { text, .. } => {
                s.append("Paragraph(");
                push_preview(&mut s, text.as_str());
                s.append(")");
            },
            ASTNode::CodeBlock { language, code, .. } => {
                s.append("CodeBlock(");
                s.append(language.as_str());
                s.append(": ");
                push_preview(&mut s, code.as_str());
                s.append(")");
            },
            ASTNode::List { ordered, items, .. } => {
                s.append("List(");
                if *ordered {
                    s.append("ordered");
                } else {
                    s.append("unordered");
                }
                s.append(", ");
                push_decimal(&mut s, items.len());
                s.append(" items)");
            },
            ASTNode::ListItem { text, .. } => {
                s.append("ListItem(");
                push_preview(&mut s, text.as_str());
                s.append(")");
            },
            ASTNode::InlineCode { text, .. } => {
                s.append("InlineCode(`");
                s.append(text.as_str());
                s.append("`)");
            },
            ASTNode::Bold { text, .. } => {
                s.append("Bold(**");
                s.append(text.as_str());
                s.append("**)");
            },
            ASTNode::Italic { text, .. } => {
                s.append("Italic(*");
                s.append(text.as_str());
                s.append("*)");
            },
            ASTNode::Link { text, url, .. } => {
                s.append("Link([");
                s.append(text.as_str());
                s.append("](");
                s.append(url.as_str());
                s.append("))");
            },
            ASTNode::Blockquote { .. } => {
                s.append("Blockquote");
            },
            ASTNode::HorizontalRule { .. } => {
                s.append("HorizontalRule");
            },
        }
        s
    }
}

} // verus!
