//! The document tree: positions, the executable node type and its
//! mathematical model.

use vstd::prelude::*;

verus! {

/// A location in a document. Lines, columns and offsets all count from zero,
/// and all of them count characters.
#[derive(Debug, Clone, Copy, PartialEq, Eq, Structural)]
pub struct Position {
    pub line: usize,
    pub column: usize,
    pub offset: usize,
}

impl Position {
    /// The position with the given line, column and offset.
    pub fn new(line: usize, column: usize, offset: usize) -> (p: Self)
        ensures
            p == (Position { line, column, offset }),
    {
        Position { line, column, offset }
    }

    /// The start of a document.
    pub fn zero() -> (p: Self)
        ensures
            p == (Position { line: 0, column: 0, offset: 0 }),
    {
        Position { line: 0, column: 0, offset: 0 }
    }

    /// Document order on positions: by line, then by column.
    pub open spec fn le(self, other: Position) -> bool {
        self.line < other.line || (self.line == other.line && self.column <= other.column)
    }
}

/// The kinds of node.
#[derive(Debug, Clone, Copy, PartialEq, Eq, Structural)]
pub enum NodeKind {
    Document,
    Heading,
    Paragraph,
    CodeBlock,
    List,
    ListItem,
    InlineCode,
    Bold,
    Italic,
    Link,
    Blockquote,
    HorizontalRule,
}

impl NodeKind {
    /// The name of the kind.
    pub open spec fn name(self) -> Seq<char> {
        match self {
            NodeKind::Document => "document"@,
            NodeKind::Heading => "heading"@,
            NodeKind::Paragraph => "paragraph"@,
            NodeKind::CodeBlock => "code_block"@,
            NodeKind::List => "list"@,
            NodeKind::ListItem => "list_item"@,
            NodeKind::InlineCode => "inline_code"@,
            NodeKind::Bold => "bold"@,
            NodeKind::Italic => "italic"@,
            NodeKind::Link => "link"@,
            NodeKind::Blockquote => "blockquote"@,
            NodeKind::HorizontalRule => "horizontal_rule"@,
        }
    }

    /// No two kinds share a name.
    pub proof fn lemma_names_distinct(self, other: NodeKind)
        ensures
            self.name() == other.name() ==> self == other,
    {
        reveal_strlit("document");
        reveal_strlit("heading");
        reveal_strlit("paragraph");
        reveal_strlit("code_block");
        reveal_strlit("list");
        reveal_strlit("list_item");
        reveal_strlit("inline_code");
        reveal_strlit("bold");
        reveal_strlit("italic");
        reveal_strlit("link");
        reveal_strlit("blockquote");
        reveal_strlit("horizontal_rule");
        if self.name() == other.name() {
            assert(self.name().len() == other.name().len());
            assert(self.name()[2] == other.name()[2]);
        }
    }

    /// The name of the kind.
    pub fn as_str(self) -> (name: &'static str)
        ensures
            name@ == self.name(),
    {
        match self {
            NodeKind::Document => "document",
            NodeKind::Heading => "heading",
            NodeKind::Paragraph => "paragraph",
            NodeKind::CodeBlock => "code_block",
            NodeKind::List => "list",
            NodeKind::ListItem => "list_item",
            NodeKind::InlineCode => "inline_code",
            NodeKind::Bold => "bold",
            NodeKind::Italic => "italic",
            NodeKind::Link => "link",
            NodeKind::Blockquote => "blockquote",
            NodeKind::HorizontalRule => "horizontal_rule",
        }
    }

    /// The kind with the given name, if there is one.
    pub open spec fn named(name: Seq<char>) -> Option<NodeKind> {
        if name == "document"@ {
            Some(NodeKind::Document)
        } else if name == "heading"@ {
            Some(NodeKind::Heading)
        } else if name == "paragraph"@ {
            Some(NodeKind::Paragraph)
        } else if name == "code_block"@ {
            Some(NodeKind::CodeBlock)
        } else if name == "list"@ {
            Some(NodeKind::List)
        } else if name == "list_item"@ {
            Some(NodeKind::ListItem)
        } else if name == "inline_code"@ {
            Some(NodeKind::InlineCode)
        } else if name == "bold"@ {
            Some(NodeKind::Bold)
        } else if name == "italic"@ {
            Some(NodeKind::Italic)
        } else if name == "link"@ {
            Some(NodeKind::Link)
        } else if name == "blockquote"@ {
            Some(NodeKind::Blockquote)
        } else if name == "horizontal_rule"@ {
            Some(NodeKind::HorizontalRule)
        } else {
            None
        }
    }

    /// The kind with the given name, if there is one.
    pub fn from_name(name: &str) -> (kind: Option<NodeKind>)
        ensures
            kind == NodeKind::named(name@),
            kind matches Some(k) ==> k.name() == name@,
            kind is None ==> forall|k: NodeKind| k.name() != name@,
    {
        let wanted = name.to_owned();
        if wanted == "document".to_owned() {
            Some(NodeKind::Document)
        } else if wanted == "heading".to_owned() {
            Some(NodeKind::Heading)
        } else if wanted == "paragraph".to_owned() {
            Some(NodeKind::Paragraph)
        } else if wanted == "code_block".to_owned() {
            Some(NodeKind::CodeBlock)
        } else if wanted == "list".to_owned() {
            Some(NodeKind::List)
        } else if wanted == "list_item".to_owned() {
            Some(NodeKind::ListItem)
        } else if wanted == "inline_code".to_owned() {
            Some(NodeKind::InlineCode)
        } else if wanted == "bold".to_owned() {
            Some(NodeKind::Bold)
        } else if wanted == "italic".to_owned() {
            Some(NodeKind::Italic)
        } else if wanted == "link".to_owned() {
            Some(NodeKind::Link)
        } else if wanted == "blockquote".to_owned() {
            Some(NodeKind::Blockquote)
        } else if wanted == "horizontal_rule".to_owned() {
            Some(NodeKind::HorizontalRule)
        } else {
            None
        }
    }
}

/// The mathematical model of a node: the same variants as [`ASTNode`], with
/// sequences in place of vectors and strings.
pub enum Tree {
    Document { children: Seq<Tree>, start_pos: Option<Position>, end_pos: Option<Position> },
    Heading {
        level: u8,
        text: Seq<char>,
        children: Seq<Tree>,
        start_pos: Option<Position>,
        end_pos: Option<Position>,
    },
    Paragraph {
        text: Seq<char>,
        inline_nodes: Seq<Tree>,
        start_pos: Option<Position>,
        end_pos: Option<Position>,
    },
    CodeBlock {
        language: Seq<char>,
        code: Seq<char>,
        start_pos: Option<Position>,
        end_pos: Option<Position>,
    },
    List {
        ordered: bool,
        items: Seq<Tree>,
        start_pos: Option<Position>,
        end_pos: Option<Position>,
    },
    ListItem {
        text: Seq<char>,
        children: Seq<Tree>,
        start_pos: Option<Position>,
        end_pos: Option<Position>,
    },
    InlineCode { text: Seq<char>, start_pos: Option<Position>, end_pos: Option<Position> },
    Bold { text: Seq<char>, start_pos: Option<Position>, end_pos: Option<Position> },
    Italic { text: Seq<char>, start_pos: Option<Position>, end_pos: Option<Position> },
    Link {
        text: Seq<char>,
        url: Seq<char>,
        start_pos: Option<Position>,
        end_pos: Option<Position>,
    },
    Blockquote { children: Seq<Tree>, start_pos: Option<Position>, end_pos: Option<Position> },
    HorizontalRule { start_pos: Option<Position>, end_pos: Option<Position> },
}

impl Tree {
    /// Whether this kind of node owns a collection of children.
    pub open spec fn supports_children(self) -> bool {
        self is Document || self is Heading || self is Paragraph || self is List
            || self is ListItem || self is Blockquote
    }

    /// The children in source order; empty for a kind that owns none.
    pub open spec fn children(self) -> Seq<Tree> {
        match self {
            Tree::Document { children, .. } => children,
            Tree::Heading { children, .. } => children,
            Tree::Paragraph { inline_nodes, .. } => inline_nodes,
            Tree::List { items, .. } => items,
            Tree::ListItem { children, .. } => children,
            Tree::Blockquote { children, .. } => children,
            _ => Seq::empty(),
        }
    }

    /// The same node with its children replaced; a kind that owns no
    /// children is left as it is.
    pub open spec fn with_children(self, kids: Seq<Tree>) -> Tree {
        match self {
            Tree::Document { start_pos, end_pos, .. } => Tree::Document {
                children: kids,
                start_pos,
                end_pos,
            },
            Tree::Heading { level, text, start_pos, end_pos, .. } => Tree::Heading {
                level,
                text,
                children: kids,
                start_pos,
                end_pos,
            },
            Tree::Paragraph { text, start_pos, end_pos, .. } => Tree::Paragraph {
                text,
                inline_nodes: kids,
                start_pos,
                end_pos,
            },
            Tree::List { ordered, start_pos, end_pos, .. } => Tree::List {
                ordered,
                items: kids,
                start_pos,
                end_pos,
            },
            Tree::ListItem { text, start_pos, end_pos, .. } => Tree::ListItem {
                text,
                children: kids,
                start_pos,
                end_pos,
            },
            Tree::Blockquote { start_pos, end_pos, .. } => Tree::Blockquote {
                children: kids,
                start_pos,
                end_pos,
            },
            _ => self,
        }
    }

    /// Where the node starts, if that is set.
    pub open spec fn start_pos(self) -> Option<Position> {
        match self {
            Tree::Document { start_pos, .. } => start_pos,
            Tree::Heading { start_pos, .. } => start_pos,
            Tree::Paragraph { start_pos, .. } => start_pos,
            Tree::CodeBlock { start_pos, .. } => start_pos,
            Tree::List { start_pos, .. } => start_pos,
            Tree::ListItem { start_pos, .. } => start_pos,
            Tree::InlineCode { start_pos, .. } => start_pos,
            Tree::Bold { start_pos, .. } => start_pos,
            Tree::Italic { start_pos, .. } => start_pos,
            Tree::Link { start_pos, .. } => start_pos,
            Tree::Blockquote { start_pos, .. } => start_pos,
            Tree::HorizontalRule { start_pos, .. } => start_pos,
        }
    }

    /// Where the node ends, if that is set.
    pub open spec fn end_pos(self) -> Option<Position> {
        match self {
            Tree::Document { end_pos, .. } => end_pos,
            Tree::Heading { end_pos, .. } => end_pos,
            Tree::Paragraph { end_pos, .. } => end_pos,
            Tree::CodeBlock { end_pos, .. } => end_pos,
            Tree::List { end_pos, .. } => end_pos,
            Tree::ListItem { end_pos, .. } => end_pos,
            Tree::InlineCode { end_pos, .. } => end_pos,
            Tree::Bold { end_pos, .. } => end_pos,
            Tree::Italic { end_pos, .. } => end_pos,
            Tree::Link { end_pos, .. } => end_pos,
            Tree::Blockquote { end_pos, .. } => end_pos,
            Tree::HorizontalRule { end_pos, .. } => end_pos,
        }
    }

    /// The node's kind.
    pub open spec fn kind(self) -> NodeKind {
        match self {
            Tree::Document { .. } => NodeKind::Document,
            Tree::Heading { .. } => NodeKind::Heading,
            Tree::Paragraph { .. } => NodeKind::Paragraph,
            Tree::CodeBlock { .. } => NodeKind::CodeBlock,
            Tree::List { .. } => NodeKind::List,
            Tree::ListItem { .. } => NodeKind::ListItem,
            Tree::InlineCode { .. } => NodeKind::InlineCode,
            Tree::Bold { .. } => NodeKind::Bold,
            Tree::Italic { .. } => NodeKind::Italic,
            Tree::Link { .. } => NodeKind::Link,
            Tree::Blockquote { .. } => NodeKind::Blockquote,
            Tree::HorizontalRule { .. } => NodeKind::HorizontalRule,
        }
    }

    /// The name of the node's kind.
    pub open spec fn kind_name(self) -> Seq<char> {
        self.kind().name()
    }

    /// Both positions are set.
    pub open spec fn positioned(self) -> bool {
        self.start_pos() is Some && self.end_pos() is Some
    }

    /// Every node of the tree has both positions set.
    pub open spec fn all_positioned(self) -> bool
        decreases self,
    {
        &&& self.positioned()
        &&& forall|i: int|
            0 <= i < self.children().len() ==> (#[trigger] self.children()[i]).all_positioned()
    }
}

/// A node of the document tree.
#[derive(Debug)]
pub enum ASTNode {
    /// The root of a document.
    Document { children: Vec<ASTNode>, start_pos: Option<Position>, end_pos: Option<Position> },
    /// A heading of level 1 to 6.
    Heading {
        level: u8,
        text: String,
        children: Vec<ASTNode>,
        start_pos: Option<Position>,
        end_pos: Option<Position>,
    },
    /// A paragraph of text.
    Paragraph {
        text: String,
        inline_nodes: Vec<ASTNode>,
        start_pos: Option<Position>,
        end_pos: Option<Position>,
    },
    /// A fenced code block.
    CodeBlock {
        language: String,
        code: String,
        start_pos: Option<Position>,
        end_pos: Option<Position>,
    },
    /// An ordered or unordered list.
    List {
        ordered: bool,
        items: Vec<ASTNode>,
        start_pos: Option<Position>,
        end_pos: Option<Position>,
    },
    /// One item of a list.
    ListItem {
        text: String,
        children: Vec<ASTNode>,
        start_pos: Option<Position>,
        end_pos: Option<Position>,
    },
    /// Inline code.
    InlineCode { text: String, start_pos: Option<Position>, end_pos: Option<Position> },
    /// Bold text.
    Bold { text: String, start_pos: Option<Position>, end_pos: Option<Position> },
    /// Italic text.
    Italic { text: String, start_pos: Option<Position>, end_pos: Option<Position> },
    /// A link with its text and target.
    Link { text: String, url: String, start_pos: Option<Position>, end_pos: Option<Position> },
    /// A quoted block.
    Blockquote { children: Vec<ASTNode>, start_pos: Option<Position>, end_pos: Option<Position> },
    /// A horizontal rule.
    HorizontalRule { start_pos: Option<Position>, end_pos: Option<Position> },
}

/// The models of a sequence of nodes, one for one.
pub open spec fn views(nodes: Seq<ASTNode>) -> Seq<Tree> {
    Seq::new(nodes.len(), |i: int| nodes[i]@)
}

/// The models of a sequence of borrowed nodes, one for one.
pub open spec fn ref_views(nodes: Seq<&ASTNode>) -> Seq<Tree> {
    Seq::new(nodes.len(), |i: int| nodes[i]@)
}

impl ASTNode {
    /// The node's model, built from the models of its children.
    pub open spec fn model(&self) -> Tree
        decreases self,
    {
        match self {
            ASTNode::Document { children, start_pos, end_pos } => Tree::Document {
                children: Seq::new(
                    children@.len(),
                    |i: int|
                        if 0 <= i < children@.len() {
                            children@[i].model()
                        } else {
                            arbitrary()
                        },
                ),
                start_pos: *start_pos,
                end_pos: *end_pos,
            },
            ASTNode::Heading { level, text, children, start_pos, end_pos } => Tree::Heading {
                level: *level,
                text: text@,
                children: Seq::new(
                    children@.len(),
                    |i: int|
                        if 0 <= i < children@.len() {
                            children@[i].model()
                        } else {
                            arbitrary()
                        },
                ),
                start_pos: *start_pos,
                end_pos: *end_pos,
            },
            ASTNode::Paragraph { text, inline_nodes, start_pos, end_pos } => Tree::Paragraph {
                text: text@,
                inline_nodes: Seq::new(
                    inline_nodes@.len(),
                    |i: int|
                        if 0 <= i < inline_nodes@.len() {
                            inline_nodes@[i].model()
                        } else {
                            arbitrary()
                        },
                ),
                start_pos: *start_pos,
                end_pos: *end_pos,
            },
            ASTNode::CodeBlock { language, code, start_pos, end_pos } => Tree::CodeBlock {
                language: language@,
                code: code@,
                start_pos: *start_pos,
                end_pos: *end_pos,
            },
            ASTNode::List { ordered, items, start_pos, end_pos } => Tree::List {
                ordered: *ordered,
                items: Seq::new(
                    items@.len(),
                    |i: int|
                        if 0 <= i < items@.len() {
                            items@[i].model()
                        } else {
                            arbitrary()
                        },
                ),
                start_pos: *start_pos,
                end_pos: *end_pos,
            },
            ASTNode::ListItem { text, children, start_pos, end_pos } => Tree::ListItem {
                text: text@,
                children: Seq::new(
                    children@.len(),
                    |i: int|
                        if 0 <= i < children@.len() {
                            children@[i].model()
                        } else {
                            arbitrary()
                        },
                ),
                start_pos: *start_pos,
                end_pos: *end_pos,
            },
            ASTNode::InlineCode { text, start_pos, end_pos } => Tree::InlineCode {
                text: text@,
                start_pos: *start_pos,
                end_pos: *end_pos,
            },
            ASTNode::Bold { text, start_pos, end_pos } => Tree::Bold {
                text: text@,
                start_pos: *start_pos,
                end_pos: *end_pos,
            },
            ASTNode::Italic { text, start_pos, end_pos } => Tree::Italic {
                text: text@,
                start_pos: *start_pos,
                end_pos: *end_pos,
            },
            ASTNode::Link { text, url, start_pos, end_pos } => Tree::Link {
                text: text@,
                url: url@,
                start_pos: *start_pos,
                end_pos: *end_pos,
            },
            ASTNode::Blockquote { children, start_pos, end_pos } => Tree::Blockquote {
                children: Seq::new(
                    children@.len(),
                    |i: int|
                        if 0 <= i < children@.len() {
                            children@[i].model()
                        } else {
                            arbitrary()
                        },
                ),
                start_pos: *start_pos,
                end_pos: *end_pos,
            },
            ASTNode::HorizontalRule { start_pos, end_pos } => Tree::HorizontalRule {
                start_pos: *start_pos,
                end_pos: *end_pos,
            },
        }
    }
}

impl View for ASTNode {
    type V = Tree;

    open spec fn view(&self) -> Tree {
        self.model()
    }
}

impl ASTNode {
    /// The child nodes themselves, in source order.
    pub open spec fn child_nodes(&self) -> Seq<ASTNode> {
        match self {
            ASTNode::Document { children, .. } => children@,
            ASTNode::Heading { children, .. } => children@,
            ASTNode::Paragraph { inline_nodes, .. } => inline_nodes@,
            ASTNode::List { items, .. } => items@,
            ASTNode::ListItem { children, .. } => children@,
            ASTNode::Blockquote { children, .. } => children@,
            _ => Seq::empty(),
        }
    }

    /// The model's children are the models of the child nodes.
    pub proof fn lemma_view_children(&self)
        ensures
            self@.children() == views(self.child_nodes()),
    {
    }

    /// The node's kind.
    pub fn kind(&self) -> (kind: NodeKind)
        ensures
            kind == self@.kind(),
    {
        match self {
            ASTNode::Document { .. } => NodeKind::Document,
            ASTNode::Heading { .. } => NodeKind::Heading,
            ASTNode::Paragraph { .. } => NodeKind::Paragraph,
            ASTNode::CodeBlock { .. } => NodeKind::CodeBlock,
            ASTNode::List { .. } => NodeKind::List,
            ASTNode::ListItem { .. } => NodeKind::ListItem,
            ASTNode::InlineCode { .. } => NodeKind::InlineCode,
            ASTNode::Bold { .. } => NodeKind::Bold,
            ASTNode::Italic { .. } => NodeKind::Italic,
            ASTNode::Link { .. } => NodeKind::Link,
            ASTNode::Blockquote { .. } => NodeKind::Blockquote,
            ASTNode::HorizontalRule { .. } => NodeKind::HorizontalRule,
        }
    }

    /// The name of the node's kind.
    pub fn node_type(&self) -> (name: &'static str)
        ensures
            name@ == self@.kind_name(),
    {
        self.kind().as_str()
    }

    /// Where the node starts, if that is set.
    pub fn start_pos(&self) -> (p: Option<Position>)
        ensures
            p == self@.start_pos(),
    {
        match self {
            ASTNode::Document { start_pos, .. }
            | ASTNode::Heading { start_pos, .. }
            | ASTNode::Paragraph { start_pos, .. }
            | ASTNode::CodeBlock { start_pos, .. }
            | ASTNode::List { start_pos, .. }
            | ASTNode::ListItem { start_pos, .. }
            | ASTNode::InlineCode { start_pos, .. }
            | ASTNode::Bold { start_pos, .. }
            | ASTNode::Italic { start_pos, .. }
            | ASTNode::Link { start_pos, .. }
            | ASTNode::Blockquote { start_pos, .. }
            | ASTNode::HorizontalRule { start_pos, .. } => *start_pos,
        }
    }

    /// Where the node ends, if that is set.
    pub fn end_pos(&self) -> (p: Option<Position>)
        ensures
            p == self@.end_pos(),
    {
        match self {
            ASTNode::Document { end_pos, .. }
            | ASTNode::Heading { end_pos, .. }
            | ASTNode::Paragraph { end_pos, .. }
            | ASTNode::CodeBlock { end_pos, .. }
            | ASTNode::List { end_pos, .. }
            | ASTNode::ListItem { end_pos, .. }
            | ASTNode::InlineCode { end_pos, .. }
            | ASTNode::Bold { end_pos, .. }
            | ASTNode::Italic { end_pos, .. }
            | ASTNode::Link { end_pos, .. }
            | ASTNode::Blockquote { end_pos, .. }
            | ASTNode::HorizontalRule { end_pos, .. } => *end_pos,
        }
    }

    /// The children in source order; an empty slice for a kind that owns none.
    pub fn children(&self) -> (kids: &[ASTNode])
        ensures
            kids@ == self.child_nodes(),
            views(kids@) == self@.children(),
            kids@.len() == self@.children().len(),
            forall|i: int| 0 <= i < kids@.len() ==> (#[trigger] kids@[i])@ == self@.children()[i],
    {
        match self {
            ASTNode::Document { children, .. } => children.as_slice(),
            ASTNode::Heading { children, .. } => children.as_slice(),
            ASTNode::Paragraph { inline_nodes, .. } => inline_nodes.as_slice(),
            ASTNode::List { items, .. } => items.as_slice(),
            ASTNode::ListItem { children, .. } => children.as_slice(),
            ASTNode::Blockquote { children, .. } => children.as_slice(),
            _ => &[],
        }
    }

    /// The collection of children, for a kind that owns one. Whatever the
    /// caller leaves in it becomes the node's children; the rest of the node,
    /// which is the node with its children taken away, stays as it was.
    pub fn children_mut(&mut self) -> (kids: Option<&mut Vec<ASTNode>>)
        ensures
            kids is Some <==> old(self)@.supports_children(),
            kids matches Some(v) ==> v@ == old(self).child_nodes(),
            kids matches Some(v) ==> final(self).child_nodes() == final(v)@,
            kids matches Some(v) ==> final(self)@.children() =~= views(final(v)@),
            kids matches Some(v) ==> final(self)@.with_children(Seq::empty()) == old(
                self,
            )@.with_children(Seq::empty()),
            kids is None ==> *final(self) == *old(self),
    {
        match self {
            ASTNode::Document { children, .. } => Some(children),
            ASTNode::Heading { children, .. } => Some(children),
            ASTNode::Paragraph { inline_nodes, .. } => Some(inline_nodes),
            ASTNode::List { items, .. } => Some(items),
            ASTNode::ListItem { children, .. } => Some(children),
            ASTNode::Blockquote { children, .. } => Some(children),
            _ => None,
        }
    }

    /// Appends a child. A kind that owns no children refuses it and is left
    /// unchanged.
    pub fn add_child(&mut self, child: ASTNode) -> (r: Result<(), &'static str>)
        ensures
            r is Ok <==> old(self)@.supports_children(),
            r is Ok ==> final(self)@ == old(self)@.with_children(
                old(self)@.children().push(child@),
            ),
            r is Ok ==> final(self).child_nodes() == old(self).child_nodes().push(child),
            r matches Err(msg) ==> msg@ == "This node type does not support children"@
                && *final(self) == *old(self),
    {
        match self.children_mut() {
            Some(children) => {
                children.push(child);
                assert(views(children@) =~= old(self)@.children().push(child@));
                Ok(())
            },
            None => Err("This node type does not support children"),
        }
    }

    /// An empty document without positions.
    pub fn new_document() -> (node: Self)
        ensures
            node@ == (Tree::Document { children: Seq::empty(), start_pos: None, end_pos: None }),
    {
        let node = ASTNode::Document { children: Vec::new(), start_pos: None, end_pos: None };
        assert(node@.children() =~= Seq::empty());
        node
    }

    /// A heading without children and without positions.
    pub fn new_heading(level: u8, text: String) -> (node: Self)
        ensures
            node@ == (Tree::Heading {
                level,
                text: text@,
                children: Seq::empty(),
                start_pos: None,
                end_pos: None,
            }),
    {
        let node = ASTNode::Heading {
            level,
            text,
            children: Vec::new(),
            start_pos: None,
            end_pos: None,
        };
        assert(node@.children() =~= Seq::empty());
        node
    }

    /// A paragraph without inline nodes and without positions.
    pub fn new_paragraph(text: String) -> (node: Self)
        ensures
            node@ == (Tree::Paragraph {
                text: text@,
                inline_nodes: Seq::empty(),
                start_pos: None,
                end_pos: None,
            }),
    {
        let node = ASTNode::Paragraph {
            text,
            inline_nodes: Vec::new(),
            start_pos: None,
            end_pos: None,
        };
        assert(node@.children() =~= Seq::empty());
        node
    }

    /// A code block without positions.
    pub fn new_code_block(language: String, code: String) -> (node: Self)
        ensures
            node@ == (Tree::CodeBlock {
                language: language@,
                code: code@,
                start_pos: None,
                end_pos: None,
            }),
    {
        ASTNode::CodeBlock { language, code, start_pos: None, end_pos: None }
    }

    /// A list without items and without positions.
    pub fn new_list(ordered: bool) -> (node: Self)
        ensures
            node@ == (Tree::List { ordered, items: Seq::empty(), start_pos: None, end_pos: None }),
    {
        let node = ASTNode::List { ordered, items: Vec::new(), start_pos: None, end_pos: None };
        assert(node@.children() =~= Seq::empty());
        node
    }

    /// A list item without children and without positions.
    pub fn new_list_item(text: String) -> (node: Self)
        ensures
            node@ == (Tree::ListItem {
                text: text@,
                children: Seq::empty(),
                start_pos: None,
                end_pos: None,
            }),
    {
        let node = ASTNode::ListItem {
            text,
            children: Vec::new(),
            start_pos: None,
            end_pos: None,
        };
        assert(node@.children() =~= Seq::empty());
        node
    }
}

/// Copies a sequence of nodes, one for one.
fn clone_nodes(nodes: &Vec<ASTNode>) -> (out: Vec<ASTNode>)
    ensures
        views(out@) == views(nodes@),
    decreases nodes,
{
    let mut out: Vec<ASTNode> = Vec::new();
    let mut i: usize = 0;
    while i < nodes.len()
        invariant
            i <= nodes.len(),
            out.len() == i,
            forall|j: int| 0 <= j < i ==> out@[j]@ == nodes@[j]@,
        decreases nodes.len() - i,
    {
        let copy = nodes[i].clone();
        out.push(copy);
        i += 1;
    }
    out
}

impl Clone for ASTNode {
    fn clone(&self) -> (copy: Self)
        ensures
            copy@ == self@,
        decreases self,
    {
        let copy = match self {
            ASTNode::Document { children, start_pos, end_pos } => ASTNode::Document {
                children: clone_nodes(children),
                start_pos: *start_pos,
                end_pos: *end_pos,
            },
            ASTNode::Heading { level, text, children, start_pos, end_pos } => ASTNode::Heading {
                level: *level,
                text: text.clone(),
                children: clone_nodes(children),
                start_pos: *start_pos,
                end_pos: *end_pos,
            },
            ASTNode::Paragraph { text, inline_nodes, start_pos, end_pos } => ASTNode::Paragraph {
                text: text.clone(),
                inline_nodes: clone_nodes(inline_nodes),
                start_pos: *start_pos,
                end_pos: *end_pos,
            },
            ASTNode::CodeBlock { language, code, start_pos, end_pos } => ASTNode::CodeBlock {
                language: language.clone(),
                code: code.clone(),
                start_pos: *start_pos,
                end_pos: *end_pos,
            },
            ASTNode::List { ordered, items, start_pos, end_pos } => ASTNode::List {
                ordered: *ordered,
                items: clone_nodes(items),
                start_pos: *start_pos,
                end_pos: *end_pos,
            },
            ASTNode::ListItem { text, children, start_pos, end_pos } => ASTNode::ListItem {
                text: text.clone(),
                children: clone_nodes(children),
                start_pos: *start_pos,
                end_pos: *end_pos,
            },
            ASTNode::InlineCode { text, start_pos, end_pos } => ASTNode::InlineCode {
                text: text.clone(),
                start_pos: *start_pos,
                end_pos: *end_pos,
            },
            ASTNode::Bold { text, start_pos, end_pos } => ASTNode::Bold {
                text: text.clone(),
                start_pos: *start_pos,
                end_pos: *end_pos,
            },
            ASTNode::Italic { text, start_pos, end_pos } => ASTNode::Italic {
                text: text.clone(),
                start_pos: *start_pos,
                end_pos: *end_pos,
            },
            ASTNode::Link { text, url, start_pos, end_pos } => ASTNode::Link {
                text: text.clone(),
                url: url.clone(),
                start_pos: *start_pos,
                end_pos: *end_pos,
            },
            ASTNode::Blockquote { children, start_pos, end_pos } => ASTNode::Blockquote {
                children: clone_nodes(children),
                start_pos: *start_pos,
                end_pos: *end_pos,
            },
            ASTNode::HorizontalRule { start_pos, end_pos } => ASTNode::HorizontalRule {
                start_pos: *start_pos,
                end_pos: *end_pos,
            },
        };
        proof {
            self.lemma_view_children();
            copy.lemma_view_children();
        }
        copy
    }
}

} // verus!
