//! The highlighter: the ranges of a tree that an editor colours, and the
//! colour themes.

use crate::ast::{views, ASTNode, Tree};
use vstd::hash_map::StringHashMap;
use vstd::prelude::*;

verus! {

/// The kinds of highlighted range.
#[derive(Debug, Clone, Copy, PartialEq, Eq, Structural)]
pub enum TokenType {
    Heading1,
    Heading2,
    Heading3,
    Heading4,
    Heading5,
    Heading6,
    Paragraph,
    CodeBlock,
    InlineCode,
    Bold,
    Italic,
    Link,
    ListMarker,
}

/// The number that stands for a kind of range where kinds are handed on as
/// numbers: one to six for the headings by their level, then seven to
/// thirteen for the other kinds in the order they are declared in.
pub open spec fn code_of(token_type: TokenType) -> u32 {
    match token_type {
        TokenType::Heading1 => 1,
        TokenType::Heading2 => 2,
        TokenType::Heading3 => 3,
        TokenType::Heading4 => 4,
        TokenType::Heading5 => 5,
        TokenType::Heading6 => 6,
        TokenType::Paragraph => 7,
        TokenType::CodeBlock => 8,
        TokenType::InlineCode => 9,
        TokenType::Bold => 10,
        TokenType::Italic => 11,
        TokenType::Link => 12,
        TokenType::ListMarker => 13,
    }
}

/// The number that stands for a kind of range.
pub fn token_code(token_type: &TokenType) -> (code: u32)
    ensures
        code == code_of(*token_type),
        1 <= code <= 13,
{
    match token_type {
        TokenType::Heading1 => 1,
        TokenType::Heading2 => 2,
        TokenType::Heading3 => 3,
        TokenType::Heading4 => 4,
        TokenType::Heading5 => 5,
        TokenType::Heading6 => 6,
        TokenType::Paragraph => 7,
        TokenType::CodeBlock => 8,
        TokenType::InlineCode => 9,
        TokenType::Bold => 10,
        TokenType::Italic => 11,
        TokenType::Link => 12,
        TokenType::ListMarker => 13,
    }
}

/// A range of the text and the kind it is highlighted as.
#[derive(Debug, Clone, Copy)]
pub struct HighlightRange {
    pub start_line: usize,
    pub start_col: usize,
    pub end_line: usize,
    pub end_col: usize,
    pub token_type: TokenType,
}

impl HighlightRange {
    /// A range from one line and column to another, of the given kind.
    pub fn new(
        start_line: usize,
        start_col: usize,
        end_line: usize,
        end_col: usize,
        token_type: TokenType,
    ) -> (range: Self)
        ensures
            range == (HighlightRange { start_line, start_col, end_line, end_col, token_type }),
    {
        HighlightRange { start_line, start_col, end_line, end_col, token_type }
    }
}

/// The kind that a heading of the given level is highlighted as. A level
/// outside one to five counts as six.
pub open spec fn heading_type(level: u8) -> TokenType {
    if level == 1 {
        TokenType::Heading1
    } else if level == 2 {
        TokenType::Heading2
    } else if level == 3 {
        TokenType::Heading3
    } else if level == 4 {
        TokenType::Heading4
    } else if level == 5 {
        TokenType::Heading5
    } else {
        TokenType::Heading6
    }
}

/// The kind that a node is highlighted as, if it is highlighted at all.
pub open spec fn highlight_type(node: Tree) -> Option<TokenType> {
    match node {
        Tree::Heading { level, .. } => Some(heading_type(level)),
        Tree::CodeBlock { .. } => Some(TokenType::CodeBlock),
        Tree::Paragraph { .. } => Some(TokenType::Paragraph),
        Tree::InlineCode { .. } => Some(TokenType::InlineCode),
        Tree::Bold { .. } => Some(TokenType::Bold),
        Tree::Italic { .. } => Some(TokenType::Italic),
        Tree::Link { .. } => Some(TokenType::Link),
        _ => None,
    }
}

/// The range of a node: its span, where it has both positions and a kind
/// that is highlighted.
pub open spec fn range_of(node: Tree) -> Seq<HighlightRange> {
    match (highlight_type(node), node.start_pos(), node.end_pos()) {
        (Some(token_type), Some(start), Some(end)) => seq![
            HighlightRange {
                start_line: start.line,
                start_col: start.column,
                end_line: end.line,
                end_col: end.column,
                token_type,
            },
        ],
        _ => Seq::empty(),
    }
}

impl Tree {
    /// The ranges of the tree: that of the node, then those of its
    /// children in order.
    pub open spec fn ranges(self) -> Seq<HighlightRange>
        decreases self, self.children().len() + 1,
    {
        range_of(self) + self.child_ranges(self.children().len())
    }

    /// The ranges of the first `n` children, one after the other.
    pub open spec fn child_ranges(self, n: nat) -> Seq<HighlightRange>
        decreases self, n,
    {
        if n == 0 || n > self.children().len() {
            Seq::empty()
        } else {
            self.child_ranges((n - 1) as nat) + self.children()[n - 1].ranges()
        }
    }
}

/// The colours of a table, by the names of the elements.
pub open spec fn palette_of(colors: Map<Seq<char>, String>) -> Map<Seq<char>, Seq<char>> {
    Map::new(|key: Seq<char>| colors.contains_key(key), |key: Seq<char>| colors[key]@)
}

/// The colours of the dark theme.
pub open spec fn dark_palette() -> Map<Seq<char>, Seq<char>> {
    Map::<Seq<char>, Seq<char>>::empty().insert("heading1"@, "#569CD6"@).insert(
        "heading2"@,
        "#4EC9B0"@,
    ).insert("heading3"@, "#DCDCAA"@).insert("heading4"@, "#9CDCFE"@).insert(
        "heading5"@,
        "#C586C0"@,
    ).insert("heading6"@, "#CE9178"@).insert("paragraph"@, "#D4D4D4"@).insert(
        "code_block"@,
        "#CE9178"@,
    ).insert("code_block_bg"@, "#1E1E1E"@).insert("inline_code"@, "#CE9178"@).insert(
        "list_marker"@,
        "#4EC9B0"@,
    ).insert("bold"@, "#569CD6"@).insert("italic"@, "#C586C0"@).insert("link"@, "#4EC9B0"@)
}

/// The colours of the light theme.
pub open spec fn light_palette() -> Map<Seq<char>, Seq<char>> {
    Map::<Seq<char>, Seq<char>>::empty().insert("heading1"@, "#0000FF"@).insert(
        "heading2"@,
        "#008080"@,
    ).insert("heading3"@, "#808000"@).insert("heading4"@, "#000080"@).insert(
        "heading5"@,
        "#800080"@,
    ).insert("heading6"@, "#FF8C00"@).insert("paragraph"@, "#000000"@).insert(
        "code_block"@,
        "#A31515"@,
    ).insert("code_block_bg"@, "#F5F5F5"@).insert("inline_code"@, "#A31515"@).insert(
        "list_marker"@,
        "#008080"@,
    ).insert("bold"@, "#0000FF"@).insert("italic"@, "#800080"@).insert("link"@, "#0000EE"@)
}

/// Sets the colour of an element.
fn put(colors: &mut StringHashMap<String>, element: &str, color: &str)
    ensures
        palette_of(final(colors)@) == palette_of(old(colors)@).insert(element@, color@),
{
    colors.insert(element.to_owned(), color.to_owned());
}

/// A table of colours for the elements of a document.
pub struct ColorTheme {
    pub name: String,
    colors: StringHashMap<String>,
}

impl ColorTheme {
    /// The colours of the theme, by the names of the elements.
    pub closed spec fn palette(&self) -> Map<Seq<char>, Seq<char>> {
        palette_of(self.colors@)
    }

    /// The name of the theme.
    pub closed spec fn label(&self) -> Seq<char> {
        self.name@
    }

    /// The dark theme.
    pub fn dark() -> (theme: Self)
        ensures
            theme.label() == "dark"@,
            theme.palette() == dark_palette(),
    {
        let mut colors: StringHashMap<String> = StringHashMap::new();
        put(&mut colors, "heading1", "#569CD6");
        put(&mut colors, "heading2", "#4EC9B0");
        put(&mut colors, "heading3", "#DCDCAA");
        put(&mut colors, "heading4", "#9CDCFE");
        put(&mut colors, "heading5", "#C586C0");
        put(&mut colors, "heading6", "#CE9178");
        put(&mut colors, "paragraph", "#D4D4D4");
        put(&mut colors, "code_block", "#CE9178");
        put(&mut colors, "code_block_bg", "#1E1E1E");
        put(&mut colors, "inline_code", "#CE9178");
        put(&mut colors, "list_marker", "#4EC9B0");
        put(&mut colors, "bold", "#569CD6");
        put(&mut colors, "italic", "#C586C0");
        put(&mut colors, "link", "#4EC9B0");
        ColorTheme { name: "dark".to_owned(), colors }
    }

    /// The light theme.
    pub fn light() -> (theme: Self)
        ensures
            theme.label() == "light"@,
            theme.palette() == light_palette(),
    {
        let mut colors: StringHashMap<String> = StringHashMap::new();
        put(&mut colors, "heading1", "#0000FF");
        put(&mut colors, "heading2", "#008080");
        put(&mut colors, "heading3", "#808000");
        put(&mut colors, "heading4", "#000080");
        put(&mut colors, "heading5", "#800080");
        put(&mut colors, "heading6", "#FF8C00");
        put(&mut colors, "paragraph", "#000000");
        put(&mut colors, "code_block", "#A31515");
        put(&mut colors, "code_block_bg", "#F5F5F5");
        put(&mut colors, "inline_code", "#A31515");
        put(&mut colors, "list_marker", "#008080");
        put(&mut colors, "bold", "#0000FF");
        put(&mut colors, "italic", "#800080");
        put(&mut colors, "link", "#0000EE");
        ColorTheme { name: "light".to_owned(), colors }
    }

    /// The colour of an element; none for an element that the theme does
    /// not know.
    pub fn get_color(&self, element: &str) -> (color: Option<&str>)
        ensures
            match color {
                Some(c) => self.palette().contains_key(element@) && c@ == self.palette()[element@],
                None => !self.palette().contains_key(element@),
            },
    {
        match self.colors.get(element) {
            Some(color) => Some(color.as_str()),
            None => None,
        }
    }
}

/// The name under which a theme holds the colour of a kind of range.
pub open spec fn color_key(token_type: TokenType) -> Seq<char> {
    match token_type {
        TokenType::Heading1 => "heading1"@,
        TokenType::Heading2 => "heading2"@,
        TokenType::Heading3 => "heading3"@,
        TokenType::Heading4 => "heading4"@,
        TokenType::Heading5 => "heading5"@,
        TokenType::Heading6 => "heading6"@,
        TokenType::Paragraph => "paragraph"@,
        TokenType::CodeBlock => "code_block"@,
        TokenType::InlineCode => "inline_code"@,
        TokenType::Bold => "bold"@,
        TokenType::Italic => "italic"@,
        TokenType::Link => "link"@,
        TokenType::ListMarker => "list_marker"@,
    }
}

/// A highlighter with a colour theme.
pub struct SemanticHighlighter {
    theme: ColorTheme,
}

impl SemanticHighlighter {
    /// The colours of the highlighter's theme.
    pub closed spec fn palette(&self) -> Map<Seq<char>, Seq<char>> {
        self.theme.palette()
    }

    /// The name of the highlighter's theme.
    pub closed spec fn theme_name(&self) -> Seq<char> {
        self.theme.label()
    }

    /// A highlighter with the given theme.
    pub fn new(theme: ColorTheme) -> (highlighter: Self)
        ensures
            highlighter.palette() == theme.palette(),
            highlighter.theme_name() == theme.label(),
    {
        SemanticHighlighter { theme }
    }

    /// A highlighter with the dark theme.
    pub fn dark() -> (highlighter: Self)
        ensures
            highlighter.palette() == dark_palette(),
            highlighter.theme_name() == "dark"@,
    {
        Self::new(ColorTheme::dark())
    }

    /// A highlighter with the light theme.
    pub fn light() -> (highlighter: Self)
        ensures
            highlighter.palette() == light_palette(),
            highlighter.theme_name() == "light"@,
    {
        Self::new(ColorTheme::light())
    }

    /// The ranges of a tree: for every node that has both positions and a
    /// kind that is highlighted, its span, in document order.
    pub fn highlight(&self, ast: &ASTNode) -> (ranges: Vec<HighlightRange>)
        ensures
            ranges@ == ast@.ranges(),
    {
        let mut ranges: Vec<HighlightRange> = Vec::new();
        self.collect_ranges(ast, &mut ranges);
        ranges
    }

    fn collect_ranges(&self, node: &ASTNode, ranges: &mut Vec<HighlightRange>)
        ensures
            final(ranges)@ == old(ranges)@ + node@.ranges(),
        decreases node,
    {
        let ghost before = ranges@;
        let token_type = match node {
            ASTNode::Heading { level, .. } => Some(
                match *level {
                    1 => TokenType::Heading1,
                    2 => TokenType::Heading2,
                    3 => TokenType::Heading3,
                    4 => TokenType::Heading4,
                    5 => TokenType::Heading5,
                    _ => TokenType::Heading6,
                },
            ),
            ASTNode::CodeBlock { .. } => Some(TokenType::CodeBlock),
            ASTNode::Paragraph { .. } => Some(TokenType::Paragraph),
            ASTNode::InlineCode { .. } => Some(TokenType::InlineCode),
            ASTNode::Bold { .. } => Some(TokenType::Bold),
            ASTNode::Italic { .. } => Some(TokenType::Italic),
            ASTNode::Link { .. } => Some(TokenType::Link),
            _ => None,
        };
        match (token_type, node.start_pos(), node.end_pos()) {
            (Some(token_type), Some(start), Some(end)) => {
                ranges.push(
                    HighlightRange::new(start.line, start.column, end.line, end.column, token_type),
                );
            },
            _ => {},
        }
        let kids = node.children();
        let mut i: usize = 0;
        while i < kids.len()
            invariant
                i <= kids.len(),
                kids@ == node.child_nodes(),
                views(kids@) == node@.children(),
                ranges@ == before + range_of(node@) + node@.child_ranges(i as nat),
            decreases kids.len() - i,
        {
            self.collect_ranges(&kids[i], ranges);
            i += 1;
        }
    }

    /// The colour of a kind of range in the highlighter's theme.
    pub fn get_token_color(&self, token_type: &TokenType) -> (color: Option<&str>)
        ensures
            match color {
                Some(c) => self.palette().contains_key(color_key(*token_type)) && c@
                    == self.palette()[color_key(*token_type)],
                None => !self.palette().contains_key(color_key(*token_type)),
            },
    {
        let key = match token_type {
            TokenType::Heading1 => "heading1",
            TokenType::Heading2 => "heading2",
            TokenType::Heading3 => "heading3",
            TokenType::Heading4 => "heading4",
            TokenType::Heading5 => "heading5",
            TokenType::Heading6 => "heading6",
            TokenType::Paragraph => "paragraph",
            TokenType::CodeBlock => "code_block",
            TokenType::InlineCode => "inline_code",
            TokenType::Bold => "bold",
            TokenType::Italic => "italic",
            TokenType::Link => "link",
            TokenType::ListMarker => "list_marker",
        };
        self.theme.get_color(key)
    }
}

impl Default for SemanticHighlighter {
    fn default() -> (highlighter: Self)
        ensures
            highlighter.palette() == dark_palette(),
            highlighter.theme_name() == "dark"@,
    {
        Self::dark()
    }
}

impl Tree {
    /// Every node of the tree, in document order.
    pub open spec fn nodes(self) -> Seq<Tree>
        decreases self, self.children().len() + 1,
    {
        seq![self] + self.nodes_below(self.children().len())
    }

    /// Every node under the first `n` children, in document order.
    pub open spec fn nodes_below(self, n: nat) -> Seq<Tree>
        decreases self, n,
    {
        if n == 0 || n > self.children().len() {
            Seq::empty()
        } else {
            self.nodes_below((n - 1) as nat) + self.children()[n - 1].nodes()
        }
    }
}

/// The ranges of a sequence of nodes, one after the other.
pub open spec fn ranges_of(nodes: Seq<Tree>) -> Seq<HighlightRange>
    decreases nodes.len(),
{
    if nodes.len() == 0 {
        Seq::empty()
    } else {
        ranges_of(nodes.drop_last()) + range_of(nodes.last())
    }
}

/// The test for nodes that have a range.
pub open spec fn has_range() -> spec_fn(Tree) -> bool {
    |node: Tree| range_of(node).len() > 0
}

/// The ranges of two sequences of nodes, one behind the other, are the
/// ranges of the first followed by those of the second.
pub proof fn lemma_ranges_of_concat(a: Seq<Tree>, b: Seq<Tree>)
    ensures
        ranges_of(a + b) == ranges_of(a) + ranges_of(b),
    decreases b.len(),
{
    if b.len() > 0 {
        lemma_ranges_of_concat(a, b.drop_last());
        assert((a + b).drop_last() =~= a + b.drop_last());
    }
}

/// Nodes without a range add nothing to the ranges of a sequence.
pub proof fn lemma_ranges_of_ranged(nodes: Seq<Tree>)
    ensures
        ranges_of(nodes) == ranges_of(nodes.filter(has_range())),
    decreases nodes.len(),
{
    reveal(Seq::filter);
    if nodes.len() > 0 {
        lemma_ranges_of_ranged(nodes.drop_last());
        let kept = nodes.drop_last().filter(has_range());
        if has_range()(nodes.last()) {
            assert(kept.push(nodes.last()).drop_last() =~= kept);
        }
    }
}

/// The ranges of a tree are the ranges of its nodes, in document order.
pub proof fn lemma_ranges_follow_nodes(tree: Tree)
    ensures
        tree.ranges() == ranges_of(tree.nodes()),
    decreases tree, tree.children().len() + 1,
{
    lemma_child_ranges_follow_nodes(tree, tree.children().len());
    lemma_ranges_of_concat(seq![tree], tree.nodes_below(tree.children().len()));
    assert(seq![tree].drop_last() =~= Seq::<Tree>::empty());
    assert(ranges_of(Seq::<Tree>::empty()) =~= Seq::empty());
}

/// The ranges of the first `n` children of a tree are the ranges of the
/// nodes under them, in document order.
pub proof fn lemma_child_ranges_follow_nodes(tree: Tree, n: nat)
    requires
        n <= tree.children().len(),
    ensures
        tree.child_ranges(n) == ranges_of(tree.nodes_below(n)),
    decreases tree, n,
{
    if n > 0 {
        lemma_child_ranges_follow_nodes(tree, (n - 1) as nat);
        lemma_ranges_follow_nodes(tree.children()[n - 1]);
        lemma_ranges_of_concat(tree.nodes_below((n - 1) as nat), tree.children()[n - 1].nodes());
    }
}

/// The ranges of a tree stand one for one, and in document order, for
/// those of its nodes that have both positions and a kind that is
/// highlighted. So a tree in which just three nodes are such has just their
/// three ranges.
pub proof fn lemma_highlight_correspondence(tree: Tree)
    ensures
        tree.ranges().len() == tree.nodes().filter(has_range()).len(),
        forall|i: int|
            0 <= i < tree.ranges().len() ==> range_of(
                #[trigger] tree.nodes().filter(has_range())[i],
            ) == seq![tree.ranges()[i]],
{
    lemma_ranges_follow_nodes(tree);
    lemma_ranges_of_ranged(tree.nodes());
    lemma_ranges_one_each(tree.nodes().filter(has_range()));
}

/// A sequence of nodes that all have a range has one range for each.
pub proof fn lemma_ranges_one_each(nodes: Seq<Tree>)
    requires
        forall|i: int| 0 <= i < nodes.len() ==> has_range()(#[trigger] nodes[i]),
    ensures
        ranges_of(nodes).len() == nodes.len(),
        forall|i: int| 0 <= i < nodes.len() ==> range_of(#[trigger] nodes[i]) == seq![
            ranges_of(nodes)[i],
        ],
    decreases nodes.len(),
{
    if nodes.len() > 0 {
        let rest = nodes.drop_last();
        lemma_ranges_one_each(rest);
        assert forall|i: int| 0 <= i < nodes.len() implies range_of(#[trigger] nodes[i]) == seq![
            ranges_of(nodes)[i],
        ] by {
            if i < rest.len() {
                assert(nodes[i] == rest[i]);
            }
        }
    }
}

} // verus!
