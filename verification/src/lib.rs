//! A small markdown engine.
//!
//! A text is scanned into tokens ([`tokenizer`]) and parsed into a tree whose
//! nodes know where they stand in the text ([`parser`], [`ast`]). The tree is
//! then read, never changed: it can be walked and searched ([`walker`]),
//! analysed for its outline and its foldable regions ([`analyzer`]),
//! highlighted ([`highlighter`]), rendered as HTML ([`renderer`]) and
//! described in a line ([`display`]).
//!
//! Every function states what it returns over a mathematical model of its
//! arguments: a string is the sequence of its characters, a node is a
//! [`Tree`]. What holds of every parsed document is proved in [`laws`].

pub mod analyzer;
pub mod ast;
pub mod display;
pub mod highlighter;
pub mod laws;
pub mod parser;
pub mod renderer;
pub mod text;
pub mod tokenizer;
pub mod walker;

pub use analyzer::{DocumentAnalyzer, FoldableRegion, OutlineItem};
pub use ast::{ASTNode, NodeKind, Position, Tree};
pub use highlighter::{ColorTheme, HighlightRange, SemanticHighlighter};
pub use parser::MarkdownParser;
pub use renderer::HtmlRenderer;
pub use tokenizer::{Token, TokenType, Tokenizer};
pub use walker::ASTWalker;
