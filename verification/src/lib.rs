//! An in-memory tree for an SVG (XML-like) document, with two verified
//! serializers: a compact single-line form and an indented multi-line form.

pub mod laws;
pub mod render;
pub mod text;
pub mod tree;

pub use tree::SvgTree;
pub use tree::SvgTreeChildren;
pub use tree::ViewBox;
