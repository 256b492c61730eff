//! A small in-memory markup tree: nodes are built bottom-up from leaves to
//! root and rendered top-down to indented text.

pub mod attributes;
pub mod node;
pub mod render;
pub mod shape;

pub use crate::attributes::Attributes;
pub use crate::node::{
    body, br, div, head, html, img, new_empty_node, new_node, new_self_closing_node, text,
    HtmlNode,
};
pub use crate::render::padding;
