//! A minimal declarative view tree and its markup serialisation.
//!
//! Application state is expressed as nested components. Each component renders
//! to a tree of [`Node`]s, and [`Node::to_html`] serialises a tree into
//! indented markup text. Every executable function carries a contract over the
//! mathematical model of its arguments: `Seq<char>` for text,
//! [`node::SpecNode`] for trees. The module [`laws`] holds what follows for all
//! trees.

pub mod attribute;
pub mod component;
pub mod demo;
pub mod laws;
pub mod node;
pub mod text;

pub use attribute::{AttributeMap, NodeAttributeValue};
pub use component::{Component, Effect};
pub use node::{Node, NodeKind};
