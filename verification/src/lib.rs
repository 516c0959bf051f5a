//! Red-green syntax trees.
//!
//! The green tree is an immutable tree of nodes and tokens that knows kinds,
//! lengths and children but no positions, so that equal subtrees can be shared
//! between trees. The red tree is a thin layer of wrappers that are made while
//! a green tree is walked: each wrapper adds the absolute text offset of its
//! green payload and a link to the wrapper of its parent. An edit never changes
//! a tree. It copies the path from the edited node to the root and shares
//! everything else.

pub mod element;
pub mod error;
pub mod green;
pub mod laws;
pub mod red;

pub use element::{NodeOrToken, SyntaxKind};
pub use error::OutOfRange;
pub use green::{GreenElement, GreenNode, GreenNodeData, GreenToken, GreenTokenData};
pub use red::{RedElement, RedNode, RedNodeData, RedToken, RedTokenData};
