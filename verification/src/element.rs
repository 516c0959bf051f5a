//! The kind tag and the node-or-token union shared by both layers.

use vstd::prelude::*;

verus! {

/// An opaque tag that says what a node or a token is. The tree never looks
/// inside it: it only copies and compares it.
#[derive(Clone, Copy, Debug, PartialEq, Eq, Hash, Structural)]
pub struct SyntaxKind(pub u16);

/// A position in a tree is either an inner node or a leaf token.
#[derive(Debug)]
pub enum NodeOrToken<N, T> {
    Node(N),
    Token(T),
}

} // verus!
