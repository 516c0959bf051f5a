//! The red tree: green nodes and tokens with a place in a tree.
//!
//! A red wrapper knows what its green payload cannot know: where its text
//! starts, and which wrapper stands above it. Wrappers are made on the way down
//! from a root and are never changed afterwards. An edit builds a new chain of
//! wrappers over new green nodes, from the edited node up to a new root, and
//! leaves the old chain as it was.

use crate::element::{NodeOrToken, SyntaxKind};
use crate::error::OutOfRange;
use crate::green::{
    lemma_prefix_len_monotone, lemma_prefix_len_update, lemma_total_len_update, prefix_len,
    total_len, GreenElement, GreenNode, GreenToken,
};
use std::rc::Rc;
use std::sync::Arc;
use vstd::prelude::*;
use vstd::std_specs::convert::FromSpecImpl;

verus! {

pub type RedNode = Rc<RedNodeData>;

pub type RedToken = Rc<RedTokenData>;

pub type RedElement = NodeOrToken<RedNode, RedToken>;

/// A green node at a place in a tree.
pub struct RedNodeData {
    parent: Option<RedNode>,
    text_offset: usize,
    index_in_parent: usize,
    green: GreenNode,
}

/// A green token at a place in a tree.
pub struct RedTokenData {
    parent: Option<RedNode>,
    text_offset: usize,
    green: GreenToken,
}

impl RedNodeData {
    /// The wrapper above this one, or `None` at a root.
    pub closed spec fn spec_parent(&self) -> Option<RedNode> {
        self.parent
    }

    /// The offset in bytes at which the text of this wrapper starts in the
    /// text of the root.
    pub closed spec fn spec_text_offset(&self) -> usize {
        self.text_offset
    }

    /// The place of the payload among the green children of the parent's
    /// payload. It is 0 at a root.
    pub closed spec fn index_in_parent(&self) -> usize {
        self.index_in_parent
    }

    /// The green node that this wrapper stands for.
    pub closed spec fn spec_green(&self) -> GreenNode {
        self.green
    }

    /// The kind of the payload.
    pub open spec fn spec_kind(&self) -> SyntaxKind {
        self.spec_green().kind()
    }

    /// The length of the payload.
    pub open spec fn spec_text_len(&self) -> usize {
        self.spec_green().text_len()
    }

    /// The number of wrappers above this one.
    pub open spec fn depth(&self) -> nat
        decreases self,
    {
        match self.spec_parent() {
            None => 0,
            Some(parent) => parent.depth() + 1,
        }
    }

    /// The wrapper `steps` links up the parent chain, which ends at the root.
    pub open spec fn ancestor(&self, steps: nat) -> RedNodeData
        decreases steps,
    {
        match self.spec_parent() {
            Some(parent) if steps > 0 => parent.ancestor((steps - 1) as nat),
            _ => *self,
        }
    }

    /// The wrapper at the end of the parent chain.
    pub open spec fn root(&self) -> RedNodeData
        decreases self,
    {
        match self.spec_parent() {
            None => *self,
            Some(parent) => parent.root(),
        }
    }

    /// The payloads are well formed, a root starts at 0, and a wrapper below a
    /// parent wraps the child at `index_in_parent` of the parent's payload and
    /// starts where the text of that child's earlier siblings ends.
    #[verifier::type_invariant]
    pub open spec fn wf(&self) -> bool
        decreases self,
    {
        &&& self.spec_green().wf()
        &&& match self.spec_parent() {
            None => self.text_offset() == 0 && self.index_in_parent() == 0,
            Some(parent) => {
                let siblings = parent.spec_green().spec_children();
                &&& parent.wf()
                &&& self.index_in_parent() < siblings.len()
                &&& siblings[self.index_in_parent() as int] == GreenElement::Node(self.spec_green())
                &&& self.text_offset() == parent.text_offset() + prefix_len(
                    siblings,
                    self.index_in_parent() as int,
                )
            },
        }
    }

    /// `child` is what `children` yields at `index`: the wrapper of the green
    /// child at `index`, below this wrapper, at the offset that the lengths of
    /// the earlier children give.
    pub open spec fn has_child(&self, index: int, child: RedElement) -> bool {
        let green = self.spec_green().spec_children()[index];
        let text_offset = self.text_offset() + prefix_len(self.spec_green().spec_children(), index);
        match child {
            NodeOrToken::Node(node) => {
                &&& green == GreenElement::Node(node.spec_green())
                &&& node.spec_parent() == Some(Rc::new(*self))
                &&& node.index_in_parent() == index
                &&& node.text_offset() == text_offset
            },
            NodeOrToken::Token(token) => {
                &&& green == GreenElement::Token(token.spec_green())
                &&& token.spec_parent() == Some(Rc::new(*self))
                &&& token.text_offset() == text_offset
            },
        }
    }

    /// `children` is what `children` returns: one wrapper for each green
    /// child, in the order of the green children.
    pub open spec fn has_children(&self, children: Seq<RedElement>) -> bool {
        &&& children.len() == self.spec_green().spec_children().len()
        &&& forall|i: int| 0 <= i < children.len() ==> self.has_child(i, #[trigger] children[i])
    }

    /// This wrapper stands where `old` stands, over another payload, and its
    /// parent chain is a copy of the parent chain of `old` in which each
    /// payload holds the payload below it in place of the old one and is
    /// otherwise the same.
    pub open spec fn is_rebuild_of(&self, old: &RedNodeData) -> bool
        decreases self,
    {
        &&& self.text_offset() == old.text_offset()
        &&& self.index_in_parent() == old.index_in_parent()
        &&& match (self.spec_parent(), old.spec_parent()) {
            (None, None) => true,
            (Some(parent), Some(old_parent)) => {
                &&& parent.spec_green().is_replacement_of(
                    &*old_parent.spec_green(),
                    old.index_in_parent() as int,
                    NodeOrToken::Node(self.spec_green()),
                )
                &&& parent.is_rebuild_of(&*old_parent)
            },
            _ => false,
        }
    }

    /// This wrapper is what `replace_child` returns for `old`, `index` and
    /// `child`: it is well formed, its payload is the payload of `old` with
    /// the child at `index` exchanged for `child`, and it is a rebuild of
    /// `old`.
    pub open spec fn is_edit_of(&self, old: &RedNodeData, index: int, child: GreenElement) -> bool {
        &&& 0 <= index < old.spec_green().spec_children().len()
        &&& self.wf()
        &&& self.spec_green().is_replacement_of(&*old.spec_green(), index, child)
        &&& self.is_rebuild_of(old)
    }

    /// The root wrapper of the tree whose root is `root`.
    pub fn new(root: GreenNode) -> (node: RedNode)
        ensures
            node.wf(),
            node.spec_parent().is_none(),
            node.text_offset() == 0,
            node.index_in_parent() == 0,
            node.spec_green() == root,
    {
        proof {
            use_type_invariant(&*root);
        }
        Rc::new(RedNodeData { parent: None, text_offset: 0, index_in_parent: 0, green: root })
    }

    /// The green node that this wrapper stands for.
    pub fn green(&self) -> (green: &GreenNode)
        ensures
            *green == self.spec_green(),
    {
        &self.green
    }

    /// The kind of the payload.
    #[verifier::when_used_as_spec(spec_kind)]
    pub fn kind(&self) -> (kind: SyntaxKind)
        ensures
            kind == self.spec_green().kind(),
    {
        self.green().kind()
    }

    /// The length in bytes of the text of the payload.
    #[verifier::when_used_as_spec(spec_text_len)]
    pub fn text_len(&self) -> (len: usize)
        ensures
            len == self.spec_green().text_len(),
    {
        self.green().text_len()
    }

    /// The offset in bytes at which the text of this wrapper starts in the
    /// text of the root.
    #[verifier::when_used_as_spec(spec_text_offset)]
    pub fn text_offset(&self) -> (offset: usize)
        ensures
            offset == self.spec_text_offset(),
    {
        self.text_offset
    }

    /// The wrapper above this one, or `None` at a root.
    pub fn parent(&self) -> (parent: Option<&RedNode>)
        ensures
            parent.is_some() == self.spec_parent().is_some(),
            parent matches Some(p) ==> *p == self.spec_parent().unwrap(),
    {
        self.parent.as_ref()
    }

    /// The text below this wrapper as one string.
    pub fn text(&self) -> (text: String)
        ensures
            text@ == self.spec_green().spec_text(),
    {
        self.green.text()
    }

    /// One wrapper for each child of the payload, in order. Every call walks
    /// the green children anew and makes new wrappers.
    pub fn children(self: &RedNode) -> (children: Vec<RedElement>)
        ensures
            self.has_children(children@),
    {
        proof {
            use_type_invariant(&**self);
            lemma_extent_within_root(&**self);
        }
        let green_children = self.green.children();
        let mut children: Vec<RedElement> = Vec::new();
        let mut offset_in_parent: usize = 0;
        let mut index_in_parent: usize = 0;
        while index_in_parent < green_children.len()
            invariant
                self.wf(),
                green_children@ == self.spec_green().spec_children(),
                self.text_offset() + total_len(green_children@) <= usize::MAX,
                index_in_parent <= green_children.len(),
                offset_in_parent == prefix_len(green_children@, index_in_parent as int),
                children.len() == index_in_parent,
                forall|i: int| 0 <= i < index_in_parent ==> self.has_child(i, #[trigger] children@[i]),
            decreases green_children.len() - index_in_parent,
        {
            proof {
                lemma_prefix_len_monotone(
                    green_children@,
                    index_in_parent as int + 1,
                    green_children@.len() as int,
                );
                lemma_prefix_len_monotone(green_children@, 0, index_in_parent as int);
            }
            let green_child = &green_children[index_in_parent];
            let text_offset = offset_in_parent + self.text_offset();
            offset_in_parent = offset_in_parent + green_child.text_len();
            let child: RedElement = match green_child {
                NodeOrToken::Node(node) => {
                    proof {
                        use_type_invariant(&**node);
                    }
                    NodeOrToken::Node(
                        Rc::new(
                            RedNodeData {
                                parent: Some(Rc::clone(self)),
                                text_offset,
                                index_in_parent,
                                green: Arc::clone(node),
                            },
                        ),
                    )
                },
                NodeOrToken::Token(token) => NodeOrToken::Token(
                    Rc::new(
                        RedTokenData {
                            parent: Some(Rc::clone(self)),
                            text_offset,
                            green: Arc::clone(token),
                        },
                    ),
                ),
            };
            children.push(child);
            index_in_parent = index_in_parent + 1;
        }
        children
    }

    /// The wrapper of this node in a new tree, in which the child at `index`
    /// of this node's payload is `child` and everything else is as before.
    /// The result stands in the new tree where this wrapper stands in the old
    /// one, below a new parent chain; the new root is at the end of that
    /// chain. This wrapper, its chain and their payloads stay as they are.
    /// An index that is not below the number of children is refused.
    pub fn replace_child(self: &RedNode, index: usize, child: GreenElement) -> (result: Result<
        RedNode,
        OutOfRange,
    >)
        requires
            index < self.spec_green().spec_children().len() ==> self.root().text_len()
                - self.spec_green().spec_children()[index as int].text_len() + child.text_len()
                <= usize::MAX,
        ensures
            match result {
                Ok(node) => node.is_edit_of(&**self, index as int, child),
                Err(e) => index >= self.spec_green().spec_children().len() && e == (OutOfRange {
                    index,
                    len: self.spec_green().spec_children().len() as usize,
                }),
            },
        decreases self.depth(), 1nat,
    {
        proof {
            use_type_invariant(&**self);
            lemma_extent_within_root(&**self);
        }
        let new_green = match self.green.replace_child(index, child) {
            Ok(new_green) => new_green,
            Err(e) => {
                return Err(e);
            },
        };
        proof {
            lemma_total_len_update(self.spec_green().spec_children(), index as int, child);
        }
        Ok(self.replace_ourselves(Arc::new(new_green)))
    }

    /// The wrapper of this node in a new tree, in which this node's payload is
    /// `new_green` and everything else is as before.
    fn replace_ourselves(self: &RedNode, new_green: GreenNode) -> (node: RedNode)
        requires
            self.root().text_len() - self.text_len() + new_green.text_len() <= usize::MAX,
        ensures
            node.wf(),
            node.spec_green() == new_green,
            node.is_rebuild_of(&**self),
        decreases self.depth(), 0nat,
    {
        proof {
            use_type_invariant(&**self);
            use_type_invariant(&*new_green);
        }
        match &self.parent {
            None => RedNodeData::new(new_green),
            Some(parent) => {
                proof {
                    lemma_prefix_len_update(
                        parent.spec_green().spec_children(),
                        self.index_in_parent as int,
                        NodeOrToken::Node(new_green),
                        self.index_in_parent as int,
                    );
                }
                let new_parent = parent.replace_child(
                    self.index_in_parent,
                    NodeOrToken::Node(Arc::clone(&new_green)),
                ).unwrap();
                Rc::new(
                    RedNodeData {
                        parent: Some(new_parent),
                        text_offset: self.text_offset,
                        index_in_parent: self.index_in_parent,
                        green: new_green,
                    },
                )
            },
        }
    }
}

impl RedTokenData {
    /// The wrapper above this one, if there is one.
    pub closed spec fn spec_parent(&self) -> Option<RedNode> {
        self.parent
    }

    /// The offset in bytes that this wrapper was given.
    pub closed spec fn spec_text_offset(&self) -> usize {
        self.text_offset
    }

    /// The green token that this wrapper stands for.
    pub closed spec fn spec_green(&self) -> GreenToken {
        self.green
    }

    /// The kind of the payload.
    pub open spec fn spec_kind(&self) -> SyntaxKind {
        self.spec_green().kind()
    }

    /// The length of the payload.
    pub open spec fn spec_text_len(&self) -> usize {
        self.spec_green().text_len()
    }

    /// A wrapper of `green` below `parent`, starting at `text_offset`. The
    /// three are taken as they are given: `children` is what makes wrappers
    /// that agree with the tree.
    pub fn new(parent: Option<RedNode>, text_offset: usize, green: GreenToken) -> (token: RedToken)
        ensures
            token.spec_parent() == parent,
            token.text_offset() == text_offset,
            token.spec_green() == green,
    {
        Rc::new(RedTokenData { parent, text_offset, green })
    }

    /// The green token that this wrapper stands for.
    pub fn green(&self) -> (green: &GreenToken)
        ensures
            *green == self.spec_green(),
    {
        &self.green
    }

    /// The kind of the payload.
    #[verifier::when_used_as_spec(spec_kind)]
    pub fn kind(&self) -> (kind: SyntaxKind)
        ensures
            kind == self.spec_green().kind(),
    {
        self.green().kind()
    }

    /// The length in bytes of the text of the payload.
    #[verifier::when_used_as_spec(spec_text_len)]
    pub fn text_len(&self) -> (len: usize)
        ensures
            len == self.spec_green().text_len(),
    {
        self.green().text_len()
    }

    /// The offset in bytes at which the text of this wrapper starts.
    #[verifier::when_used_as_spec(spec_text_offset)]
    pub fn text_offset(&self) -> (offset: usize)
        ensures
            offset == self.spec_text_offset(),
    {
        self.text_offset
    }

    /// The wrapper above this one, if there is one.
    pub fn parent(&self) -> (parent: Option<&RedNode>)
        ensures
            parent.is_some() == self.spec_parent().is_some(),
            parent matches Some(p) ==> *p == self.spec_parent().unwrap(),
    {
        self.parent.as_ref()
    }

    /// The text of the token.
    pub fn text(&self) -> (text: &str)
        ensures
            text@ == self.spec_green().spec_text(),
    {
        self.green.text()
    }
}

impl NodeOrToken<RedNode, RedToken> {
    /// The kind of the wrapped node or token.
    pub open spec fn spec_kind(&self) -> SyntaxKind {
        match self {
            NodeOrToken::Node(node) => node.kind(),
            NodeOrToken::Token(token) => token.kind(),
        }
    }

    /// The length of the wrapped node or token.
    pub open spec fn spec_text_len(&self) -> usize {
        match self {
            NodeOrToken::Node(node) => node.text_len(),
            NodeOrToken::Token(token) => token.text_len(),
        }
    }

    /// The offset of the wrapped node or token.
    pub open spec fn spec_text_offset(&self) -> usize {
        match self {
            NodeOrToken::Node(node) => node.text_offset(),
            NodeOrToken::Token(token) => token.text_offset(),
        }
    }

    /// The kind of the wrapped node or token.
    #[verifier::when_used_as_spec(spec_kind)]
    pub fn kind(&self) -> (kind: SyntaxKind)
        ensures
            kind == self.spec_kind(),
    {
        match self {
            NodeOrToken::Node(node) => node.kind(),
            NodeOrToken::Token(token) => token.kind(),
        }
    }

    /// The length in bytes of the text of the wrapped node or token.
    #[verifier::when_used_as_spec(spec_text_len)]
    pub fn text_len(&self) -> (len: usize)
        ensures
            len == self.spec_text_len(),
    {
        match self {
            NodeOrToken::Node(node) => node.text_len(),
            NodeOrToken::Token(token) => token.text_len(),
        }
    }

    /// The offset in bytes at which the wrapped node or token starts.
    #[verifier::when_used_as_spec(spec_text_offset)]
    pub fn text_offset(&self) -> (offset: usize)
        ensures
            offset == self.spec_text_offset(),
    {
        match self {
            NodeOrToken::Node(node) => node.text_offset(),
            NodeOrToken::Token(token) => token.text_offset(),
        }
    }
}

impl Clone for NodeOrToken<RedNode, RedToken> {
    /// Another handle on the same wrapper.
    fn clone(&self) -> (element: Self)
        ensures
            element == *self,
    {
        match self {
            NodeOrToken::Node(node) => NodeOrToken::Node(Rc::clone(node)),
            NodeOrToken::Token(token) => NodeOrToken::Token(Rc::clone(token)),
        }
    }
}

impl From<RedNode> for NodeOrToken<RedNode, RedToken> {
    fn from(node: RedNode) -> (element: Self) {
        NodeOrToken::Node(node)
    }
}

impl FromSpecImpl<RedNode> for NodeOrToken<RedNode, RedToken> {
    open spec fn obeys_from_spec() -> bool {
        true
    }

    open spec fn from_spec(node: RedNode) -> Self {
        NodeOrToken::Node(node)
    }
}

impl From<RedToken> for NodeOrToken<RedNode, RedToken> {
    fn from(token: RedToken) -> (element: Self) {
        NodeOrToken::Token(token)
    }
}

impl FromSpecImpl<RedToken> for NodeOrToken<RedNode, RedToken> {
    open spec fn obeys_from_spec() -> bool {
        true
    }

    open spec fn from_spec(token: RedToken) -> Self {
        NodeOrToken::Token(token)
    }
}

/// The text of a wrapper lies inside the text of its parent, and so inside the
/// text of the root, which starts at 0.
pub proof fn lemma_extent_within_root(node: &RedNodeData)
    requires
        node.wf(),
    ensures
        node.root().wf(),
        node.root().spec_parent().is_none(),
        node.root().text_offset() == 0,
        node.text_offset() + node.text_len() <= node.root().text_len(),
        node.spec_parent() matches Some(parent) ==> {
            &&& parent.root() == node.root()
            &&& parent.text_offset() <= node.text_offset()
            &&& node.text_offset() + node.text_len() <= parent.text_offset() + parent.text_len()
        },
    decreases node,
{
    match node.spec_parent() {
        None => {},
        Some(parent) => {
            lemma_extent_within_root(&*parent);
            let siblings = parent.spec_green().spec_children();
            let index = node.index_in_parent() as int;
            lemma_prefix_len_monotone(siblings, 0, index);
            lemma_prefix_len_monotone(siblings, index + 1, siblings.len() as int);
            assert(parent.wf());
            assert(parent.spec_green().wf());
            assert(prefix_len(siblings, index + 1) == prefix_len(siblings, index) + node.text_len());
            assert(parent.root() == node.root());
        },
    }
}

} // verus!
