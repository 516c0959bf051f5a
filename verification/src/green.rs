//! The green tree: immutable nodes and tokens without positions.
//!
//! A token holds its text. A node holds its children and the total length of
//! their text, so that the length of any subtree is known without a walk.
//! Lengths count bytes of UTF-8, as `str::len` does. Green values sit behind
//! `Arc`, and a subtree may hang below many parents at once.

use crate::element::{NodeOrToken, SyntaxKind};
use crate::error::OutOfRange;
use std::sync::Arc;
use vstd::prelude::*;
use vstd::std_specs::convert::FromSpecImpl;
use vstd::utf8::encode_utf8;

verus! {

pub type GreenNode = Arc<GreenNodeData>;

pub type GreenToken = Arc<GreenTokenData>;

pub type GreenElement = NodeOrToken<GreenNode, GreenToken>;

/// The number of bytes that `s` takes in UTF-8.
pub open spec fn utf8_len(s: Seq<char>) -> nat {
    encode_utf8(s).len()
}

/// The text length of the first `n` elements of `children`, added up.
pub open spec fn prefix_len(children: Seq<GreenElement>, n: int) -> int
    decreases n,
{
    if n <= 0 {
        0
    } else {
        prefix_len(children, n - 1) + children[n - 1].text_len()
    }
}

/// The text length of all of `children`, added up.
pub open spec fn total_len(children: Seq<GreenElement>) -> int {
    prefix_len(children, children.len() as int)
}

/// The text of the first `n` elements of `children`, one after the other.
pub open spec fn prefix_text(children: Seq<GreenElement>, n: int) -> Seq<char>
    decreases children, n,
{
    if 0 < n <= children.len() {
        prefix_text(children, n - 1) + children[n - 1].spec_text()
    } else {
        Seq::empty()
    }
}

/// A leaf of the green tree: a kind and a piece of text.
pub struct GreenTokenData {
    kind: SyntaxKind,
    text: String,
    text_len: usize,
}

impl GreenTokenData {
    /// The kind of the token.
    pub closed spec fn spec_kind(&self) -> SyntaxKind {
        self.kind
    }

    /// The stored length of the token.
    pub closed spec fn spec_text_len(&self) -> usize {
        self.text_len
    }

    /// The characters of the token.
    pub closed spec fn spec_text(&self) -> Seq<char> {
        self.text@
    }

    /// The stored length is the length of the stored text.
    #[verifier::type_invariant]
    pub open spec fn wf(&self) -> bool {
        self.text_len() == utf8_len(self.spec_text())
    }

    /// A token of the given kind with the given text.
    pub fn new(kind: SyntaxKind, text: String) -> (token: GreenTokenData)
        ensures
            token.wf(),
            token.kind() == kind,
            token.spec_text() == text@,
    {
        let text_len = text.as_str().as_bytes().len();
        GreenTokenData { kind, text, text_len }
    }

    #[verifier::when_used_as_spec(spec_kind)]
    pub fn kind(&self) -> (kind: SyntaxKind)
        ensures
            kind == self.spec_kind(),
    {
        self.kind
    }

    /// The length of the text in bytes.
    #[verifier::when_used_as_spec(spec_text_len)]
    pub fn text_len(&self) -> (len: usize)
        ensures
            len == self.spec_text_len(),
            len == utf8_len(self.spec_text()),
    {
        proof {
            use_type_invariant(self);
        }
        self.text_len
    }

    /// The text of the token.
    pub fn text(&self) -> (text: &str)
        ensures
            text@ == self.spec_text(),
    {
        self.text.as_str()
    }
}

/// An inner node of the green tree: a kind, the children in order, and the
/// length of the text below it.
pub struct GreenNodeData {
    kind: SyntaxKind,
    text_len: usize,
    children: Vec<GreenElement>,
}

impl NodeOrToken<GreenNode, GreenToken> {
    /// The kind of the node or token.
    pub open spec fn spec_kind(&self) -> SyntaxKind {
        match self {
            NodeOrToken::Node(node) => node.kind(),
            NodeOrToken::Token(token) => token.kind(),
        }
    }

    /// The stored length of the node or token.
    pub open spec fn spec_text_len(&self) -> usize {
        match self {
            NodeOrToken::Node(node) => node.text_len(),
            NodeOrToken::Token(token) => token.text_len(),
        }
    }

    /// The characters below this element, from left to right.
    pub open spec fn spec_text(&self) -> Seq<char>
        decreases self, 0nat,
    {
        match self {
            NodeOrToken::Node(node) => node.spec_text(),
            NodeOrToken::Token(token) => token.spec_text(),
        }
    }

    /// Every node and token below and including this one is well formed.
    pub open spec fn wf(&self) -> bool
        decreases self, 0nat,
    {
        match self {
            NodeOrToken::Node(node) => node.wf(),
            NodeOrToken::Token(token) => token.wf(),
        }
    }

    #[verifier::when_used_as_spec(spec_kind)]
    pub fn kind(&self) -> (kind: SyntaxKind)
        ensures
            kind == self.spec_kind(),
    {
        match self {
            NodeOrToken::Node(node) => node.kind(),
            NodeOrToken::Token(token) => token.kind(),
        }
    }

    /// The length in bytes of the text below this element.
    #[verifier::when_used_as_spec(spec_text_len)]
    pub fn text_len(&self) -> (len: usize)
        ensures
            len == self.spec_text_len(),
            len == utf8_len(self.spec_text()),
    {
        match self {
            NodeOrToken::Node(node) => node.text_len(),
            NodeOrToken::Token(token) => token.text_len(),
        }
    }

    /// The text below this element as one string.
    pub fn text(&self) -> (text: String)
        ensures
            text@ == self.spec_text(),
    {
        let mut text = String::new();
        self.write_text(&mut text);
        text
    }

    /// Appends the text below this element to `out`.
    pub fn write_text(&self, out: &mut String)
        ensures
            final(out)@ == old(out)@ + self.spec_text(),
        decreases self, 0nat,
    {
        match self {
            NodeOrToken::Node(node) => node.write_text(out),
            NodeOrToken::Token(token) => out.append(token.text()),
        }
    }
}

impl Clone for NodeOrToken<GreenNode, GreenToken> {
    /// Another handle on the same element. Nothing below it is copied.
    fn clone(&self) -> (element: Self)
        ensures
            element == *self,
    {
        match self {
            NodeOrToken::Node(node) => NodeOrToken::Node(Arc::clone(node)),
            NodeOrToken::Token(token) => NodeOrToken::Token(Arc::clone(token)),
        }
    }
}

impl From<GreenNode> for NodeOrToken<GreenNode, GreenToken> {
    fn from(node: GreenNode) -> (element: Self) {
        NodeOrToken::Node(node)
    }
}

impl FromSpecImpl<GreenNode> for NodeOrToken<GreenNode, GreenToken> {
    open spec fn obeys_from_spec() -> bool {
        true
    }

    open spec fn from_spec(node: GreenNode) -> Self {
        NodeOrToken::Node(node)
    }
}

impl From<GreenToken> for NodeOrToken<GreenNode, GreenToken> {
    fn from(token: GreenToken) -> (element: Self) {
        NodeOrToken::Token(token)
    }
}

impl FromSpecImpl<GreenToken> for NodeOrToken<GreenNode, GreenToken> {
    open spec fn obeys_from_spec() -> bool {
        true
    }

    open spec fn from_spec(token: GreenToken) -> Self {
        NodeOrToken::Token(token)
    }
}

impl GreenNodeData {
    /// The kind of the node.
    pub closed spec fn spec_kind(&self) -> SyntaxKind {
        self.kind
    }

    /// The stored length of the node.
    pub closed spec fn spec_text_len(&self) -> usize {
        self.text_len
    }

    /// The children, in order.
    pub closed spec fn spec_children(&self) -> Seq<GreenElement> {
        self.children@
    }

    /// The characters below this node, from left to right.
    pub open spec fn spec_text(&self) -> Seq<char>
        decreases self, 1nat,
    {
        prefix_text(self.spec_children(), self.spec_children().len() as int)
    }

    /// The stored length is the sum of the children's lengths, and the same
    /// holds all the way down.
    #[verifier::type_invariant]
    pub open spec fn wf(&self) -> bool
        decreases self, 1nat,
    {
        &&& self.text_len() == total_len(self.spec_children())
        &&& forall|i: int|
            0 <= i < self.spec_children().len() ==> (#[trigger] self.spec_children()[i]).wf()
    }

    /// This node with the child at `index` exchanged for `child`: what
    /// `replace_child` returns, as a relation between the two nodes.
    pub open spec fn is_replacement_of(
        &self,
        old: &GreenNodeData,
        index: int,
        child: GreenElement,
    ) -> bool {
        &&& self.wf()
        &&& self.kind() == old.kind()
        &&& self.spec_children() == old.spec_children().update(index, child)
    }

    /// A node of the given kind over the given children.
    pub fn new(kind: SyntaxKind, children: Vec<GreenElement>) -> (node: GreenNodeData)
        requires
            total_len(children@) <= usize::MAX,
        ensures
            node.wf(),
            node.kind() == kind,
            node.spec_children() == children@,
    {
        let mut text_len: usize = 0;
        let mut i: usize = 0;
        while i < children.len()
            invariant
                i <= children.len(),
                text_len == prefix_len(children@, i as int),
                total_len(children@) <= usize::MAX,
                forall|j: int| 0 <= j < i ==> (#[trigger] children@[j]).wf(),
            decreases children.len() - i,
        {
            proof {
                lemma_prefix_len_monotone(children@, i as int + 1, children@.len() as int);
            }
            let child_len = match &children[i] {
                NodeOrToken::Node(node) => {
                    proof {
                        use_type_invariant(&**node);
                    }
                    node.text_len()
                },
                NodeOrToken::Token(token) => {
                    proof {
                        use_type_invariant(&**token);
                    }
                    token.text_len()
                },
            };
            text_len = text_len + child_len;
            i = i + 1;
        }
        GreenNodeData { kind, text_len, children }
    }

    #[verifier::when_used_as_spec(spec_kind)]
    pub fn kind(&self) -> (kind: SyntaxKind)
        ensures
            kind == self.spec_kind(),
    {
        self.kind
    }

    /// The length in bytes of the text below this node.
    #[verifier::when_used_as_spec(spec_text_len)]
    pub fn text_len(&self) -> (len: usize)
        ensures
            len == self.spec_text_len(),
            len == total_len(self.spec_children()),
            len == utf8_len(self.spec_text()),
    {
        proof {
            use_type_invariant(self);
            lemma_prefix_len_counts_bytes(self.children@, self.children@.len() as int);
        }
        self.text_len
    }

    /// The children, in order.
    pub fn children(&self) -> (children: &Vec<GreenElement>)
        ensures
            children@ == self.spec_children(),
    {
        &self.children
    }

    /// The text below this node as one string.
    pub fn text(&self) -> (text: String)
        ensures
            text@ == self.spec_text(),
    {
        let mut text = String::new();
        self.write_text(&mut text);
        text
    }

    /// Appends the text below this node to `out`.
    pub fn write_text(&self, out: &mut String)
        ensures
            final(out)@ == old(out)@ + self.spec_text(),
        decreases self, 1nat,
    {
        let mut i: usize = 0;
        while i < self.children.len()
            invariant
                i <= self.children.len(),
                out@ == old(out)@ + prefix_text(self.children@, i as int),
            decreases self.children.len() - i,
        {
            self.children[i].write_text(out);
            i = i + 1;
        }
    }

    /// A new node that differs from this one at one child only. The other
    /// children are shared with this node, not copied. An index that is not
    /// below the number of children is refused.
    pub fn replace_child(&self, index: usize, child: GreenElement) -> (result: Result<
        GreenNodeData,
        OutOfRange,
    >)
        requires
            index < self.spec_children().len() ==> self.text_len()
                - self.spec_children()[index as int].text_len() + child.text_len() <= usize::MAX,
        ensures
            match result {
                Ok(node) => {
                    &&& index < self.spec_children().len()
                    &&& node.is_replacement_of(self, index as int, child)
                    &&& node.text_len() == self.text_len()
                        - self.spec_children()[index as int].text_len() + child.text_len()
                },
                Err(e) => index >= self.spec_children().len() && e == (OutOfRange {
                    index,
                    len: self.spec_children().len() as usize,
                }),
            },
    {
        let len = self.children.len();
        if index >= len {
            return Err(OutOfRange { index, len });
        }
        let mut children: Vec<GreenElement> = Vec::new();
        let mut i: usize = 0;
        while i < index
            invariant
                i <= index < len == self.children.len(),
                children@ == self.children@.take(i as int),
            decreases index - i,
        {
            children.push(self.children[i].clone());
            i = i + 1;
        }
        children.push(child);
        i = i + 1;
        while i < len
            invariant
                index < i <= len == self.children.len(),
                children@ == self.children@.update(index as int, child).take(i as int),
            decreases len - i,
        {
            children.push(self.children[i].clone());
            i = i + 1;
        }
        proof {
            use_type_invariant(self);
            assert(children@ == self.children@.update(index as int, child));
            lemma_total_len_update(self.children@, index as int, child);
        }
        Ok(GreenNodeData::new(self.kind, children))
    }
}

/// A longer prefix is not shorter in text.
pub proof fn lemma_prefix_len_monotone(children: Seq<GreenElement>, m: int, n: int)
    requires
        m <= n,
    ensures
        0 <= prefix_len(children, m) <= prefix_len(children, n),
    decreases n - m, m,
{
    if m < n {
        lemma_prefix_len_monotone(children, m, n - 1);
    } else if m > 0 {
        lemma_prefix_len_monotone(children, m - 1, m - 1);
    }
}

/// Exchanging one child changes the length of a prefix by the difference in
/// length of that child, if the prefix holds it, and not at all otherwise.
pub proof fn lemma_prefix_len_update(
    children: Seq<GreenElement>,
    index: int,
    child: GreenElement,
    n: int,
)
    requires
        0 <= index < children.len(),
        n <= children.len(),
    ensures
        prefix_len(children.update(index, child), n) == prefix_len(children, n) + (if index < n {
            child.text_len() - children[index].text_len()
        } else {
            0
        }),
    decreases n,
{
    if n > 0 {
        lemma_prefix_len_update(children, index, child, n - 1);
    }
}

/// Exchanging one child changes the total length by the difference in length
/// of that child.
pub proof fn lemma_total_len_update(children: Seq<GreenElement>, index: int, child: GreenElement)
    requires
        0 <= index < children.len(),
    ensures
        total_len(children.update(index, child)) == total_len(children) - children[index].text_len()
            + child.text_len(),
{
    lemma_prefix_len_update(children, index, child, children.len() as int);
}

/// The text of a prefix depends on the text of the elements of the prefix
/// only.
pub proof fn lemma_prefix_text_agree(a: Seq<GreenElement>, b: Seq<GreenElement>, n: int)
    requires
        n <= a.len(),
        n <= b.len(),
        forall|j: int| 0 <= j < n ==> a[j].spec_text() == b[j].spec_text(),
    ensures
        prefix_text(a, n) == prefix_text(b, n),
    decreases n,
{
    if 0 < n {
        lemma_prefix_text_agree(a, b, n - 1);
    }
}

/// The text of the first `n` children is the text of the first `m` followed
/// by the text of the children from `m` up to `n`.
pub proof fn lemma_prefix_text_split(children: Seq<GreenElement>, m: int, n: int)
    requires
        0 <= m <= n <= children.len(),
    ensures
        prefix_text(children, n) == prefix_text(children, m) + prefix_text(
            children.subrange(m, n),
            n - m,
        ),
    decreases n - m,
{
    let tail = children.subrange(m, n);
    if m < n {
        lemma_prefix_text_split(children, m, n - 1);
        lemma_prefix_text_agree(tail, children.subrange(m, n - 1), n - 1 - m);
        assert(tail[n - 1 - m] == children[n - 1]);
        assert(prefix_text(tail, n - m) == prefix_text(tail, n - 1 - m) + children[n
            - 1].spec_text());
        assert(prefix_text(children, n) == prefix_text(children, m) + prefix_text(tail, n - m));
    } else {
        assert(prefix_text(children, n) == prefix_text(children, m) + prefix_text(tail, n - m));
    }
}

/// The bytes of two texts, one after the other, are the bytes of the first
/// followed by the bytes of the second.
pub proof fn lemma_utf8_concat(a: Seq<char>, b: Seq<char>)
    ensures
        encode_utf8(a + b) == encode_utf8(a) + encode_utf8(b),
        utf8_len(a + b) == utf8_len(a) + utf8_len(b),
    decreases a.len(),
{
    if a.len() == 0 {
        assert(a + b == b);
        assert(encode_utf8(a) + encode_utf8(b) == encode_utf8(b));
    } else {
        lemma_utf8_concat(a.drop_first(), b);
        assert((a + b).drop_first() == a.drop_first() + b);
        assert(encode_utf8(a + b) == encode_utf8(a) + encode_utf8(b));
    }
}

/// The lengths of the first `n` children add up to the number of bytes of
/// their text, if the children are well formed.
pub proof fn lemma_prefix_len_counts_bytes(children: Seq<GreenElement>, n: int)
    requires
        0 <= n <= children.len(),
        forall|i: int| 0 <= i < children.len() ==> (#[trigger] children[i]).wf(),
    ensures
        prefix_len(children, n) == utf8_len(prefix_text(children, n)),
    decreases children, n,
{
    if n > 0 {
        lemma_prefix_len_counts_bytes(children, n - 1);
        lemma_element_len_counts_bytes(children[n - 1]);
        lemma_utf8_concat(prefix_text(children, n - 1), children[n - 1].spec_text());
    }
}

/// The length of a well-formed element is the number of bytes of its text.
pub proof fn lemma_element_len_counts_bytes(element: GreenElement)
    requires
        element.wf(),
    ensures
        element.text_len() == utf8_len(element.spec_text()),
    decreases element, 0int,
{
    match element {
        NodeOrToken::Node(node) => {
            lemma_prefix_len_counts_bytes(
                node.spec_children(),
                node.spec_children().len() as int,
            );
        },
        NodeOrToken::Token(_) => {},
    }
}

impl GreenNodeData {
    /// The text below this node as the bytes that encode it.
    pub open spec fn spec_bytes(&self) -> Seq<u8> {
        encode_utf8(self.spec_text())
    }
}

/// The bytes of a node are the bytes of the children before `index`, the
/// bytes of the child at `index`, and the bytes of the children after it, and
/// the child starts where the lengths of the children before it say.
pub proof fn lemma_child_bytes(node: &GreenNodeData, index: int)
    requires
        node.wf(),
        0 <= index < node.spec_children().len(),
    ensures
        0 <= prefix_len(node.spec_children(), index),
        prefix_len(node.spec_children(), index) + node.spec_children()[index].text_len()
            <= node.text_len() == node.spec_bytes().len(),
        node.spec_bytes() == node.spec_bytes().subrange(
            0,
            prefix_len(node.spec_children(), index),
        ) + encode_utf8(node.spec_children()[index].spec_text()) + node.spec_bytes().subrange(
            prefix_len(node.spec_children(), index) + node.spec_children()[index].text_len(),
            node.text_len() as int,
        ),
        node.spec_bytes().subrange(0, prefix_len(node.spec_children(), index)) == encode_utf8(
            prefix_text(node.spec_children(), index),
        ),
        node.spec_bytes().subrange(
            prefix_len(node.spec_children(), index) + node.spec_children()[index].text_len(),
            node.text_len() as int,
        ) == encode_utf8(
            prefix_text(
                node.spec_children().subrange(index + 1, node.spec_children().len() as int),
                node.spec_children().len() - index - 1,
            ),
        ),
{
    let children = node.spec_children();
    let len = children.len() as int;
    let before = prefix_text(children, index);
    let own = children[index].spec_text();
    let after = prefix_text(children.subrange(index + 1, len), len - index - 1);
    lemma_prefix_text_split(children, index + 1, len);
    lemma_prefix_len_counts_bytes(children, index);
    lemma_prefix_len_counts_bytes(children, len);
    lemma_element_len_counts_bytes(children[index]);
    lemma_utf8_concat(before, own);
    lemma_utf8_concat(before + own, after);
    assert(prefix_text(children, index + 1) == before + own);
    let bytes = node.spec_bytes();
    let start = prefix_len(children, index);
    let end = start + children[index].text_len();
    assert(bytes == encode_utf8(before) + encode_utf8(own) + encode_utf8(after));
    assert(bytes.subrange(0, start) == encode_utf8(before));
    assert(bytes.subrange(end, bytes.len() as int) == encode_utf8(after));
}

/// Exchanging one child exchanges the bytes of that child and leaves the
/// bytes before and after it as they are.
pub proof fn lemma_replacement_splices_bytes(
    old: &GreenNodeData,
    new: &GreenNodeData,
    index: int,
    child: GreenElement,
)
    requires
        old.wf(),
        0 <= index < old.spec_children().len(),
        new.is_replacement_of(old, index, child),
    ensures
        new.spec_bytes() == old.spec_bytes().subrange(
            0,
            prefix_len(old.spec_children(), index),
        ) + encode_utf8(child.spec_text()) + old.spec_bytes().subrange(
            prefix_len(old.spec_children(), index) + old.spec_children()[index].text_len(),
            old.text_len() as int,
        ),
{
    let children = old.spec_children();
    let len = children.len() as int;
    let changed = new.spec_children();
    lemma_child_bytes(old, index);
    lemma_child_bytes(new, index);
    lemma_prefix_len_update(children, index, child, index);
    assert forall|j: int| 0 <= j < index implies changed[j].spec_text()
        == children[j].spec_text() by {}
    lemma_prefix_text_agree(changed, children, index);
    assert(changed.subrange(index + 1, len) == children.subrange(index + 1, len));
}

} // verus!
