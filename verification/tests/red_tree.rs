use red_green::{
    GreenElement, GreenNode, GreenNodeData, GreenToken, GreenTokenData, NodeOrToken, OutOfRange,
    RedElement, RedNode, RedNodeData, RedToken, RedTokenData, SyntaxKind,
};
use std::rc::Rc;
use std::sync::Arc;

const ROOT: SyntaxKind = SyntaxKind(1);
const LIST: SyntaxKind = SyntaxKind(2);
const WORD: SyntaxKind = SyntaxKind(3);
const PUNCT: SyntaxKind = SyntaxKind(4);

fn token(kind: SyntaxKind, text: &str) -> GreenElement {
    NodeOrToken::Token(Arc::new(GreenTokenData::new(kind, text.to_string())))
}

fn node(kind: SyntaxKind, children: Vec<GreenElement>) -> GreenNode {
    Arc::new(GreenNodeData::new(kind, children))
}

fn as_node(element: &RedElement) -> RedNode {
    match element {
        NodeOrToken::Node(node) => Rc::clone(node),
        NodeOrToken::Token(_) => panic!("expected a node"),
    }
}

fn as_token(element: &RedElement) -> RedToken {
    match element {
        NodeOrToken::Node(_) => panic!("expected a token"),
        NodeOrToken::Token(token) => Rc::clone(token),
    }
}

fn green_node(element: &GreenElement) -> GreenNode {
    match element {
        NodeOrToken::Node(node) => Arc::clone(node),
        NodeOrToken::Token(_) => panic!("expected a node"),
    }
}

fn green_token(element: &GreenElement) -> GreenToken {
    match element {
        NodeOrToken::Node(_) => panic!("expected a token"),
        NodeOrToken::Token(token) => Arc::clone(token),
    }
}

fn root_of(node: &RedNode) -> RedNode {
    let mut current = Rc::clone(node);
    loop {
        let next = match current.parent() {
            Some(parent) => Rc::clone(parent),
            None => return current,
        };
        current = next;
    }
}

/// R = [A = ["ab"], ";"]
fn small_tree() -> GreenNode {
    let a = node(LIST, vec![token(WORD, "ab")]);
    node(ROOT, vec![NodeOrToken::Node(a), token(PUNCT, ";")])
}

/// R = ["(", L = [M = ["x", "yz"], "", N = ["w"]], ")"]
fn deep_tree() -> GreenNode {
    let m = node(LIST, vec![token(WORD, "x"), token(WORD, "yz")]);
    let n = node(LIST, vec![token(WORD, "w")]);
    let l = node(LIST, vec![NodeOrToken::Node(m), token(PUNCT, ""), NodeOrToken::Node(n)]);
    node(ROOT, vec![token(PUNCT, "("), NodeOrToken::Node(l), token(PUNCT, ")")])
}

#[test]
fn root_starts_at_zero_and_has_no_parent() {
    let green = deep_tree();
    let root = RedNodeData::new(Arc::clone(&green));
    assert_eq!(root.text_offset(), 0);
    assert!(root.parent().is_none());
    assert!(Arc::ptr_eq(root.green(), &green));
    assert_eq!(root.kind(), ROOT);
    assert_eq!(root.text_len(), 6);
    assert_eq!(root.text(), "(xyzw)");
}

#[test]
fn example_children_of_root() {
    let root = RedNodeData::new(small_tree());
    let children = root.children();
    assert_eq!(children.len(), 2);
    let a = as_node(&children[0]);
    let semi = as_token(&children[1]);
    assert_eq!(a.text_offset(), 0);
    assert_eq!(a.kind(), LIST);
    assert_eq!(a.text(), "ab");
    assert_eq!(semi.text_offset(), 2);
    assert_eq!(semi.kind(), PUNCT);
    assert_eq!(semi.text(), ";");
    assert!(Rc::ptr_eq(a.parent().unwrap(), &root));
    assert!(Rc::ptr_eq(semi.parent().unwrap(), &root));
}

#[test]
fn example_replace_token_of_root() {
    let root = RedNodeData::new(small_tree());
    let new_root = root.replace_child(1, token(PUNCT, "!")).unwrap();
    assert_eq!(new_root.text(), "ab!");
    assert_eq!(root.text(), "ab;");
    assert!(new_root.parent().is_none());
    assert_eq!(new_root.text_offset(), 0);
    assert_eq!(new_root.kind(), ROOT);
}

#[test]
fn children_are_contiguous() {
    let root = RedNodeData::new(deep_tree());
    let top = root.children();
    let offsets: Vec<usize> = top.iter().map(|c| c.text_offset()).collect();
    let lens: Vec<usize> = top.iter().map(|c| c.text_len()).collect();
    assert_eq!(offsets, vec![0, 1, 5]);
    assert_eq!(lens, vec![1, 4, 1]);
    let l = as_node(&top[1]);
    let inner = l.children();
    let offsets: Vec<usize> = inner.iter().map(|c| c.text_offset()).collect();
    let lens: Vec<usize> = inner.iter().map(|c| c.text_len()).collect();
    assert_eq!(offsets, vec![1, 4, 4]);
    assert_eq!(lens, vec![3, 0, 1]);
    let last = inner.last().unwrap();
    assert_eq!(last.text_offset() + last.text_len(), l.text_offset() + l.text_len());
    let m = as_node(&inner[0]);
    let leaves = m.children();
    assert_eq!(as_token(&leaves[0]).text_offset(), 1);
    assert_eq!(as_token(&leaves[1]).text_offset(), 2);
    for window in inner.windows(2) {
        assert!(window[0].text_offset() <= window[1].text_offset());
        assert_eq!(window[1].text_offset() - window[0].text_offset(), window[0].text_len());
    }
}

#[test]
fn node_without_children_has_no_red_children() {
    let root = RedNodeData::new(node(ROOT, Vec::new()));
    assert_eq!(root.text_len(), 0);
    assert!(root.children().is_empty());
    assert_eq!(root.text(), "");
}

#[test]
fn wrappers_delegate_to_their_payload() {
    let root = RedNodeData::new(deep_tree());
    assert_eq!(root.kind(), root.green().kind());
    assert_eq!(root.text_len(), root.green().text_len());
    for (child, green) in root.children().iter().zip(root.green().children().iter()) {
        assert_eq!(child.kind(), green.kind());
        assert_eq!(child.text_len(), green.text_len());
        match child {
            NodeOrToken::Node(n) => {
                assert!(Arc::ptr_eq(n.green(), &green_node(green)));
                assert_eq!(n.kind(), n.green().kind());
                assert_eq!(n.text_len(), n.green().text_len());
            }
            NodeOrToken::Token(t) => {
                assert!(Arc::ptr_eq(t.green(), &green_token(green)));
                assert_eq!(t.kind(), t.green().kind());
                assert_eq!(t.text_len(), t.green().text_len());
            }
        }
    }
}

#[test]
fn each_walk_makes_new_wrappers() {
    let root = RedNodeData::new(small_tree());
    let first = root.children();
    let second = root.children();
    let a1 = as_node(&first[0]);
    let a2 = as_node(&second[0]);
    assert!(!Rc::ptr_eq(&a1, &a2));
    assert!(Arc::ptr_eq(a1.green(), a2.green()));
    assert_eq!(a1.text_offset(), a2.text_offset());
}

#[test]
fn edit_below_the_root_returns_the_edited_node() {
    let root = RedNodeData::new(deep_tree());
    let l = as_node(&root.children()[1]);
    let m = as_node(&l.children()[0]);
    assert_eq!(m.text_offset(), 1);
    let new_m = m.replace_child(1, token(WORD, "long")).unwrap();
    assert_eq!(new_m.kind(), LIST);
    assert_eq!(new_m.text(), "xlong");
    assert_eq!(new_m.text_len(), 5);
    assert_eq!(new_m.text_offset(), 1);
    let new_l = Rc::clone(new_m.parent().unwrap());
    assert_eq!(new_l.text(), "xlongw");
    assert_eq!(new_l.text_offset(), 1);
    let new_root = Rc::clone(new_l.parent().unwrap());
    assert!(new_root.parent().is_none());
    assert_eq!(new_root.text_offset(), 0);
    assert_eq!(new_root.text(), "(xlongw)");
    assert_eq!(new_root.text_len(), 8);
    assert!(Rc::ptr_eq(&root_of(&new_m), &new_root));
    let again = as_node(&as_node(&new_root.children()[1]).children()[0]);
    assert!(Arc::ptr_eq(again.green(), new_m.green()));
    assert_eq!(again.text_offset(), new_m.text_offset());
    let n = as_node(&as_node(&new_root.children()[1]).children()[2]);
    assert_eq!(n.text_offset(), 6);
}

#[test]
fn edit_leaves_the_old_tree_as_it_was() {
    let green = deep_tree();
    let root = RedNodeData::new(Arc::clone(&green));
    let l = as_node(&root.children()[1]);
    let m = as_node(&l.children()[0]);
    let old_child = green_token(&m.green().children()[1]);
    let new_m = m.replace_child(1, token(WORD, "Q")).unwrap();
    assert_eq!(green_token(&new_m.green().children()[1]).text(), "Q");
    assert!(Arc::ptr_eq(&green_token(&m.green().children()[1]), &old_child));
    assert_eq!(m.text(), "xyz");
    assert_eq!(l.text(), "xyzw");
    assert_eq!(root.text(), "(xyzw)");
    assert_eq!(green.text(), "(xyzw)");
    assert!(Arc::ptr_eq(root.green(), &green));
    let m_again = as_node(&as_node(&root.children()[1]).children()[0]);
    assert_eq!(as_token(&m_again.children()[1]).text(), "yz");
    assert_eq!(root_of(&new_m).text(), "(xQw)");
}

#[test]
fn edit_copies_the_path_and_shares_the_rest() {
    let root = RedNodeData::new(deep_tree());
    let l = as_node(&root.children()[1]);
    let m = as_node(&l.children()[0]);
    let new_m = m.replace_child(0, token(WORD, "X")).unwrap();
    let new_l = Rc::clone(new_m.parent().unwrap());
    let new_root = Rc::clone(new_l.parent().unwrap());
    assert!(new_root.parent().is_none());
    assert!(!Arc::ptr_eq(new_m.green(), m.green()));
    assert!(!Arc::ptr_eq(new_l.green(), l.green()));
    assert!(!Arc::ptr_eq(new_root.green(), root.green()));
    assert!(Arc::ptr_eq(
        &green_token(&new_m.green().children()[1]),
        &green_token(&m.green().children()[1])
    ));
    assert!(Arc::ptr_eq(&green_node(&new_l.green().children()[0]), new_m.green()));
    assert!(Arc::ptr_eq(
        &green_token(&new_l.green().children()[1]),
        &green_token(&l.green().children()[1])
    ));
    assert!(Arc::ptr_eq(
        &green_node(&new_l.green().children()[2]),
        &green_node(&l.green().children()[2])
    ));
    assert!(Arc::ptr_eq(
        &green_token(&new_root.green().children()[0]),
        &green_token(&root.green().children()[0])
    ));
    assert!(Arc::ptr_eq(&green_node(&new_root.green().children()[1]), new_l.green()));
    assert!(Arc::ptr_eq(
        &green_token(&new_root.green().children()[2]),
        &green_token(&root.green().children()[2])
    ));
    assert_eq!(new_root.kind(), root.kind());
    assert_eq!(new_l.kind(), l.kind());
}

#[test]
fn replacing_a_child_by_itself_keeps_the_text() {
    let root = RedNodeData::new(deep_tree());
    let l = as_node(&root.children()[1]);
    for i in 0..l.green().children().len() {
        let same = l.green().children()[i].clone();
        let new_l = l.replace_child(i, same).unwrap();
        assert_eq!(root_of(&new_l).text(), root.text());
        assert_eq!(root_of(&new_l).text_len(), root.text_len());
        assert_eq!(new_l.text_offset(), l.text_offset());
    }
    let same = root.green().children()[0].clone();
    assert_eq!(root.replace_child(0, same).unwrap().text(), "(xyzw)");
}

#[test]
fn index_out_of_range_is_refused() {
    let root = RedNodeData::new(small_tree());
    let refused = root.replace_child(2, token(PUNCT, "!"));
    assert_eq!(refused.err(), Some(OutOfRange { index: 2, len: 2 }));
    let refused = root.replace_child(usize::MAX, token(PUNCT, "!"));
    assert_eq!(refused.err(), Some(OutOfRange { index: usize::MAX, len: 2 }));
    assert_eq!(root.text(), "ab;");
    assert_eq!(root.children().len(), 2);
    let a = as_node(&root.children()[0]);
    let refused = a.replace_child(1, token(WORD, "cd"));
    assert_eq!(refused.err(), Some(OutOfRange { index: 1, len: 1 }));
    assert_eq!(a.text(), "ab");
    let empty = RedNodeData::new(node(ROOT, Vec::new()));
    let refused = empty.replace_child(0, token(WORD, "a"));
    assert_eq!(refused.err(), Some(OutOfRange { index: 0, len: 0 }));
}

#[test]
fn a_node_can_replace_a_token() {
    let root = RedNodeData::new(small_tree());
    let sub = node(LIST, vec![token(WORD, "c"), token(WORD, "d")]);
    let new_root = root.replace_child(1, NodeOrToken::Node(sub)).unwrap();
    assert_eq!(new_root.text(), "abcd");
    let children = new_root.children();
    let second = as_node(&children[1]);
    assert_eq!(second.text_offset(), 2);
    assert_eq!(as_token(&second.children()[1]).text_offset(), 3);
}

#[test]
fn lengths_count_bytes() {
    let root = RedNodeData::new(node(ROOT, vec![token(WORD, "é"), token(WORD, "日本"), token(WORD, "a")]));
    let offsets: Vec<usize> = root.children().iter().map(|c| c.text_offset()).collect();
    assert_eq!(offsets, vec![0, 2, 8]);
    assert_eq!(root.text_len(), 9);
    assert_eq!(root.text(), "é日本a");
    assert_eq!(root.text().len(), root.text_len());
}

#[test]
fn red_token_keeps_what_it_was_made_from() {
    let root = RedNodeData::new(small_tree());
    let green = green_token(&root.green().children()[1]);
    let tok = RedTokenData::new(Some(Rc::clone(&root)), 2, Arc::clone(&green));
    assert_eq!(tok.text_offset(), 2);
    assert_eq!(tok.kind(), PUNCT);
    assert_eq!(tok.text_len(), 1);
    assert_eq!(tok.text(), ";");
    assert!(Rc::ptr_eq(tok.parent().unwrap(), &root));
    assert!(Arc::ptr_eq(tok.green(), &green));
    let loose = RedTokenData::new(None, 7, green);
    assert!(loose.parent().is_none());
    assert_eq!(loose.text_offset(), 7);
}

#[test]
fn wrappers_convert_into_elements() {
    let root = RedNodeData::new(small_tree());
    let children = root.children();
    let a = as_node(&children[0]);
    let semi = as_token(&children[1]);
    let element: RedElement = Rc::clone(&a).into();
    assert!(matches!(&element, NodeOrToken::Node(n) if Rc::ptr_eq(n, &a)));
    assert_eq!(element.text_offset(), 0);
    assert!(matches!(element.clone(), NodeOrToken::Node(n) if Rc::ptr_eq(&n, &a)));
    let element = RedElement::from(Rc::clone(&semi));
    assert!(matches!(&element, NodeOrToken::Token(t) if Rc::ptr_eq(t, &semi)));
    assert_eq!(element.text_offset(), 2);
    assert_eq!(element.kind(), PUNCT);
    assert_eq!(element.text_len(), 1);
}

fn check_offsets_locate_text(node: &RedNode, whole: &str) {
    let start = node.text_offset();
    let end = start + node.text_len();
    assert_eq!(&whole[start..end], node.text());
    for child in node.children() {
        match child {
            NodeOrToken::Node(n) => check_offsets_locate_text(&n, whole),
            NodeOrToken::Token(t) => {
                let start = t.text_offset();
                assert_eq!(&whole[start..start + t.text_len()], t.text());
            }
        }
    }
}

#[test]
fn offsets_locate_text_in_the_root() {
    let root = RedNodeData::new(deep_tree());
    check_offsets_locate_text(&root, &root.text());
    let wide = RedNodeData::new(node(
        ROOT,
        vec![
            token(WORD, "é"),
            NodeOrToken::Node(node(LIST, vec![token(WORD, "日本"), token(PUNCT, "、")])),
            token(WORD, "z"),
        ],
    ));
    check_offsets_locate_text(&wide, &wide.text());
    let inner = as_node(&wide.children()[1]);
    let edited = inner.replace_child(0, token(WORD, "ab")).unwrap();
    let new_root = root_of(&edited);
    assert_eq!(new_root.text(), "éab、z");
    check_offsets_locate_text(&new_root, &new_root.text());
}

#[test]
fn edit_splices_the_text_of_the_root() {
    let root = RedNodeData::new(deep_tree());
    let l = as_node(&root.children()[1]);
    let n = as_node(&l.children()[2]);
    let old_child = as_token(&n.children()[0]);
    let start = old_child.text_offset();
    let end = start + old_child.text_len();
    let new_n = n.replace_child(0, token(WORD, "WWW")).unwrap();
    let old_text = root.text();
    let new_text = root_of(&new_n).text();
    assert_eq!(new_text, format!("{}{}{}", &old_text[..start], "WWW", &old_text[end..]));
    assert_eq!(new_text, "(xyzWWW)");
    assert_eq!(new_n.text_len(), n.text_len() - 1 + 3);
    assert_eq!(root_of(&new_n).text_len(), root.text_len() - 1 + 3);
    assert_eq!(new_n.text_offset(), n.text_offset());
}
