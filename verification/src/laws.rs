//! What holds of every tree: statements that relate the functions of the red
//! layer to each other, each with its proof.

use crate::green::{
    lemma_child_bytes, lemma_element_len_counts_bytes, lemma_prefix_len_monotone,
    lemma_prefix_text_agree, lemma_replacement_splices_bytes, lemma_total_len_update, prefix_len,
    total_len, GreenElement,
};
use crate::red::{lemma_extent_within_root, RedElement, RedNodeData};
use std::rc::Rc;
use vstd::prelude::*;
use vstd::utf8::encode_utf8;

verus! {

/// The children of a wrapper lie one after the other and fill the text of the
/// wrapper: the first child starts where the wrapper starts, each next child
/// starts where the one before it ends, so offsets never go down, and the last
/// child ends where the wrapper ends.
pub proof fn lemma_children_are_contiguous(parent: &RedNodeData, children: Seq<RedElement>)
    requires
        parent.wf(),
        parent.has_children(children),
    ensures
        forall|i: int, j: int|
            0 <= i <= j < children.len() ==> #[trigger] children[i].text_offset()
                <= #[trigger] children[j].text_offset(),
        forall|i: int|
            0 <= i && i + 1 < children.len() ==> children[i + 1].text_offset() - (
            #[trigger] children[i]).text_offset() == children[i].text_len(),
        children.len() > 0 ==> children[0].text_offset() == parent.text_offset(),
        children.len() > 0 ==> children.last().text_offset() + children.last().text_len()
            == parent.text_offset() + parent.text_len(),
        children.len() == 0 ==> parent.text_len() == 0,
{
    let green = parent.spec_green().spec_children();
    assert forall|i: int| 0 <= i < children.len() implies #[trigger] children[i].text_offset()
        == parent.text_offset() + prefix_len(green, i) && children[i].text_len()
        == green[i].text_len() by {
        assert(parent.has_child(i, children[i]));
    }
    assert forall|i: int, j: int| 0 <= i <= j < children.len() implies #[trigger] children[i].text_offset()
        <= #[trigger] children[j].text_offset() by {
        lemma_prefix_len_monotone(green, i, j);
    }
    assert(parent.text_len() == total_len(green));
}

/// The wrappers that `children` yields for the nodes among the children are
/// well formed, if the wrapper above them is.
pub proof fn lemma_children_are_well_formed(parent: &RedNodeData, index: int, child: &RedNodeData)
    requires
        parent.wf(),
        0 <= index < parent.spec_green().spec_children().len(),
        parent.has_child(index, RedElement::Node(Rc::new(*child))),
    ensures
        child.wf(),
        child.depth() == parent.depth() + 1,
        child.root() == parent.root(),
{
    assert(parent.spec_green().spec_children()[index].wf());
}

/// An offset says where the text is: the text of a wrapper is the piece of the
/// text of the root that starts at the wrapper's offset and has the wrapper's
/// length, counted in bytes.
pub proof fn lemma_offset_locates_text(node: &RedNodeData)
    requires
        node.wf(),
    ensures
        node.text_offset() + node.text_len() <= node.root().spec_green().spec_bytes().len(),
        node.root().spec_green().spec_bytes().subrange(
            node.text_offset() as int,
            node.text_offset() + node.text_len(),
        ) == node.spec_green().spec_bytes(),
    decreases node.depth(),
{
    let whole = node.root().spec_green().spec_bytes();
    lemma_element_len_counts_bytes(GreenElement::Node(node.spec_green()));
    match node.spec_parent() {
        None => {
            assert(whole.subrange(0, whole.len() as int) == whole);
        },
        Some(parent) => {
            lemma_offset_locates_text(&*parent);
            lemma_extent_within_root(node);
            let index = node.index_in_parent() as int;
            let start = prefix_len(parent.spec_green().spec_children(), index);
            let above = parent.spec_green().spec_bytes();
            assert(parent.wf());
            assert(parent.spec_green().wf());
            lemma_child_bytes(&*parent.spec_green(), index);
            assert(above.subrange(start, start + node.text_len())
                == node.spec_green().spec_bytes());
            assert(whole.subrange(
                parent.text_offset() as int,
                parent.text_offset() + parent.text_len(),
            ).subrange(start, start + node.text_len()) == whole.subrange(
                node.text_offset() as int,
                node.text_offset() + node.text_len(),
            ));
        },
    }
}

/// An edit shows in one place only: the result stands where the edited
/// wrapper stands, and its payload holds the new child at the index that was
/// asked for, while every other child and the kind are those of the old
/// payload.
pub proof fn lemma_edit_is_local(
    old: &RedNodeData,
    new: &RedNodeData,
    index: int,
    child: GreenElement,
)
    requires
        new.is_edit_of(old, index, child),
    ensures
        new.kind() == old.kind(),
        new.text_offset() == old.text_offset(),
        new.spec_green().spec_children().len() == old.spec_green().spec_children().len(),
        new.spec_green().spec_children()[index] == child,
        forall|j: int|
            0 <= j < old.spec_green().spec_children().len() && j != index
                ==> #[trigger] new.spec_green().spec_children()[j]
                == old.spec_green().spec_children()[j],
{
}

/// A rebuild has as many wrappers above it as the wrapper it was made from.
pub proof fn lemma_rebuild_keeps_depth(old: &RedNodeData, new: &RedNodeData)
    requires
        new.is_rebuild_of(old),
    ensures
        new.depth() == old.depth(),
    decreases new.depth(),
{
    if let Some(parent) = new.spec_parent() {
        lemma_rebuild_keeps_depth(&*old.spec_parent().unwrap(), &*parent);
    }
}

/// A rebuild copies the path to the root and nothing else. The new chain is
/// as long as the old one. At each level the new wrapper stands where the old
/// one stands, and the payload above it differs from the old payload above
/// in one child only, the one on the path, which is the new payload below.
pub proof fn lemma_rebuild_copies_path(old: &RedNodeData, new: &RedNodeData, steps: nat)
    requires
        old.wf(),
        new.is_rebuild_of(old),
        steps <= old.depth(),
    ensures
        new.depth() == old.depth(),
        new.ancestor(steps).is_rebuild_of(&old.ancestor(steps)),
        new.ancestor(steps).text_offset() == old.ancestor(steps).text_offset(),
        new.ancestor(steps).index_in_parent() == old.ancestor(steps).index_in_parent(),
        steps < old.depth() ==> {
            let below = new.ancestor(steps);
            let index = old.ancestor(steps).index_in_parent() as int;
            let above = new.ancestor(steps + 1).spec_green().spec_children();
            let old_above = old.ancestor(steps + 1).spec_green().spec_children();
            &&& new.ancestor(steps + 1).kind() == old.ancestor(steps + 1).kind()
            &&& above.len() == old_above.len()
            &&& above[index] == GreenElement::Node(below.spec_green())
            &&& forall|j: int|
                0 <= j < above.len() && j != index ==> #[trigger] above[j] == old_above[j]
        },
    decreases steps,
{
    lemma_rebuild_keeps_depth(old, new);
    if steps > 0 {
        let parent = new.spec_parent().unwrap();
        let old_parent = old.spec_parent().unwrap();
        lemma_rebuild_copies_path(&*old_parent, &*parent, (steps - 1) as nat);
        assert(new.ancestor(steps) == parent.ancestor((steps - 1) as nat));
        assert(old.ancestor(steps) == old_parent.ancestor((steps - 1) as nat));
        if steps < old.depth() {
            assert(new.ancestor(steps + 1) == parent.ancestor(steps as nat));
            assert(old.ancestor(steps + 1) == old_parent.ancestor(steps as nat));
        }
    } else if steps < old.depth() {
        let parent = new.spec_parent().unwrap();
        let old_parent = old.spec_parent().unwrap();
        assert(new.ancestor(1) == parent.ancestor(0));
        assert(old.ancestor(1) == old_parent.ancestor(0));
    }
}

/// A rebuild makes every payload above it longer or shorter by as much as the
/// new payload is longer or shorter than the old one, up to the root.
pub proof fn lemma_rebuild_shifts_len(old: &RedNodeData, new: &RedNodeData)
    requires
        old.wf(),
        new.is_rebuild_of(old),
        new.spec_green().wf(),
    ensures
        new.root().text_len() - old.root().text_len() == new.text_len() - old.text_len(),
    decreases new.depth(),
{
    if let Some(parent) = new.spec_parent() {
        let old_parent = old.spec_parent().unwrap();
        assert(old_parent.wf());
        assert(old_parent.spec_green().wf());
        assert(parent.spec_green().wf());
        lemma_total_len_update(
            old_parent.spec_green().spec_children(),
            old.index_in_parent() as int,
            GreenElement::Node(new.spec_green()),
        );
        lemma_rebuild_shifts_len(&*old_parent, &*parent);
    }
}

/// An edit makes the edited payload and the root longer or shorter by as much
/// as the new child is longer or shorter than the old one.
pub proof fn lemma_edit_shifts_len(
    old: &RedNodeData,
    new: &RedNodeData,
    index: int,
    child: GreenElement,
)
    requires
        old.wf(),
        new.is_edit_of(old, index, child),
    ensures
        new.text_len() == old.text_len() - old.spec_green().spec_children()[index].text_len()
            + child.text_len(),
        new.root().text_len() == old.root().text_len()
            - old.spec_green().spec_children()[index].text_len() + child.text_len(),
{
    assert(old.spec_green().wf());
    lemma_total_len_update(old.spec_green().spec_children(), index, child);
    lemma_rebuild_shifts_len(old, new);
}

/// A rebuild over a payload with the same text has the same text all the way
/// up, and so at the root.
pub proof fn lemma_rebuild_keeps_text(old: &RedNodeData, new: &RedNodeData)
    requires
        old.wf(),
        new.is_rebuild_of(old),
        new.spec_green().spec_text() == old.spec_green().spec_text(),
    ensures
        new.root().spec_green().spec_text() == old.root().spec_green().spec_text(),
    decreases new.depth(),
{
    if let Some(parent) = new.spec_parent() {
        let old_parent = old.spec_parent().unwrap();
        let above = parent.spec_green().spec_children();
        let old_above = old_parent.spec_green().spec_children();
        assert forall|j: int| 0 <= j < above.len() implies above[j].spec_text()
            == old_above[j].spec_text() by {
            if j != old.index_in_parent() {
                assert(above[j] == old_above[j]);
            }
        }
        lemma_prefix_text_agree(above, old_above, above.len() as int);
        lemma_rebuild_keeps_text(&*old_parent, &*parent);
    }
}

/// Putting a child back where it already is changes no text: the tree that
/// comes out of replacing a child by itself reads as the tree before.
pub proof fn lemma_replacing_a_child_by_itself_keeps_text(
    old: &RedNodeData,
    new: &RedNodeData,
    index: int,
)
    requires
        old.wf(),
        0 <= index < old.spec_green().spec_children().len(),
        new.is_edit_of(old, index, old.spec_green().spec_children()[index]),
    ensures
        new.spec_green().spec_children() == old.spec_green().spec_children(),
        new.text_len() == old.text_len(),
        new.root().spec_green().spec_text() == old.root().spec_green().spec_text(),
        new.root().text_len() == old.root().text_len(),
{
    let children = old.spec_green().spec_children();
    assert(children.update(index, children[index]) =~= children);
    lemma_rebuild_keeps_text(old, new);
    lemma_rebuild_shifts_len(old, new);
}

/// A rebuild changes the bytes of the root where the bytes of the payload
/// changed and nowhere else: if the new payload reads as the old one with the
/// bytes from `from` to `to` exchanged for `bytes`, the new root reads as the
/// old root with the same exchange, shifted by the offset of the wrapper.
pub proof fn lemma_rebuild_splices_bytes(
    old: &RedNodeData,
    new: &RedNodeData,
    from: int,
    to: int,
    bytes: Seq<u8>,
)
    requires
        old.wf(),
        new.is_rebuild_of(old),
        new.spec_green().wf(),
        0 <= from <= to <= old.text_len(),
        new.spec_green().spec_bytes() == old.spec_green().spec_bytes().subrange(0, from) + bytes
            + old.spec_green().spec_bytes().subrange(to, old.text_len() as int),
    ensures
        old.text_offset() + to <= old.root().spec_green().spec_bytes().len(),
        new.root().spec_green().spec_bytes() == old.root().spec_green().spec_bytes().subrange(
            0,
            old.text_offset() + from,
        ) + bytes + old.root().spec_green().spec_bytes().subrange(
            old.text_offset() + to,
            old.root().spec_green().spec_bytes().len() as int,
        ),
    decreases new.depth(),
{
    lemma_element_len_counts_bytes(GreenElement::Node(old.spec_green()));
    if let Some(parent) = new.spec_parent() {
        let old_parent = old.spec_parent().unwrap();
        let index = old.index_in_parent() as int;
        let start = prefix_len(old_parent.spec_green().spec_children(), index);
        let above = old_parent.spec_green().spec_bytes();
        let below = old.spec_green().spec_bytes();
        assert(old_parent.wf());
        assert(old_parent.spec_green().wf());
        lemma_child_bytes(&*old_parent.spec_green(), index);
        lemma_replacement_splices_bytes(
            &*old_parent.spec_green(),
            &*parent.spec_green(),
            index,
            GreenElement::Node(new.spec_green()),
        );
        assert(below == above.subrange(start, start + old.text_len()));
        assert(parent.spec_green().spec_bytes() == above.subrange(0, start + from) + bytes
            + above.subrange(start + to, old_parent.text_len() as int));
        lemma_rebuild_splices_bytes(&*old_parent, &*parent, start + from, start + to, bytes);
    }
}

/// An edit changes the text of the tree in the place of the replaced child
/// and nowhere else: the new root reads as the old root up to the offset of
/// the old child, then as the new child, then as the old root from the end of
/// the old child on.
pub proof fn lemma_edit_splices_text(
    old: &RedNodeData,
    new: &RedNodeData,
    index: int,
    child: GreenElement,
)
    requires
        old.wf(),
        new.is_edit_of(old, index, child),
    ensures
        ({
            let siblings = old.spec_green().spec_children();
            let start = old.text_offset() + prefix_len(siblings, index);
            let end = start + siblings[index].text_len();
            let whole = old.root().spec_green().spec_bytes();
            &&& 0 <= start <= end <= whole.len()
            &&& new.root().spec_green().spec_bytes() == whole.subrange(0, start) + encode_utf8(
                child.spec_text(),
            ) + whole.subrange(end, whole.len() as int)
        }),
{
    let siblings = old.spec_green().spec_children();
    let from = prefix_len(siblings, index);
    lemma_child_bytes(&*old.spec_green(), index);
    lemma_replacement_splices_bytes(&*old.spec_green(), &*new.spec_green(), index, child);
    lemma_rebuild_splices_bytes(
        old,
        new,
        from,
        from + siblings[index].text_len(),
        encode_utf8(child.spec_text()),
    );
}

} // verus!
