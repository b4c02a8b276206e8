//! What holds of a hierarchy and of a traversal of it.

use crate::bounding_box::BoundingBox;
use crate::box_laws::lemma_hit_monotone;
use crate::bvh::{
    all_items, BVHNode, is_subtree, left_part, lemma_parts, lemma_tree_is_subtree, lemma_tree_len,
    lemma_tree_unfold, partitioned, right_part, traversal, tree, union_of, walk,
};
use crate::vector::Vec3;
use vstd::prelude::*;

verus! {

/// The box of node `i`, where it has children, holds the boxes of both.
pub open spec fn nested_at(nodes: Seq<BVHNode>, i: int) -> bool {
    nodes[i] matches BVHNode::Node { left_child, right_child, bounding_box } ==> {
        &&& left_child < nodes.len()
        &&& right_child < nodes.len()
        &&& bounding_box.contains(nodes[left_child as int].bounds())
        &&& bounding_box.contains(nodes[right_child as int].bounds())
    }
}

/// Every node's box holds the boxes of its children.
pub open spec fn nested(nodes: Seq<BVHNode>) -> bool {
    forall|i: int| 0 <= i < nodes.len() ==> #[trigger] nested_at(nodes, i)
}

/// The box of every leaf has its first corner nowhere beyond its second.
pub open spec fn leaves_well_formed(nodes: Seq<BVHNode>) -> bool {
    forall|i: int|
        0 <= i < nodes.len() && (#[trigger] nodes[i]) is Leaf ==> nodes[i].bounds().well_formed()
}

/// No two leaves hold the same item.
pub open spec fn items_distinct(nodes: Seq<BVHNode>) -> bool {
    forall|j: int, k: int|
        0 <= j < nodes.len() && 0 <= k < nodes.len() && (#[trigger] nodes[j]) is Leaf && (
        #[trigger] nodes[k]) is Leaf && nodes[j]->index == nodes[k]->index ==> j == k
}

/// In a hierarchy of nested boxes the box of a subtree's root holds the box
/// of every node of the subtree.
pub proof fn lemma_subtree_inside(nodes: Seq<BVHNode>, i: int, end: int, k: int)
    requires
        is_subtree(nodes, i, end),
        nested(nodes),
        i <= k < end,
    ensures
        nodes[i].bounds().contains(nodes[k].bounds()),
    decreases end - i,
{
    if k != i {
        assert(nested_at(nodes, i));
        match nodes[i] {
            BVHNode::Leaf { .. } => {},
            BVHNode::Node { left_child, right_child, .. } => {
                if k < right_child {
                    lemma_subtree_inside(nodes, left_child as int, right_child as int, k);
                } else {
                    lemma_subtree_inside(nodes, right_child as int, end, k);
                }
            },
        }
    }
}

/// A walk from a node whose box the line meets yields the item of every leaf
/// below it whose box the line meets.
pub proof fn lemma_walk_complete(
    nodes: Seq<BVHNode>,
    i: int,
    end: int,
    k: int,
    pos: Vec3,
    dir: Vec3,
)
    requires
        is_subtree(nodes, i, end),
        nested(nodes),
        leaves_well_formed(nodes),
        i <= k < end,
        nodes[k] is Leaf,
        nodes[k].bounds().hit_by(pos, dir),
    ensures
        walk(nodes, i, pos, dir).contains(nodes[k]->index),
    decreases end - i,
{
    match nodes[i] {
        BVHNode::Leaf { index, .. } => {
            assert(walk(nodes, i, pos, dir)[0] == index);
        },
        BVHNode::Node { left_child, right_child, .. } => {
            let left = walk(nodes, left_child as int, pos, dir);
            let right = walk(nodes, right_child as int, pos, dir);
            let item = nodes[k]->index;
            if k < right_child {
                lemma_subtree_inside(nodes, left_child as int, right_child as int, k);
                lemma_hit_monotone(nodes[k].bounds(), nodes[left_child as int].bounds(), pos, dir);
                lemma_walk_complete(nodes, left_child as int, right_child as int, k, pos, dir);
                let m = choose|m: int| 0 <= m < left.len() && left[m] == item;
                assert((left + right)[m] == item);
                assert((right + left)[right.len() + m] == item);
            } else {
                lemma_subtree_inside(nodes, right_child as int, end, k);
                lemma_hit_monotone(
                    nodes[k].bounds(),
                    nodes[right_child as int].bounds(),
                    pos,
                    dir,
                );
                lemma_walk_complete(nodes, right_child as int, end, k, pos, dir);
                let m = choose|m: int| 0 <= m < right.len() && right[m] == item;
                assert((right + left)[m] == item);
                assert((left + right)[left.len() + m] == item);
            }
        },
    }
}

/// Every item that a walk from a node yields is the item of a leaf below
/// that node, and the line meets the box of that leaf if it meets the box of
/// the node.
pub proof fn lemma_walk_sound(
    nodes: Seq<BVHNode>,
    i: int,
    end: int,
    m: int,
    pos: Vec3,
    dir: Vec3,
) -> (k: int)
    requires
        is_subtree(nodes, i, end),
        nodes[i].bounds().hit_by(pos, dir),
        0 <= m < walk(nodes, i, pos, dir).len(),
    ensures
        i <= k < end,
        nodes[k] is Leaf,
        nodes[k]->index == walk(nodes, i, pos, dir)[m],
        nodes[k].bounds().hit_by(pos, dir),
    decreases end - i,
{
    match nodes[i] {
        BVHNode::Leaf { .. } => i,
        BVHNode::Node { left_child, right_child, .. } => {
            let left = walk(nodes, left_child as int, pos, dir);
            let right = walk(nodes, right_child as int, pos, dir);
            let hit_left = nodes[left_child as int].bounds().entry(pos, dir);
            let hit_right = nodes[right_child as int].bounds().entry(pos, dir);
            let in_left = if hit_left.is_some() && hit_right.is_some() {
                if hit_left.unwrap().lt(hit_right.unwrap()) {
                    m < left.len()
                } else {
                    m >= right.len()
                }
            } else {
                hit_left.is_some()
            };
            if in_left {
                let at = if hit_right.is_some() && !hit_left.unwrap().lt(hit_right.unwrap()) {
                    m - right.len()
                } else {
                    m
                };
                lemma_walk_sound(nodes, left_child as int, right_child as int, at, pos, dir)
            } else {
                let at = if hit_left.is_some() && hit_left.unwrap().lt(hit_right.unwrap()) {
                    m - left.len()
                } else {
                    m
                };
                lemma_walk_sound(nodes, right_child as int, end, at, pos, dir)
            }
        },
    }
}

/// Every item that a walk yields is the item of a leaf.
pub proof fn lemma_walk_yields_leaves(nodes: Seq<BVHNode>, i: int, m: int, pos: Vec3, dir: Vec3) -> (k:
    int)
    requires
        0 <= m < walk(nodes, i, pos, dir).len(),
    ensures
        leaf_of(nodes, k, walk(nodes, i, pos, dir)[m]),
    decreases nodes.len() - i,
{
    match nodes[i] {
        BVHNode::Leaf { .. } => i,
        BVHNode::Node { left_child, right_child, .. } => {
            let left = walk(nodes, left_child as int, pos, dir);
            let right = walk(nodes, right_child as int, pos, dir);
            let hit_left = nodes[left_child as int].bounds().entry(pos, dir);
            let hit_right = nodes[right_child as int].bounds().entry(pos, dir);
            if hit_left.is_some() && hit_right.is_some() {
                if hit_left.unwrap().lt(hit_right.unwrap()) {
                    if m < left.len() {
                        lemma_walk_yields_leaves(nodes, left_child as int, m, pos, dir)
                    } else {
                        lemma_walk_yields_leaves(
                            nodes,
                            right_child as int,
                            m - left.len(),
                            pos,
                            dir,
                        )
                    }
                } else {
                    if m < right.len() {
                        lemma_walk_yields_leaves(nodes, right_child as int, m, pos, dir)
                    } else {
                        lemma_walk_yields_leaves(
                            nodes,
                            left_child as int,
                            m - right.len(),
                            pos,
                            dir,
                        )
                    }
                }
            } else if hit_left.is_some() {
                lemma_walk_yields_leaves(nodes, left_child as int, m, pos, dir)
            } else {
                lemma_walk_yields_leaves(nodes, right_child as int, m, pos, dir)
            }
        },
    }
}

/// For a line that meets the box of the root, a traversal yields the item of
/// a leaf if and only if the line meets the box of that leaf. This holds of
/// a hierarchy in which every node's box holds the boxes of its children and
/// no item stands in two leaves.
pub proof fn lemma_traversal_exact(nodes: Seq<BVHNode>, k: int, pos: Vec3, dir: Vec3)
    requires
        is_subtree(nodes, 0, nodes.len() as int),
        nested(nodes),
        leaves_well_formed(nodes),
        items_distinct(nodes),
        nodes[0].bounds().hit_by(pos, dir),
        0 <= k < nodes.len(),
        nodes[k] is Leaf,
    ensures
        traversal(nodes, pos, dir).contains(nodes[k]->index) <==> nodes[k].bounds().hit_by(
            pos,
            dir,
        ),
{
    let yielded = traversal(nodes, pos, dir);
    if nodes[k].bounds().hit_by(pos, dir) {
        lemma_walk_complete(nodes, 0, nodes.len() as int, k, pos, dir);
    }
    if yielded.contains(nodes[k]->index) {
        let m = choose|m: int| 0 <= m < yielded.len() && yielded[m] == nodes[k]->index;
        let j = lemma_walk_sound(nodes, 0, nodes.len() as int, m, pos, dir);
        assert(j == k);
    }
}

/// A line that misses the box of the root yields nothing.
pub proof fn lemma_traversal_of_miss(nodes: Seq<BVHNode>, pos: Vec3, dir: Vec3)
    requires
        nodes.len() > 0,
        !nodes[0].bounds().hit_by(pos, dir),
    ensures
        traversal(nodes, pos, dir).len() == 0,
{
}

/// The number of leaves among the nodes.
pub open spec fn leaf_count(nodes: Seq<BVHNode>) -> nat
    decreases nodes.len(),
{
    if nodes.len() == 0 {
        0
    } else {
        leaf_count(nodes.drop_last()) + if nodes.last() is Leaf {
            1nat
        } else {
            0nat
        }
    }
}

/// The leaves of two runs of nodes add up.
pub proof fn lemma_leaf_count_add(a: Seq<BVHNode>, b: Seq<BVHNode>)
    ensures
        leaf_count(a + b) == leaf_count(a) + leaf_count(b),
    decreases b.len(),
{
    if b.len() == 0 {
        assert(a + b =~= a);
    } else {
        assert((a + b).drop_last() =~= a + b.drop_last());
        lemma_leaf_count_add(a, b.drop_last());
    }
}

/// A hierarchy has as many leaves as it has items.
pub proof fn lemma_tree_leaf_count(
    base: int,
    elems: Seq<usize>,
    root: BoundingBox,
    boxes: Seq<BoundingBox>,
)
    requires
        elems.len() >= 1,
    ensures
        leaf_count(tree(base, elems, root, boxes)) == elems.len(),
    decreases elems.len(),
{
    if elems.len() > 1 {
        lemma_parts(elems, boxes, root);
        let left_elems = left_part(elems, boxes, root);
        let right_elems = right_part(elems, boxes, root);
        let left = tree(base + 1, left_elems, union_of(left_elems, boxes), boxes);
        let right = tree(base + 1 + left.len(), right_elems, root, boxes);
        lemma_tree_leaf_count(base + 1, left_elems, union_of(left_elems, boxes), boxes);
        lemma_tree_leaf_count(base + 1 + left.len(), right_elems, root, boxes);
        let head = seq![tree(base, elems, root, boxes)[0]];
        assert(head.drop_last() =~= Seq::<BVHNode>::empty());
        assert(leaf_count(head.drop_last()) == 0);
        assert(head.last() is Node);
        assert(leaf_count(head) == 0);
        assert(tree(base, elems, root, boxes) =~= head + left + right);
        lemma_leaf_count_add(head, left);
        lemma_leaf_count_add(head + left, right);
    } else {
        let t = tree(base, elems, root, boxes);
        assert(t.drop_last() =~= Seq::<BVHNode>::empty());
        assert(leaf_count(t.drop_last()) == 0);
        assert(t.last() is Leaf);
    }
}

/// The box around some items holds the box of each of them.
pub proof fn lemma_union_holds_items(elems: Seq<usize>, boxes: Seq<BoundingBox>, k: int)
    requires
        0 <= k < elems.len(),
    ensures
        union_of(elems, boxes).contains(boxes[elems[k] as int]),
    decreases elems.len(),
{
    if elems.len() > 1 {
        if k < elems.len() - 1 {
            lemma_union_holds_items(elems.drop_last(), boxes, k);
        }
    }
}

/// The box around some items lies inside every box that holds the boxes of
/// all of them.
pub proof fn lemma_union_inside(elems: Seq<usize>, boxes: Seq<BoundingBox>, outer: BoundingBox)
    requires
        elems.len() > 0,
        forall|k: int| 0 <= k < elems.len() ==> outer.contains(#[trigger] boxes[elems[k] as int]),
    ensures
        outer.contains(union_of(elems, boxes)),
    decreases elems.len(),
{
    if elems.len() > 1 {
        let front = elems.drop_last();
        assert forall|k: int| 0 <= k < front.len() implies outer.contains(
            #[trigger] boxes[front[k] as int],
        ) by {
            assert(front[k] == elems[k]);
        }
        lemma_union_inside(front, boxes, outer);
        assert(outer.contains(boxes[elems[elems.len() - 1] as int]));
    } else {
        assert(outer.contains(boxes[elems[0] as int]));
    }
}

/// Of two sequences with the same entries, whatever their order, each holds
/// every entry of the other.
pub proof fn lemma_same_entries(a: Seq<usize>, b: Seq<usize>, k: int)
    requires
        a.to_multiset() == b.to_multiset(),
        0 <= k < a.len(),
    ensures
        b.contains(a[k]),
{
    a.to_multiset_ensures();
    b.to_multiset_ensures();
    assert(a.contains(a[k]));
    assert(b.to_multiset().count(a[k]) > 0);
}

/// Every item of either part of a split is one of the items that were split.
pub proof fn lemma_part_items(elems: Seq<usize>, boxes: Seq<BoundingBox>, root: BoundingBox)
    requires
        elems.len() >= 2,
    ensures
        forall|k: int|
            0 <= k < left_part(elems, boxes, root).len() ==> elems.contains(
                #[trigger] left_part(elems, boxes, root)[k],
            ),
        forall|k: int|
            0 <= k < right_part(elems, boxes, root).len() ==> elems.contains(
                #[trigger] right_part(elems, boxes, root)[k],
            ),
{
    lemma_parts(elems, boxes, root);
    let e = partitioned(elems, boxes, root);
    let left = left_part(elems, boxes, root);
    let right = right_part(elems, boxes, root);
    e.to_multiset_ensures();
    elems.to_multiset_ensures();
    assert forall|k: int| 0 <= k < left.len() implies elems.contains(#[trigger] left[k]) by {
        assert(e[k] == left[k]);
        lemma_same_entries(e, elems, k);
    }
    assert forall|k: int| 0 <= k < right.len() implies elems.contains(#[trigger] right[k]) by {
        assert(e[left.len() + k] == right[k]);
        lemma_same_entries(e, elems, left.len() + k);
    }
}

/// Where the box given for the whole holds the boxes of all items, every
/// node of the hierarchy holds the boxes of its children, and the box of
/// the root lies inside the box given.
pub proof fn lemma_tree_nested(
    all: Seq<BVHNode>,
    base: int,
    elems: Seq<usize>,
    root: BoundingBox,
    boxes: Seq<BoundingBox>,
)
    requires
        elems.len() >= 1,
        0 <= base,
        base + 2 * elems.len() - 1 <= all.len(),
        all.len() <= usize::MAX,
        all.subrange(base, base + 2 * elems.len() - 1) == tree(base, elems, root, boxes),
        forall|k: int| 0 <= k < elems.len() ==> root.contains(#[trigger] boxes[elems[k] as int]),
    ensures
        forall|i: int| base <= i < base + 2 * elems.len() - 1 ==> #[trigger] nested_at(all, i),
        root.contains(all[base].bounds()),
    decreases elems.len(),
{
    if elems.len() > 1 {
        lemma_tree_unfold(all, base, elems, root, boxes);
        lemma_part_items(elems, boxes, root);
        let left_elems = left_part(elems, boxes, root);
        let right_elems = right_part(elems, boxes, root);
        let left_box = union_of(left_elems, boxes);
        let mid = base + 2 * left_elems.len();
        assert forall|k: int| 0 <= k < left_elems.len() implies left_box.contains(
            #[trigger] boxes[left_elems[k] as int],
        ) by {
            lemma_union_holds_items(left_elems, boxes, k);
        }
        assert forall|k: int| 0 <= k < left_elems.len() implies root.contains(
            #[trigger] boxes[left_elems[k] as int],
        ) by {
            let m = choose|m: int| 0 <= m < elems.len() && elems[m] == left_elems[k];
            assert(root.contains(boxes[elems[m] as int]));
        }
        assert forall|k: int| 0 <= k < right_elems.len() implies root.contains(
            #[trigger] boxes[right_elems[k] as int],
        ) by {
            let m = choose|m: int| 0 <= m < elems.len() && elems[m] == right_elems[k];
            assert(root.contains(boxes[elems[m] as int]));
        }
        lemma_union_inside(left_elems, boxes, root);
        lemma_tree_nested(all, base + 1, left_elems, left_box, boxes);
        lemma_tree_nested(all, mid, right_elems, root, boxes);
        assert(nested_at(all, base));
        assert forall|i: int| base <= i < base + 2 * elems.len() - 1 implies #[trigger] nested_at(
            all,
            i,
        ) by {
            if i == base {
            } else if i < mid {
            } else {
            }
        }
    } else {
        assert(all[base] == tree(base, elems, root, boxes)[0]);
        assert(root.contains(boxes[elems[0] as int]));
    }
}

/// Node `i` is the leaf that holds `item`.
pub open spec fn leaf_of(nodes: Seq<BVHNode>, i: int, item: usize) -> bool {
    0 <= i < nodes.len() && nodes[i] is Leaf && nodes[i]->index == item
}

/// One of the nodes from `from` up to `to` is the leaf that holds `item`.
pub open spec fn has_leaf(nodes: Seq<BVHNode>, from: int, to: int, item: usize) -> bool {
    exists|i: int| from <= i < to && #[trigger] leaf_of(nodes, i, item)
}

/// The leaves of a hierarchy hold its items, each under the box of that
/// item: every leaf holds one of the items, no two leaves hold the same
/// item, and every item stands in a leaf.
pub proof fn lemma_tree_leaves(
    all: Seq<BVHNode>,
    base: int,
    elems: Seq<usize>,
    root: BoundingBox,
    boxes: Seq<BoundingBox>,
)
    requires
        elems.len() >= 1,
        elems.no_duplicates(),
        forall|k: int| 0 <= k < elems.len() ==> elems[k] < boxes.len(),
        0 <= base,
        base + 2 * elems.len() - 1 <= all.len(),
        all.subrange(base, base + 2 * elems.len() - 1) == tree(base, elems, root, boxes),
    ensures
        forall|i: int, item: usize|
            base <= i < base + 2 * elems.len() - 1 && #[trigger] leaf_of(all, i, item)
                ==> elems.contains(item) && item < boxes.len() && all[i].bounds()
                == boxes[item as int],
        forall|i: int, j: int, item: usize|
            base <= i < base + 2 * elems.len() - 1 && base <= j < base + 2 * elems.len() - 1
                && #[trigger] leaf_of(all, i, item) && #[trigger] leaf_of(all, j, item) ==> i
                == j,
        forall|k: int|
            0 <= k < elems.len() ==> #[trigger] has_leaf(
                all,
                base,
                base + 2 * elems.len() - 1,
                elems[k],
            ),
    decreases elems.len(),
{
    let end = base + 2 * elems.len() - 1;
    if elems.len() > 1 {
        lemma_tree_unfold(all, base, elems, root, boxes);
        lemma_part_items(elems, boxes, root);
        lemma_parts(elems, boxes, root);
        let e = partitioned(elems, boxes, root);
        let left_elems = left_part(elems, boxes, root);
        let right_elems = right_part(elems, boxes, root);
        let left_box = union_of(left_elems, boxes);
        let mid = base + 2 * left_elems.len();
        // the entries keep apart after the pass
        elems.lemma_multiset_has_no_duplicates();
        e.lemma_multiset_has_no_duplicates_conv();
        assert(left_elems.no_duplicates()) by {
            assert forall|a: int, b: int|
                0 <= a < left_elems.len() && 0 <= b < left_elems.len() && a != b implies left_elems[a]
                != left_elems[b] by {
                assert(e[a] != e[b]);
            }
        }
        assert(right_elems.no_duplicates()) by {
            assert forall|a: int, b: int|
                0 <= a < right_elems.len() && 0 <= b < right_elems.len() && a
                    != b implies right_elems[a] != right_elems[b] by {
                assert(e[left_elems.len() + a] != e[left_elems.len() + b]);
            }
        }
        assert forall|k: int| 0 <= k < left_elems.len() implies left_elems[k] < boxes.len() by {
            let m = choose|m: int| 0 <= m < elems.len() && elems[m] == left_elems[k];
        }
        assert forall|k: int| 0 <= k < right_elems.len() implies right_elems[k] < boxes.len() by {
            let m = choose|m: int| 0 <= m < elems.len() && elems[m] == right_elems[k];
        }
        lemma_tree_leaves(all, base + 1, left_elems, left_box, boxes);
        lemma_tree_leaves(all, mid, right_elems, root, boxes);
        assert forall|i: int, j: int, item: usize|
            base <= i < end && base <= j < end && #[trigger] leaf_of(all, i, item)
                && #[trigger] leaf_of(all, j, item) implies i == j by {
            if i < mid && j >= mid {
                let a = choose|a: int| 0 <= a < left_elems.len() && left_elems[a] == item;
                let b = choose|b: int| 0 <= b < right_elems.len() && right_elems[b] == item;
                assert(e[a] == item && e[left_elems.len() + b] == item);
            } else if j < mid && i >= mid {
                let a = choose|a: int| 0 <= a < left_elems.len() && left_elems[a] == item;
                let b = choose|b: int| 0 <= b < right_elems.len() && right_elems[b] == item;
                assert(e[a] == item && e[left_elems.len() + b] == item);
            }
        }
        assert forall|k: int| 0 <= k < elems.len() implies #[trigger] has_leaf(
            all,
            base,
            end,
            elems[k],
        ) by {
            lemma_same_entries(elems, e, k);
            let m = choose|m: int| 0 <= m < e.len() && e[m] == elems[k];
            if m < left_elems.len() {
                assert(left_elems[m] == elems[k]);
                assert(mid == base + 1 + 2 * left_elems.len() - 1);
                assert(has_leaf(all, base + 1, base + 1 + 2 * left_elems.len() - 1, left_elems[m]));
                let i = choose|i: int|
                    base + 1 <= i < mid && #[trigger] leaf_of(all, i, left_elems[m]);
                assert(leaf_of(all, i, elems[k]));
            } else {
                assert(right_elems[m - left_elems.len()] == elems[k]);
                assert(end == mid + 2 * right_elems.len() - 1);
                assert(has_leaf(
                    all,
                    mid,
                    mid + 2 * right_elems.len() - 1,
                    right_elems[m - left_elems.len()],
                ));
                let i = choose|i: int|
                    mid <= i < end && #[trigger] leaf_of(all, i, right_elems[m - left_elems.len()]);
                assert(leaf_of(all, i, elems[k]));
            }
        }
    } else {
        assert(all[base] == tree(base, elems, root, boxes)[0]);
        assert(leaf_of(all, base, elems[0]));
    }
}

/// What a hierarchy built over the boxes of `n` items is: `2 * n - 1` nodes
/// laid out as one tree, with `n` leaves; every leaf holds an item under the
/// box of that item, no two leaves hold the same item, and every item stands
/// in a leaf. Where the box given for the whole holds the boxes of all
/// items, every node holds the boxes of its children.
pub proof fn lemma_build(root_box: BoundingBox, boxes: Seq<BoundingBox>)
    requires
        boxes.len() > 0,
        2 * boxes.len() - 1 <= usize::MAX,
    ensures
        ({
            let t = tree(0, all_items(boxes.len()), root_box, boxes);
            &&& t.len() == 2 * boxes.len() - 1
            &&& is_subtree(t, 0, t.len() as int)
            &&& leaf_count(t) == boxes.len()
            &&& items_distinct(t)
            &&& forall|i: int|
                0 <= i < t.len() && (#[trigger] t[i]) is Leaf ==> t[i]->index < boxes.len()
                    && t[i].bounds() == boxes[t[i]->index as int]
            &&& forall|k: int|
                0 <= k < boxes.len() ==> #[trigger] has_leaf(t, 0, t.len() as int, k as usize)
            &&& (forall|k: int| 0 <= k < boxes.len() ==> root_box.contains(#[trigger] boxes[k]))
                ==> nested(t)
            &&& (forall|k: int| 0 <= k < boxes.len() ==> (#[trigger] boxes[k]).well_formed())
                ==> leaves_well_formed(t)
        }),
{
    let n = boxes.len();
    let items = all_items(n);
    let t = tree(0, items, root_box, boxes);
    lemma_tree_len(0, items, root_box, boxes);
    lemma_tree_leaf_count(0, items, root_box, boxes);
    assert(t.subrange(0, 2 * n - 1) =~= t);
    lemma_tree_is_subtree(t, 0, items, root_box, boxes);
    lemma_tree_leaves(t, 0, items, root_box, boxes);
    assert forall|i: int| 0 <= i < t.len() && (#[trigger] t[i]) is Leaf implies t[i]->index
        < boxes.len() && t[i].bounds() == boxes[t[i]->index as int] by {
        assert(leaf_of(t, i, t[i]->index));
    }
    assert(items_distinct(t)) by {
        assert forall|j: int, k: int|
            0 <= j < t.len() && 0 <= k < t.len() && (#[trigger] t[j]) is Leaf && (
            #[trigger] t[k]) is Leaf && t[j]->index == t[k]->index implies j == k by {
            assert(leaf_of(t, j, t[j]->index));
            assert(leaf_of(t, k, t[j]->index));
        }
    }
    assert forall|k: int| 0 <= k < n implies #[trigger] has_leaf(
        t,
        0,
        t.len() as int,
        k as usize,
    ) by {
        assert(items[k] == k as usize);
        assert(has_leaf(t, 0, 0 + 2 * items.len() - 1, items[k]));
    }
    if forall|k: int| 0 <= k < boxes.len() ==> root_box.contains(#[trigger] boxes[k]) {
        assert forall|k: int| 0 <= k < items.len() implies root_box.contains(
            #[trigger] boxes[items[k] as int],
        ) by {
            assert(root_box.contains(boxes[k]));
        }
        lemma_tree_nested(t, 0, items, root_box, boxes);
    }
}

/// A traversal of a hierarchy built over the boxes of some items yields, for
/// a line that meets the box of the root, exactly the items whose boxes the
/// line meets; this holds where the box given for the whole holds the boxes
/// of all items.
pub proof fn lemma_build_traversal(
    root_box: BoundingBox,
    boxes: Seq<BoundingBox>,
    item: usize,
    pos: Vec3,
    dir: Vec3,
)
    requires
        boxes.len() > 0,
        2 * boxes.len() - 1 <= usize::MAX,
        forall|k: int| 0 <= k < boxes.len() ==> root_box.contains(#[trigger] boxes[k]),
        forall|k: int| 0 <= k < boxes.len() ==> (#[trigger] boxes[k]).well_formed(),
        tree(0, all_items(boxes.len()), root_box, boxes)[0].bounds().hit_by(pos, dir),
        item < boxes.len(),
    ensures
        traversal(tree(0, all_items(boxes.len()), root_box, boxes), pos, dir).contains(item)
            <==> boxes[item as int].hit_by(pos, dir),
{
    let t = tree(0, all_items(boxes.len()), root_box, boxes);
    lemma_build(root_box, boxes);
    assert(has_leaf(t, 0, t.len() as int, (item as int) as usize));
    let k = choose|k: int| 0 <= k < t.len() && #[trigger] leaf_of(t, k, item);
    lemma_traversal_exact(t, k, pos, dir);
}

} // verus!
