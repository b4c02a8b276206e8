//! The bounding-volume hierarchy: a binary tree of boxes over a set of
//! items, built once and walked for every ray.

use crate::bounding_box::{Axis, BoundingBox};
use crate::vector::Vec3;
use vstd::arithmetic::power::{lemma_pow_increases, lemma_pow_positive, pow};
use vstd::prelude::*;

verus! {

/// One entry of the hierarchy: an inner node with its two children, or a
/// leaf that holds one item. Children are positions in the node sequence.
#[derive(Debug, Clone, Copy, PartialEq, Eq, Structural)]
pub enum BVHNode {
    Node { left_child: usize, right_child: usize, bounding_box: BoundingBox },
    Leaf { index: usize, bounding_box: BoundingBox },
}

impl BVHNode {
    /// The box of the node, of either kind.
    pub open spec fn bounds(self) -> BoundingBox {
        match self {
            BVHNode::Node { bounding_box, .. } => bounding_box,
            BVHNode::Leaf { bounding_box, .. } => bounding_box,
        }
    }

    pub fn bounding_box(&self) -> (b: BoundingBox)
        ensures
            b == self.bounds(),
    {
        match *self {
            BVHNode::Node { bounding_box, .. } => bounding_box,
            BVHNode::Leaf { bounding_box, .. } => bounding_box,
        }
    }
}

/// The side of the split that an item falls on. A box is split at the
/// midpoint of its extent along `axis`; an item goes left when half its own
/// extent along that axis is below the midpoint. Both sides are doubled here,
/// which keeps the comparison exact.
pub open spec fn goes_left(item: BoundingBox, root: BoundingBox, axis: Axis) -> bool {
    item.high(axis) - item.low(axis) < root.low(axis) + root.high(axis)
}

fn on_left(item: &BoundingBox, root: &BoundingBox, axis: Axis) -> (r: bool)
    ensures
        r == goes_left(*item, *root, axis),
{
    let (item_low, item_high) = item.low_high(axis);
    let (root_low, root_high) = root.low_high(axis);
    item_high - item_low < root_low + root_high
}

/// The in-place pass that sorts the items into the two sides, after it has
/// looked at the first `n` entries: the entries as they then stand, and how
/// many have gone left. Each entry that goes left changes places with the
/// first entry that did not.
pub open spec fn partition_pass(
    elems: Seq<usize>,
    boxes: Seq<BoundingBox>,
    root: BoundingBox,
    axis: Axis,
    n: nat,
) -> (Seq<usize>, int)
    decreases n,
{
    if n == 0 {
        (elems, 0)
    } else {
        let (e, j) = partition_pass(elems, boxes, root, axis, (n - 1) as nat);
        let i = n - 1;
        if goes_left(boxes[e[i] as int], root, axis) {
            (e.update(i, e[j]).update(j, e[i]), j + 1)
        } else {
            (e, j)
        }
    }
}

/// What the pass keeps: the length, the count within what it has seen, and
/// the entries themselves, whatever their new order.
pub proof fn lemma_partition_pass(
    elems: Seq<usize>,
    boxes: Seq<BoundingBox>,
    root: BoundingBox,
    axis: Axis,
    n: nat,
)
    requires
        n <= elems.len(),
    ensures
        partition_pass(elems, boxes, root, axis, n).0.len() == elems.len(),
        0 <= partition_pass(elems, boxes, root, axis, n).1 <= n,
        partition_pass(elems, boxes, root, axis, n).0.to_multiset() == elems.to_multiset(),
    decreases n,
{
    if n > 0 {
        lemma_partition_pass(elems, boxes, root, axis, (n - 1) as nat);
        let (e, j) = partition_pass(elems, boxes, root, axis, (n - 1) as nat);
        let i = n - 1;
        if goes_left(boxes[e[i] as int], root, axis) {
            lemma_swap_keeps_entries(e, i, j);
        }
    }
}

/// Two entries that change places leave the multiset of entries as it was.
pub proof fn lemma_swap_keeps_entries(e: Seq<usize>, i: int, j: int)
    requires
        0 <= i < e.len(),
        0 <= j < e.len(),
    ensures
        e.update(i, e[j]).update(j, e[i]).to_multiset() == e.to_multiset(),
{
    broadcast use vstd::seq_lib::to_multiset_update;
    broadcast use vstd::multiset::group_multiset_axioms;
    let e1 = e.update(i, e[j]);
    assert(e1.to_multiset() == e.to_multiset().insert(e[j]).remove(e[i]));
    assert(e1.update(j, e[i]).to_multiset() == e1.to_multiset().insert(e[i]).remove(e1[j]));
    e.to_multiset_ensures();
    assert(e.to_multiset().count(e[i]) > 0);
    assert(e.to_multiset().count(e[j]) > 0);
    assert(e1.update(j, e[i]).to_multiset() =~= e.to_multiset());
}

/// The entries after the whole pass over `elems`, split along the longest
/// axis of `root`.
pub open spec fn partitioned(elems: Seq<usize>, boxes: Seq<BoundingBox>, root: BoundingBox) -> Seq<
    usize,
> {
    partition_pass(elems, boxes, root, root.longest_axis(), elems.len()).0
}

/// How many entries make up the left part: as many as the pass sent left,
/// or half of them where it sent none or all.
pub open spec fn split_point(elems: Seq<usize>, boxes: Seq<BoundingBox>, root: BoundingBox) -> int {
    let j = partition_pass(elems, boxes, root, root.longest_axis(), elems.len()).1;
    if j == 0 || j == elems.len() {
        elems.len() as int / 2
    } else {
        j
    }
}

/// The box around the boxes of all items in `elems`, grown item by item from
/// the box of the first.
pub open spec fn union_of(elems: Seq<usize>, boxes: Seq<BoundingBox>) -> BoundingBox
    recommends
        elems.len() > 0,
    decreases elems.len(),
{
    if elems.len() <= 1 {
        boxes[elems[0] as int]
    } else {
        union_of(elems.drop_last(), boxes).union_with(boxes[elems.last() as int])
    }
}

/// The items that go to the left child when `elems` are split under `root`.
pub open spec fn left_part(elems: Seq<usize>, boxes: Seq<BoundingBox>, root: BoundingBox) -> Seq<
    usize,
> {
    partitioned(elems, boxes, root).subrange(0, split_point(elems, boxes, root))
}

/// The items that go to the right child when `elems` are split under `root`.
pub open spec fn right_part(elems: Seq<usize>, boxes: Seq<BoundingBox>, root: BoundingBox) -> Seq<
    usize,
> {
    partitioned(elems, boxes, root).subrange(split_point(elems, boxes, root), elems.len() as int)
}

/// Both parts of a split hold an item, and together they hold the items
/// that were split.
pub proof fn lemma_parts(elems: Seq<usize>, boxes: Seq<BoundingBox>, root: BoundingBox)
    requires
        elems.len() >= 2,
    ensures
        0 < left_part(elems, boxes, root).len() < elems.len(),
        left_part(elems, boxes, root).len() + right_part(elems, boxes, root).len() == elems.len(),
        left_part(elems, boxes, root) + right_part(elems, boxes, root) == partitioned(
            elems,
            boxes,
            root,
        ),
        partitioned(elems, boxes, root).to_multiset() == elems.to_multiset(),
{
    lemma_partition_pass(elems, boxes, root, root.longest_axis(), elems.len());
    assert(left_part(elems, boxes, root) + right_part(elems, boxes, root) =~= partitioned(
        elems,
        boxes,
        root,
    ));
}

/// The nodes of the hierarchy over the items `elems`, laid out from position
/// `base` on: a single item is a leaf; more are a node with the box `root`,
/// followed by the subtree of the left part under the box around its items,
/// and then by the subtree of the right part, again under `root`.
pub open spec fn tree(base: int, elems: Seq<usize>, root: BoundingBox, boxes: Seq<BoundingBox>) -> Seq<
    BVHNode,
>
    decreases elems.len(),
{
    if elems.len() <= 1 {
        seq![BVHNode::Leaf { index: elems[0], bounding_box: boxes[elems[0] as int] }]
    } else {
        let left_elems = left_part(elems, boxes, root);
        let right_elems = right_part(elems, boxes, root);
        proof {
            lemma_parts(elems, boxes, root);
        }
        let left = tree(base + 1, left_elems, union_of(left_elems, boxes), boxes);
        let right = tree(base + 1 + left.len(), right_elems, root, boxes);
        seq![
            BVHNode::Node {
                left_child: (base + 1) as usize,
                right_child: (base + 1 + left.len()) as usize,
                bounding_box: root,
            },
        ] + left + right
    }
}

/// Entries that are the same but for their order are below the same bounds.
pub proof fn lemma_same_entries_below(a: Seq<usize>, b: Seq<usize>, bound: int)
    requires
        a.to_multiset() == b.to_multiset(),
        forall|k: int| 0 <= k < b.len() ==> b[k] < bound,
    ensures
        forall|k: int| 0 <= k < a.len() ==> a[k] < bound,
{
    a.to_multiset_ensures();
    b.to_multiset_ensures();
    assert forall|k: int| 0 <= k < a.len() implies a[k] < bound by {
        assert(a.contains(a[k]));
        assert(b.to_multiset().count(a[k]) > 0);
        assert(b.contains(a[k]));
    }
}

fn partition(elems: &mut [usize], root: &BoundingBox, axis: Axis, boxes: &[BoundingBox]) -> (j:
    usize)
    requires
        forall|k: int| 0 <= k < old(elems)@.len() ==> old(elems)@[k] < boxes@.len(),
    ensures
        final(elems)@ == partition_pass(old(elems)@, boxes@, *root, axis, old(elems)@.len()).0,
        j == partition_pass(old(elems)@, boxes@, *root, axis, old(elems)@.len()).1,
{
    let ghost orig = elems@;
    let n: usize = elems.len();
    let mut j: usize = 0;
    let mut i: usize = 0;
    while i < n
        invariant
            i <= n,
            j <= i,
            n == elems@.len(),
            n == orig.len(),
            elems@ == partition_pass(orig, boxes@, *root, axis, i as nat).0,
            j == partition_pass(orig, boxes@, *root, axis, i as nat).1,
            forall|k: int| 0 <= k < n ==> elems@[k] < boxes@.len(),
        decreases n - i,
    {
        let item: usize = elems[i];
        if on_left(&boxes[item], root, axis) {
            let other: usize = elems[j];
            elems[i] = other;
            elems[j] = item;
            j += 1;
        }
        i += 1;
    }
    j
}

/// The box around the boxes of the given items.
fn bounding(elems: &[usize], boxes: &[BoundingBox]) -> (b: BoundingBox)
    requires
        elems@.len() >= 1,
        forall|k: int| 0 <= k < elems@.len() ==> elems@[k] < boxes@.len(),
    ensures
        b == union_of(elems@, boxes@),
{
    let mut b: BoundingBox = boxes[elems[0]];
    let mut i: usize = 1;
    assert(elems@.take(1).drop_last().len() == 0);
    while i < elems.len()
        invariant
            1 <= i <= elems@.len(),
            forall|k: int| 0 <= k < elems@.len() ==> elems@[k] < boxes@.len(),
            b == union_of(elems@.take(i as int), boxes@),
        decreases elems@.len() - i,
    {
        b.union(&boxes[elems[i]]);
        assert(elems@.take(i + 1).drop_last() == elems@.take(i as int));
        i += 1;
    }
    assert(elems@.take(i as int) == elems@);
    b
}

fn split(
    nodes: &mut Vec<BVHNode>,
    elems: &mut [usize],
    root_box: &BoundingBox,
    boxes: &[BoundingBox],
)
    requires
        old(elems)@.len() >= 1,
        forall|k: int| 0 <= k < old(elems)@.len() ==> old(elems)@[k] < boxes@.len(),
    ensures
        final(nodes)@ == old(nodes)@ + tree(
            old(nodes)@.len() as int,
            old(elems)@,
            *root_box,
            boxes@,
        ),
    decreases old(elems)@.len(),
{
    let ghost orig = elems@;
    let ghost before = nodes@;
    let n: usize = elems.len();
    if n == 1 {
        nodes.push(BVHNode::Leaf { index: elems[0], bounding_box: boxes[elems[0]] });
        assert(nodes@ == before + tree(before.len() as int, orig, *root_box, boxes@));
        return ;
    }
    let axis = root_box.pick_axis();
    let mut j: usize = partition(elems, root_box, axis, boxes);
    if j == 0 || j == n {
        j = n / 2;
    }
    proof {
        lemma_partition_pass(orig, boxes@, *root_box, axis, n as nat);
        lemma_parts(orig, boxes@, *root_box);
        lemma_same_entries_below(elems@, orig, boxes@.len() as int);
    }
    let node_index: usize = nodes.len();
    nodes.push(BVHNode::Node { left_child: 0, right_child: 0, bounding_box: *root_box });
    let left_index: usize = nodes.len();
    let ghost parted = elems@;
    let (left_elems, right_elems) = elems.split_at_mut(j);
    let left_box = bounding(left_elems, boxes);
    split(nodes, left_elems, &left_box, boxes);
    let right_index: usize = nodes.len();
    nodes.set(
        node_index,
        BVHNode::Node { left_child: left_index, right_child: right_index, bounding_box: *root_box },
    );
    split(nodes, right_elems, root_box, boxes);
    assert(nodes@ == before + tree(before.len() as int, orig, *root_box, boxes@));
}

/// The nodes from `i` up to `end` are one subtree, laid out root first: a
/// leaf alone, or a node, the subtree of its left child right behind it, and
/// the subtree of its right child behind that.
pub open spec fn is_subtree(nodes: Seq<BVHNode>, i: int, end: int) -> bool
    decreases end - i,
{
    &&& 0 <= i < end <= nodes.len()
    &&& match nodes[i] {
        BVHNode::Leaf { .. } => end == i + 1,
        BVHNode::Node { left_child, right_child, .. } => {
            &&& left_child == i + 1
            &&& left_child < right_child < end
            &&& is_subtree(nodes, left_child as int, right_child as int)
            &&& is_subtree(nodes, right_child as int, end)
        },
    }
}

/// A subtree of `n` items has `2 * n - 1` nodes.
pub proof fn lemma_tree_len(base: int, elems: Seq<usize>, root: BoundingBox, boxes: Seq<BoundingBox>)
    requires
        elems.len() >= 1,
    ensures
        tree(base, elems, root, boxes).len() == 2 * elems.len() - 1,
    decreases elems.len(),
{
    if elems.len() > 1 {
        lemma_parts(elems, boxes, root);
        let left_elems = left_part(elems, boxes, root);
        lemma_tree_len(base + 1, left_elems, union_of(left_elems, boxes), boxes);
        lemma_tree_len(base + 2 * left_elems.len(), right_part(elems, boxes, root), root, boxes);
    }
}

/// Where the nodes of a subtree of several items stand in a sequence, its
/// first node is the root of the subtree and the subtrees of both parts
/// stand behind it.
pub proof fn lemma_tree_unfold(
    all: Seq<BVHNode>,
    base: int,
    elems: Seq<usize>,
    root: BoundingBox,
    boxes: Seq<BoundingBox>,
)
    requires
        elems.len() >= 2,
        0 <= base,
        base + 2 * elems.len() - 1 <= all.len(),
        all.subrange(base, base + 2 * elems.len() - 1) == tree(base, elems, root, boxes),
    ensures
        ({
            let left_elems = left_part(elems, boxes, root);
            let right_elems = right_part(elems, boxes, root);
            let mid = base + 2 * left_elems.len();
            &&& 0 < left_elems.len() < elems.len()
            &&& left_elems.len() + right_elems.len() == elems.len()
            &&& all[base] == (BVHNode::Node {
                left_child: (base + 1) as usize,
                right_child: mid as usize,
                bounding_box: root,
            })
            &&& all.subrange(base + 1, mid) == tree(
                base + 1,
                left_elems,
                union_of(left_elems, boxes),
                boxes,
            )
            &&& all.subrange(mid, base + 2 * elems.len() - 1) == tree(
                mid,
                right_elems,
                root,
                boxes,
            )
        }),
{
    let t = tree(base, elems, root, boxes);
    lemma_parts(elems, boxes, root);
    let left_elems = left_part(elems, boxes, root);
    let right_elems = right_part(elems, boxes, root);
    let mid = base + 2 * left_elems.len();
    let left = tree(base + 1, left_elems, union_of(left_elems, boxes), boxes);
    lemma_tree_len(base + 1, left_elems, union_of(left_elems, boxes), boxes);
    let right = tree(mid, right_elems, root, boxes);
    lemma_tree_len(mid, right_elems, root, boxes);
    lemma_tree_len(base, elems, root, boxes);
    assert(all[base] == t[0]);
    assert(all.subrange(base + 1, mid) =~= t.subrange(1, 1 + left.len() as int));
    assert(t.subrange(1, 1 + left.len() as int) =~= left);
    assert(all.subrange(mid, base + t.len()) =~= t.subrange(
        1 + left.len() as int,
        t.len() as int,
    ));
    assert(t.subrange(1 + left.len() as int, t.len() as int) =~= right);
}

/// Wherever the nodes of `tree` stand in a sequence at the position they
/// were laid out for, they are a subtree of it.
pub proof fn lemma_tree_is_subtree(
    all: Seq<BVHNode>,
    base: int,
    elems: Seq<usize>,
    root: BoundingBox,
    boxes: Seq<BoundingBox>,
)
    requires
        elems.len() >= 1,
        0 <= base,
        base + 2 * elems.len() - 1 <= all.len(),
        all.len() <= usize::MAX,
        all.subrange(base, base + 2 * elems.len() - 1) == tree(base, elems, root, boxes),
    ensures
        is_subtree(all, base, base + 2 * elems.len() - 1),
    decreases elems.len(),
{
    if elems.len() > 1 {
        lemma_tree_unfold(all, base, elems, root, boxes);
        let left_elems = left_part(elems, boxes, root);
        let mid = base + 2 * left_elems.len();
        lemma_tree_is_subtree(all, base + 1, left_elems, union_of(left_elems, boxes), boxes);
        lemma_tree_is_subtree(all, mid, right_part(elems, boxes, root), root, boxes);
    } else {
        assert(all[base] == tree(base, elems, root, boxes)[0]);
    }
}

/// In a subtree every node stands before its children, and they within it.
pub proof fn lemma_subtree_children(nodes: Seq<BVHNode>, i: int, end: int, k: int)
    requires
        is_subtree(nodes, i, end),
        i <= k < end,
    ensures
        nodes[k] matches BVHNode::Node { left_child, right_child, .. } ==> left_child == k + 1
            && left_child < right_child < end,
    decreases end - i,
{
    if k != i {
        match nodes[i] {
            BVHNode::Leaf { .. } => {},
            BVHNode::Node { left_child, right_child, .. } => {
                if k < right_child {
                    lemma_subtree_children(nodes, left_child as int, right_child as int, k);
                } else {
                    lemma_subtree_children(nodes, right_child as int, end, k);
                }
            },
        }
    }
}

/// The items that a walk from node `i` yields for the line through `pos`
/// along `dir`, in the order in which it yields them. A leaf yields its
/// item. A node yields what its children yield whose boxes the line meets:
/// where it meets both, first the child that it enters strictly earlier, or
/// the right child where neither is entered earlier.
pub open spec fn walk(nodes: Seq<BVHNode>, i: int, pos: Vec3, dir: Vec3) -> Seq<usize>
    decreases nodes.len() - i,
{
    if 0 <= i < nodes.len() {
        match nodes[i] {
            BVHNode::Leaf { index, .. } => seq![index],
            BVHNode::Node { left_child, right_child, .. } => {
                if i < left_child < nodes.len() && i < right_child < nodes.len() {
                    let left = walk(nodes, left_child as int, pos, dir);
                    let right = walk(nodes, right_child as int, pos, dir);
                    match (
                        nodes[left_child as int].bounds().entry(pos, dir),
                        nodes[right_child as int].bounds().entry(pos, dir),
                    ) {
                        (Some(t_left), Some(t_right)) => if t_left.lt(t_right) {
                            left + right
                        } else {
                            right + left
                        },
                        (Some(_), None) => left,
                        (None, Some(_)) => right,
                        (None, None) => Seq::empty(),
                    }
                } else {
                    Seq::empty()
                }
            },
        }
    } else {
        Seq::empty()
    }
}

/// The items that a traversal yields: those of the walk from the root where
/// the line meets the root's box, and none where it does not.
pub open spec fn traversal(nodes: Seq<BVHNode>, pos: Vec3, dir: Vec3) -> Seq<usize> {
    if nodes.len() > 0 && nodes[0].bounds().hit_by(pos, dir) {
        walk(nodes, 0, pos, dir)
    } else {
        Seq::empty()
    }
}

/// What a walk still has to yield when `stack` holds the nodes that wait to
/// be visited, the next one last.
pub open spec fn pending(nodes: Seq<BVHNode>, stack: Seq<usize>, pos: Vec3, dir: Vec3) -> Seq<
    usize,
>
    decreases stack.len(),
{
    if stack.len() == 0 {
        Seq::empty()
    } else {
        walk(nodes, stack.last() as int, pos, dir) + pending(nodes, stack.drop_last(), pos, dir)
    }
}

/// A measure of the work that waits on the stack. A node weighs three times
/// what a node behind it weighs, so that a node outweighs its two children.
pub open spec fn stack_weight(len: int, stack: Seq<usize>) -> int
    decreases stack.len(),
{
    if stack.len() == 0 {
        0
    } else {
        pow(3, (len - stack.last()) as nat) + stack_weight(len, stack.drop_last())
    }
}

proof fn lemma_pending_push(nodes: Seq<BVHNode>, stack: Seq<usize>, top: usize, pos: Vec3, dir: Vec3)
    ensures
        pending(nodes, stack.push(top), pos, dir) == walk(nodes, top as int, pos, dir) + pending(
            nodes,
            stack,
            pos,
            dir,
        ),
        stack_weight(nodes.len() as int, stack.push(top)) == pow(3, (nodes.len() - top) as nat)
            + stack_weight(nodes.len() as int, stack),
{
    assert(stack.push(top).drop_last() =~= stack);
}

proof fn lemma_weight_not_negative(len: int, stack: Seq<usize>)
    ensures
        stack_weight(len, stack) >= 0,
    decreases stack.len(),
{
    if stack.len() > 0 {
        lemma_pow_positive(3, (len - stack.last()) as nat);
        lemma_weight_not_negative(len, stack.drop_last());
    }
}

proof fn lemma_child_weight(len: int, parent: int, child: int)
    requires
        0 <= parent < child < len,
    ensures
        0 < 3 * pow(3, (len - child) as nat) <= pow(3, (len - parent) as nat),
{
    lemma_pow_positive(3, (len - child) as nat);
    lemma_pow_increases(3, (len - child + 1) as nat, (len - parent) as nat);
    vstd::arithmetic::power::lemma_pow_adds(3, 1, (len - child) as nat);
    vstd::arithmetic::power::lemma_pow1(3);
}

/// Why a hierarchy could not be built.
#[derive(Debug, Clone, Copy, PartialEq, Eq, Structural)]
pub enum BuildError {
    /// There was no item to build it over.
    NoItems,
}

/// A bounding-volume hierarchy: a binary tree of boxes over a set of items,
/// kept as one sequence of nodes with the root first.
#[derive(Debug)]
pub struct BVH {
    nodes: Vec<BVHNode>,
}

impl View for BVH {
    type V = Seq<BVHNode>;

    closed spec fn view(&self) -> Seq<BVHNode> {
        self.nodes@
    }
}

/// The items `0 .. n` in their order.
pub open spec fn all_items(n: nat) -> Seq<usize> {
    Seq::new(n, |i: int| i as usize)
}

impl BVH {
    #[verifier::type_invariant]
    spec fn laid_out(self) -> bool {
        is_subtree(self.nodes@, 0, self.nodes@.len() as int)
    }

    /// Builds the hierarchy over the items whose boxes are given, with
    /// `root_box` as the box of the whole. The items of a box are split
    /// along its longest axis at its midpoint, or into halves by count where
    /// that leaves one side empty, until each part is a single item.
    pub fn build(root_box: BoundingBox, boxes: &[BoundingBox]) -> (r: Result<BVH, BuildError>)
        ensures
            boxes@.len() == 0 ==> r == Err::<BVH, BuildError>(BuildError::NoItems),
            boxes@.len() > 0 ==> r is Ok && r->Ok_0@ == tree(
                0,
                all_items(boxes@.len()),
                root_box,
                boxes@,
            ),
            2 * boxes@.len() - 1 <= usize::MAX,
    {
        if boxes.len() == 0 {
            return Err(BuildError::NoItems);
        }
        let mut nodes: Vec<BVHNode> = Vec::new();
        let mut elems: Vec<usize> = Vec::new();
        let mut i: usize = 0;
        while i < boxes.len()
            invariant
                i <= boxes@.len(),
                elems@ == all_items(i as nat),
            decreases boxes@.len() - i,
        {
            elems.push(i);
            assert(elems@ =~= all_items((i + 1) as nat));
            i += 1;
        }
        split(&mut nodes, elems.as_mut_slice(), &root_box, boxes);
        proof {
            let items = all_items(boxes@.len());
            lemma_tree_len(0, items, root_box, boxes@);
            assert(nodes@ =~= tree(0, items, root_box, boxes@));
            assert(nodes@.subrange(0, nodes@.len() as int) =~= nodes@);
            assert(nodes@.len() == nodes.len());
            assert(2 * boxes@.len() - 1 <= usize::MAX);
            lemma_tree_is_subtree(nodes@, 0, items, root_box, boxes@);
        }
        Ok(BVH { nodes })
    }

    /// The nodes of the hierarchy, the root first.
    pub fn nodes(&self) -> (r: &Vec<BVHNode>)
        ensures
            r@ == self@,
    {
        &self.nodes
    }

    /// Whether every item that a leaf holds is below `count`.
    pub fn items_below(&self, count: usize) -> (r: bool)
        ensures
            r == (forall|k: int|
                0 <= k < self@.len() && (#[trigger] self@[k]) is Leaf ==> self@[k]->index < count),
    {
        let mut k: usize = 0;
        while k < self.nodes.len()
            invariant
                k <= self.nodes@.len(),
                forall|j: int|
                    0 <= j < k && (#[trigger] self.nodes@[j]) is Leaf ==> self.nodes@[j]->index
                        < count,
            decreases self.nodes@.len() - k,
        {
            if let BVHNode::Leaf { index, .. } = self.nodes[k] {
                if index >= count {
                    return false;
                }
            }
            k += 1;
        }
        true
    }

    /// Starts a traversal for the line through `pos` along `dir`. It will
    /// yield the items of [`traversal`], one with each call of `next`.
    pub fn traverse<'a>(&'a self, pos: Vec3, dir: Vec3) -> (it: BVHIterator<'a>)
        ensures
            it.remaining() == traversal(self@, pos, dir),
    {
        proof {
            use_type_invariant(self);
        }
        let mut stack: Vec<usize> = Vec::new();
        if self.nodes[0].bounding_box().intersect(pos, dir).is_some() {
            stack.push(0);
            proof {
                lemma_pending_push(self.nodes@, Seq::empty(), 0, pos, dir);
            }
        }
        BVHIterator { bvh: self, stack, pos, dir }
    }
}

/// A traversal in progress. It is used up as it goes: a new line needs a new
/// traversal.
pub struct BVHIterator<'a> {
    bvh: &'a BVH,
    stack: Vec<usize>,
    pos: Vec3,
    dir: Vec3,
}

impl<'a> BVHIterator<'a> {
    #[verifier::type_invariant]
    spec fn in_bounds(self) -> bool {
        forall|k: int| 0 <= k < self.stack@.len() ==> self.stack@[k] < self.bvh.nodes@.len()
    }

    /// The items that the traversal has yet to yield, the next one first.
    pub closed spec fn remaining(&self) -> Seq<usize> {
        pending(self.bvh.nodes@, self.stack@, self.pos, self.dir)
    }

    /// Yields the next item, or `None` when the traversal is over.
    pub fn next(&mut self) -> (r: Option<usize>)
        ensures
            match r {
                Some(item) => old(self).remaining().len() > 0 && item == old(self).remaining()[0]
                    && final(self).remaining() == old(self).remaining().drop_first(),
                None => old(self).remaining().len() == 0 && final(self).remaining().len() == 0,
            },
    {
        proof {
            use_type_invariant(&*self);
            use_type_invariant(self.bvh);
        }
        let mut stack: Vec<usize> = Vec::new();
        core::mem::swap(&mut self.stack, &mut stack);
        let r = advance(&self.bvh.nodes, &mut stack, self.pos, self.dir);
        core::mem::swap(&mut self.stack, &mut stack);
        r
    }
}

/// Walks on from the nodes on `stack` until a leaf comes up, and yields its
/// item.
fn advance(nodes: &Vec<BVHNode>, stack: &mut Vec<usize>, pos: Vec3, dir: Vec3) -> (r: Option<usize>)
    requires
        is_subtree(nodes@, 0, nodes@.len() as int),
        forall|k: int| 0 <= k < old(stack)@.len() ==> old(stack)@[k] < nodes@.len(),
    ensures
        forall|k: int| 0 <= k < final(stack)@.len() ==> final(stack)@[k] < nodes@.len(),
        match r {
            Some(item) => pending(nodes@, old(stack)@, pos, dir) == seq![item] + pending(
                nodes@,
                final(stack)@,
                pos,
                dir,
            ),
            None => pending(nodes@, old(stack)@, pos, dir).len() == 0 && final(stack)@.len() == 0,
        },
{
    let ghost len = nodes@.len() as int;
    loop
        invariant
            len == nodes@.len(),
            is_subtree(nodes@, 0, len),
            forall|k: int| 0 <= k < stack@.len() ==> stack@[k] < len,
            pending(nodes@, stack@, pos, dir) == pending(nodes@, old(stack)@, pos, dir),
        decreases stack_weight(len, stack@),
    {
        let ghost before = stack@;
        let i: usize = match stack.pop() {
            Some(i) => i,
            None => {
                return None;
            },
        };
        let ghost rest = stack@;
        assert(rest == before.drop_last());
        assert(stack_weight(len, before) == pow(3, (len - i) as nat) + stack_weight(len, rest));
        match nodes[i] {
            BVHNode::Node { left_child, right_child, bounding_box: _ } => {
                proof {
                    lemma_subtree_children(nodes@, 0, len, i as int);
                    lemma_child_weight(len, i as int, left_child as int);
                    lemma_child_weight(len, i as int, right_child as int);
                }
                let left = nodes[left_child].bounding_box().intersect(pos, dir);
                let right = nodes[right_child].bounding_box().intersect(pos, dir);
                if let Some(t_left) = left {
                    if let Some(t_right) = right {
                        let (i_first, i_second) = if t_left.less_than(&t_right) {
                            (left_child, right_child)
                        } else {
                            (right_child, left_child)
                        };
                        stack.push(i_second);
                        stack.push(i_first);
                        proof {
                            lemma_pending_push(nodes@, rest, i_second, pos, dir);
                            lemma_pending_push(nodes@, rest.push(i_second), i_first, pos, dir);
                        }
                    } else {
                        stack.push(left_child);
                        proof {
                            lemma_pending_push(nodes@, rest, left_child, pos, dir);
                        }
                    }
                } else if let Some(_) = right {
                    stack.push(right_child);
                    proof {
                        lemma_pending_push(nodes@, rest, right_child, pos, dir);
                    }
                }
                proof {
                    lemma_weight_not_negative(len, stack@);
                }
            },
            BVHNode::Leaf { index, bounding_box: _ } => {
                return Some(index);
            },
        }
    }
}

} // verus!
