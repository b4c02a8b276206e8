use raytracer::bounding_box::{BoundingBox};
use raytracer::bvh::{BVHNode, BuildError, BVH};
use raytracer::vector::{Ratio, Vec3};

fn collect(bvh: &BVH, pos: Vec3, dir: Vec3) -> Vec<usize> {
    let mut out = Vec::new();
    let mut it = bvh.traverse(pos, dir);
    while let Some(i) = it.next() {
        out.push(i);
    }
    out
}

/// A small generator of repeatable numbers.
struct Lcg(u64);

impl Lcg {
    fn next(&mut self, span: i32) -> i32 {
        self.0 = self.0.wrapping_mul(6364136223846793005).wrapping_add(1442695040888963407);
        ((self.0 >> 33) % (span as u64)) as i32
    }
}

fn random_box(rng: &mut Lcg) -> BoundingBox {
    let x = rng.next(2000) - 1000;
    let y = rng.next(2000) - 1000;
    let z = rng.next(2000) - 1000;
    BoundingBox::new(x, y, z, x + rng.next(200), y + rng.next(200), z + rng.next(200))
}

fn around(boxes: &[BoundingBox]) -> BoundingBox {
    let mut all = boxes[0];
    for b in boxes {
        all.union(b);
    }
    all
}

#[test]
fn box_new_keeps_corners() {
    let b = BoundingBox::new(1, 2, 3, 4, 5, 6);
    assert_eq!(b.p1, Vec3::new(1, 2, 3));
    assert_eq!(b.p2, Vec3::new(4, 5, 6));
}

#[test]
fn box_union_covers_both() {
    let mut a = BoundingBox::new(0, 0, 0, 10, 10, 10);
    a.union(&BoundingBox::new(-5, 2, 3, 4, 20, 6));
    assert_eq!(a, BoundingBox::new(-5, 0, 0, 10, 20, 10));
}

#[test]
fn box_entry_is_exact() {
    let b = BoundingBox::new(10, -10, -10, 20, 10, 10);
    let t = b.intersect(Vec3::new(0, 0, 0), Vec3::new(4, 0, 0)).unwrap();
    assert_eq!((t.num, t.den), (10, 4));
}

#[test]
fn box_entry_is_latest_of_the_axes() {
    let b = BoundingBox::new(10, 10, -10, 30, 30, 10);
    // x is entered at 10/2 = 5 and y at 10/1 = 10
    let t = b.intersect(Vec3::new(0, 0, 0), Vec3::new(2, 1, 0)).unwrap();
    assert!(t.same_value(&Ratio::new(10, 1)));
}

#[test]
fn box_entry_is_negative_from_inside() {
    let b = BoundingBox::new(-10, -10, -10, 10, 10, 10);
    let t = b.intersect(Vec3::new(0, 0, 0), Vec3::new(0, 0, 5)).unwrap();
    assert_eq!((t.num, t.den), (-10, 5));
}

#[test]
fn box_is_met_behind_the_origin() {
    let b = BoundingBox::new(10, -1, -1, 20, 1, 1);
    // the line meets the box although the ray points away from it
    let t = b.intersect(Vec3::new(0, 0, 0), Vec3::new(-1, 0, 0)).unwrap();
    assert_eq!((t.num, t.den), (-20, 1));
}

#[test]
fn box_rejects_line_beside_slab() {
    let b = BoundingBox::new(0, 0, 0, 10, 10, 10);
    assert!(b.intersect(Vec3::new(11, 5, -5), Vec3::new(0, 0, 1)).is_none());
    assert!(b.intersect(Vec3::new(5, -1, -5), Vec3::new(0, 0, 1)).is_none());
    assert!(b.intersect(Vec3::new(5, 5, 11), Vec3::new(1, 0, 0)).is_none());
}

#[test]
fn box_accepts_line_on_its_face() {
    let b = BoundingBox::new(0, 0, 0, 10, 10, 10);
    assert!(b.intersect(Vec3::new(10, 5, -5), Vec3::new(0, 0, 1)).is_some());
}

#[test]
fn box_misses_where_exit_precedes_entry() {
    let b = BoundingBox::new(0, 0, 0, 10, 10, 10);
    assert!(b.intersect(Vec3::new(-20, 0, 0), Vec3::new(1, 1, 0)).is_none());
}

#[test]
fn box_without_direction_is_met_from_inside_only() {
    let b = BoundingBox::new(0, 0, 0, 10, 10, 10);
    let zero = Vec3::new(0, 0, 0);
    let t = b.intersect(Vec3::new(5, 5, 5), zero).unwrap();
    assert_eq!((t.num, t.den), (-1, 0));
    assert!(b.intersect(Vec3::new(5, 5, 50), zero).is_none());
}

#[test]
fn build_rejects_empty_input() {
    let root = BoundingBox::new(0, 0, 0, 1, 1, 1);
    assert_eq!(BVH::build(root, &[]).err(), Some(BuildError::NoItems));
}

#[test]
fn build_of_one_item_is_one_leaf() {
    let b = BoundingBox::new(0, 0, 0, 10, 10, 10);
    let root = BoundingBox::new(-100, -100, -100, 100, 100, 100);
    let bvh = BVH::build(root, &[b]).unwrap();
    assert_eq!(bvh.nodes().len(), 1);
    assert_eq!(bvh.nodes()[0], BVHNode::Leaf { index: 0, bounding_box: b });
}

#[test]
fn build_splits_at_the_midpoint_of_the_longest_axis() {
    // extents 2, 30 and 4 along x; the root runs from 0 to 20, so twice its midpoint is 20
    let boxes = [
        BoundingBox::new(0, 0, 0, 2, 1, 1),
        BoundingBox::new(0, 0, 0, 30, 1, 1),
        BoundingBox::new(10, 0, 0, 14, 1, 1),
    ];
    let root = BoundingBox::new(0, 0, 0, 20, 1, 1);
    let bvh = BVH::build(root, &boxes).unwrap();
    let nodes = bvh.nodes();
    assert_eq!(nodes.len(), 5);
    // items 0 and 2 go left, item 1 goes right
    assert_eq!(
        nodes[0],
        BVHNode::Node { left_child: 1, right_child: 4, bounding_box: root }
    );
    assert_eq!(
        nodes[1],
        BVHNode::Node {
            left_child: 2,
            right_child: 3,
            bounding_box: BoundingBox::new(0, 0, 0, 14, 1, 1)
        }
    );
    assert_eq!(nodes[4], BVHNode::Leaf { index: 1, bounding_box: boxes[1] });
}

#[test]
fn build_halves_identical_boxes() {
    let b = BoundingBox::new(0, 0, 0, 10, 10, 10);
    let boxes = vec![b; 64];
    let bvh = BVH::build(b, &boxes).unwrap();
    let nodes = bvh.nodes();
    assert_eq!(nodes.len(), 127);
    assert_eq!(nodes[0], BVHNode::Node { left_child: 1, right_child: 64, bounding_box: b });
    let mut got = collect(&bvh, Vec3::new(5, 5, -5), Vec3::new(0, 0, 1));
    got.sort();
    assert_eq!(got, (0..64).collect::<Vec<usize>>());
}

#[test]
fn build_has_a_leaf_for_every_item() {
    let mut rng = Lcg(7);
    for n in 1..40usize {
        let boxes: Vec<BoundingBox> = (0..n).map(|_| random_box(&mut rng)).collect();
        let bvh = BVH::build(around(&boxes), &boxes).unwrap();
        let nodes = bvh.nodes();
        assert_eq!(nodes.len(), 2 * n - 1);
        let mut items: Vec<usize> = Vec::new();
        for node in nodes.iter() {
            if let BVHNode::Leaf { index, bounding_box } = node {
                assert_eq!(*bounding_box, boxes[*index]);
                items.push(*index);
            }
        }
        items.sort();
        assert_eq!(items, (0..n).collect::<Vec<usize>>());
    }
}

#[test]
fn build_nests_the_boxes() {
    let mut rng = Lcg(11);
    let boxes: Vec<BoundingBox> = (0..50).map(|_| random_box(&mut rng)).collect();
    let bvh = BVH::build(around(&boxes), &boxes).unwrap();
    let nodes = bvh.nodes();
    for (i, node) in nodes.iter().enumerate() {
        if let BVHNode::Node { left_child, right_child, bounding_box } = node {
            assert_eq!(*left_child, i + 1);
            assert!(*right_child > *left_child && *right_child < nodes.len());
            for child in [*left_child, *right_child] {
                let inner = nodes[child].bounding_box();
                let mut grown = *bounding_box;
                grown.union(&inner);
                assert_eq!(grown, *bounding_box);
            }
        }
    }
}

#[test]
fn traverse_yields_the_single_item() {
    let b = BoundingBox::new(0, 0, 0, 10, 10, 10);
    let bvh = BVH::build(b, &[b]).unwrap();
    let mut it = bvh.traverse(Vec3::new(5, 5, -5), Vec3::new(0, 0, 1));
    assert_eq!(it.next(), Some(0));
    assert_eq!(it.next(), None);
    assert_eq!(it.next(), None);
}

#[test]
fn traverse_yields_nothing_beside_the_root() {
    let b = BoundingBox::new(0, 0, 0, 10, 10, 10);
    let bvh = BVH::build(b, &[b, b]).unwrap();
    assert_eq!(collect(&bvh, Vec3::new(50, 50, -5), Vec3::new(0, 0, 1)), Vec::<usize>::new());
}

#[test]
fn traverse_visits_the_nearer_child_first() {
    let near = BoundingBox::new(0, 0, 10, 10, 10, 20);
    let far = BoundingBox::new(0, 0, 100, 10, 10, 160);
    let root = BoundingBox::new(0, 0, 0, 10, 10, 160);
    // along z the extents are 10 and 60, and twice the midpoint is 160: both go left,
    // so the items are halved by count
    let bvh = BVH::build(root, &[far, near]).unwrap();
    assert_eq!(collect(&bvh, Vec3::new(5, 5, 0), Vec3::new(0, 0, 1)), vec![1, 0]);
    assert_eq!(collect(&bvh, Vec3::new(5, 5, 200), Vec3::new(0, 0, -1)), vec![0, 1]);
}

#[test]
fn traverse_agrees_with_a_linear_scan() {
    let mut rng = Lcg(2024);
    for round in 0..30 {
        let n = 1 + (round * 7) % 60;
        let boxes: Vec<BoundingBox> = (0..n).map(|_| random_box(&mut rng)).collect();
        let bvh = BVH::build(around(&boxes), &boxes).unwrap();
        for _ in 0..40 {
            let pos =
                Vec3::new(rng.next(3000) - 1500, rng.next(3000) - 1500, rng.next(3000) - 1500);
            let dir = Vec3::new(rng.next(21) - 10, rng.next(21) - 10, rng.next(21) - 10);
            let mut got = collect(&bvh, pos, dir);
            got.sort();
            let want: Vec<usize> =
                (0..n as usize).filter(|&i| boxes[i].intersect(pos, dir).is_some()).collect();
            assert_eq!(got, want);
        }
    }
}
