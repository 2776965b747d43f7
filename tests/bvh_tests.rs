use raytracer::bvh::{BoxMin, BvhChild, BvhItem, BvhNode};

fn collect(child: &BvhChild, out: &mut Vec<BvhItem>) {
    match child {
        BvhChild::Leaf(item) => out.push(*item),
        BvhChild::Node(node) => {
            collect(&node.left, out);
            collect(&node.right, out);
        }
    }
}

fn leaves(node: &BvhNode) -> Vec<BvhItem> {
    let mut out = Vec::new();
    collect(&node.left, &mut out);
    collect(&node.right, &mut out);
    out
}

fn key(b: &BoxMin, axis: usize) -> i64 {
    match axis {
        0 => b.x,
        1 => b.y,
        _ => b.z,
    }
}

fn split_holds(node: &BvhNode) -> bool {
    let mut left = Vec::new();
    collect(&node.left, &mut left);
    let mut right = Vec::new();
    collect(&node.right, &mut right);
    (0..3).any(|axis| {
        left.iter().all(|a| right.iter().all(|b| key(&a.min, axis) <= key(&b.min, axis)))
    })
}

fn check_all_nodes(child: &BvhChild) {
    if let BvhChild::Node(node) = child {
        assert!(split_holds(node));
        check_all_nodes(&node.left);
        check_all_nodes(&node.right);
    }
}

fn corner(x: i64, y: i64, z: i64) -> BoxMin {
    BoxMin { x, y, z }
}

#[test]
fn single_primitive_is_both_children() {
    let list = vec![corner(1, 2, 3)];
    let node = BvhNode::new_from_list(&list);
    let item = BvhItem { id: 0, min: corner(1, 2, 3) };
    assert!(matches!(node.left, BvhChild::Leaf(i) if i == item));
    assert!(matches!(node.right, BvhChild::Leaf(i) if i == item));
}

#[test]
fn two_primitives_are_ordered_on_some_axis() {
    let list = vec![corner(5, 5, 5), corner(-5, -5, -5)];
    for _ in 0..20 {
        let node = BvhNode::new_from_list(&list);
        match (&node.left, &node.right) {
            (BvhChild::Leaf(a), BvhChild::Leaf(b)) => {
                assert_eq!(a.id, 1);
                assert_eq!(b.id, 0);
            }
            _ => panic!("two primitives must be two leaves"),
        }
    }
}

#[test]
fn equal_corners_keep_their_order() {
    let list = vec![corner(0, 0, 0), corner(0, 0, 0)];
    let node = BvhNode::new_from_list(&list);
    match (&node.left, &node.right) {
        (BvhChild::Leaf(a), BvhChild::Leaf(b)) => {
            assert_eq!(a.id, 0);
            assert_eq!(b.id, 1);
        }
        _ => panic!("two primitives must be two leaves"),
    }
}

#[test]
fn every_primitive_is_reachable_and_nothing_else() {
    let list: Vec<BoxMin> = (0..37).map(|i| corner((i * 7) % 11, (i * 5) % 13 - 6, -i)).collect();
    let node = BvhNode::new_from_list(&list);
    let mut ids: Vec<usize> = leaves(&node).iter().map(|it| it.id).collect();
    ids.sort();
    ids.dedup();
    assert_eq!(ids, (0..37).collect::<Vec<usize>>());
    for item in leaves(&node) {
        assert_eq!(item.min, list[item.id]);
    }
}

#[test]
fn every_node_splits_along_an_axis() {
    let list: Vec<BoxMin> = (0..50).map(|i| corner((i * 31) % 17, (i * 3) % 7, (i * 13) % 29)).collect();
    let node = BvhNode::new_from_list(&list);
    check_all_nodes(&BvhChild::Node(Box::new(node)));
}

#[test]
fn three_primitives_split_one_and_two() {
    let list = vec![corner(3, 3, 3), corner(1, 1, 1), corner(2, 2, 2)];
    let node = BvhNode::new_from_list(&list);
    match (&node.left, &node.right) {
        (BvhChild::Node(l), BvhChild::Node(r)) => {
            assert!(matches!(l.left, BvhChild::Leaf(i) if i.id == 1));
            assert!(matches!(l.right, BvhChild::Leaf(i) if i.id == 1));
            assert!(matches!(r.left, BvhChild::Leaf(i) if i.id == 2));
            assert!(matches!(r.right, BvhChild::Leaf(i) if i.id == 0));
        }
        _ => panic!("three primitives must split into two nodes"),
    }
}

#[test]
fn a_sub_span_is_built_alone() {
    let items: Vec<BvhItem> = (0..6).map(|i| BvhItem { id: i, min: corner(i as i64, 0, 0) }).collect();
    let node = BvhNode::new(&items, 2, 4);
    let mut ids: Vec<usize> = leaves(&node).iter().map(|it| it.id).collect();
    ids.sort();
    assert_eq!(ids, vec![2, 3]);
}

#[test]
fn equal_corners_keep_their_order_in_larger_spans() {
    let list = vec![corner(4, 4, 4); 4];
    let node = BvhNode::new_from_list(&list);
    let ids: Vec<usize> = leaves(&node).iter().map(|it| it.id).collect();
    assert_eq!(ids, vec![0, 1, 2, 3]);
}

#[test]
fn each_primitive_is_reached_once() {
    let list: Vec<BoxMin> = (0..9).map(|i| corner(9 - i, i, (i * 4) % 5)).collect();
    let node = BvhNode::new_from_list(&list);
    // Nine split as 4 and 5, then 2, 2, 2 and 3, then 1 and 2: one node holds a single primitive twice.
    let mut ids: Vec<usize> = leaves(&node).iter().map(|it| it.id).collect();
    ids.sort();
    let mut once = ids.clone();
    once.dedup();
    assert_eq!(once, (0..9).collect::<Vec<usize>>());
    assert_eq!(ids.len(), 9 + 1);
}
