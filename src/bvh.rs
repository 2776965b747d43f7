use vstd::prelude::*;
use crate::permutation::lemma_swap_multiset;
use crate::random::random_usize;

verus! {

broadcast use {
    vstd::seq_lib::to_multiset_contains,
    vstd::seq::group_seq_axioms,
    vstd::set::group_set_axioms,
};

/// The lower corner of a primitive's bounding box, each coordinate in an
/// integer encoding that keeps the order of the coordinates.
#[derive(Clone, Copy, Debug, PartialEq, Eq, Structural)]
pub struct BoxMin {
    pub x: i64,
    pub y: i64,
    pub z: i64,
}

/// A primitive of the scene, by its position in the scene's list, with the
/// lower corner of its box.
#[derive(Clone, Copy, Debug, PartialEq, Eq, Structural)]
pub struct BvhItem {
    pub id: usize,
    pub min: BoxMin,
}

/// A child of a hierarchy node: one primitive, or a nested node.
#[derive(Debug)]
pub enum BvhChild {
    Leaf(BvhItem),
    Node(Box<BvhNode>),
}

/// A node of the bounding volume hierarchy. Its box is the union of its two
/// children's boxes.
#[derive(Debug)]
pub struct BvhNode {
    pub left: BvhChild,
    pub right: BvhChild,
}

/// The coordinate of the box corner along axis 0 (x), 1 (y) or 2 (z).
pub open spec fn key(b: BoxMin, axis: int) -> i64 {
    if axis == 0 {
        b.x
    } else if axis == 1 {
        b.y
    } else {
        b.z
    }
}

/// The primitives reachable from a child.
pub open spec fn leaf_set(c: BvhChild) -> Set<BvhItem>
    decreases c,
{
    match c {
        BvhChild::Leaf(item) => set![item],
        BvhChild::Node(n) => leaf_set(n.left) + leaf_set(n.right),
    }
}

/// The primitives reachable from a node.
pub open spec fn node_leaf_set(n: BvhNode) -> Set<BvhItem> {
    leaf_set(n.left) + leaf_set(n.right)
}

/// Along `axis`, no primitive under `left` starts after a primitive under `right`.
pub open spec fn split_on(left: BvhChild, right: BvhChild, axis: int) -> bool {
    forall|a: BvhItem, b: BvhItem|
        leaf_set(left).contains(a) && leaf_set(right).contains(b) ==> key(a.min, axis) <= key(
            b.min,
            axis,
        )
}

/// The entries of `s` are in non-decreasing order along `axis`.
pub open spec fn sorted_on(s: Seq<BvhItem>, axis: int) -> bool {
    forall|p: int, q: int| 0 <= p < q < s.len() ==> key(s[p].min, axis) <= key(s[q].min, axis)
}

/// Two primitives `s[0]` and `s[1]` as the children of `n`, ordered along
/// `axis`; on a tie the first stays first.
pub open spec fn ordered_pair(n: BvhNode, s: Seq<BvhItem>, axis: int) -> bool {
    &&& 0 <= axis < 3
    &&& if key(s[0].min, axis) <= key(s[1].min, axis) {
        n.left == BvhChild::Leaf(s[0]) && n.right == BvhChild::Leaf(s[1])
    } else {
        n.left == BvhChild::Leaf(s[1]) && n.right == BvhChild::Leaf(s[0])
    }
}

/// `t` is `s` stably sorted along `axis`, one of the three axes.
pub open spec fn split_plan(s: Seq<BvhItem>, axis: int, t: Seq<BvhItem>) -> bool {
    0 <= axis < 3 && stably_sorted(s, t, axis)
}

/// `n` is a hierarchy over the items `s`, each placed once: one item is both
/// children of a node; two are ordered along an axis; three or more are
/// stably sorted along an axis, and the first half (`len / 2` items) goes to
/// a left node, the rest to a right node, built the same way, so that no
/// item on the left starts after one on the right along that axis.
pub open spec fn well_built(n: BvhNode, s: Seq<BvhItem>) -> bool
    decreases s.len(),
{
    if s.len() == 1 {
        n.left == BvhChild::Leaf(s[0]) && n.right == BvhChild::Leaf(s[0])
    } else if s.len() == 2 {
        exists|axis: int| #[trigger] ordered_pair(n, s, axis)
    } else if s.len() >= 3 {
        exists|axis: int, t: Seq<BvhItem>|
            #[trigger] split_plan(s, axis, t) && t.len() == s.len() && split_on(
                n.left,
                n.right,
                axis,
            ) && match n.left {
                BvhChild::Node(l) => well_built(*l, t.subrange(0, s.len() as int / 2)),
                BvhChild::Leaf(_) => false,
            } && match n.right {
                BvhChild::Node(r) => well_built(*r, t.subrange(s.len() as int / 2, s.len() as int)),
                BvhChild::Leaf(_) => false,
            }
    } else {
        false
    }
}

/// The items of a scene list, each identified by its position.
pub open spec fn indexed(list: Seq<BoxMin>) -> Seq<BvhItem> {
    Seq::new(list.len(), |k: int| BvhItem { id: k as usize, min: list[k] })
}

fn axis_key(b: &BoxMin, axis: usize) -> (r: i64)
    ensures
        r == key(*b, axis as int),
{
    if axis == 0 {
        b.x
    } else if axis == 1 {
        b.y
    } else {
        b.z
    }
}

/// `t` is `s` rearranged by `pos` (`t[k]` is `s[pos[k]]`, each position of
/// `s` used once), and items with equal coordinates along `axis` keep their
/// order.
pub open spec fn stable_rearrangement(s: Seq<BvhItem>, t: Seq<BvhItem>, pos: Seq<int>, axis: int) -> bool {
    &&& t.len() == s.len()
    &&& pos.len() == s.len()
    &&& forall|k: int| 0 <= k < t.len() ==> 0 <= #[trigger] pos[k] < s.len() && t[k] == s[pos[k]]
    &&& forall|a: int, b: int| 0 <= a < b < t.len() ==> #[trigger] pos[a] != #[trigger] pos[b]
    &&& forall|a: int, b: int|
        0 <= a < b < t.len() && key(t[a].min, axis) == key(t[b].min, axis) ==> #[trigger] pos[a]
            < #[trigger] pos[b]
}

/// `t` holds the items of `s`, sorted along `axis`, with items of equal
/// coordinate along it in the order they have in `s`.
pub open spec fn stably_sorted(s: Seq<BvhItem>, t: Seq<BvhItem>, axis: int) -> bool {
    &&& t.len() == s.len()
    &&& t.to_multiset() == s.to_multiset()
    &&& sorted_on(t, axis)
    &&& exists|pos: Seq<int>| #[trigger] stable_rearrangement(s, t, pos, axis)
}

/// Sorts the items along `axis` by insertion, which keeps items with equal
/// coordinates in their order.
fn sort_on_axis(v: &mut Vec<BvhItem>, axis: usize)
    ensures
        stably_sorted(old(v)@, final(v)@, axis as int),
{
    let n = v.len();
    let ghost s = v@;
    let ghost mut pos: Seq<int> = Seq::new(n as nat, |k: int| k);
    let ghost ax = axis as int;
    let mut i: usize = 1;
    while i < n
        invariant
            n == v@.len(),
            s == old(v)@,
            ax == axis as int,
            1 <= i || n == 0,
            v@.to_multiset() == s.to_multiset(),
            pos.len() == n,
            forall|k: int| 0 <= k < n ==> 0 <= #[trigger] pos[k] < n && v@[k] == s[pos[k]],
            forall|a: int, b: int| 0 <= a < b < n ==> #[trigger] pos[a] != #[trigger] pos[b],
            forall|k: int| i <= k < n ==> #[trigger] pos[k] == k,
            forall|k: int| 0 <= k < i && k < n ==> #[trigger] pos[k] < i,
            forall|p: int, q: int|
                0 <= p < q < i && q < n ==> key(v@[p].min, ax) <= key(v@[q].min, ax),
            forall|p: int, q: int|
                0 <= p < q < i && q < n && key(v@[p].min, ax) == key(v@[q].min, ax) ==> #[trigger] pos[p]
                    < #[trigger] pos[q],
        decreases n - i,
    {
        let mut j: usize = i;
        while j > 0 && axis_key(&v[j - 1].min, axis) > axis_key(&v[j].min, axis)
            invariant
                n == v@.len(),
                ax == axis as int,
                i < n,
                j <= i,
                v@.to_multiset() == s.to_multiset(),
                pos.len() == n,
                forall|k: int| 0 <= k < n ==> 0 <= #[trigger] pos[k] < n && v@[k] == s[pos[k]],
                forall|a: int, b: int| 0 <= a < b < n ==> #[trigger] pos[a] != #[trigger] pos[b],
                forall|k: int| i < k < n ==> #[trigger] pos[k] == k,
                forall|k: int| 0 <= k <= i ==> #[trigger] pos[k] <= i,
                pos[j as int] == i,
                forall|p: int, q: int|
                    0 <= p < q <= i && q != j ==> key(v@[p].min, ax) <= key(v@[q].min, ax),
                forall|q: int| j < q <= i ==> key(v@[j as int].min, ax) < key(#[trigger] v@[q].min, ax),
                forall|p: int, q: int|
                    0 <= p < q <= i && key(v@[p].min, ax) == key(v@[q].min, ax) ==> #[trigger] pos[p]
                        < #[trigger] pos[q],
            decreases j,
        {
            let a = v[j - 1];
            let b = v[j];
            proof {
                lemma_swap_multiset(v@, j - 1, j as int);
                pos = pos.update(j - 1, pos[j as int]).update(j as int, pos[j - 1]);
            }
            let ghost before = v@;
            v[j - 1] = b;
            v[j] = a;
            proof {
                assert(key(before[j as int].min, ax) < key(before[j - 1].min, ax));
                assert forall|p: int, q: int| 0 <= p < q <= i && q != j - 1 implies key(
                    v@[p].min,
                    ax,
                ) <= key(v@[q].min, ax) by {
                    if p == j - 1 {
                        if q > j {
                            assert(key(before[j as int].min, ax) < key(before[q].min, ax));
                        }
                    } else if p == j {
                        assert(key(before[j - 1].min, ax) <= key(before[q].min, ax));
                    } else if q == j {
                        assert(key(before[p].min, ax) <= key(before[j - 1].min, ax));
                    } else {
                        assert(key(before[p].min, ax) <= key(before[q].min, ax));
                    }
                }
                assert forall|q: int| j - 1 < q <= i implies key(v@[j - 1].min, ax) < key(
                    #[trigger] v@[q].min,
                    ax,
                ) by {
                    if q > j {
                        assert(v@[q] == before[q]);
                    }
                }
            }
            j = j - 1;
        }
        proof {
            assert forall|p: int, q: int| 0 <= p < q <= i implies key(v@[p].min, ax) <= key(
                v@[q].min,
                ax,
            ) by {
                if q == j {
                    assert(key(v@[p].min, ax) <= key(v@[j - 1].min, ax));
                }
            }
        }
        i = i + 1;
    }
    proof {
        assert(stable_rearrangement(s, v@, pos, ax));
    }
}

impl BvhNode {
    /// Builds the hierarchy over `src_objects[start..end]`. A single primitive
    /// becomes both children of one node; two are ordered along a randomly
    /// chosen axis; more are sorted along that axis and split at the middle,
    /// each half becoming a node of its own.
    pub fn new(src_objects: &Vec<BvhItem>, start: usize, end: usize) -> (r: BvhNode)
        requires
            start < end <= src_objects@.len(),
        ensures
            node_leaf_set(r) == src_objects@.subrange(start as int, end as int).to_set(),
            well_built(r, src_objects@.subrange(start as int, end as int)),
            end - start >= 2 ==> exists|axis: int| 0 <= axis < 3 && #[trigger] split_on(r.left, r.right, axis),
        decreases end - start,
    {
        let axis = random_usize(0, 2);
        let span = end - start;
        if span == 1 {
            let item = src_objects[start];
            let r = BvhNode { left: BvhChild::Leaf(item), right: BvhChild::Leaf(item) };
            proof {
                let s = src_objects@.subrange(start as int, end as int);
                assert(s =~= seq![item]);
                assert forall|x: BvhItem| s.contains(x) <==> x == item by {
                    if x == item {
                        assert(s[0] == item);
                    }
                }
                assert(node_leaf_set(r) =~= s.to_set());
                assert(s[0] == item);
                assert(well_built(r, s));
            }
            return r;
        }
        if span == 2 {
            let a = src_objects[start];
            let b = src_objects[start + 1];
            let r = if axis_key(&a.min, axis) <= axis_key(&b.min, axis) {
                BvhNode { left: BvhChild::Leaf(a), right: BvhChild::Leaf(b) }
            } else {
                BvhNode { left: BvhChild::Leaf(b), right: BvhChild::Leaf(a) }
            };
            proof {
                let s = src_objects@.subrange(start as int, end as int);
                assert(s =~= seq![a, b]);
                assert forall|x: BvhItem| s.contains(x) <==> x == a || x == b by {
                    if x == a {
                        assert(s[0] == a);
                    }
                    if x == b {
                        assert(s[1] == b);
                    }
                }
                assert(node_leaf_set(r) =~= s.to_set());
                assert(split_on(r.left, r.right, axis as int));
                assert(s[0] == a && s[1] == b);
                assert(ordered_pair(r, s, axis as int));
            }
            return r;
        }
        let mut objects: Vec<BvhItem> = Vec::new();
        let mut k: usize = start;
        while k < end
            invariant
                start <= k <= end <= src_objects@.len(),
                objects@ == src_objects@.subrange(start as int, k as int),
            decreases end - k,
        {
            objects.push(src_objects[k]);
            proof {
                assert(objects@ =~= src_objects@.subrange(start as int, k + 1));
            }
            k = k + 1;
        }
        let ghost unsorted = objects@;
        sort_on_axis(&mut objects, axis);
        let mid = span / 2;
        let left = BvhNode::new(&objects, 0, mid);
        let right = BvhNode::new(&objects, mid, span);
        let r = BvhNode {
            left: BvhChild::Node(Box::new(left)),
            right: BvhChild::Node(Box::new(right)),
        };
        proof {
            let s = objects@;
            assert(s.subrange(0, span as int) =~= s);
            assert forall|x: BvhItem| s.contains(x) <==> unsorted.contains(x) by {
                assert(s.to_multiset().count(x) == unsorted.to_multiset().count(x));
            }
            assert forall|x: BvhItem| #[trigger] node_leaf_set(r).contains(x) <==> s.contains(x) by {
                if s.contains(x) {
                    let p = choose|p: int| 0 <= p < s.len() && s[p] == x;
                    if p < mid {
                        assert(s.subrange(0, mid as int)[p] == x);
                    } else {
                        assert(s.subrange(mid as int, span as int)[p - mid] == x);
                    }
                }
            }
            assert(node_leaf_set(r) =~= src_objects@.subrange(start as int, end as int).to_set());
            assert forall|a: BvhItem, b: BvhItem|
                leaf_set(r.left).contains(a) && leaf_set(r.right).contains(b) implies key(
                    a.min,
                    axis as int,
                ) <= key(b.min, axis as int) by {
                assert(s.subrange(0, mid as int).to_set().contains(a));
                assert(s.subrange(mid as int, span as int).to_set().contains(b));
                let p = choose|p: int| 0 <= p < mid && s.subrange(0, mid as int)[p] == a;
                let q = choose|q: int|
                    0 <= q < span - mid && s.subrange(mid as int, span as int)[q] == b;
                assert(s[p] == a);
                assert(s[q + mid] == b);
            }
            assert(split_on(r.left, r.right, axis as int));
            assert(unsorted == src_objects@.subrange(start as int, end as int));
            assert(split_plan(unsorted, axis as int, s));
            assert(well_built(r, unsorted));
        }
        r
    }

    /// Builds the hierarchy over a whole, non-empty scene, identifying each
    /// primitive by its position in `list`.
    pub fn new_from_list(list: &Vec<BoxMin>) -> (r: BvhNode)
        requires
            list@.len() > 0,
        ensures
            forall|item: BvhItem| #[trigger]
                node_leaf_set(r).contains(item) <==> item.id < list@.len() && item.min
                    == list@[item.id as int],
            well_built(r, indexed(list@)),
            list@.len() >= 2 ==> exists|axis: int| 0 <= axis < 3 && #[trigger] split_on(r.left, r.right, axis),
    {
        let mut items: Vec<BvhItem> = Vec::new();
        let mut k: usize = 0;
        while k < list.len()
            invariant
                k <= list@.len(),
                items@.len() == k,
                forall|p: int| 0 <= p < k ==> #[trigger] items@[p] == (BvhItem { id: p as usize, min: list@[p] }),
            decreases list@.len() - k,
        {
            items.push(BvhItem { id: k, min: list[k] });
            k = k + 1;
        }
        let n = items.len();
        let r = BvhNode::new(&items, 0, n);
        proof {
            assert(items@.subrange(0, n as int) =~= items@);
            assert(items@ =~= indexed(list@));
            assert forall|item: BvhItem| #[trigger] node_leaf_set(r).contains(item) implies item.id < list@.len() && item.min
                    == list@[item.id as int] by {
                assert(items@.contains(item));
            }
            assert forall|item: BvhItem| item.id < list@.len() && item.min
                    == list@[item.id as int] implies #[trigger] node_leaf_set(r).contains(item) by {
                assert(items@[item.id as int] == item);
            }
        }
        r
    }
}

} // verus!
