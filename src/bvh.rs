//! The shape of a bounding volume hierarchy.
//!
//! A tree is built over a list of boundable items, each described by the
//! minimum corner of its bounding box. Nodes live in one vector, children
//! before parents, so the root is the last node and every reference from a
//! node points to an earlier node or to an item.

use crate::random::below;
use vstd::prelude::*;

verus! {

/// The minimum corner of an item's bounding box, one totally ordered integer
/// per axis (0 = x, 1 = y, 2 = z). Items are ordered along an axis by it.
#[derive(Clone, Copy, Debug)]
pub struct BoxKey {
    pub x: i64,
    pub y: i64,
    pub z: i64,
}

impl BoxKey {
    pub open spec fn on(self, axis: int) -> i64 {
        if axis == 0 {
            self.x
        } else if axis == 1 {
            self.y
        } else {
            self.z
        }
    }

    /// The coordinate on `axis`.
    pub fn get(&self, axis: usize) -> (r: i64)
        requires
            axis < 3,
        ensures
            r == self.on(axis as int),
    {
        if axis == 0 {
            self.x
        } else if axis == 1 {
            self.y
        } else {
            self.z
        }
    }
}

/// The key of a single-precision coordinate given by its bits: non-negative
/// values by their magnitude bits, negative values below them and in reverse,
/// so that keys order coordinates as IEEE 754 total order does.
pub open spec fn order_key_spec(bits: u32) -> int {
    if bits >= 0x8000_0000 {
        -((bits - 0x8000_0000) as int) - 1
    } else {
        bits as int
    }
}

/// The key of the single-precision coordinate whose bits are `bits`.
pub fn order_key(bits: u32) -> (r: i64)
    ensures
        r == order_key_spec(bits),
{
    if bits >= 0x8000_0000 {
        -((bits - 0x8000_0000) as i64) - 1
    } else {
        bits as i64
    }
}

/// One side of a node: an item (by its index in the item list) or an earlier
/// node (by its index in the tree).
#[derive(Clone, Copy, Debug)]
pub enum BvhChild {
    Leaf(usize),
    Node(usize),
}

/// An inner node of the hierarchy, with the axis its items were ordered on.
/// A span of a single item holds it on both sides.
#[derive(Clone, Copy, Debug)]
pub struct BvhNode {
    pub left: BvhChild,
    pub right: BvhChild,
    pub axis: usize,
}

/// A side of the node at index `at` names an item of the list or an earlier
/// node.
pub open spec fn child_valid(c: BvhChild, at: int, n_items: int) -> bool {
    match c {
        BvhChild::Leaf(p) => p < n_items,
        BvhChild::Node(j) => j < at,
    }
}

/// Every node refers to items of the list and to earlier nodes only, and
/// names one of the three axes.
pub open spec fn nodes_valid(nodes: Seq<BvhNode>, n_items: int) -> bool {
    forall|i: int|
        0 <= i < nodes.len() ==> #[trigger] child_valid(nodes[i].left, i, n_items)
            && child_valid(nodes[i].right, i, n_items) && nodes[i].axis < 3
}

/// The items reached from node `i`.
pub open spec fn items_under(nodes: Seq<BvhNode>, i: nat) -> Set<usize>
    decreases i,
{
    if i < nodes.len() {
        let l = match nodes[i as int].left {
            BvhChild::Leaf(p) => set![p],
            BvhChild::Node(j) => if j < i {
                items_under(nodes, j as nat)
            } else {
                Set::empty()
            },
        };
        let r = match nodes[i as int].right {
            BvhChild::Leaf(p) => set![p],
            BvhChild::Node(j) => if j < i {
                items_under(nodes, j as nat)
            } else {
                Set::empty()
            },
        };
        l + r
    } else {
        Set::empty()
    }
}

/// The items reached from one side of a node.
pub open spec fn items_of_child(nodes: Seq<BvhNode>, c: BvhChild) -> Set<usize> {
    match c {
        BvhChild::Leaf(p) => set![p],
        BvhChild::Node(j) => items_under(nodes, j as nat),
    }
}

/// On the node's axis, no item on the left side of node `i` has a larger
/// key than an item on its right side.
pub open spec fn node_ordered(keys: Seq<BoxKey>, nodes: Seq<BvhNode>, i: int) -> bool {
    forall|p: usize, q: usize|
        #[trigger] items_of_child(nodes, nodes[i].left).contains(p) && #[trigger] items_of_child(
            nodes,
            nodes[i].right,
        ).contains(q) ==> keys[p as int].on(nodes[i].axis as int) <= keys[q as int].on(
            nodes[i].axis as int,
        )
}

/// Every node is ordered on its axis.
pub open spec fn nodes_ordered(keys: Seq<BoxKey>, nodes: Seq<BvhNode>) -> bool {
    forall|i: int| 0 <= i < nodes.len() ==> #[trigger] node_ordered(keys, nodes, i)
}

/// How node `i` splits its items: one or two items sit directly on its
/// sides; three or more are split between two subtrees, the left one taking
/// the lower half (rounded down) and the right one the rest.
pub open spec fn node_balanced(nodes: Seq<BvhNode>, i: int) -> bool {
    match (nodes[i].left, nodes[i].right) {
        (BvhChild::Leaf(_), BvhChild::Leaf(_)) => true,
        (BvhChild::Node(a), BvhChild::Node(b)) => {
            let total = items_under(nodes, i as nat).len();
            &&& total >= 3
            &&& items_under(nodes, a as nat).len() == total / 2
            &&& items_under(nodes, b as nat).len() == total - total / 2
        },
        _ => false,
    }
}

/// Every node splits its items at the middle.
pub open spec fn nodes_balanced(nodes: Seq<BvhNode>) -> bool {
    forall|i: int| 0 <= i < nodes.len() ==> #[trigger] node_balanced(nodes, i)
}

/// Node `i` is a side of some later node.
pub open spec fn referenced(nodes: Seq<BvhNode>, i: int) -> bool {
    exists|j: int|
        i < j < nodes.len() && (#[trigger] nodes[j].left == BvhChild::Node(i as usize)
            || nodes[j].right == BvhChild::Node(i as usize))
}

/// Every node but the last (the root) is a side of a later node, so every
/// node is reached from the root.
pub open spec fn nodes_connected(nodes: Seq<BvhNode>) -> bool {
    forall|i: int| 0 <= i < nodes.len() - 1 ==> #[trigger] referenced(nodes, i)
}

/// Appending nodes leaves what an existing node reaches unchanged.
proof fn lemma_items_under_prefix(small: Seq<BvhNode>, big: Seq<BvhNode>, i: nat)
    requires
        small.len() <= big.len(),
        small == big.subrange(0, small.len() as int),
        i < small.len(),
    ensures
        items_under(big, i) == items_under(small, i),
    decreases i,
{
    assert(big[i as int] == small[i as int]);
    match small[i as int].left {
        BvhChild::Node(j) => if j < i {
            lemma_items_under_prefix(small, big, j as nat);
        },
        _ => {},
    }
    match small[i as int].right {
        BvhChild::Node(j) => if j < i {
            lemma_items_under_prefix(small, big, j as nat);
        },
        _ => {},
    }
}

/// The sequence of item indices is ordered by key on `axis`.
pub open spec fn sorted_on(keys: Seq<BoxKey>, s: Seq<usize>, axis: int) -> bool {
    forall|a: int, b: int|
        0 <= a < b < s.len() ==> #[trigger] keys[s[a] as int].on(axis) <= #[trigger] keys[s[b] as int].on(
            axis,
        )
}

/// Every index in `s` is below `n`.
pub open spec fn all_below(s: Seq<usize>, n: int) -> bool {
    forall|a: int| 0 <= a < s.len() ==> #[trigger] s[a] < n
}

/// Sorts item indices by their key on `axis`.
fn sort_on_axis(keys: &Vec<BoxKey>, items: &mut Vec<usize>, axis: usize)
    requires
        axis < 3,
        all_below(old(items)@, keys@.len() as int),
    ensures
        final(items)@.to_multiset() == old(items)@.to_multiset(),
        sorted_on(keys@, final(items)@, axis as int),
        all_below(final(items)@, keys@.len() as int),
{
    broadcast use vstd::seq_lib::group_to_multiset_ensures;
    broadcast use vstd::multiset::group_multiset_axioms;

    let n = items.len();
    if n == 0 {
        return;
    }
    let mut i: usize = 1;
    while i < n
        invariant
            1 <= i <= n,
            items.len() == n,
            axis < 3,
            items@.to_multiset() == old(items)@.to_multiset(),
            all_below(items@, keys@.len() as int),
            forall|a: int, b: int|
                0 <= a < b < i ==> #[trigger] keys[items@[a] as int].on(axis as int)
                    <= #[trigger] keys[items@[b] as int].on(axis as int),
        decreases n - i,
    {
        let mut j: usize = i;
        while j > 0 && keys[items[j - 1]].get(axis) > keys[items[j]].get(axis)
            invariant
                0 <= j <= i < n,
                items.len() == n,
                axis < 3,
                items@.to_multiset() == old(items)@.to_multiset(),
                all_below(items@, keys@.len() as int),
                forall|a: int, b: int|
                    0 <= a < b <= i && a != j && b != j ==> #[trigger] keys[items@[a] as int].on(
                        axis as int,
                    ) <= #[trigger] keys[items@[b] as int].on(axis as int),
                forall|b: int|
                    j < b <= i ==> keys[items@[j as int] as int].on(axis as int)
                        <= #[trigger] keys[items@[b] as int].on(axis as int),
            decreases j,
        {
            let a = items[j - 1];
            let b = items[j];
            let ghost before = items@;
            items.set(j - 1, b);
            items.set(j, a);
            proof {
                let mid = before.update(j - 1, b);
                vstd::seq_lib::to_multiset_update(before, j - 1, b);
                vstd::seq_lib::to_multiset_update(mid, j as int, a);
                assert(mid.to_multiset() == before.to_multiset().insert(b).remove(a));
                assert(items@ == mid.update(j as int, a));
                assert(items@.to_multiset() == mid.to_multiset().insert(a).remove(b));
                assert(before[j - 1] == a);
                assert(before.contains(a));
                vstd::seq_lib::to_multiset_contains(before, a);
                let m = before.to_multiset();
                assert(m.insert(b).remove(a).insert(a).remove(b) =~= m);
                assert(items@.to_multiset() =~= before.to_multiset());
            }
            j = j - 1;
        }
        i = i + 1;
    }
}

/// A sequence and a reordering of it hold the same items.
proof fn lemma_same_multiset_same_set(s: Seq<usize>, t: Seq<usize>)
    requires
        s.to_multiset() == t.to_multiset(),
    ensures
        s.to_set() == t.to_set(),
{
    assert forall|x: usize| s.contains(x) <==> t.contains(x) by {
        vstd::seq_lib::to_multiset_contains(s, x);
        vstd::seq_lib::to_multiset_contains(t, x);
    }
    assert(s.to_set() =~= t.to_set());
}

/// Builds the subtree over `items`, appending its nodes to `nodes`, and
/// returns the index of its root, the last node appended.
///
/// One axis is drawn at random. A single item is held on both sides; two
/// items are ordered by their keys on that axis; more are sorted on it and
/// split at the middle into two subtrees.
#[verifier::rlimit(40)]
fn build_span(
    nodes: &mut Vec<BvhNode>,
    keys: &Vec<BoxKey>,
    items: Vec<usize>,
    rng: &mut rand::rngs::SmallRng,
) -> (r: usize)
    requires
        items.len() >= 1,
        all_below(items@, keys@.len() as int),
        nodes_valid(old(nodes)@, keys@.len() as int),
        nodes_ordered(keys@, old(nodes)@),
        nodes_balanced(old(nodes)@),
        items@.no_duplicates(),
    ensures
        final(nodes)@.len() > old(nodes)@.len(),
        forall|i: int|
            old(nodes)@.len() <= i < final(nodes)@.len() - 1 ==> #[trigger] referenced(
                final(nodes)@,
                i,
            ),
        nodes_ordered(keys@, final(nodes)@),
        nodes_balanced(final(nodes)@),
        final(nodes)@.subrange(0, old(nodes)@.len() as int) == old(nodes)@,
        nodes_valid(final(nodes)@, keys@.len() as int),
        r == final(nodes)@.len() - 1,
        items_under(final(nodes)@, r as nat) == items@.to_set(),
    decreases items.len(),
{
    let ghost start = nodes@;
    let ghost n_items = keys@.len() as int;
    let axis = below(rng, 3) as usize;
    let span = items.len();
    let node;
    // What the two sides of the new node will reach.
    let ghost mut left_set: Set<usize>;
    let ghost mut right_set: Set<usize>;
    if span == 1 {
        let p = items[0];
        node = BvhNode { left: BvhChild::Leaf(p), right: BvhChild::Leaf(p), axis };
        proof {
            left_set = set![p];
            right_set = set![p];
            assert(items@.to_set() =~= set![p]);
        }
    } else if span == 2 {
        let p = items[0];
        let q = items[1];
        if keys[p].get(axis) < keys[q].get(axis) {
            node = BvhNode { left: BvhChild::Leaf(p), right: BvhChild::Leaf(q), axis };
            proof {
                left_set = set![p];
                right_set = set![q];
            }
        } else {
            node = BvhNode { left: BvhChild::Leaf(q), right: BvhChild::Leaf(p), axis };
            proof {
                left_set = set![q];
                right_set = set![p];
            }
        }
        proof {
            assert(items@.to_set() =~= set![p] + set![q]);
            assert(set![p] + set![q] =~= set![q] + set![p]);
        }
    } else {
        let ghost given = items@;
        let mut lo = items;
        sort_on_axis(keys, &mut lo, axis);
        let ghost sorted = lo@;
        proof {
            vstd::seq_lib::to_multiset_len(sorted);
            vstd::seq_lib::to_multiset_len(given);
            given.lemma_multiset_has_no_duplicates();
            sorted.lemma_multiset_has_no_duplicates_conv();
        }
        let mid = lo.len() / 2;
        let hi = lo.split_off(mid);
        let ghost lo_items = lo@;
        let ghost hi_items = hi@;
        proof {
            lemma_same_multiset_same_set(sorted, items@);
            assert(sorted == lo@ + hi@);
            vstd::seq_lib::seq_to_set_distributes_over_add(lo@, hi@);
        }
        let l = build_span(nodes, keys, lo, rng);
        let ghost after_left = nodes@;
        let r = build_span(nodes, keys, hi, rng);
        let ghost after_right = nodes@;
        proof {
            assert(l < r);
            assert(r == after_right.len() - 1);
            assert forall|i: int|
                start.len() <= i < after_right.len() - 1 && i != l implies #[trigger] referenced(
                after_right,
                i,
            ) by {
                if i < l {
                    assert(referenced(after_left, i));
                    let j = choose|j: int|
                        i < j < after_left.len() && (#[trigger] after_left[j].left == BvhChild::Node(
                            i as usize,
                        ) || after_left[j].right == BvhChild::Node(i as usize));
                    assert(after_right[j] == after_left[j]);
                }
            }
            assert(after_left == nodes@.subrange(0, after_left.len() as int));
            lemma_items_under_prefix(after_left, nodes@, l as nat);
            left_set = lo_items.to_set();
            right_set = hi_items.to_set();
            lo_items.unique_seq_to_set();
            hi_items.unique_seq_to_set();
            given.unique_seq_to_set();
            assert forall|p: usize, q: usize|
                left_set.contains(p) && right_set.contains(q) implies keys@[p as int].on(
                axis as int,
            ) <= keys@[q as int].on(axis as int) by {
                let a = choose|a: int| 0 <= a < lo_items.len() && lo_items[a] == p;
                let b = choose|b: int| 0 <= b < hi_items.len() && hi_items[b] == q;
                assert(sorted[a] == p);
                assert(sorted[mid + b] == q);
            }
        }
        node = BvhNode { left: BvhChild::Node(l), right: BvhChild::Node(r), axis };
    }
    let ghost before_push = nodes@;
    nodes.push(node);
    let at = nodes.len() - 1;
    proof {
        assert(before_push == nodes@.subrange(0, before_push.len() as int));
        assert(start =~= nodes@.subrange(0, start.len() as int));
        match node.left {
            BvhChild::Node(j) => lemma_items_under_prefix(before_push, nodes@, j as nat),
            _ => {},
        }
        match node.right {
            BvhChild::Node(j) => lemma_items_under_prefix(before_push, nodes@, j as nat),
            _ => {},
        }
        assert(items_of_child(nodes@, node.left) == left_set);
        assert(items_of_child(nodes@, node.right) == right_set);
        assert(node_ordered(keys@, nodes@, at as int));
        assert(items_under(nodes@, at as nat) == left_set + right_set);
        assert(node_balanced(nodes@, at as int));
        assert forall|i: int| 0 <= i < nodes@.len() implies #[trigger] node_ordered(
            keys@,
            nodes@,
            i,
        ) by {
            if i < before_push.len() {
                assert(nodes@[i] == before_push[i]);
                assert(node_ordered(keys@, before_push, i));
                assert(child_valid(before_push[i].left, i, n_items));
                match before_push[i].left {
                    BvhChild::Node(j) => lemma_items_under_prefix(before_push, nodes@, j as nat),
                    _ => {},
                }
                match before_push[i].right {
                    BvhChild::Node(j) => lemma_items_under_prefix(before_push, nodes@, j as nat),
                    _ => {},
                }
                assert(items_of_child(nodes@, nodes@[i].left) == items_of_child(
                    before_push,
                    before_push[i].left,
                ));
                assert(items_of_child(nodes@, nodes@[i].right) == items_of_child(
                    before_push,
                    before_push[i].right,
                ));
            }
        }
        assert forall|i: int| 0 <= i < nodes@.len() implies #[trigger] node_balanced(nodes@, i) by {
            if i < before_push.len() {
                assert(nodes@[i] == before_push[i]);
                assert(node_balanced(before_push, i));
                assert(child_valid(before_push[i].left, i, n_items));
                lemma_items_under_prefix(before_push, nodes@, i as nat);
                match before_push[i].left {
                    BvhChild::Node(j) => lemma_items_under_prefix(before_push, nodes@, j as nat),
                    _ => {},
                }
                match before_push[i].right {
                    BvhChild::Node(j) => lemma_items_under_prefix(before_push, nodes@, j as nat),
                    _ => {},
                }
            }
        }
        assert forall|i: int| 0 <= i < nodes@.len() implies #[trigger] child_valid(
            nodes@[i].left,
            i,
            n_items,
        ) && child_valid(nodes@[i].right, i, n_items) && nodes@[i].axis < 3 by {
            if i < before_push.len() {
                assert(nodes@[i] == before_push[i]);
                assert(child_valid(before_push[i].left, i, n_items));
            } else {
                assert(nodes@[i] == node);
            }
        }
        assert(nodes_valid(nodes@, n_items));
        assert forall|i: int| start.len() <= i < nodes@.len() - 1 implies #[trigger] referenced(
            nodes@,
            i,
        ) by {
            if span >= 3 {
                let l = match node.left {
                    BvhChild::Node(l) => l as int,
                    _ => 0,
                };
                let r = match node.right {
                    BvhChild::Node(r) => r as int,
                    _ => 0,
                };
                if i == l {
                    assert(nodes@[at as int].left == BvhChild::Node(i as usize));
                } else if i == r {
                    assert(nodes@[at as int].right == BvhChild::Node(i as usize));
                } else {
                    assert(referenced(before_push, i));
                    let j = choose|j: int|
                        i < j < before_push.len() && (#[trigger] before_push[j].left
                            == BvhChild::Node(i as usize) || before_push[j].right == BvhChild::Node(
                            i as usize,
                        ));
                    assert(nodes@[j] == before_push[j]);
                }
            }
        }
    }
    at
}

/// The shape of a bounding volume hierarchy over a list of items.
pub struct BvhTree {
    nodes: Vec<BvhNode>,
    n_items: usize,
}

impl View for BvhTree {
    type V = Seq<BvhNode>;

    closed spec fn view(&self) -> Seq<BvhNode> {
        self.nodes@
    }
}

impl BvhTree {
    pub closed spec fn item_count(&self) -> nat {
        self.n_items as nat
    }

    /// At least one node, and every node refers to items of the list and to
    /// earlier nodes only.
    pub open spec fn wf(&self) -> bool {
        &&& self@.len() >= 1
        &&& nodes_valid(self@, self.item_count() as int)
    }

    pub open spec fn root_index(&self) -> nat {
        (self@.len() - 1) as nat
    }

    /// The items reached from the root.
    pub open spec fn items(&self) -> Set<usize> {
        items_under(self@, self.root_index())
    }

    /// Builds a hierarchy over the items whose keys are given, one per item.
    ///
    /// Every item is reached from the root, and nothing else; every node is
    /// a side of a later node, except the root. At every node,
    /// no item on the left has a larger key on the node's axis than an item
    /// on the right. A node over three or more items splits them at the
    /// middle into two subtrees.
    pub fn build(keys: &Vec<BoxKey>, rng: &mut rand::rngs::SmallRng) -> (t: BvhTree)
        requires
            keys.len() >= 1,
        ensures
            t.wf(),
            nodes_connected(t@),
            nodes_ordered(keys@, t@),
            nodes_balanced(t@),
            t.item_count() == keys@.len(),
            t.items() == Set::new(|p: usize| p < keys@.len()),
    {
        let n = keys.len();
        let mut items: Vec<usize> = Vec::with_capacity(n);
        let mut p: usize = 0;
        while p < n
            invariant
                p <= n,
                n == keys@.len(),
                items@ == Seq::new(p as nat, |k: int| k as usize),
            decreases n - p,
        {
            items.push(p);
            p = p + 1;
        }
        let ghost all = items@;
        assert(all.no_duplicates());
        let mut nodes: Vec<BvhNode> = Vec::new();
        let root = build_span(&mut nodes, keys, items, rng);
        proof {
            assert forall|x: usize| all.contains(x) <==> x < n by {
                if x < n {
                    assert(all[x as int] == x);
                }
            }
            assert(all.to_set() =~= Set::new(|x: usize| x < keys@.len()));
        }
        BvhTree { nodes, n_items: n }
    }

    /// Number of nodes.
    pub fn len(&self) -> (r: usize)
        ensures
            r == self@.len(),
    {
        self.nodes.len()
    }

    /// Index of the root node, the last one.
    pub fn root(&self) -> (r: usize)
        requires
            self.wf(),
        ensures
            r == self.root_index(),
    {
        self.nodes.len() - 1
    }

    /// The node at index `i`.
    pub fn node(&self, i: usize) -> (r: BvhNode)
        requires
            i < self@.len(),
        ensures
            r == self@[i as int],
    {
        self.nodes[i]
    }

    /// Number of items the tree was built over.
    pub fn item_len(&self) -> (r: usize)
        ensures
            r == self.item_count(),
    {
        self.n_items
    }
}

} // verus!
