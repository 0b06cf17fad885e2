//! The tree of alternative leaf scripts of a Taproot output, built from the
//! weights of the leaves so that heavy leaves sit near the root.

use crate::sums::{lemma_min_index, min_index};
use vstd::prelude::*;

verus! {

/// A script tree as a mathematical value. A leaf is named by its place among
/// the leaves that the tree was built from.
pub enum Shape {
    /// The leaf with this place.
    Leaf(nat),
    /// Two subtrees.
    Node(Box<Shape>, Box<Shape>),
}

impl Shape {
    /// The number of leaves.
    pub open spec fn leaf_count(self) -> nat
        decreases self,
    {
        match self {
            Shape::Leaf(_) => 1,
            Shape::Node(left, right) => left.leaf_count() + right.leaf_count(),
        }
    }

    /// The leaves from left to right, each with its depth, for a tree whose
    /// root lies at depth `depth`.
    pub open spec fn leaves_from(self, depth: nat) -> Seq<(nat, nat)>
        decreases self,
    {
        match self {
            Shape::Leaf(place) => seq![(depth, place)],
            Shape::Node(left, right) => left.leaves_from(depth + 1) + right.leaves_from(depth + 1),
        }
    }

    /// The leaves from left to right, each with the number of inner nodes
    /// between it and the root, the root counted.
    pub open spec fn leaves(self) -> Seq<(nat, nat)> {
        self.leaves_from(0)
    }

    /// Whether the leaf with this place is in the tree.
    pub open spec fn has(self, place: nat) -> bool
        decreases self,
    {
        match self {
            Shape::Leaf(held) => held == place,
            Shape::Node(left, right) => left.has(place) || right.has(place),
        }
    }

    /// The depth of the leaf with this place: the number of inner nodes
    /// between it and the root, the root counted.
    pub open spec fn depth_of(self, place: nat) -> nat
        decreases self,
    {
        match self {
            Shape::Leaf(_) => 0,
            Shape::Node(left, right) => if left.has(place) {
                1 + left.depth_of(place)
            } else {
                1 + right.depth_of(place)
            },
        }
    }

    /// The first `n` leaves in the order of their places, each with its
    /// depth.
    pub open spec fn in_order(self, n: nat) -> Seq<(nat, nat)> {
        Seq::new(n, |place: int| (self.depth_of(place as nat), place as nat))
    }

    /// A leaf of the tree is met when the leaves are walked, at its depth,
    /// which is less than the number of leaves.
    pub proof fn lemma_depth_of(self, place: nat, depth: nat)
        requires
            self.has(place),
        ensures
            self.leaves_from(depth).contains((depth + self.depth_of(place), place)),
            self.depth_of(place) < self.leaf_count(),
            self is Node ==> self.depth_of(place) >= 1,
            self.depth_of(place) == 0 ==> self is Leaf,
        decreases self,
    {
        match self {
            Shape::Leaf(_) => {
                assert(self.leaves_from(depth)[0] == (depth, place));
            },
            Shape::Node(left, right) => {
                left.lemma_leaves_from(depth + 1);
                right.lemma_leaves_from(depth + 1);
                let walk = self.leaves_from(depth);
                if left.has(place) {
                    left.lemma_depth_of(place, depth + 1);
                    let entry = (depth + 1 + left.depth_of(place), place);
                    let below = left.leaves_from(depth + 1);
                    let at = choose|at: int| 0 <= at < below.len() && below[at] == entry;
                    assert(walk[at] == entry);
                } else {
                    right.lemma_depth_of(place, depth + 1);
                    let entry = (depth + 1 + right.depth_of(place), place);
                    let below = right.leaves_from(depth + 1);
                    let at = choose|at: int| 0 <= at < below.len() && below[at] == entry;
                    assert(walk[left.leaves_from(depth + 1).len() + at] == entry);
                }
            },
        }
    }

    /// There are as many entries as leaves, and none lies above the root.
    pub proof fn lemma_leaves_from(self, depth: nat)
        ensures
            self.leaves_from(depth).len() == self.leaf_count(),
            self.leaf_count() >= 1,
            forall|i: int|
                0 <= i < self.leaves_from(depth).len() ==> (#[trigger] self.leaves_from(
                    depth,
                )[i]).0 >= depth,
            self is Node ==> forall|i: int|
                0 <= i < self.leaves_from(depth).len() ==> (#[trigger] self.leaves_from(
                    depth,
                )[i]).0 >= depth + 1,
        decreases self,
    {
        if let Shape::Node(left, right) = self {
            left.lemma_leaves_from(depth + 1);
            right.lemma_leaves_from(depth + 1);
        }
    }
}

/// A tree that waits to be joined with another, and its weight.
pub struct PendingShape {
    pub weight: nat,
    pub shape: Shape,
}

/// The weights of some pending trees.
pub open spec fn weights_of(pending: Seq<PendingShape>) -> Seq<nat> {
    Seq::new(pending.len(), |i: int| pending[i].weight)
}

/// The place of the lightest pending tree; of several that are lightest, the
/// one that has waited longest.
pub open spec fn lightest(pending: Seq<PendingShape>) -> int {
    min_index(weights_of(pending))
}

/// One step: the two lightest pending trees leave, the lightest first, and
/// the tree that joins them, the lightest on the left, waits last with the
/// sum of their weights.
pub open spec fn joined_once(pending: Seq<PendingShape>) -> Seq<PendingShape> {
    let first = lightest(pending);
    let rest = pending.remove(first);
    let second = lightest(rest);
    rest.remove(second).push(
        PendingShape {
            weight: pending[first].weight + rest[second].weight,
            shape: Shape::Node(Box::new(pending[first].shape), Box::new(rest[second].shape)),
        },
    )
}

/// The tree that is left when pending trees are joined, two at a time, until
/// one is left.
pub open spec fn joined(pending: Seq<PendingShape>) -> Shape
    decreases pending.len(),
    via joined_decreases
{
    if pending.len() == 0 {
        Shape::Leaf(0)
    } else if pending.len() == 1 {
        pending[0].shape
    } else {
        joined(joined_once(pending))
    }
}

#[via_fn]
proof fn joined_decreases(pending: Seq<PendingShape>) {
    if pending.len() >= 2 {
        lemma_joined_once(pending);
    }
}

/// Every leaf waiting by itself, in the order of the leaves.
pub open spec fn single_leaves(weights: Seq<u64>) -> Seq<PendingShape> {
    Seq::new(
        weights.len(),
        |i: int| PendingShape { weight: weights[i] as nat, shape: Shape::Leaf(i as nat) },
    )
}

/// The tree over leaves with the given weights.
pub open spec fn tree_of(weights: Seq<u64>) -> Shape {
    joined(single_leaves(weights))
}

/// The sum of some weights.
pub open spec fn weight_sum(weights: Seq<u64>) -> nat
    decreases weights.len(),
{
    if weights.len() == 0 {
        0
    } else {
        weight_sum(weights.drop_last()) + weights.last() as nat
    }
}

/// The number of leaves in some pending trees.
pub open spec fn leaves_in(pending: Seq<PendingShape>) -> nat
    decreases pending.len(),
{
    if pending.len() == 0 {
        0
    } else {
        leaves_in(pending.drop_last()) + pending.last().shape.leaf_count()
    }
}

/// The weight of some pending trees together.
pub open spec fn weight_in(pending: Seq<PendingShape>) -> nat
    decreases pending.len(),
{
    if pending.len() == 0 {
        0
    } else {
        weight_in(pending.drop_last()) + pending.last().weight
    }
}

/// Taking a pending tree out takes its weight out.
pub proof fn lemma_weight_in_remove(pending: Seq<PendingShape>, at: int)
    requires
        0 <= at < pending.len(),
    ensures
        weight_in(pending.remove(at)) + pending[at].weight == weight_in(pending),
    decreases pending.len(),
{
    if at == pending.len() - 1 {
        assert(pending.remove(at) == pending.drop_last());
    } else {
        lemma_weight_in_remove(pending.drop_last(), at);
        assert(pending.remove(at).drop_last() == pending.drop_last().remove(at));
        assert(pending.remove(at).last() == pending.last());
    }
}

/// Taking a pending tree out takes its leaves out.
pub proof fn lemma_leaves_in_remove(pending: Seq<PendingShape>, at: int)
    requires
        0 <= at < pending.len(),
    ensures
        leaves_in(pending.remove(at)) + pending[at].shape.leaf_count() == leaves_in(pending),
    decreases pending.len(),
{
    if at == pending.len() - 1 {
        assert(pending.remove(at) == pending.drop_last());
    } else {
        lemma_leaves_in_remove(pending.drop_last(), at);
        assert(pending.remove(at).drop_last() == pending.drop_last().remove(at));
        assert(pending.remove(at).last() == pending.last());
    }
}

/// A step leaves one tree fewer and keeps every leaf.
pub proof fn lemma_joined_once(pending: Seq<PendingShape>)
    requires
        pending.len() >= 2,
    ensures
        joined_once(pending).len() == pending.len() - 1,
        leaves_in(joined_once(pending)) == leaves_in(pending),
        weight_in(joined_once(pending)) == weight_in(pending),
        pending[lightest(pending)].weight + pending.remove(lightest(pending))[lightest(
            pending.remove(lightest(pending)),
        )].weight <= weight_in(pending),
        joined_once(pending).last().shape is Node,
        0 <= lightest(pending) < pending.len(),
        0 <= lightest(pending.remove(lightest(pending))) < pending.len() - 1,
{
    let first = lightest(pending);
    lemma_min_index(weights_of(pending));
    let rest = pending.remove(first);
    let second = lightest(rest);
    lemma_min_index(weights_of(rest));
    lemma_leaves_in_remove(pending, first);
    lemma_leaves_in_remove(rest, second);
    lemma_weight_in_remove(pending, first);
    lemma_weight_in_remove(rest, second);
    let last = joined_once(pending);
    assert(last.drop_last() == rest.remove(second));
}

/// Joining keeps every leaf, and where more than one tree waits, the tree
/// that is left has an inner node at its root.
pub proof fn lemma_joined(pending: Seq<PendingShape>)
    requires
        pending.len() >= 1,
    ensures
        joined(pending).leaf_count() == leaves_in(pending),
        pending.len() >= 2 ==> joined(pending) is Node,
    decreases pending.len(),
{
    if pending.len() == 1 {
        assert(pending.drop_last().len() == 0);
        assert(leaves_in(pending.drop_last()) == 0);
    } else {
        lemma_joined_once(pending);
        let next = joined_once(pending);
        lemma_joined(next);
        if next.len() == 1 {
            assert(next[0] == next.last());
        }
    }
}

/// Whether the leaf with this place is in one of the pending trees.
pub open spec fn held(pending: Seq<PendingShape>, place: nat) -> bool {
    exists|at: int| 0 <= at < pending.len() && (#[trigger] pending[at]).shape.has(place)
}

/// A step keeps every leaf that is held.
pub proof fn lemma_joined_once_holds(pending: Seq<PendingShape>, place: nat)
    requires
        pending.len() >= 2,
        held(pending, place),
    ensures
        held(joined_once(pending), place),
{
    lemma_joined_once(pending);
    let first = lightest(pending);
    let rest = pending.remove(first);
    let second = lightest(rest);
    let next = joined_once(pending);
    let at = choose|at: int| 0 <= at < pending.len() && (#[trigger] pending[at]).shape.has(place);
    if at == first {
        assert(next[next.len() - 1].shape.has(place));
    } else {
        let moved = if at < first {
            at
        } else {
            at - 1
        };
        assert(rest[moved] == pending[at]);
        if moved == second {
            assert(next[next.len() - 1].shape.has(place));
        } else {
            let settled = if moved < second {
                moved
            } else {
                moved - 1
            };
            assert(next[settled] == rest[moved]);
        }
    }
}

/// The tree that is left holds every leaf that was held.
pub proof fn lemma_joined_holds(pending: Seq<PendingShape>, place: nat)
    requires
        pending.len() >= 1,
        held(pending, place),
    ensures
        joined(pending).has(place),
    decreases pending.len(),
{
    if pending.len() >= 2 {
        lemma_joined_once(pending);
        lemma_joined_once_holds(pending, place);
        lemma_joined_holds(joined_once(pending), place);
    }
}

/// As many leaves wait by themselves as there are weights, and they weigh
/// as much.
pub proof fn lemma_single_leaves(weights: Seq<u64>)
    ensures
        leaves_in(single_leaves(weights)) == weights.len(),
        weight_in(single_leaves(weights)) == weight_sum(weights),
    decreases weights.len(),
{
    if weights.len() > 0 {
        lemma_single_leaves(weights.drop_last());
        assert(single_leaves(weights).drop_last() == single_leaves(weights.drop_last()));
    }
}

/// A tree built over `n` leaves holds each of them, and has `n` entries
/// whether its leaves are walked from left to right or in the order in which
/// they were given; each entry of the second walk, a leaf with its depth, is
/// one of the first. With more than one leaf, every leaf lies at depth 1 or
/// deeper; a leaf lies at depth 0 only where it is the only one.
pub proof fn law_tree_completeness(weights: Seq<u64>)
    requires
        weights.len() >= 1,
    ensures
        tree_of(weights).leaves().len() == weights.len(),
        tree_of(weights).in_order(weights.len()).len() == weights.len(),
        forall|place: nat|
            place < weights.len() ==> #[trigger] tree_of(weights).has(place) && tree_of(
                weights,
            ).leaves().contains((tree_of(weights).depth_of(place), place)),
        forall|place: nat|
            place < weights.len() && weights.len() > 1 ==> #[trigger] tree_of(weights).depth_of(
                place,
            ) >= 1,
        forall|place: nat|
            place < weights.len() && #[trigger] tree_of(weights).depth_of(place) == 0
                ==> weights.len() == 1,
{
    let tree = tree_of(weights);
    lemma_single_leaves(weights);
    lemma_joined(single_leaves(weights));
    tree.lemma_leaves_from(0);
    assert forall|place: nat| place < weights.len() implies #[trigger] tree.has(place)
        && tree.leaves().contains((tree.depth_of(place), place)) && (weights.len() > 1
        ==> tree.depth_of(place) >= 1) && (tree.depth_of(place) == 0 ==> weights.len() == 1) by {
        assert(single_leaves(weights)[place as int].shape.has(place));
        lemma_joined_holds(single_leaves(weights), place);
        tree.lemma_depth_of(place, 0);
    }
    assert forall|place: nat| place < weights.len() implies (weights.len() > 1
        ==> #[trigger] tree.depth_of(place) >= 1) && (tree.depth_of(place) == 0 ==> weights.len()
        == 1) by {
        assert(tree.has(place));
    }
}

/// What building a tree comes to: no tree where there are no leaves, a
/// failure where the weights sum to more than a machine number holds or to
/// nothing, and else the tree over the leaves.
pub open spec fn build_outcome(weights: Seq<u64>) -> Result<Option<Shape>, TreeError> {
    if weights.len() == 0 {
        Ok(None)
    } else if weight_sum(weights) > u64::MAX {
        Err(TreeError::Overflow)
    } else if weight_sum(weights) == 0 {
        Err(TreeError::NoWeight)
    } else {
        Ok(Some(tree_of(weights)))
    }
}

/// Why no tree was built.
#[derive(Clone, Copy, PartialEq, Eq, Debug, Structural)]
pub enum TreeError {
    /// The weights of the leaves sum to nothing.
    NoWeight,
    /// The weights of the leaves sum to more than a machine number holds.
    Overflow,
}

/// A tree of leaf scripts. A leaf is named by its place among the leaves
/// that the tree was built from.
#[derive(PartialEq, Eq, Debug)]
pub enum ScriptTree {
    /// The leaf with this place.
    Leaf(usize),
    /// Two subtrees.
    Node(Box<ScriptTree>, Box<ScriptTree>),
}

impl View for ScriptTree {
    type V = Shape;

    open spec fn view(&self) -> Shape {
        self.shape()
    }
}

/// A tree that waits to be joined with another, and its weight.
struct Pending {
    weight: u64,
    tree: ScriptTree,
}

/// Pending trees as mathematical values.
spec fn pending_view(pending: Seq<Pending>) -> Seq<PendingShape> {
    Seq::new(
        pending.len(),
        |i: int| PendingShape { weight: pending[i].weight as nat, shape: pending[i].tree@ },
    )
}

/// The place of the lightest pending tree; of several that are lightest, the
/// one that has waited longest.
fn lightest_at(pending: &Vec<Pending>) -> (at: usize)
    requires
        pending.len() > 0,
    ensures
        at == lightest(pending_view(pending@)),
        at < pending.len(),
{
    let ghost weights = weights_of(pending_view(pending@));
    let mut at: usize = 0;
    let mut i: usize = 1;
    proof {
        assert(weights.take(1).len() == 1);
    }
    while i < pending.len()
        invariant
            1 <= i <= pending.len(),
            at < i,
            weights == weights_of(pending_view(pending@)),
            at == min_index(weights.take(i as int)),
        decreases pending.len() - i,
    {
        proof {
            let more = weights.take(i as int + 1);
            assert(more.drop_last() == weights.take(i as int));
            assert(more.last() == pending[i as int].weight as nat);
            assert(more[at as int] == pending[at as int].weight as nat);
        }
        if pending[i].weight < pending[at].weight {
            at = i;
        }
        i += 1;
    }
    proof {
        assert(weights.take(pending.len() as int) == weights);
    }
    at
}

impl ScriptTree {
    /// The tree as a mathematical value.
    pub open spec fn shape(&self) -> Shape
        decreases self,
    {
        match self {
            ScriptTree::Leaf(place) => Shape::Leaf(*place as nat),
            ScriptTree::Node(left, right) => Shape::Node(
                Box::new(left.shape()),
                Box::new(right.shape()),
            ),
        }
    }

    /// Builds the tree over leaves with the given weights. The two lightest
    /// pending trees are joined, the lighter on the left, until one tree is
    /// left; of trees that weigh the same, the one that has waited longest
    /// goes first, and a joined tree waits behind all others.
    pub fn build(weights: &Vec<u64>) -> (built: Result<Option<ScriptTree>, TreeError>)
        ensures
            match built {
                Ok(Some(tree)) => build_outcome(weights@) == Ok::<Option<Shape>, TreeError>(
                    Some(tree@),
                ) && tree@.leaf_count() == weights.len() && forall|place: nat|
                    place < weights.len() ==> #[trigger] tree@.has(place),
                Ok(None) => build_outcome(weights@) == Ok::<Option<Shape>, TreeError>(None),
                Err(error) => build_outcome(weights@) == Err::<Option<Shape>, TreeError>(error),
            },
    {
        if weights.len() == 0 {
            return Ok(None);
        }
        let mut pending: Vec<Pending> = Vec::new();
        let mut total: u64 = 0;
        let mut i: usize = 0;
        while i < weights.len()
            invariant
                i <= weights.len(),
                total == weight_sum(weights@.take(i as int)),
                pending_view(pending@) == single_leaves(weights@.take(i as int)),
            decreases weights.len() - i,
        {
            proof {
                assert(weights@.take(i as int + 1).drop_last() == weights@.take(i as int));
                lemma_weight_sum_grows(weights@, i as int + 1);
            }
            total = match total.checked_add(weights[i]) {
                Some(sum) => sum,
                None => {
                    return Err(TreeError::Overflow);
                },
            };
            let ghost before = pending_view(pending@);
            proof {
                assert(weights@.take(i as int).len() == i);
                assert(single_leaves(weights@.take(i as int)).len() == i);
                assert(before.len() == pending@.len());
            }
            pending.push(Pending { weight: weights[i], tree: ScriptTree::Leaf(i) });
            proof {
                let after = pending_view(pending@);
                let wanted = single_leaves(weights@.take(i as int + 1));
                assert(after.len() == wanted.len());
                assert forall|j: int| 0 <= j < after.len() implies after[j] == wanted[j] by {
                    if j < i {
                        assert(before[j] == single_leaves(weights@.take(i as int))[j]);
                    }
                }
                assert(after == wanted);
            }
            i += 1;
        }
        proof {
            assert(weights@.take(weights.len() as int) == weights@);
            lemma_single_leaves(weights@);
        }
        if total == 0 {
            return Err(TreeError::NoWeight);
        }
        while pending.len() > 1
            invariant
                pending.len() >= 1,
                joined(pending_view(pending@)) == tree_of(weights@),
                weight_in(pending_view(pending@)) <= u64::MAX,
            decreases pending.len(),
        {
            let ghost before = pending_view(pending@);
            proof {
                lemma_joined_once(before);
            }
            let first = lightest_at(&pending);
            let lighter = pending.remove(first);
            assert(pending_view(pending@) == before.remove(first as int));
            let second = lightest_at(&pending);
            let heavier = pending.remove(second);
            pending.push(
                Pending {
                    weight: lighter.weight + heavier.weight,
                    tree: ScriptTree::Node(Box::new(lighter.tree), Box::new(heavier.tree)),
                },
            );
            assert(pending_view(pending@) == joined_once(before));
        }
        let ghost before = pending_view(pending@);
        let last = pending.remove(0);
        proof {
            assert(before[0].shape == last.tree@);
            law_tree_completeness(weights@);
            last.tree@.lemma_leaves_from(0);
        }
        Ok(Some(last.tree))
    }

    /// The depth of the leaf with this place, if the tree holds it.
    pub fn depth_of(&self, place: usize) -> (depth: Option<usize>)
        requires
            self@.leaf_count() <= usize::MAX,
        ensures
            depth is Some == self@.has(place as nat),
            depth matches Some(found) ==> found == self@.depth_of(place as nat),
        decreases self,
    {
        match self {
            ScriptTree::Leaf(held) => if *held == place {
                Some(0)
            } else {
                None
            },
            ScriptTree::Node(left, right) => {
                proof {
                    left@.lemma_leaves_from(0);
                    right@.lemma_leaves_from(0);
                }
                match left.depth_of(place) {
                    Some(below) => {
                        proof {
                            left@.lemma_depth_of(place as nat, 0);
                        }
                        Some(below + 1)
                    },
                    None => match right.depth_of(place) {
                        Some(below) => {
                            proof {
                                right@.lemma_depth_of(place as nat, 0);
                            }
                            Some(below + 1)
                        },
                        None => None,
                    },
                }
            },
        }
    }

    /// The first `n` leaves in the order in which they were given, each as
    /// its depth and its place.
    pub fn leaves(&self, n: usize) -> (walk: Vec<(usize, usize)>)
        requires
            self@.leaf_count() <= usize::MAX,
            forall|place: nat| place < n ==> #[trigger] self@.has(place),
        ensures
            walk@.len() == n,
            forall|place: int|
                0 <= place < n ==> (#[trigger] walk@[place]).0 == self@.depth_of(place as nat)
                    && walk@[place].1 == place,
    {
        let mut walk: Vec<(usize, usize)> = Vec::new();
        let mut place: usize = 0;
        while place < n
            invariant
                place <= n,
                walk@.len() == place,
                self@.leaf_count() <= usize::MAX,
                forall|place: nat| place < n ==> #[trigger] self@.has(place),
                forall|before: int|
                    0 <= before < place ==> (#[trigger] walk@[before]).0 == self@.depth_of(
                        before as nat,
                    ) && walk@[before].1 == before,
            decreases n - place,
        {
            assert(self@.has(place as nat));
            match self.depth_of(place) {
                Some(depth) => {
                    walk.push((depth, place));
                },
                None => {},
            }
            place += 1;
        }
        walk
    }
}

/// The sum of some of the weights is no more than the sum of all.
pub proof fn lemma_weight_sum_grows(weights: Seq<u64>, n: int)
    requires
        0 <= n <= weights.len(),
    ensures
        weight_sum(weights.take(n)) <= weight_sum(weights),
    decreases weights.len() - n,
{
    if n == weights.len() {
        assert(weights.take(n) == weights);
    } else {
        assert(weights.take(n + 1).drop_last() == weights.take(n));
        lemma_weight_sum_grows(weights, n + 1);
    }
}

} // verus!
