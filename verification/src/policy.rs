//! The abstract spending policy: a tree of keys, timelocks, hash commitments
//! and thresholds, and what can be read off it.

use crate::engine::{
    in_order, normalized_of, normalized_policy, policy_option, policy_text, rearranged, sorted_by,
    sorted_policy, sorted_policy_keyed, text_of,
};
use crate::info::MiniscriptKeyType;
use crate::sums::{
    first_seen, least_sum, lemma_first_seen, lemma_least_sum_le_total, lemma_least_sum_sorted,
    lemma_total_bounds, lemma_total_take, present, total,
};
use std::collections::HashSet;
use vstd::prelude::*;
use vstd::seq_lib::{
    to_multiset_build, to_multiset_contains, to_multiset_insert, to_multiset_len,
    to_multiset_remove,
};

verus! {

/// The largest number of nodes that a policy may have to be analysed.
pub const MAX_NODES: usize = 1_000_000;

/// The largest number of levels that a policy may have to be analysed.
pub const MAX_DEPTH: usize = 512;

/// A policy as a mathematical tree. Keys and hash commitments stand as the
/// text that names them.
pub enum PolicyTree {
    /// Can never be satisfied.
    Unsatisfiable,
    /// Satisfied by the empty witness.
    Trivial,
    /// A signature for this key.
    Key(Seq<char>),
    /// An absolute timelock.
    After(u32),
    /// A relative timelock.
    Older(u32),
    /// The preimage of a SHA-256 digest.
    Sha256(Seq<char>),
    /// The preimage of a double SHA-256 digest.
    Hash256(Seq<char>),
    /// The preimage of a RIPEMD-160 digest.
    Ripemd160(Seq<char>),
    /// The preimage of a HASH-160 digest.
    Hash160(Seq<char>),
    /// At least this many of the branches. With the count equal to the number
    /// of branches this is a conjunction, with the count 1 a disjunction.
    Threshold(nat, Seq<PolicyTree>),
}

impl PolicyTree {
    /// The branches of a threshold; a leaf has none.
    pub open spec fn children(self) -> Seq<PolicyTree> {
        match self {
            PolicyTree::Threshold(_, subs) => subs,
            _ => Seq::empty(),
        }
    }

    /// Whether the policy is a conjunction: a threshold that counts all of
    /// its branches.
    pub open spec fn is_conjunction(self) -> bool {
        self matches PolicyTree::Threshold(k, subs) && k == subs.len()
    }

    /// Whether the policy is a disjunction: a threshold that counts one of
    /// its branches.
    pub open spec fn is_disjunction(self) -> bool {
        self matches PolicyTree::Threshold(k, _) && k == 1
    }

    /// Whether the policy is flat at its root: a threshold has two branches
    /// or more and counts at least one and at most all of them, no branch is
    /// trivial or cannot be satisfied, a conjunction holds no conjunction
    /// and a disjunction holds no disjunction.
    pub open spec fn flat(self) -> bool {
        self matches PolicyTree::Threshold(k, subs) ==> {
            &&& subs.len() >= 2
            &&& 1 <= k <= subs.len()
            &&& forall|i: int|
                0 <= i < subs.len() ==> {
                    &&& !((#[trigger] subs[i]) is Trivial)
                    &&& !(subs[i] is Unsatisfiable)
                    &&& k == subs.len() ==> !subs[i].is_conjunction()
                    &&& k == 1 ==> !subs[i].is_disjunction()
                }
        }
    }

    /// The number of nodes.
    pub open spec fn size(self) -> nat
        decreases self, 0nat,
    {
        match self {
            PolicyTree::Threshold(_, subs) => 1 + Self::size_of_first(subs, subs.len()),
            _ => 1,
        }
    }

    /// The number of nodes in the first `n` of `subs`.
    pub open spec fn size_of_first(subs: Seq<PolicyTree>, n: nat) -> nat
        decreases subs, n,
    {
        if n == 0 || n > subs.len() {
            0
        } else {
            Self::size_of_first(subs, (n - 1) as nat) + subs[n - 1].size()
        }
    }

    /// The number of levels: 1 for a leaf, and for a threshold one more than
    /// for its deepest branch.
    pub open spec fn depth(self) -> nat
        decreases self, 0nat,
    {
        match self {
            PolicyTree::Threshold(_, subs) => 1 + Self::depth_of_first(subs, subs.len()),
            _ => 1,
        }
    }

    /// The number of levels of the deepest of the first `n` of `subs`.
    pub open spec fn depth_of_first(subs: Seq<PolicyTree>, n: nat) -> nat
        decreases subs, n,
    {
        if n == 0 || n > subs.len() {
            0
        } else if Self::depth_of_first(subs, (n - 1) as nat) >= subs[n - 1].depth() {
            Self::depth_of_first(subs, (n - 1) as nat)
        } else {
            subs[n - 1].depth()
        }
    }

    /// Whether the tree is small and shallow enough to be analysed.
    pub open spec fn within_limit(self) -> bool {
        self.size() <= MAX_NODES && self.depth() <= MAX_DEPTH
    }

    /// The number of key leaves. A key that stands at two leaves counts twice.
    pub open spec fn key_count(self) -> nat
        decreases self, 0nat,
    {
        match self {
            PolicyTree::Key(_) => 1,
            PolicyTree::Threshold(_, subs) => Self::keys_in_first(subs, subs.len()),
            _ => 0,
        }
    }

    /// The number of key leaves in the first `n` of `subs`.
    pub open spec fn keys_in_first(subs: Seq<PolicyTree>, n: nat) -> nat
        decreases subs, n,
    {
        if n == 0 || n > subs.len() {
            0
        } else {
            Self::keys_in_first(subs, (n - 1) as nat) + subs[n - 1].key_count()
        }
    }

    /// Whether some choice of keys, preimages and times satisfies the policy:
    /// a threshold needs as many branches that can be satisfied as it counts.
    pub open spec fn satisfiable(self) -> bool
        decreases self, 0nat,
    {
        match self {
            PolicyTree::Unsatisfiable => false,
            PolicyTree::Threshold(k, subs) => Self::satisfiable_in_first(subs, subs.len()) >= k,
            _ => true,
        }
    }

    /// How many of the first `n` of `subs` can be satisfied.
    pub open spec fn satisfiable_in_first(subs: Seq<PolicyTree>, n: nat) -> nat
        decreases subs, n,
    {
        if n == 0 || n > subs.len() {
            0
        } else {
            Self::satisfiable_in_first(subs, (n - 1) as nat) + if subs[n - 1].satisfiable() {
                1nat
            } else {
                0nat
            }
        }
    }

    /// Whether the empty witness satisfies the policy: a threshold needs as
    /// many branches that ask for nothing as it counts.
    pub open spec fn trivial(self) -> bool
        decreases self, 0nat,
    {
        match self {
            PolicyTree::Trivial => true,
            PolicyTree::Threshold(k, subs) => Self::trivial_in_first(subs, subs.len()) >= k,
            _ => false,
        }
    }

    /// How many of the first `n` of `subs` the empty witness satisfies.
    pub open spec fn trivial_in_first(subs: Seq<PolicyTree>, n: nat) -> nat
        decreases subs, n,
    {
        if n == 0 || n > subs.len() {
            0
        } else {
            Self::trivial_in_first(subs, (n - 1) as nat) + if subs[n - 1].trivial() {
                1nat
            } else {
                0nat
            }
        }
    }

    /// The fewest key leaves whose signatures suffice: a key counts 1, any
    /// other leaf 0, and a threshold of `k` the `k` smallest counts among its
    /// branches that can be satisfied. Nothing where the policy cannot be
    /// satisfied.
    pub open spec fn min_keys(self) -> Option<nat>
        decreases self, 0nat,
    {
        match self {
            PolicyTree::Unsatisfiable => None,
            PolicyTree::Key(_) => Some(1),
            PolicyTree::Threshold(k, subs) => {
                let met = present(Self::min_keys_of_first(subs, subs.len()));
                if met.len() < k {
                    None
                } else {
                    Some(least_sum(met, k))
                }
            },
            _ => Some(0),
        }
    }

    /// The fewest keys of each of the first `n` of `subs`.
    pub open spec fn min_keys_of_first(subs: Seq<PolicyTree>, n: nat) -> Seq<Option<nat>>
        decreases subs, n,
    {
        if n == 0 || n > subs.len() {
            Seq::empty()
        } else {
            Self::min_keys_of_first(subs, (n - 1) as nat).push(subs[n - 1].min_keys())
        }
    }

    /// The relative timelocks of the tree, leaf by leaf from left to right.
    pub open spec fn older_values(self) -> Seq<u32>
        decreases self, 0nat,
    {
        match self {
            PolicyTree::Older(age) => seq![age],
            PolicyTree::Threshold(_, subs) => Self::older_in_first(subs, subs.len()),
            _ => Seq::empty(),
        }
    }

    /// The relative timelocks of the first `n` of `subs`.
    pub open spec fn older_in_first(subs: Seq<PolicyTree>, n: nat) -> Seq<u32>
        decreases subs, n,
    {
        if n == 0 || n > subs.len() {
            Seq::empty()
        } else {
            Self::older_in_first(subs, (n - 1) as nat) + subs[n - 1].older_values()
        }
    }

    /// The distinct relative timelocks, each where it is first seen.
    pub open spec fn relative_timelocks(self) -> Seq<u32> {
        first_seen(self.older_values())
    }

    /// Every tree has a node, and the nodes of some branches are no more than
    /// the nodes of more of them.
    pub proof fn lemma_size_of_first(subs: Seq<PolicyTree>, m: nat, n: nat)
        requires
            m <= n <= subs.len(),
        ensures
            Self::size_of_first(subs, m) <= Self::size_of_first(subs, n),
            m < n ==> Self::size_of_first(subs, m) + subs[m as int].size() <= Self::size_of_first(
                subs,
                n,
            ),
        decreases n - m,
    {
        if m < n {
            Self::lemma_size_of_first(subs, m + 1, n);
        }
    }

    /// The deepest of some branches is no deeper than the deepest of more
    /// of them.
    pub proof fn lemma_depth_of_first(subs: Seq<PolicyTree>, m: nat, n: nat)
        requires
            m <= n <= subs.len(),
        ensures
            Self::depth_of_first(subs, m) <= Self::depth_of_first(subs, n),
            m < n ==> subs[m as int].depth() <= Self::depth_of_first(subs, n),
        decreases n - m,
    {
        if m < n {
            Self::lemma_depth_of_first(subs, m + 1, n);
        }
    }

    /// A branch is smaller and less deep than the threshold that holds it.
    pub proof fn lemma_child_size(self, i: int)
        requires
            0 <= i < self.children().len(),
        ensures
            1 + Self::size_of_first(self.children(), i as nat) + self.children()[i].size()
                <= self.size(),
            1 + self.children()[i].depth() <= self.depth(),
            self.within_limit() ==> self.children()[i].within_limit(),
    {
        Self::lemma_size_of_first(self.children(), i as nat, self.children().len());
        Self::lemma_depth_of_first(self.children(), i as nat, self.children().len());
    }

    /// A tree has no more key leaves than nodes.
    pub proof fn lemma_key_count_le_size(self)
        ensures
            self.key_count() <= self.size(),
        decreases self, 0nat,
    {
        if let PolicyTree::Threshold(_, subs) = self {
            Self::lemma_keys_in_first_le_size(subs, subs.len());
        }
    }

    /// Some branches have no more key leaves than nodes.
    pub proof fn lemma_keys_in_first_le_size(subs: Seq<PolicyTree>, n: nat)
        requires
            n <= subs.len(),
        ensures
            Self::keys_in_first(subs, n) <= Self::size_of_first(subs, n),
        decreases subs, n,
    {
        if n > 0 {
            Self::lemma_keys_in_first_le_size(subs, (n - 1) as nat);
            subs[n - 1].lemma_key_count_le_size();
        }
    }

    /// The fewest keys that suffice are never more than the key leaves.
    pub proof fn lemma_min_keys_le_key_count(self)
        ensures
            self.min_keys() matches Some(fewest) ==> fewest <= self.key_count(),
        decreases self, 0nat,
    {
        if let PolicyTree::Threshold(k, subs) = self {
            Self::lemma_min_keys_of_first(subs, subs.len());
            lemma_least_sum_le_total(present(Self::min_keys_of_first(subs, subs.len())), k);
        }
    }

    /// Of some branches, as many have a fewest number of keys as can be
    /// satisfied, and those numbers sum to no more than the key leaves.
    pub proof fn lemma_min_keys_of_first(subs: Seq<PolicyTree>, n: nat)
        requires
            n <= subs.len(),
        ensures
            Self::min_keys_of_first(subs, n).len() == n,
            forall|i: int|
                0 <= i < n ==> #[trigger] Self::min_keys_of_first(subs, n)[i] == subs[i].min_keys(),
            present(Self::min_keys_of_first(subs, n)).len() == Self::satisfiable_in_first(subs, n),
            total(present(Self::min_keys_of_first(subs, n))) <= Self::keys_in_first(subs, n),
        decreases subs, n,
    {
        if n > 0 {
            Self::lemma_min_keys_of_first(subs, (n - 1) as nat);
            subs[n - 1].lemma_min_keys_le_key_count();
            subs[n - 1].lemma_min_keys_iff_satisfiable();
            let mins = Self::min_keys_of_first(subs, n);
            assert(mins.drop_last() == Self::min_keys_of_first(subs, (n - 1) as nat));
            if mins.last() is Some {
                assert(present(mins).drop_last() == present(mins.drop_last()));
            }
        }
    }

    /// A policy has a fewest number of keys exactly where it can be satisfied.
    pub proof fn lemma_min_keys_iff_satisfiable(self)
        ensures
            self.min_keys() is Some <==> self.satisfiable(),
        decreases self, 1nat,
    {
        if let PolicyTree::Threshold(k, subs) = self {
            Self::lemma_min_keys_of_first(subs, subs.len());
        }
    }
}

/// The fewest keys that suffice are never more than the key leaves that a
/// policy has, and there are such keys exactly where the policy can be
/// satisfied.
pub proof fn law_minimum_keys(policy: PolicyTree)
    ensures
        policy.satisfiable() ==> policy.min_keys() is Some && policy.min_keys()->0
            <= policy.key_count(),
        !policy.satisfiable() <==> policy.min_keys() is None,
{
    policy.lemma_min_keys_le_key_count();
    policy.lemma_min_keys_iff_satisfiable();
}

/// The policy in order: what `elements-miniscript` makes of it by sorting,
/// with keys of the given kind, where that is within the limits, has the
/// key leaves and the fewest keys of the policy, and sorting it once more
/// changes nothing; else the policy itself. Nothing where a key or a digest
/// of the policy is not the text of one of the given kind.
pub open spec fn sorted_form(policy: PolicyTree, key_type: MiniscriptKeyType) -> Option<
    PolicyTree,
> {
    match sorted_by(policy, key_type) {
        Some(sorted) => Some(
            if sorted.within_limit() && sorted_by(sorted, key_type) == Some(sorted)
                && sorted.key_count() == policy.key_count() && sorted.min_keys()
                == policy.min_keys() {
                sorted
            } else {
                policy
            },
        ),
        None => None,
    }
}

/// The policy in normal form: what `elements-miniscript` makes of it by
/// normalising, where that is within the limits, has the fewest keys of the
/// policy, and normalising it once more changes nothing; else the policy
/// itself.
pub open spec fn normal_form(policy: PolicyTree) -> PolicyTree {
    if normalized_of(policy).within_limit() && normalized_of(normalized_of(policy))
        == normalized_of(policy) && normalized_of(policy).min_keys() == policy.min_keys() {
        normalized_of(policy)
    } else {
        policy
    }
}

/// Putting a policy in order twice gives what putting it in order once
/// gives, and that has the key leaves and the fewest keys of the policy.
pub proof fn law_sorted_idempotent(policy: PolicyTree, key_type: MiniscriptKeyType)
    requires
        policy.within_limit(),
    ensures
        sorted_form(policy, key_type) matches Some(sorted) ==> {
            &&& sorted.within_limit()
            &&& sorted_form(sorted, key_type) == Some(sorted)
            &&& sorted.key_count() == policy.key_count()
            &&& sorted.min_keys() == policy.min_keys()
        },
{
}

/// Normalising a policy twice gives what normalising it once gives, and that
/// has the fewest keys of the policy.
pub proof fn law_normalized_idempotent(policy: PolicyTree)
    requires
        policy.within_limit(),
    ensures
        normal_form(policy).within_limit(),
        normal_form(normal_form(policy)) == normal_form(policy),
        normal_form(policy).min_keys() == policy.min_keys(),
{
}

/// A spending policy. Keys and hash commitments are held as the text that
/// names them.
#[derive(PartialEq, Eq, Debug)]
pub enum Policy {
    /// Can never be satisfied.
    Unsatisfiable,
    /// Satisfied by the empty witness.
    Trivial,
    /// A signature for this key.
    Key(String),
    /// An absolute timelock.
    After(u32),
    /// A relative timelock.
    Older(u32),
    /// The preimage of a SHA-256 digest.
    Sha256(String),
    /// The preimage of a double SHA-256 digest.
    Hash256(String),
    /// The preimage of a RIPEMD-160 digest.
    Ripemd160(String),
    /// The preimage of a HASH-160 digest.
    Hash160(String),
    /// At least this many of the branches.
    Threshold(usize, Vec<Policy>),
}

impl View for Policy {
    type V = PolicyTree;

    open spec fn view(&self) -> PolicyTree {
        self.tree()
    }
}

impl Clone for Policy {
    #[verifier::loop_isolation(false)]
    fn clone(&self) -> (copy: Policy)
        ensures
            copy@ == self@,
        decreases self,
    {
        match self {
            Policy::Unsatisfiable => Policy::Unsatisfiable,
            Policy::Trivial => Policy::Trivial,
            Policy::Key(key) => Policy::Key(key.clone()),
            Policy::After(at) => Policy::After(*at),
            Policy::Older(age) => Policy::Older(*age),
            Policy::Sha256(digest) => Policy::Sha256(digest.clone()),
            Policy::Hash256(digest) => Policy::Hash256(digest.clone()),
            Policy::Ripemd160(digest) => Policy::Ripemd160(digest.clone()),
            Policy::Hash160(digest) => Policy::Hash160(digest.clone()),
            Policy::Threshold(k, subs) => {
                let mut copies: Vec<Policy> = Vec::new();
                let mut i: usize = 0;
                while i < subs.len()
                    invariant
                        i <= subs.len(),
                        copies.len() == i,
                        forall|j: int| 0 <= j < i ==> #[trigger] copies[j]@ == subs[j]@,
                    decreases subs.len() - i,
                {
                    let copy = subs[i].clone();
                    copies.push(copy);
                    i += 1;
                }
                let copy = Policy::Threshold(*k, copies);
                proof {
                    self.lemma_view_children();
                    copy.lemma_view_children();
                    assert(copy@.children() =~= self@.children());
                }
                copy
            },
        }
    }
}

impl Policy {
    /// The policy as a mathematical tree.
    pub open spec fn tree(&self) -> PolicyTree
        decreases self, 0nat,
    {
        match self {
            Policy::Unsatisfiable => PolicyTree::Unsatisfiable,
            Policy::Trivial => PolicyTree::Trivial,
            Policy::Key(key) => PolicyTree::Key(key@),
            Policy::After(at) => PolicyTree::After(*at),
            Policy::Older(age) => PolicyTree::Older(*age),
            Policy::Sha256(digest) => PolicyTree::Sha256(digest@),
            Policy::Hash256(digest) => PolicyTree::Hash256(digest@),
            Policy::Ripemd160(digest) => PolicyTree::Ripemd160(digest@),
            Policy::Hash160(digest) => PolicyTree::Hash160(digest@),
            Policy::Threshold(k, subs) => PolicyTree::Threshold(
                *k as nat,
                Policy::views_of_first(subs@, subs@.len()),
            ),
        }
    }

    /// The views of the first `n` of `subs`, in their order.
    pub open spec fn views_of_first(subs: Seq<Policy>, n: nat) -> Seq<PolicyTree>
        decreases subs, n,
    {
        if n == 0 || n > subs.len() {
            Seq::empty()
        } else {
            Policy::views_of_first(subs, (n - 1) as nat).push(subs[n - 1].tree())
        }
    }

    /// The views of some branches are as many, and each is the view of its
    /// branch.
    pub proof fn lemma_views_of_first(subs: Seq<Policy>, n: nat)
        requires
            n <= subs.len(),
        ensures
            Policy::views_of_first(subs, n).len() == n,
            forall|i: int| 0 <= i < n ==> #[trigger] Policy::views_of_first(subs, n)[i] == subs[i]@,
        decreases n,
    {
        if n > 0 {
            Policy::lemma_views_of_first(subs, (n - 1) as nat);
        }
    }

    /// The branches of a threshold are the views of the branches held.
    pub proof fn lemma_view_children(&self)
        ensures
            self matches Policy::Threshold(k, subs) ==> self@ is Threshold && self@->Threshold_0
                == *k && self@.children().len() == subs.len() && forall|i: int|
                0 <= i < subs.len() ==> #[trigger] self@.children()[i] == subs[i]@,
            !(self is Threshold) ==> !(self@ is Threshold),
    {
        if let Policy::Threshold(_, subs) = self {
            Policy::lemma_views_of_first(subs@, subs@.len());
        }
    }

    /// What is left of a budget of nodes once the nodes of this policy are
    /// taken from it, if it covers them and the policy has no more levels
    /// than are allowed.
    #[verifier::loop_isolation(false)]
    fn spend(&self, budget: usize, levels: usize) -> (left: Option<usize>)
        ensures
            self@.size() <= budget && self@.depth() <= levels ==> left == Some(
                (budget - self@.size()) as usize,
            ),
            self@.size() > budget || self@.depth() > levels ==> left is None,
        decreases self,
    {
        proof {
            self.lemma_view_children();
        }
        if budget == 0 || levels == 0 {
            return None;
        }
        let mut left: usize = budget - 1;
        if let Policy::Threshold(_, subs) = self {
            let mut i: usize = 0;
            while i < subs.len()
                invariant
                    i <= subs.len(),
                    1 + PolicyTree::size_of_first(self@.children(), i as nat) + left == budget,
                    1 + PolicyTree::depth_of_first(self@.children(), i as nat) <= levels,
                decreases subs.len() - i,
            {
                proof {
                    self@.lemma_child_size(i as int);
                }
                match subs[i].spend(left, levels - 1) {
                    None => {
                        return None;
                    },
                    Some(rest) => {
                        left = rest;
                    },
                }
                i += 1;
            }
        }
        Some(left)
    }

    /// Whether the policy is small and shallow enough to be analysed.
    pub fn within_limit(&self) -> (fits: bool)
        ensures
            fits == self@.within_limit(),
    {
        self.spend(MAX_NODES, MAX_DEPTH).is_some()
    }

    /// The number of key leaves. A key that stands at two leaves counts twice.
    #[verifier::loop_isolation(false)]
    pub fn n_keys(&self) -> (count: usize)
        requires
            self@.within_limit(),
        ensures
            count == self@.key_count(),
        decreases self,
    {
        proof {
            self@.lemma_key_count_le_size();
            self.lemma_view_children();
        }
        match self {
            Policy::Key(_) => 1,
            Policy::Threshold(_, subs) => {
                let mut count: usize = 0;
                let mut i: usize = 0;
                while i < subs.len()
                    invariant
                        i <= subs.len(),
                        count == PolicyTree::keys_in_first(self@.children(), i as nat),
                    decreases subs.len() - i,
                {
                    proof {
                        self@.lemma_child_size(i as int);
                        PolicyTree::lemma_keys_in_first_le_size(self@.children(), i as nat);
                        subs[i as int]@.lemma_key_count_le_size();
                    }
                    let below = subs[i].n_keys();
                    count = count + below;
                    i += 1;
                }
                count
            },
            _ => 0,
        }
    }

    /// Whether the empty witness satisfies the policy.
    #[verifier::loop_isolation(false)]
    pub fn is_trivial(&self) -> (trivial: bool)
        ensures
            trivial == self@.trivial(),
        decreases self,
    {
        proof {
            self.lemma_view_children();
        }
        match self {
            Policy::Trivial => true,
            Policy::Threshold(k, subs) => {
                let mut met: usize = 0;
                let mut i: usize = 0;
                while i < subs.len()
                    invariant
                        i <= subs.len(),
                        met <= i,
                        met == PolicyTree::trivial_in_first(self@.children(), i as nat),
                    decreases subs.len() - i,
                {
                    if subs[i].is_trivial() {
                        met += 1;
                    }
                    i += 1;
                }
                met >= *k
            },
            _ => false,
        }
    }

    /// Whether nothing can satisfy the policy.
    #[verifier::loop_isolation(false)]
    pub fn is_unsatisfiable(&self) -> (unsatisfiable: bool)
        ensures
            unsatisfiable == !self@.satisfiable(),
        decreases self,
    {
        proof {
            self.lemma_view_children();
        }
        match self {
            Policy::Unsatisfiable => true,
            Policy::Threshold(k, subs) => {
                let mut met: usize = 0;
                let mut i: usize = 0;
                while i < subs.len()
                    invariant
                        i <= subs.len(),
                        met <= i,
                        met == PolicyTree::satisfiable_in_first(self@.children(), i as nat),
                    decreases subs.len() - i,
                {
                    if !subs[i].is_unsatisfiable() {
                        met += 1;
                    }
                    i += 1;
                }
                met < *k
            },
            _ => false,
        }
    }

    /// Appends the relative timelocks of the policy, leaf by leaf from left
    /// to right.
    #[verifier::loop_isolation(false)]
    fn collect_older(&self, found: &mut Vec<u32>)
        ensures
            final(found)@ == old(found)@ + self@.older_values(),
        decreases self,
    {
        proof {
            self.lemma_view_children();
        }
        match self {
            Policy::Older(age) => {
                found.push(*age);
                assert(found@ == old(found)@ + seq![*age]);
            },
            Policy::Threshold(_, subs) => {
                let mut i: usize = 0;
                assert(found@ == old(found)@ + Seq::<u32>::empty());
                while i < subs.len()
                    invariant
                        i <= subs.len(),
                        found@ == old(found)@ + PolicyTree::older_in_first(
                            self@.children(),
                            i as nat,
                        ),
                    decreases subs.len() - i,
                {
                    subs[i].collect_older(found);
                    assert(found@ == old(found)@ + (PolicyTree::older_in_first(
                        self@.children(),
                        i as nat,
                    ) + subs[i as int]@.older_values()));
                    i += 1;
                }
            },
            _ => {
                assert(found@ == old(found)@ + Seq::<u32>::empty());
            },
        }
    }

    /// The distinct relative timelocks of the policy, each where it is first
    /// seen when the leaves are read from left to right.
    pub fn relative_timelocks(&self) -> (locks: Vec<u32>)
        ensures
            locks@ == self@.relative_timelocks(),
            locks@.no_duplicates(),
            forall|lock: u32| locks@.contains(lock) <==> self@.older_values().contains(lock),
    {
        broadcast use vstd::std_specs::hash::group_hash_axioms;

        let mut all: Vec<u32> = Vec::new();
        self.collect_older(&mut all);
        assert(all@ == self@.older_values());
        let mut locks: Vec<u32> = Vec::new();
        let mut seen: HashSet<u32> = HashSet::new();
        let mut i: usize = 0;
        while i < all.len()
            invariant
                i <= all.len(),
                locks@ == first_seen(all@.take(i as int)),
                forall|lock: u32| seen@.contains(lock) <==> locks@.contains(lock),
            decreases all.len() - i,
        {
            let lock = all[i];
            proof {
                assert(all@.take(i as int + 1).drop_last() == all@.take(i as int));
            }
            if !seen.contains(&lock) {
                let ghost before = locks@;
                seen.insert(lock);
                locks.push(lock);
                assert forall|other: u32| seen@.contains(other) <==> locks@.contains(other) by {
                    if before.contains(other) {
                        let at = choose|at: int| 0 <= at < before.len() && before[at] == other;
                        assert(locks@[at] == other);
                    }
                    assert(locks@[before.len() as int] == lock);
                }
            }
            i += 1;
        }
        proof {
            assert(all@.take(all@.len() as int) == all@);
            lemma_first_seen(all@);
        }
        locks
    }

    /// The fewest key leaves whose signatures suffice; nothing where the
    /// policy cannot be satisfied.
    #[verifier::loop_isolation(false)]
    pub fn minimum_n_keys(&self) -> (fewest: Option<usize>)
        requires
            self@.within_limit(),
        ensures
            fewest is Some == self@.min_keys() is Some,
            fewest matches Some(count) ==> self@.min_keys() == Some(count as nat),
        decreases self,
    {
        proof {
            self.lemma_view_children();
            self@.lemma_min_keys_le_key_count();
            self@.lemma_key_count_le_size();
        }
        match self {
            Policy::Unsatisfiable => None,
            Policy::Key(_) => Some(1),
            Policy::Threshold(k, subs) => {
                let mut met: Vec<usize> = Vec::new();
                let mut i: usize = 0;
                while i < subs.len()
                    invariant
                        i <= subs.len(),
                        nats(met@) == present(
                            PolicyTree::min_keys_of_first(self@.children(), i as nat),
                        ),
                    decreases subs.len() - i,
                {
                    proof {
                        self@.lemma_child_size(i as int);
                    }
                    let ghost before = nats(met@);
                    proof {
                        let more = PolicyTree::min_keys_of_first(self@.children(), (i + 1) as nat);
                        assert(more.drop_last() == PolicyTree::min_keys_of_first(
                            self@.children(),
                            i as nat,
                        ));
                        assert(more.last() == subs[i as int]@.min_keys());
                    }
                    match subs[i].minimum_n_keys() {
                        Some(count) => {
                            met.push(count);
                            assert(nats(met@) == before.push(count as nat));
                        },
                        None => {},
                    }
                    i += 1;
                }
                if met.len() < *k {
                    return None;
                }
                let ghost all = nats(met@);
                let ghost unsorted = met@;
                sort_counts(&mut met);
                proof {
                    to_multiset_len(unsorted);
                    to_multiset_len(met@);
                    lemma_nats_to_multiset(unsorted, met@);
                    lemma_least_sum_sorted(all, nats(met@), *k as nat);
                    lemma_least_sum_le_total(all, *k as nat);
                }
                let mut sum: usize = 0;
                let mut taken: usize = 0;
                while taken < *k
                    invariant
                        taken <= *k <= met@.len(),
                        sum == total(nats(met@).take(taken as int)),
                        total(nats(met@).take(*k as int)) <= MAX_NODES,
                    decreases *k - taken,
                {
                    proof {
                        lemma_total_take(nats(met@), taken as int);
                        lemma_total_bounds(nats(met@).take(*k as int), taken as int);
                        assert(nats(met@).take(*k as int).take(taken as int) == nats(met@).take(
                            taken as int,
                        ));
                    }
                    sum = sum + met[taken];
                    taken += 1;
                }
                Some(sum)
            },
            _ => Some(0),
        }
    }

    /// Whether two policies are the same tree.
    #[verifier::loop_isolation(false)]
    pub fn same(&self, other: &Policy) -> (same: bool)
        ensures
            same == (self@ == other@),
        decreases self,
    {
        proof {
            self.lemma_view_children();
            other.lemma_view_children();
        }
        match self {
            Policy::Unsatisfiable => match other {
                Policy::Unsatisfiable => true,
                _ => false,
            },
            Policy::Trivial => match other {
                Policy::Trivial => true,
                _ => false,
            },
            Policy::Key(key) => match other {
                Policy::Key(against) => *key == *against,
                _ => false,
            },
            Policy::After(at) => match other {
                Policy::After(against) => *at == *against,
                _ => false,
            },
            Policy::Older(age) => match other {
                Policy::Older(against) => *age == *against,
                _ => false,
            },
            Policy::Sha256(digest) => match other {
                Policy::Sha256(against) => *digest == *against,
                _ => false,
            },
            Policy::Hash256(digest) => match other {
                Policy::Hash256(against) => *digest == *against,
                _ => false,
            },
            Policy::Ripemd160(digest) => match other {
                Policy::Ripemd160(against) => *digest == *against,
                _ => false,
            },
            Policy::Hash160(digest) => match other {
                Policy::Hash160(against) => *digest == *against,
                _ => false,
            },
            Policy::Threshold(k, subs) => match other {
                Policy::Threshold(count, others) => {
                    if *k != *count || subs.len() != others.len() {
                        return false;
                    }
                    let mut i: usize = 0;
                    while i < subs.len()
                        invariant
                            i <= subs.len(),
                            forall|j: int| 0 <= j < i ==> (#[trigger] subs[j])@ == others[j]@,
                        decreases subs.len() - i,
                    {
                        if !subs[i].same(&others[i]) {
                            assert(self@.children()[i as int] != other@.children()[i as int]);
                            return false;
                        }
                        i += 1;
                    }
                    assert(self@.children() =~= other@.children());
                    true
                },
                _ => false,
            },
        }
    }

    /// Calls the sorting of `elements-miniscript` with keys of the given
    /// kind.
    fn sorted_once(&self, key_type: MiniscriptKeyType) -> (sorted: Option<Policy>)
        requires
            self@.within_limit(),
        ensures
            policy_option(sorted) == sorted_by(self@, key_type),
            sorted matches Some(found) ==> rearranged(self@, found@, key_type) && in_order(
                found@,
                key_type,
            ),
    {
        match key_type {
            MiniscriptKeyType::String => Some(sorted_policy(self)),
            MiniscriptKeyType::PublicKey => sorted_policy_keyed(self),
        }
    }

    /// Whether the policy has as many key leaves as another and needs as few
    /// keys.
    fn reads_like(&self, other: &Policy) -> (alike: bool)
        requires
            self@.within_limit(),
            other@.within_limit(),
        ensures
            alike == (self@.key_count() == other@.key_count() && self@.min_keys()
                == other@.min_keys()),
    {
        let fewest = match self.minimum_n_keys() {
            Some(count) => match other.minimum_n_keys() {
                Some(against) => count == against,
                None => false,
            },
            None => other.minimum_n_keys().is_none(),
        };
        fewest && self.n_keys() == other.n_keys()
    }

    /// The policy with the branches of every threshold put in order, as
    /// `elements-miniscript` orders them for keys of the given kind; nothing
    /// where a key or a digest of the policy is not the text of one of that
    /// kind. Where the result is beyond the limits, differs from the policy
    /// in its key leaves or its fewest keys, or would change when put in
    /// order once more, the policy is returned as it is. What is returned is
    /// the policy itself, or the policy with the branches of every threshold
    /// rearranged so that they stand in order.
    pub fn sorted(&self, key_type: MiniscriptKeyType) -> (sorted: Option<Policy>)
        requires
            self@.within_limit(),
        ensures
            policy_option(sorted) == sorted_form(self@, key_type),
            sorted matches Some(found) ==> {
                &&& found@.within_limit()
                &&& found@.key_count() == self@.key_count()
                &&& found@.min_keys() == self@.min_keys()
                &&& found@ == self@ || (rearranged(self@, found@, key_type) && in_order(
                    found@,
                    key_type,
                ))
            },
    {
        let once = match self.sorted_once(key_type) {
            Some(once) => once,
            None => {
                return None;
            },
        };
        if once.within_limit() && once.reads_like(self) {
            match once.sorted_once(key_type) {
                Some(twice) => {
                    if twice.same(&once) {
                        return Some(once);
                    }
                },
                None => {},
            }
        }
        Some(self.clone())
    }

    /// The policy with nested conjunctions and disjunctions flattened and
    /// with what is trivial or cannot be satisfied taken out, as
    /// `elements-miniscript` normalises it. Where the result is beyond the
    /// limits, needs another number of keys than the policy, or would change
    /// when normalised once more, the policy is returned as it is. What is
    /// returned is the policy itself or flat.
    pub fn normalized(&self) -> (normalized: Policy)
        requires
            self@.within_limit(),
        ensures
            normalized@ == normal_form(self@),
            normalized@.within_limit(),
            normalized@.min_keys() == self@.min_keys(),
            normalized@ == self@ || normalized@.flat(),
    {
        let once = normalized_policy(self);
        if once.within_limit() && once.same_fewest(self) && normalized_policy(&once).same(&once) {
            once
        } else {
            self.clone()
        }
    }

    /// Whether the policy needs as few keys as another.
    fn same_fewest(&self, other: &Policy) -> (alike: bool)
        requires
            self@.within_limit(),
            other@.within_limit(),
        ensures
            alike == (self@.min_keys() == other@.min_keys()),
    {
        match self.minimum_n_keys() {
            Some(count) => match other.minimum_n_keys() {
                Some(against) => count == against,
                None => false,
            },
            None => other.minimum_n_keys().is_none(),
        }
    }

    /// The policy as text.
    pub fn to_text(&self) -> (text: String)
        requires
            self@.within_limit(),
        ensures
            text@ == text_of(self@),
    {
        policy_text(self)
    }
}

/// Machine numbers as natural numbers.
pub open spec fn nats(counts: Seq<usize>) -> Seq<nat> {
    Seq::new(counts.len(), |i: int| counts[i] as nat)
}

/// Calls `sort_unstable` of the slice, which puts the entries in ascending
/// order and keeps each as often as it was.
#[verifier::external_body]
fn sort_counts(counts: &mut Vec<usize>)
    ensures
        final(counts)@.to_multiset() == old(counts)@.to_multiset(),
        forall|i: int, j: int|
            0 <= i <= j < final(counts)@.len() ==> final(counts)@[i] <= final(counts)@[j],
{
    counts.sort_unstable()
}

/// Machine numbers that hold the same entries as often hold the same natural
/// numbers as often.
proof fn lemma_nats_to_multiset(a: Seq<usize>, b: Seq<usize>)
    requires
        a.to_multiset() == b.to_multiset(),
    ensures
        nats(a).to_multiset() == nats(b).to_multiset(),
    decreases a.len(),
{
    to_multiset_len(a);
    to_multiset_len(b);
    if a.len() == 0 {
        assert(nats(a) == nats(b));
    } else {
        let last = a.last();
        assert(a.contains(last));
        to_multiset_contains(a, last);
        to_multiset_contains(b, last);
        let at = choose|at: int| 0 <= at < b.len() && b[at] == last;
        assert(a.drop_last() == a.remove(a.len() - 1));
        to_multiset_remove(a, a.len() - 1);
        to_multiset_remove(b, at);
        lemma_nats_to_multiset(a.drop_last(), b.remove(at));
        assert(nats(a) == nats(a.drop_last()).push(last as nat));
        to_multiset_build(nats(a.drop_last()), last as nat);
        assert(nats(b.remove(at)) == nats(b).remove(at));
        assert(nats(b).remove(at).insert(at, last as nat) == nats(b));
        to_multiset_insert(nats(b).remove(at), at, last as nat);
    }
}

} // verus!
