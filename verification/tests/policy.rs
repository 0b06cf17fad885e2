use descriptor_info::info::MiniscriptKeyType;
use descriptor_info::policy::{Policy, MAX_DEPTH, MAX_NODES};

fn key(name: &str) -> Policy {
    Policy::Key(name.to_string())
}

fn and(subs: Vec<Policy>) -> Policy {
    Policy::Threshold(subs.len(), subs)
}

fn or(subs: Vec<Policy>) -> Policy {
    Policy::Threshold(1, subs)
}

#[test]
fn n_keys_counts_leaves_not_names() {
    assert_eq!(key("A").n_keys(), 1);
    assert_eq!(and(vec![key("A"), key("A")]).n_keys(), 2);
    assert_eq!(or(vec![key("A"), and(vec![key("B"), Policy::Older(5), key("A")])]).n_keys(), 3);
    assert_eq!(Policy::Trivial.n_keys(), 0);
    assert_eq!(Policy::Unsatisfiable.n_keys(), 0);
    assert_eq!(Policy::After(7).n_keys(), 0);
    assert_eq!(Policy::Sha256("aa".to_string()).n_keys(), 0);
    assert_eq!(Policy::Threshold(0, Vec::new()).n_keys(), 0);
}

#[test]
fn minimum_n_keys_of_leaves() {
    assert_eq!(key("A").minimum_n_keys(), Some(1));
    assert_eq!(Policy::Trivial.minimum_n_keys(), Some(0));
    assert_eq!(Policy::Unsatisfiable.minimum_n_keys(), None);
    assert_eq!(Policy::Older(3).minimum_n_keys(), Some(0));
    assert_eq!(Policy::After(3).minimum_n_keys(), Some(0));
    assert_eq!(Policy::Hash256("00".to_string()).minimum_n_keys(), Some(0));
    assert_eq!(Policy::Ripemd160("00".to_string()).minimum_n_keys(), Some(0));
    assert_eq!(Policy::Hash160("00".to_string()).minimum_n_keys(), Some(0));
}

#[test]
fn minimum_n_keys_sums_the_smallest_branches() {
    let branches = || {
        vec![
            and(vec![key("A"), key("B")]),
            key("C"),
            Policy::Older(9),
            Policy::Unsatisfiable,
            and(vec![key("D"), key("E"), key("F")]),
        ]
    };
    assert_eq!(Policy::Threshold(0, branches()).minimum_n_keys(), Some(0));
    assert_eq!(Policy::Threshold(1, branches()).minimum_n_keys(), Some(0));
    assert_eq!(Policy::Threshold(2, branches()).minimum_n_keys(), Some(1));
    assert_eq!(Policy::Threshold(3, branches()).minimum_n_keys(), Some(3));
    assert_eq!(Policy::Threshold(4, branches()).minimum_n_keys(), Some(6));
    assert_eq!(Policy::Threshold(5, branches()).minimum_n_keys(), None);
    assert_eq!(Policy::Threshold(6, branches()).minimum_n_keys(), None);
}

#[test]
fn minimum_n_keys_of_conjunction_and_disjunction() {
    assert_eq!(and(vec![key("A"), key("B")]).minimum_n_keys(), Some(2));
    assert_eq!(or(vec![key("A"), key("B")]).minimum_n_keys(), Some(1));
    assert_eq!(or(vec![and(vec![key("A"), key("B")]), Policy::After(1)]).minimum_n_keys(), Some(0));
    assert_eq!(and(vec![key("A"), Policy::Unsatisfiable]).minimum_n_keys(), None);
    assert_eq!(or(vec![key("A"), Policy::Unsatisfiable]).minimum_n_keys(), Some(1));
}

#[test]
fn minimum_n_keys_is_never_above_n_keys() {
    let policies = vec![
        key("A"),
        or(vec![key("A"), key("B")]),
        and(vec![key("A"), key("B")]),
        Policy::Threshold(2, vec![key("A"), key("B"), key("C")]),
        Policy::Threshold(2, vec![key("A"), or(vec![key("B"), Policy::Older(1)]), Policy::Trivial]),
        and(vec![or(vec![key("A"), key("B")]), or(vec![key("C"), and(vec![key("D"), key("E")])])]),
    ];
    for policy in policies {
        let fewest = policy.minimum_n_keys().unwrap();
        assert!(fewest <= policy.n_keys());
        assert!(!policy.is_unsatisfiable());
    }
}

#[test]
fn minimum_n_keys_fails_exactly_on_what_cannot_be_satisfied() {
    let policies = vec![
        Policy::Unsatisfiable,
        and(vec![key("A"), Policy::Unsatisfiable]),
        Policy::Threshold(3, vec![key("A"), key("B")]),
        Policy::Threshold(2, vec![key("A"), Policy::Unsatisfiable, Policy::Unsatisfiable]),
        or(vec![and(vec![key("A"), Policy::Unsatisfiable]), Policy::Unsatisfiable]),
        or(Vec::new()),
        key("A"),
        or(vec![key("A"), Policy::Unsatisfiable]),
        Policy::Threshold(0, Vec::new()),
        Policy::Threshold(0, vec![Policy::Unsatisfiable]),
    ];
    let expected = [true, true, true, true, true, true, false, false, false, false];
    for (policy, unsatisfiable) in policies.iter().zip(expected) {
        assert_eq!(policy.is_unsatisfiable(), unsatisfiable);
        assert_eq!(policy.minimum_n_keys().is_none(), unsatisfiable);
    }
}

#[test]
fn is_trivial_needs_enough_trivial_branches() {
    assert!(Policy::Trivial.is_trivial());
    assert!(!key("A").is_trivial());
    assert!(!Policy::Unsatisfiable.is_trivial());
    assert!(!Policy::Older(1).is_trivial());
    assert!(!Policy::After(1).is_trivial());
    assert!(!Policy::Sha256("00".to_string()).is_trivial());
    assert!(Policy::Threshold(0, Vec::new()).is_trivial());
    assert!(Policy::Threshold(0, vec![key("A")]).is_trivial());
    assert!(or(vec![Policy::Trivial, key("A")]).is_trivial());
    assert!(!and(vec![Policy::Trivial, key("A")]).is_trivial());
    assert!(and(vec![Policy::Trivial, or(vec![key("A"), Policy::Trivial])]).is_trivial());
    assert!(!or(vec![key("A"), key("B")]).is_trivial());
}

#[test]
fn relative_timelocks_stand_where_first_seen() {
    let policy = and(vec![
        Policy::Older(10),
        or(vec![Policy::Older(5), Policy::Older(10), key("A")]),
        Policy::After(5),
        Policy::Older(7),
        Policy::Older(5),
    ]);
    assert_eq!(policy.relative_timelocks(), vec![10, 5, 7]);
}

#[test]
fn relative_timelocks_of_a_policy_without_any() {
    assert_eq!(key("A").relative_timelocks(), Vec::<u32>::new());
    assert_eq!(and(vec![key("A"), Policy::After(9)]).relative_timelocks(), Vec::<u32>::new());
    assert_eq!(Policy::Older(0).relative_timelocks(), vec![0]);
}

#[test]
fn within_limit_at_the_edge() {
    let at_limit = or((0..MAX_NODES - 1).map(|_| Policy::Trivial).collect());
    assert!(at_limit.within_limit());
    let over_limit = or((0..MAX_NODES).map(|_| Policy::Trivial).collect());
    assert!(!over_limit.within_limit());
    assert!(key("A").within_limit());
}

#[test]
fn n_keys_of_the_largest_policy() {
    let policy = and((0..MAX_NODES - 1).map(|_| key("A")).collect());
    assert_eq!(policy.n_keys(), MAX_NODES - 1);
    assert_eq!(policy.minimum_n_keys(), Some(MAX_NODES - 1));
}

#[test]
fn clone_copies_the_whole_tree() {
    let policy = Policy::Threshold(
        2,
        vec![
            key("A"),
            or(vec![Policy::Sha256("ab".to_string()), Policy::Hash256("cd".to_string())]),
            and(vec![Policy::Ripemd160("ef".to_string()), Policy::Hash160("01".to_string())]),
            Policy::After(4),
            Policy::Older(5),
            Policy::Trivial,
            Policy::Unsatisfiable,
        ],
    );
    assert_eq!(policy.clone(), policy);
}

#[test]
fn to_text_writes_the_policy() {
    assert_eq!(key("A").to_text(), "pk(A)");
    assert_eq!(Policy::After(7).to_text(), "after(7)");
    assert_eq!(Policy::Older(144).to_text(), "older(144)");
    assert_eq!(Policy::Sha256("aa".to_string()).to_text(), "sha256(aa)");
    assert_eq!(Policy::Hash256("bb".to_string()).to_text(), "hash256(bb)");
    assert_eq!(Policy::Ripemd160("cc".to_string()).to_text(), "ripemd160(cc)");
    assert_eq!(Policy::Hash160("dd".to_string()).to_text(), "hash160(dd)");
    assert_eq!(Policy::Trivial.to_text(), "TRIVIAL");
    assert_eq!(Policy::Unsatisfiable.to_text(), "UNSATISFIABLE");
    assert_eq!(and(vec![key("A"), key("B")]).to_text(), "and(pk(A),pk(B))");
    assert_eq!(or(vec![key("A"), key("B")]).to_text(), "or(pk(A),pk(B))");
    assert_eq!(
        Policy::Threshold(2, vec![key("A"), key("B"), key("C")]).to_text(),
        "thresh(2,pk(A),pk(B),pk(C))"
    );
}

#[test]
fn sorted_orders_the_branches() {
    let policy = or(vec![key("B"), and(vec![key("D"), key("C")]), key("A")]);
    let sorted = policy.sorted(MiniscriptKeyType::String).unwrap();
    assert_eq!(sorted.to_text(), "or(pk(A),pk(B),and(pk(C),pk(D)))");
    assert_eq!(policy.to_text(), "or(pk(B),and(pk(D),pk(C)),pk(A))");
}

#[test]
fn sorted_leaves_a_leaf_alone() {
    assert_eq!(key("A").sorted(MiniscriptKeyType::String).unwrap(), key("A"));
    assert_eq!(Policy::Older(3).sorted(MiniscriptKeyType::String).unwrap(), Policy::Older(3));
}

#[test]
fn sorted_twice_is_sorted_once() {
    let policies = vec![
        key("A"),
        or(vec![key("B"), key("A")]),
        and(vec![
            or(vec![key("Z"), Policy::Older(3), Policy::After(9)]),
            key("A"),
            Policy::Trivial,
        ]),
        Policy::Threshold(2, vec![key("C"), key("B"), key("A"), Policy::Sha256("00".to_string())]),
    ];
    for policy in policies {
        let once = policy.sorted(MiniscriptKeyType::String).unwrap();
        assert_eq!(once.sorted(MiniscriptKeyType::String).unwrap(), once);
    }
}

#[test]
fn normalized_flattens_and_collapses() {
    let nested = and(vec![and(vec![key("C"), key("B")]), key("A")]);
    assert_eq!(nested.normalized().to_text(), "and(pk(C),pk(B),pk(A))");
    let single = or(vec![key("A"), Policy::Unsatisfiable]);
    assert_eq!(single.normalized(), key("A"));
    let vacuous = or(vec![key("A"), Policy::Trivial]);
    assert_eq!(vacuous.normalized(), Policy::Trivial);
    let hopeless = Policy::Threshold(3, vec![key("A"), key("B")]);
    assert_eq!(hopeless.normalized(), Policy::Unsatisfiable);
}

#[test]
fn normalized_twice_is_normalized_once() {
    let policies = vec![
        key("A"),
        and(vec![and(vec![key("C"), key("B")]), key("A")]),
        or(vec![or(vec![key("C"), or(vec![key("D"), Policy::Unsatisfiable])]), key("A")]),
        Policy::Threshold(2, vec![key("A"), Policy::Trivial, and(vec![key("B"), key("C")])]),
        and(vec![or(vec![key("A"), and(vec![key("B"), and(vec![key("C"), Policy::Older(1)])])])]),
    ];
    for policy in policies {
        let once = policy.normalized();
        assert_eq!(once.normalized(), once);
    }
}

fn chain(levels: usize) -> Policy {
    let mut policy = key("A");
    for _ in 1..levels {
        policy = or(vec![key("B"), policy]);
    }
    policy
}

#[test]
fn within_limit_at_the_deepest() {
    assert!(chain(MAX_DEPTH).within_limit());
    assert!(!chain(MAX_DEPTH + 1).within_limit());
    assert_eq!(chain(MAX_DEPTH).n_keys(), MAX_DEPTH);
    assert_eq!(chain(MAX_DEPTH).minimum_n_keys(), Some(1));
}

#[test]
fn same_tells_trees_apart() {
    let policy = Policy::Threshold(
        2,
        vec![
            key("A"),
            or(vec![Policy::Older(5), Policy::Sha256("ab".to_string())]),
            Policy::After(4),
        ],
    );
    assert!(policy.same(&policy.clone()));
    assert!(key("A").same(&key("A")));
    assert!(!key("A").same(&key("B")));
    assert!(!key("A").same(&Policy::Sha256("A".to_string())));
    assert!(!Policy::Sha256("A".to_string()).same(&Policy::Hash256("A".to_string())));
    assert!(!Policy::Ripemd160("A".to_string()).same(&Policy::Hash160("A".to_string())));
    assert!(!Policy::Older(5).same(&Policy::After(5)));
    assert!(!Policy::Older(5).same(&Policy::Older(6)));
    assert!(Policy::Trivial.same(&Policy::Trivial));
    assert!(!Policy::Trivial.same(&Policy::Unsatisfiable));
    assert!(!and(vec![key("A"), key("B")]).same(&or(vec![key("A"), key("B")])));
    assert!(!and(vec![key("A"), key("B")]).same(&and(vec![key("B"), key("A")])));
    assert!(!or(vec![key("A"), key("B")]).same(&or(vec![key("A"), key("B"), key("C")])));
    assert!(!or(vec![key("A")]).same(&key("A")));
}

const COMPRESSED: &str = "02c79ef3ede6d14f72a00d0e49b4becfb152197b64c0707425c4f231df29500ee7";
const UNCOMPRESSED: &str = "04a34b99f22c790c4e36b2b3c2c35a36db06226e41c692fc82b8b56ac1c540c5bd\
                            5b8dec5235a0fa8722476c7709c02559e3aa73aa03918ba2d492eea75abea235";

#[test]
fn sorted_orders_public_keys_as_keys() {
    let policy = or(vec![key(COMPRESSED), key(UNCOMPRESSED)]);
    let as_keys = policy.sorted(MiniscriptKeyType::PublicKey).unwrap();
    assert_eq!(as_keys, or(vec![key(UNCOMPRESSED), key(COMPRESSED)]));
    let as_names = policy.sorted(MiniscriptKeyType::String).unwrap();
    assert_eq!(as_names, or(vec![key(COMPRESSED), key(UNCOMPRESSED)]));
    assert_eq!(as_keys.sorted(MiniscriptKeyType::PublicKey).unwrap(), as_keys);
}

#[test]
fn sorted_as_keys_needs_keys_and_digests() {
    let policy = or(vec![key("B"), key("A")]);
    assert_eq!(policy.sorted(MiniscriptKeyType::PublicKey), None);
    let digest = and(vec![key(COMPRESSED), Policy::Sha256("zz".to_string())]);
    assert_eq!(digest.sorted(MiniscriptKeyType::PublicKey), None);
    let keyed = and(vec![Policy::Older(4), key(COMPRESSED)]);
    assert_eq!(
        keyed.sorted(MiniscriptKeyType::PublicKey),
        Some(and(vec![key(COMPRESSED), Policy::Older(4)]))
    );
}

fn next(seed: &mut u64) -> u64 {
    *seed = seed.wrapping_mul(6364136223846793005).wrapping_add(1442695040888963407);
    *seed >> 33
}

fn random_policy(seed: &mut u64, levels: usize) -> Policy {
    let choice = next(seed) % if levels == 0 { 6 } else { 10 };
    match choice {
        0 => Policy::Trivial,
        1 => Policy::Unsatisfiable,
        2 => key(["A", "B", "C", "D"][(next(seed) % 4) as usize]),
        3 => Policy::Older((next(seed) % 5) as u32 + 1),
        4 => Policy::After((next(seed) % 5) as u32 + 1),
        5 => Policy::Sha256(["aa", "bb"][(next(seed) % 2) as usize].to_string()),
        _ => {
            let n = (next(seed) % 4) as usize;
            let subs: Vec<Policy> = (0..n).map(|_| random_policy(seed, levels - 1)).collect();
            let k = (next(seed) % (n as u64 + 2)) as usize;
            Policy::Threshold(k, subs)
        }
    }
}

fn is_conjunction(policy: &Policy) -> bool {
    matches!(policy, Policy::Threshold(k, subs) if *k == subs.len())
}

fn is_disjunction(policy: &Policy) -> bool {
    matches!(policy, Policy::Threshold(k, _) if *k == 1)
}

fn flat(policy: &Policy) -> bool {
    match policy {
        Policy::Threshold(k, subs) => {
            subs.len() >= 2
                && 1 <= *k
                && *k <= subs.len()
                && subs.iter().all(|sub| {
                    !matches!(sub, Policy::Trivial | Policy::Unsatisfiable)
                        && (*k != subs.len() || !is_conjunction(sub))
                        && (*k != 1 || !is_disjunction(sub))
                })
        }
        _ => true,
    }
}

#[test]
fn normalized_policies_are_flat_and_stay_as_they_are() {
    let mut seed = 7;
    for _ in 0..3000 {
        let policy = random_policy(&mut seed, 4);
        let normal = policy.normalized();
        assert!(flat(&normal), "{:?} gives {:?}", policy, normal);
        assert_eq!(normal.minimum_n_keys(), policy.minimum_n_keys());
        assert_eq!(normal.normalized(), normal);
        if !matches!(policy, Policy::Threshold(..)) {
            assert_eq!(normal, policy);
        }
    }
}

#[test]
fn sorted_policies_hold_their_branches_rearranged() {
    let mut seed = 11;
    for _ in 0..3000 {
        let policy = random_policy(&mut seed, 4);
        let sorted = policy.sorted(MiniscriptKeyType::String).unwrap();
        assert_eq!(sorted.sorted(MiniscriptKeyType::String).unwrap(), sorted);
        assert_eq!(sorted.n_keys(), policy.n_keys());
        assert_eq!(sorted.minimum_n_keys(), policy.minimum_n_keys());
        match (&policy, &sorted) {
            (Policy::Threshold(k, subs), Policy::Threshold(count, found)) => {
                assert_eq!(k, count);
                let mut wanted: Vec<String> = subs
                    .iter()
                    .map(|sub| sub.sorted(MiniscriptKeyType::String).unwrap().to_text())
                    .collect();
                let mut got: Vec<String> = found.iter().map(|sub| sub.to_text()).collect();
                wanted.sort();
                got.sort();
                assert_eq!(wanted, got);
            }
            _ => assert_eq!(sorted, policy),
        }
    }
}
