//! Calls into `elements-miniscript`. Nothing in this file is proved: each
//! item states what the outside code does, and the rest of the crate is
//! proved from these statements.

use crate::failure::{Fault, Rejection, RejectionView};
use crate::info::{ExtConstant, ExtConstantView, MiniscriptKeyType};
use crate::policy::{Policy, PolicyTree};
use elements_miniscript::elements::confidential::Asset;
use elements_miniscript::elements::{Address, AddressParams, Script};
use elements_miniscript::extensions::{AssetExpr, CovExtArgs, CovOps, SpkExpr};
use elements_miniscript::policy::{Concrete, Liftable, Semantic};
use elements_miniscript::{CovenantExt, Descriptor, Error, Terminal};
use std::str::FromStr;
use vstd::prelude::*;

verus! {

/// The error of `elements-miniscript`.
#[verifier::external_type_specification]
#[verifier::external_body]
pub struct ExError(Error);

/// A semantic policy of `elements-miniscript` over named keys. Verus does not
/// take a declaration of the outside type, whose parameter is bound by an
/// outside trait, so the value is held here and never looked into.
#[verifier::external_body]
struct NamedSemantic(Semantic<String>);

/// A semantic policy of `elements-miniscript` over public keys, held like
/// [`NamedSemantic`].
#[verifier::external_body]
struct KeyedSemantic(Semantic<bitcoin::PublicKey>);

/// Copies a semantic policy over named keys into this crate's policy, node
/// for node.
#[verifier::external_body]
fn model_of_named(outside: &NamedSemantic) -> Policy {
    match &outside.0 {
        Semantic::Unsatisfiable => Policy::Unsatisfiable,
        Semantic::Trivial => Policy::Trivial,
        Semantic::Key(key) => Policy::Key(key.clone()),
        Semantic::After(at) => Policy::After(at.to_consensus_u32()),
        Semantic::Older(age) => Policy::Older(age.to_consensus_u32()),
        Semantic::Sha256(digest) => Policy::Sha256(digest.clone()),
        Semantic::Hash256(digest) => Policy::Hash256(digest.clone()),
        Semantic::Ripemd160(digest) => Policy::Ripemd160(digest.clone()),
        Semantic::Hash160(digest) => Policy::Hash160(digest.clone()),
        Semantic::Threshold(k, subs) => Policy::Threshold(
            *k,
            subs.iter().map(|sub| model_of_named(&NamedSemantic(sub.clone()))).collect(),
        ),
    }
}

/// Copies a semantic policy over public keys into this crate's policy, node
/// for node; each key and digest is written as the text that it prints as.
#[verifier::external_body]
fn model_of_keyed(outside: &KeyedSemantic) -> Policy {
    match &outside.0 {
        Semantic::Unsatisfiable => Policy::Unsatisfiable,
        Semantic::Trivial => Policy::Trivial,
        Semantic::Key(key) => Policy::Key(key.to_string()),
        Semantic::After(at) => Policy::After(at.to_consensus_u32()),
        Semantic::Older(age) => Policy::Older(age.to_consensus_u32()),
        Semantic::Sha256(digest) => Policy::Sha256(digest.to_string()),
        Semantic::Hash256(digest) => Policy::Hash256(digest.to_string()),
        Semantic::Ripemd160(digest) => Policy::Ripemd160(digest.to_string()),
        Semantic::Hash160(digest) => Policy::Hash160(digest.to_string()),
        Semantic::Threshold(k, subs) => Policy::Threshold(
            *k,
            subs.iter().map(|sub| model_of_keyed(&KeyedSemantic(sub.clone()))).collect(),
        ),
    }
}

/// Copies this crate's policy into a semantic policy over named keys, node
/// for node.
#[verifier::external_body]
fn outside_of(policy: &Policy) -> NamedSemantic {
    NamedSemantic(match policy {
        Policy::Unsatisfiable => Semantic::Unsatisfiable,
        Policy::Trivial => Semantic::Trivial,
        Policy::Key(key) => Semantic::Key(key.clone()),
        Policy::After(at) => Semantic::after(*at),
        Policy::Older(age) => Semantic::older(*age),
        Policy::Sha256(digest) => Semantic::Sha256(digest.clone()),
        Policy::Hash256(digest) => Semantic::Hash256(digest.clone()),
        Policy::Ripemd160(digest) => Semantic::Ripemd160(digest.clone()),
        Policy::Hash160(digest) => Semantic::Hash160(digest.clone()),
        Policy::Threshold(k, subs) => Semantic::Threshold(
            *k,
            subs.iter().map(|sub| outside_of(sub).0).collect(),
        ),
    })
}

/// Copies a leaf of this crate's policy into a leaf of a semantic policy over
/// public keys; a key is read with `bitcoin::PublicKey::from_str` and a
/// digest with `from_str` of its hash type. Nothing where it is not read,
/// and nothing of a threshold.
#[verifier::external_body]
fn keyed_leaf_of(policy: &Policy) -> Option<KeyedSemantic> {
    Some(KeyedSemantic(match policy {
        Policy::Unsatisfiable => Semantic::Unsatisfiable,
        Policy::Trivial => Semantic::Trivial,
        Policy::Key(key) => Semantic::Key(key.parse().ok()?),
        Policy::After(at) => Semantic::after(*at),
        Policy::Older(age) => Semantic::older(*age),
        Policy::Sha256(digest) => Semantic::Sha256(digest.parse().ok()?),
        Policy::Hash256(digest) => Semantic::Hash256(digest.parse().ok()?),
        Policy::Ripemd160(digest) => Semantic::Ripemd160(digest.parse().ok()?),
        Policy::Hash160(digest) => Semantic::Hash160(digest.parse().ok()?),
        Policy::Threshold(..) => return None,
    }))
}

/// Copies this crate's policy into a semantic policy over public keys, node
/// for node. Nothing where a key or a digest is not the text of one.
#[verifier::external_body]
fn keyed_outside_of(policy: &Policy) -> Option<KeyedSemantic> {
    match policy {
        Policy::Threshold(k, subs) => {
            let subs = subs.iter().map(|sub| Some(keyed_outside_of(sub)?.0));
            Some(KeyedSemantic(Semantic::Threshold(*k, subs.collect::<Option<_>>()?)))
        },
        leaf => keyed_leaf_of(leaf),
    }
}

/// Tells the variants of the outside error apart and takes its message from
/// its `Display`.
#[verifier::external_body]
fn rejection_of(error: &Error) -> Rejection {
    let fault = match error {
        Error::TypeCheck(_) => Fault::TypeCheck,
        Error::ContextError(_) => Fault::Context,
        Error::AnalysisError(_) => Fault::Analysis,
        Error::NonTopLevel(_) => Fault::NonTopLevel,
        Error::LiftError(_) => Fault::Lift,
        Error::CovError(_) => Fault::Covenant,
        Error::MaxRecursiveDepthExceeded => Fault::RecursionDepth,
        Error::ScriptSizeTooLarge => Fault::ScriptSize,
        _ => Fault::Other,
    };
    Rejection { fault, message: error.to_string() }
}

/// A result of the parser, as mathematical values.
pub open spec fn policy_outcome(outcome: Result<Policy, Rejection>) -> Result<
    PolicyTree,
    RejectionView,
> {
    match outcome {
        Ok(policy) => Ok(policy@),
        Err(rejection) => Err(rejection@),
    }
}

/// A text or an error of the parser, as mathematical values.
pub open spec fn text_outcome(outcome: Result<String, Rejection>) -> Result<
    Seq<char>,
    RejectionView,
> {
    match outcome {
        Ok(text) => Ok(text@),
        Err(rejection) => Err(rejection@),
    }
}

/// A text that may be missing, as a mathematical value.
pub open spec fn text_option(text: Option<String>) -> Option<Seq<char>> {
    match text {
        Some(text) => Some(text@),
        None => None,
    }
}

/// What `Semantic::<String>::from_str` makes of a text: the policy it reads,
/// or its error.
pub uninterp spec fn semantic_named(text: Seq<char>) -> Result<PolicyTree, RejectionView>;

/// Calls `Semantic::<String>::from_str`. What it returns depends on the text
/// alone.
#[verifier::external_body]
pub(crate) fn parse_semantic_named(text: &str) -> (parsed: Result<Policy, Rejection>)
    ensures
        policy_outcome(parsed) == semantic_named(text@),
{
    match Semantic::<String>::from_str(text) {
        Ok(policy) => Ok(model_of_named(&NamedSemantic(policy))),
        Err(error) => Err(rejection_of(&error)),
    }
}

/// What `Semantic::<bitcoin::PublicKey>::from_str` makes of a text.
pub uninterp spec fn semantic_keyed(text: Seq<char>) -> Result<PolicyTree, RejectionView>;

/// Calls `Semantic::<bitcoin::PublicKey>::from_str`. What it returns depends
/// on the text alone.
#[verifier::external_body]
pub(crate) fn parse_semantic_keyed(text: &str) -> (parsed: Result<Policy, Rejection>)
    ensures
        policy_outcome(parsed) == semantic_keyed(text@),
{
    match Semantic::<bitcoin::PublicKey>::from_str(text) {
        Ok(policy) => Ok(model_of_keyed(&KeyedSemantic(policy))),
        Err(error) => Err(rejection_of(&error)),
    }
}

/// What `Liftable::lift` makes of the concrete policy over named keys that
/// `Concrete::<String>::from_str` reads from a text; nothing where the text
/// is no concrete policy.
pub uninterp spec fn lifted_named(text: Seq<char>) -> Option<Result<PolicyTree, RejectionView>>;

/// Calls `Concrete::<String>::from_str` and, on the policy that it reads,
/// `Liftable::lift`.
#[verifier::external_body]
pub(crate) fn lift_concrete_named(text: &str) -> (lifted: Option<Result<Policy, Rejection>>)
    ensures
        lifted is Some == lifted_named(text@) is Some,
        lifted matches Some(outcome) ==> lifted_named(text@) == Some(policy_outcome(outcome)),
{
    let concrete = Concrete::<String>::from_str(text).ok()?;
    Some(match concrete.lift() {
        Ok(policy) => Ok(model_of_named(&NamedSemantic(policy))),
        Err(error) => Err(rejection_of(&error)),
    })
}

/// What `Liftable::lift` makes of the concrete policy over public keys that
/// `Concrete::<bitcoin::PublicKey>::from_str` reads from a text.
pub uninterp spec fn lifted_keyed(text: Seq<char>) -> Option<Result<PolicyTree, RejectionView>>;

/// Calls `Concrete::<bitcoin::PublicKey>::from_str` and, on the policy that
/// it reads, `Liftable::lift`.
#[verifier::external_body]
pub(crate) fn lift_concrete_keyed(text: &str) -> (lifted: Option<Result<Policy, Rejection>>)
    ensures
        lifted is Some == lifted_keyed(text@) is Some,
        lifted matches Some(outcome) ==> lifted_keyed(text@) == Some(policy_outcome(outcome)),
{
    let concrete = Concrete::<bitcoin::PublicKey>::from_str(text).ok()?;
    Some(match concrete.lift() {
        Ok(policy) => Ok(model_of_keyed(&KeyedSemantic(policy))),
        Err(error) => Err(rejection_of(&error)),
    })
}

/// A policy that may be missing, as a mathematical value.
pub open spec fn policy_option(policy: Option<Policy>) -> Option<PolicyTree> {
    match policy {
        Some(policy) => Some(policy@),
        None => None,
    }
}

/// What `Semantic::sorted` makes of a policy over named keys.
pub uninterp spec fn sorted_of(policy: PolicyTree) -> PolicyTree;

/// What `Semantic::sorted` makes of a policy over public keys; nothing where
/// a key or a digest of the policy is not the text of one.
pub uninterp spec fn sorted_keyed_of(policy: PolicyTree) -> Option<PolicyTree>;

/// What `Semantic::sorted` makes of a policy with keys of one kind.
pub open spec fn sorted_by(policy: PolicyTree, key_type: MiniscriptKeyType) -> Option<PolicyTree> {
    match key_type {
        MiniscriptKeyType::String => Some(sorted_of(policy)),
        MiniscriptKeyType::PublicKey => sorted_keyed_of(policy),
    }
}

/// What `Semantic::sorted` makes of each of some branches.
pub open spec fn branches_sorted_by(
    subs: Seq<PolicyTree>,
    key_type: MiniscriptKeyType,
) -> Seq<PolicyTree> {
    Seq::new(subs.len(), |i: int| sorted_by(subs[i], key_type)->0)
}

/// Whether `sorted` is `policy` with its branches rearranged, at every
/// threshold: a threshold stays a threshold with the same count, its
/// branches are the branches of the policy, each sorted, in some order, and
/// each branch, sorted, is that branch rearranged. A leaf with named keys
/// stays as it is.
pub open spec fn rearranged(
    policy: PolicyTree,
    sorted: PolicyTree,
    key_type: MiniscriptKeyType,
) -> bool
    decreases policy, 0nat,
{
    match policy {
        PolicyTree::Threshold(k, subs) => {
            &&& sorted is Threshold
            &&& sorted->Threshold_0 == k
            &&& sorted.children().to_multiset() == branches_sorted_by(subs, key_type).to_multiset()
            &&& rearranged_first(subs, subs.len(), key_type)
        },
        _ => key_type == MiniscriptKeyType::String ==> sorted == policy,
    }
}

/// Whether each of the first `n` of `subs`, sorted, is that branch
/// rearranged.
pub open spec fn rearranged_first(
    subs: Seq<PolicyTree>,
    n: nat,
    key_type: MiniscriptKeyType,
) -> bool
    decreases subs, n,
{
    n == 0 || n > subs.len() || (rearranged_first(subs, (n - 1) as nat, key_type) && rearranged(
        subs[n - 1],
        sorted_by(subs[n - 1], key_type)->0,
        key_type,
    ))
}

/// Whether the first policy is the second or comes before it in the order
/// of semantic policies over named keys, which is `Ord::cmp` as derived for
/// `Semantic<String>`.
pub uninterp spec fn named_order(first: PolicyTree, second: PolicyTree) -> bool;

/// Whether the first policy is the second or comes before it in the order
/// of semantic policies over public keys, which is `Ord::cmp` as derived for
/// `Semantic<bitcoin::PublicKey>`.
pub uninterp spec fn keyed_order(first: PolicyTree, second: PolicyTree) -> bool;

/// The order of semantic policies with keys of one kind.
pub open spec fn ordered_by(
    first: PolicyTree,
    second: PolicyTree,
    key_type: MiniscriptKeyType,
) -> bool {
    match key_type {
        MiniscriptKeyType::String => named_order(first, second),
        MiniscriptKeyType::PublicKey => keyed_order(first, second),
    }
}

/// Whether the branches of every threshold of the policy stand in order:
/// no branch comes before one that stands before it.
pub open spec fn in_order(policy: PolicyTree, key_type: MiniscriptKeyType) -> bool
    decreases policy, 0nat,
{
    policy matches PolicyTree::Threshold(_, subs) ==> {
        &&& forall|i: int, j: int|
            0 <= i < j < subs.len() ==> ordered_by(#[trigger] subs[i], #[trigger] subs[j], key_type)
        &&& in_order_first(subs, subs.len(), key_type)
    }
}

/// Whether the first `n` of `subs` are in order within.
pub open spec fn in_order_first(
    subs: Seq<PolicyTree>,
    n: nat,
    key_type: MiniscriptKeyType,
) -> bool
    decreases subs, n,
{
    n == 0 || n > subs.len() || (in_order_first(subs, (n - 1) as nat, key_type) && in_order(
        subs[n - 1],
        key_type,
    ))
}

/// Calls `Semantic::sorted` on the policy, its keys taken as names. The
/// result depends on the policy alone. That function returns a leaf as it
/// is; of a threshold it sorts each branch and then puts the branches in
/// order with `sort` of the slice, which orders by `Ord::cmp`. It calls
/// itself once for each level of the policy, so the levels are limited.
#[verifier::external_body]
pub(crate) fn sorted_policy(policy: &Policy) -> (sorted: Policy)
    requires
        policy@.within_limit(),
    ensures
        sorted@ == sorted_of(policy@),
        rearranged(policy@, sorted@, MiniscriptKeyType::String),
        forall|i: int, j: int|
            0 <= i < j < sorted@.children().len() ==> named_order(
                #[trigger] sorted@.children()[i],
                #[trigger] sorted@.children()[j],
            ),
        in_order(sorted@, MiniscriptKeyType::String),
{
    model_of_named(&NamedSemantic(outside_of(policy).0.sorted()))
}

/// Calls `Semantic::sorted` on the policy, its keys taken as public keys.
/// The result depends on the policy alone. Of a threshold that function
/// sorts each branch and then puts the branches in order with `sort` of the
/// slice, which orders by `Ord::cmp`. It calls itself once for each level of
/// the policy, so the levels are limited.
#[verifier::external_body]
pub(crate) fn sorted_policy_keyed(policy: &Policy) -> (sorted: Option<Policy>)
    requires
        policy@.within_limit(),
    ensures
        policy_option(sorted) == sorted_keyed_of(policy@),
        sorted matches Some(found) ==> rearranged(
            policy@,
            found@,
            MiniscriptKeyType::PublicKey,
        ) && in_order(found@, MiniscriptKeyType::PublicKey),
        sorted matches Some(found) ==> forall|i: int, j: int|
            0 <= i < j < found@.children().len() ==> keyed_order(
                #[trigger] found@.children()[i],
                #[trigger] found@.children()[j],
            ),
{
    Some(model_of_keyed(&KeyedSemantic(keyed_outside_of(policy)?.0.sorted())))
}

/// What `Semantic::normalized` makes of a policy over named keys.
pub uninterp spec fn normalized_of(policy: PolicyTree) -> PolicyTree;

/// Calls `Semantic::normalized` on the policy, its keys taken as names. The
/// result depends on the policy alone. That function returns a leaf as it
/// is. What it returns of a threshold is flat: it has flattened nested
/// conjunctions and disjunctions and taken out what is trivial or cannot be
/// satisfied. It calls itself once for each level of the policy, so the
/// levels are limited.
#[verifier::external_body]
pub(crate) fn normalized_policy(policy: &Policy) -> (normalized: Policy)
    requires
        policy@.within_limit(),
    ensures
        normalized@ == normalized_of(policy@),
        !(policy@ is Threshold) ==> normalized@ == policy@,
        normalized@.flat(),
{
    model_of_named(&NamedSemantic(outside_of(policy).0.normalized()))
}

/// The text that `Display` writes for a semantic policy over named keys.
pub uninterp spec fn text_of(policy: PolicyTree) -> Seq<char>;

/// Calls `to_string` on the policy, its keys taken as names. The text
/// depends on the policy alone. That function calls itself once for each
/// level of the policy, so the levels are limited.
#[verifier::external_body]
pub(crate) fn policy_text(policy: &Policy) -> (text: String)
    requires
        policy@.within_limit(),
    ensures
        text@ == text_of(policy@),
{
    outside_of(policy).0.to_string()
}

/// The text that `Display` writes for the descriptor over public keys that
/// `Descriptor::<bitcoin::PublicKey>::from_str` reads from a text, or the
/// error of that function.
pub uninterp spec fn keyed_descriptor(text: Seq<char>) -> Result<Seq<char>, RejectionView>;

/// Calls `Descriptor::<bitcoin::PublicKey>::from_str`, and `to_string` on the
/// descriptor that it reads.
#[verifier::external_body]
pub(crate) fn keyed_descriptor_text(text: &str) -> (shown: Result<String, Rejection>)
    ensures
        text_outcome(shown) == keyed_descriptor(text@),
{
    match Descriptor::<bitcoin::PublicKey>::from_str(text) {
        Ok(descriptor) => Ok(descriptor.to_string()),
        Err(error) => Err(rejection_of(&error)),
    }
}

/// A fragment of the covenant extensions, held like [`NamedSemantic`].
#[verifier::external_body]
struct ExtFragment(CovenantExt<CovExtArgs>);

/// The place of an asset in a covenant fragment, held like
/// [`NamedSemantic`].
#[verifier::external_body]
struct AssetSlot(AssetExpr<CovExtArgs>);

/// The place of a script in a covenant fragment, held like
/// [`NamedSemantic`].
#[verifier::external_body]
struct ScriptSlot(SpkExpr<CovExtArgs>);

/// Tells the variants of `AssetExpr` and of the asset that it holds apart.
#[verifier::external_body]
fn asset_constant(slot: &AssetSlot) -> ExtConstant {
    match &slot.0 {
        AssetExpr::Const(CovExtArgs::Asset(Asset::Null)) => ExtConstant::NullAsset,
        AssetExpr::Const(CovExtArgs::Asset(_)) => ExtConstant::Asset,
        AssetExpr::Const(_) => ExtConstant::Misplaced,
        _ => ExtConstant::Computed,
    }
}

/// Tells the variants of `SpkExpr` apart. The bytes of a script are taken
/// from its `Display`, which writes them in hexadecimal and writes a script
/// that is known by its hash only as a word that is no hexadecimal text.
#[verifier::external_body]
fn script_constant(slot: &ScriptSlot) -> ExtConstant {
    match &slot.0 {
        SpkExpr::Const(CovExtArgs::Script(script)) => match hex::decode(script.to_string()) {
            Ok(bytes) => ExtConstant::Script(bytes),
            Err(_) => ExtConstant::HashedScript,
        },
        SpkExpr::Const(_) => ExtConstant::Misplaced,
        _ => ExtConstant::Computed,
    }
}

/// Tells the variants of `CovenantExt` and of `CovOps` apart and hands out
/// the places of assets and scripts. These are the constants on which
/// `push_to_builder` of a fragment can unwind; of the other constants
/// `CovExtArgs::arg_from_str` gives every place one of its kind, and every
/// one of its kind is encoded.
#[verifier::external_body]
fn fragment_constants(fragment: &ExtFragment) -> Vec<ExtConstant> {
    match &fragment.0 {
        CovenantExt::Introspect(CovOps::IsExpAsset(asset)) => {
            vec![asset_constant(&AssetSlot(asset.clone()))]
        },
        CovenantExt::Introspect(CovOps::AssetEq(left, right)) => vec![
            asset_constant(&AssetSlot(left.clone())),
            asset_constant(&AssetSlot(right.clone())),
        ],
        CovenantExt::Introspect(CovOps::SpkEq(left, right)) => vec![
            script_constant(&ScriptSlot(left.clone())),
            script_constant(&ScriptSlot(right.clone())),
        ],
        _ => Vec::new(),
    }
}

/// The views of some constants.
pub open spec fn constants_view(constants: Seq<ExtConstant>) -> Seq<ExtConstantView> {
    Seq::new(constants.len(), |i: int| constants[i]@)
}

/// The constants of the covenant fragments of the Taproot descriptor over
/// public keys that a text reads as, in the order in which
/// `Tr::iter_scripts` and `Miniscript::iter` walk the fragments; none for
/// another descriptor, and nothing where the text is no descriptor.
pub uninterp spec fn taproot_constants(text: Seq<char>) -> Option<Seq<ExtConstantView>>;

/// Calls `Descriptor::<bitcoin::PublicKey>::from_str` and walks the
/// fragments of a `Descriptor::TrExt` with `Tr::iter_scripts` and
/// `Miniscript::iter`. A `Descriptor::Tr` holds no fragment of an extension.
/// Nothing is encoded.
#[verifier::external_body]
pub(crate) fn keyed_taproot_constants(text: &str) -> (constants: Option<Vec<ExtConstant>>)
    ensures
        constants is Some == keyed_descriptor(text@) is Ok,
        constants is Some == taproot_constants(text@) is Some,
        constants matches Some(found) ==> taproot_constants(text@) == Some(
            constants_view(found@),
        ),
{
    match Descriptor::<bitcoin::PublicKey>::from_str(text).ok()? {
        Descriptor::TrExt(tr) => Some(
            tr.iter_scripts().flat_map(|(_, leaf)| leaf.as_miniscript().unwrap().iter())
                .flat_map(|ms| match &ms.node {
                    Terminal::Ext(ext) => fragment_constants(&ExtFragment(ext.clone())),
                    _ => Vec::new(),
                })
                .collect(),
        ),
        _ => Some(Vec::new()),
    }
}

/// The constants of the covenant fragments of the covenant descriptor over
/// public keys that a text reads as, in the order in which
/// `Miniscript::iter` walks the fragments; none for another descriptor, and
/// nothing where the text is no descriptor.
pub uninterp spec fn covenant_constants(text: Seq<char>) -> Option<Seq<ExtConstantView>>;

/// Calls `Descriptor::<bitcoin::PublicKey>::from_str` and walks the
/// fragments of a `Descriptor::LegacyCSFSCov` with `Miniscript::iter`.
/// Nothing is encoded.
#[verifier::external_body]
pub(crate) fn keyed_covenant_constants(text: &str) -> (constants: Option<Vec<ExtConstant>>)
    ensures
        constants is Some == keyed_descriptor(text@) is Ok,
        constants is Some == covenant_constants(text@) is Some,
        constants matches Some(found) ==> covenant_constants(text@) == Some(
            constants_view(found@),
        ),
{
    match Descriptor::<bitcoin::PublicKey>::from_str(text).ok()? {
        Descriptor::LegacyCSFSCov(cov) => Some(
            cov.to_ms().iter()
                .flat_map(|ms| match &ms.node {
                    Terminal::Ext(ext) => fragment_constants(&ExtFragment(ext.clone())),
                    _ => Vec::new(),
                })
                .collect(),
        ),
        _ => Some(Vec::new()),
    }
}

/// Whether `Script::is_witness_program` holds of the script with these
/// bytes.
pub uninterp spec fn witness_program(script: Seq<u8>) -> bool;

/// Calls `Script::is_witness_program` of the `elements` crate.
#[verifier::external_body]
pub(crate) fn script_is_witness_program(script: &[u8]) -> (program: bool)
    ensures
        program == witness_program(script@),
{
    Script::from(script.to_vec()).is_witness_program()
}

/// Whether `Address::from_script` finds an address for the script with these
/// bytes.
pub uninterp spec fn has_address(script: Seq<u8>) -> bool;

/// Calls `Address::from_script` of the `elements` crate, without a blinding
/// key.
#[verifier::external_body]
pub(crate) fn script_has_address(script: &[u8]) -> (found: bool)
    ensures
        found == has_address(script@),
{
    Address::from_script(&Script::from(script.to_vec()), None, &AddressParams::ELEMENTS).is_some()
}

/// Whether the encoder of scripts takes a constant: it unwinds on the asset
/// that is none, on a constant of the wrong kind, and on a script that is a
/// witness program for which it finds no address.
pub open spec fn constant_encodes(constant: ExtConstantView) -> bool {
    match constant {
        ExtConstantView::NullAsset => false,
        ExtConstantView::Misplaced => false,
        ExtConstantView::Script(script) => !witness_program(script) || has_address(script),
        _ => true,
    }
}

/// Whether the encoder of scripts takes every constant.
pub open spec fn constants_encode(constants: Seq<ExtConstantView>) -> bool {
    forall|i: int| 0 <= i < constants.len() ==> constant_encodes(#[trigger] constants[i])
}

/// Whether the descriptor over public keys that a text reads as can be
/// encoded: whether the encoder takes every constant of its fragments. Only
/// `Descriptor::TrExt` and `Descriptor::LegacyCSFSCov` hold fragments of an
/// extension.
pub open spec fn keyed_encodes(text: Seq<char>) -> bool {
    &&& taproot_constants(text) matches Some(constants) && constants_encode(constants)
    &&& covenant_constants(text) matches Some(constants) && constants_encode(constants)
}

/// The bytes of the script that `Descriptor::script_pubkey` derives from the
/// descriptor over public keys that a text reads as, where the descriptor
/// can be encoded.
pub uninterp spec fn keyed_script(text: Seq<char>) -> Option<Seq<u8>>;

/// Calls `Descriptor::<bitcoin::PublicKey>::from_str` and, on the descriptor
/// that it reads, `script_pubkey`. That function encodes the fragments of
/// the descriptor, and the encoding of a covenant fragment unwinds on some
/// constants, so descriptors that hold such constants are left out.
#[verifier::external_body]
pub(crate) fn keyed_descriptor_script(text: &str) -> (script: Option<Vec<u8>>)
    requires
        keyed_encodes(text@),
    ensures
        script is Some,
        script matches Some(bytes) ==> keyed_script(text@) == Some(bytes@),
{
    let descriptor = Descriptor::<bitcoin::PublicKey>::from_str(text).ok()?;
    Some(descriptor.script_pubkey().into_bytes())
}

/// The weight that `Descriptor::max_weight_to_satisfy` computes for the
/// descriptor over public keys that a text reads as; nothing where the text
/// is no descriptor or that function fails.
pub uninterp spec fn keyed_weight(text: Seq<char>) -> Option<usize>;

/// Calls `Descriptor::<bitcoin::PublicKey>::from_str` and, on the descriptor
/// that it reads, `max_weight_to_satisfy`.
#[verifier::external_body]
pub(crate) fn keyed_descriptor_weight(text: &str) -> (weight: Option<usize>)
    ensures
        weight == keyed_weight(text@),
{
    Descriptor::<bitcoin::PublicKey>::from_str(text).ok()?.max_weight_to_satisfy().ok()
}

/// The text of the policy to which `Liftable::lift` takes the descriptor over
/// public keys that a text reads as; nothing where the text is no descriptor
/// or cannot be lifted.
pub uninterp spec fn keyed_policy(text: Seq<char>) -> Option<Seq<char>>;

/// Calls `Descriptor::<bitcoin::PublicKey>::from_str`, `Liftable::lift` on
/// the descriptor that it reads, and `to_string` on the policy.
#[verifier::external_body]
pub(crate) fn keyed_descriptor_policy(text: &str) -> (policy: Option<String>)
    ensures
        text_option(policy) == keyed_policy(text@),
{
    let descriptor = Descriptor::<bitcoin::PublicKey>::from_str(text).ok()?;
    descriptor.lift().ok().map(|policy| policy.to_string())
}

/// The leaf scripts of a Taproot descriptor over public keys that can be
/// encoded, each as its depth and the bytes of its encoding, in the order in
/// which `Tr::iter_scripts` walks them; nothing where the text reads as
/// another descriptor.
pub uninterp spec fn keyed_leaves(text: Seq<char>) -> Option<Seq<(usize, Seq<u8>)>>;

/// The views of some leaves: each depth, with the bytes of the script.
pub open spec fn scripts_view(leaves: Seq<(usize, Vec<u8>)>) -> Seq<(usize, Seq<u8>)> {
    Seq::new(leaves.len(), |i: int| (leaves[i].0, leaves[i].1@))
}

/// Calls `Descriptor::<bitcoin::PublicKey>::from_str` and, where the
/// descriptor is a `Descriptor::Tr` or a `Descriptor::TrExt`,
/// `Tr::iter_scripts`; each leaf is encoded with `Miniscript::encode`.
/// Descriptors that hold constants on which the encoding unwinds are left
/// out.
#[verifier::external_body]
pub(crate) fn keyed_descriptor_leaves(text: &str) -> (leaves: Option<Vec<(usize, Vec<u8>)>>)
    requires
        keyed_encodes(text@),
    ensures
        leaves is Some == keyed_leaves(text@) is Some,
        leaves matches Some(scripts) ==> keyed_leaves(text@) == Some(scripts_view(scripts@)),
{
    match Descriptor::<bitcoin::PublicKey>::from_str(text).ok()? {
        Descriptor::Tr(tr) => Some(
            tr.iter_scripts()
                .map(|(depth, leaf)| (depth, leaf.as_miniscript().unwrap().encode().into_bytes()))
                .collect(),
        ),
        Descriptor::TrExt(tr) => Some(
            tr.iter_scripts()
                .map(|(depth, leaf)| (depth, leaf.as_miniscript().unwrap().encode().into_bytes()))
                .collect(),
        ),
        _ => None,
    }
}

/// The assembly text of a script, as `Script::fmt_asm` of the `elements`
/// crate writes it.
pub uninterp spec fn assembly_of(script: Seq<u8>) -> Seq<char>;

/// Calls `Script::fmt_asm` on the script made of the bytes. The text depends
/// on the bytes alone; writing into a `String` does not fail.
#[verifier::external_body]
pub(crate) fn script_assembly(script: &[u8]) -> (text: String)
    ensures
        text@ == assembly_of(script@),
{
    let mut text = String::new();
    let _ = elements_miniscript::elements::Script::from(script.to_vec()).fmt_asm(&mut text);
    text
}

/// The text that `Display` writes for the descriptor over named keys that
/// `Descriptor::<String>::from_str` reads from a text, or the error of that
/// function.
pub uninterp spec fn named_descriptor(text: Seq<char>) -> Result<Seq<char>, RejectionView>;

/// Calls `Descriptor::<String>::from_str`, and `to_string` on the descriptor
/// that it reads.
#[verifier::external_body]
pub(crate) fn named_descriptor_text(text: &str) -> (shown: Result<String, Rejection>)
    ensures
        text_outcome(shown) == named_descriptor(text@),
{
    match Descriptor::<String>::from_str(text) {
        Ok(descriptor) => Ok(descriptor.to_string()),
        Err(error) => Err(rejection_of(&error)),
    }
}

/// The weight that `Descriptor::max_weight_to_satisfy` computes for the
/// descriptor over named keys that a text reads as.
pub uninterp spec fn named_weight(text: Seq<char>) -> Option<usize>;

/// Calls `Descriptor::<String>::from_str` and, on the descriptor that it
/// reads, `max_weight_to_satisfy`.
#[verifier::external_body]
pub(crate) fn named_descriptor_weight(text: &str) -> (weight: Option<usize>)
    ensures
        weight == named_weight(text@),
{
    Descriptor::<String>::from_str(text).ok()?.max_weight_to_satisfy().ok()
}

/// The text of the policy to which `Liftable::lift` takes the descriptor over
/// named keys that a text reads as.
pub uninterp spec fn named_policy(text: Seq<char>) -> Option<Seq<char>>;

/// Calls `Descriptor::<String>::from_str`, `Liftable::lift` on the descriptor
/// that it reads, and `to_string` on the policy.
#[verifier::external_body]
pub(crate) fn named_descriptor_policy(text: &str) -> (policy: Option<String>)
    ensures
        text_option(policy) == named_policy(text@),
{
    let descriptor = Descriptor::<String>::from_str(text).ok()?;
    descriptor.lift().ok().map(|policy| policy.to_string())
}

} // verus!
