//! The two analyses: of a policy and of a descriptor.

use crate::engine::{
    assembly_of, constant_encodes, constants_encode, constants_view, keyed_descriptor,
    keyed_covenant_constants, keyed_descriptor_leaves, keyed_descriptor_policy,
    keyed_descriptor_script, keyed_descriptor_text, keyed_descriptor_weight, keyed_encodes,
    keyed_taproot_constants,
    keyed_leaves, keyed_policy, keyed_script, keyed_weight, lift_concrete_keyed,
    lift_concrete_named, lifted_keyed, lifted_named, named_descriptor, named_descriptor_policy,
    named_descriptor_text, named_descriptor_weight, named_policy, named_weight,
    parse_semantic_keyed, parse_semantic_named, policy_outcome, script_assembly,
    script_has_address, script_is_witness_program, scripts_view, semantic_keyed, semantic_named,
    text_of,
};
use crate::failure::{
    constant_message, failure_of, keyed_failure_of, literal_message, overflow_message,
    unsatisfiable_message, AnalysisError, AnalysisErrorView, ErrorKind, Rejection, RejectionView,
};
use crate::hex_bytes::HexBytes;
use crate::info::{
    leaves_view, policy_info_outcome, texts_view, DescriptorInfo, DescriptorInfoView,
    DescriptorReport, DescriptorReportView, ExtConstant, MiniscriptKeyType, PolicyInfo,
    PolicyInfoView, ScriptLeaf, ScriptLeafView,
};
use crate::policy::{normal_form, sorted_form, Policy, PolicyTree};
use vstd::prelude::*;

verus! {

/// What the parser makes of a policy text with keys of one kind: whether it
/// read a concrete policy, and the policy or its error. A concrete policy
/// is lifted; a text that is none is read as a semantic policy.
pub open spec fn policy_source(text: Seq<char>, key_type: MiniscriptKeyType) -> (
    bool,
    Result<PolicyTree, RejectionView>,
) {
    match key_type {
        MiniscriptKeyType::PublicKey => match lifted_keyed(text) {
            Some(lifted) => (true, lifted),
            None => (false, semantic_keyed(text)),
        },
        MiniscriptKeyType::String => match lifted_named(text) {
            Some(lifted) => (true, lifted),
            None => (false, semantic_named(text)),
        },
    }
}

/// What is reported of a policy: a failure where it is too large, too deep
/// or cannot be satisfied, or where a key or a digest is not the text of one
/// of the given kind, and else what can be read off it.
pub open spec fn policy_report(
    policy: PolicyTree,
    is_concrete: bool,
    key_type: MiniscriptKeyType,
) -> Result<PolicyInfoView, AnalysisErrorView> {
    if !policy.within_limit() {
        Err(AnalysisErrorView { kind: ErrorKind::Overflow, message: overflow_message() })
    } else if policy.min_keys() is None {
        Err(AnalysisErrorView { kind: ErrorKind::Unsatisfiable, message: unsatisfiable_message() })
    } else if sorted_form(policy, key_type) is None {
        Err(AnalysisErrorView { kind: ErrorKind::Encoding, message: literal_message() })
    } else {
        Ok(
            PolicyInfoView {
                is_concrete,
                key_type,
                is_trivial: policy.trivial(),
                is_unsatisfiable: !policy.satisfiable(),
                relative_timelocks: policy.relative_timelocks(),
                n_keys: policy.key_count(),
                minimum_n_keys: policy.min_keys()->0,
                sorted: text_of(sorted_form(policy, key_type)->0),
                normalized: text_of(normal_form(policy)),
            },
        )
    }
}

/// The analysis of a policy text with keys of one kind.
pub open spec fn policy_analysis(text: Seq<char>, key_type: MiniscriptKeyType) -> Result<
    PolicyInfoView,
    AnalysisErrorView,
> {
    match policy_source(text, key_type).1 {
        Ok(policy) => policy_report(policy, policy_source(text, key_type).0, key_type),
        Err(rejection) => match key_type {
            MiniscriptKeyType::String => Err(failure_of(rejection)),
            MiniscriptKeyType::PublicKey => Err(
                keyed_failure_of(
                    rejection,
                    policy_source(text, MiniscriptKeyType::String).1 is Ok,
                ),
            ),
        },
    }
}

/// Reads a policy text with keys of one kind: as a concrete policy, which is
/// lifted, and else as a semantic policy.
fn read_policy(text: &str, key_type: MiniscriptKeyType) -> (source: (
    bool,
    Result<Policy, Rejection>,
))
    ensures
        source.0 == policy_source(text@, key_type).0,
        policy_outcome(source.1) == policy_source(text@, key_type).1,
{
    let lifted = match key_type {
        MiniscriptKeyType::PublicKey => lift_concrete_keyed(text),
        MiniscriptKeyType::String => lift_concrete_named(text),
    };
    match lifted {
        Some(lifted) => (true, lifted),
        None => match key_type {
            MiniscriptKeyType::PublicKey => (false, parse_semantic_keyed(text)),
            MiniscriptKeyType::String => (false, parse_semantic_named(text)),
        },
    }
}

/// Collects what can be read off a policy.
pub fn describe_policy(policy: &Policy, is_concrete: bool, key_type: MiniscriptKeyType) -> (outcome:
    Result<PolicyInfo, AnalysisError>)
    ensures
        policy_info_outcome(outcome) == policy_report(policy@, is_concrete, key_type),
{
    if !policy.within_limit() {
        return Err(AnalysisError::overflow());
    }
    let minimum_n_keys = match policy.minimum_n_keys() {
        Some(fewest) => fewest,
        None => {
            return Err(AnalysisError::unsatisfiable());
        },
    };
    let sorted = match policy.sorted(key_type) {
        Some(sorted) => sorted,
        None => {
            return Err(AnalysisError::literal());
        },
    };
    Ok(
        PolicyInfo {
            is_concrete,
            key_type,
            is_trivial: policy.is_trivial(),
            is_unsatisfiable: policy.is_unsatisfiable(),
            relative_timelocks: policy.relative_timelocks(),
            n_keys: policy.n_keys(),
            minimum_n_keys,
            sorted: sorted.to_text(),
            normalized: policy.normalized().to_text(),
        },
    )
}

/// Reads a policy text with keys of one kind and analyses the policy. The
/// text is tried as a concrete policy, which is lifted, and else read as a
/// semantic policy. Where a text is refused with public keys as malformed
/// and reads with named keys, a key or a digest is not the text of one.
pub fn parse_policy(policy_str: &str, key_type: MiniscriptKeyType) -> (outcome: Result<
    PolicyInfo,
    AnalysisError,
>)
    ensures
        policy_info_outcome(outcome) == policy_analysis(policy_str@, key_type),
{
    let (is_concrete, source) = read_policy(policy_str, key_type);
    match source {
        Ok(policy) => describe_policy(&policy, is_concrete, key_type),
        Err(rejection) => match key_type {
            MiniscriptKeyType::String => Err(AnalysisError::from_rejection(rejection)),
            MiniscriptKeyType::PublicKey => {
                let reads_with_names = read_policy(policy_str, MiniscriptKeyType::String).1.is_ok();
                Err(AnalysisError::from_keyed_rejection(rejection, reads_with_names))
            },
        },
    }
}

/// Analyses a policy text: with public keys and, where that fails, with
/// named keys.
pub fn analyze_policy(text: &str) -> (outcome: Result<PolicyInfo, AnalysisError>)
    ensures
        policy_info_outcome(outcome) == match policy_analysis(text@, MiniscriptKeyType::PublicKey) {
            Ok(info) => Ok(info),
            Err(_) => policy_analysis(text@, MiniscriptKeyType::String),
        },
{
    match parse_policy(text, MiniscriptKeyType::PublicKey) {
        Ok(info) => Ok(info),
        Err(_) => parse_policy(text, MiniscriptKeyType::String),
    }
}

/// The leaves with their scripts written as assembly text.
pub open spec fn leaves_of(leaves: Seq<(usize, Seq<u8>)>) -> Seq<ScriptLeafView> {
    Seq::new(
        leaves.len(),
        |i: int| ScriptLeafView { depth: leaves[i].0, script: assembly_of(leaves[i].1) },
    )
}

/// The scripts of some leaves, in their order.
pub open spec fn paths_of(leaves: Seq<ScriptLeafView>) -> Seq<Seq<char>> {
    Seq::new(leaves.len(), |i: int| leaves[i].script)
}

/// Writes the script of each leaf as assembly text and keeps its depth; the
/// leaves stay in the order given.
pub fn script_leaves(leaves: &Vec<(usize, Vec<u8>)>) -> (written: Vec<ScriptLeaf>)
    ensures
        leaves_view(written@) == leaves_of(scripts_view(leaves@)),
{
    let mut written: Vec<ScriptLeaf> = Vec::new();
    let mut i: usize = 0;
    while i < leaves.len()
        invariant
            i <= leaves.len(),
            written.len() == i,
            forall|j: int|
                0 <= j < i ==> (#[trigger] written[j]).depth == leaves[j].0 && written[j].script@
                    == assembly_of(leaves[j].1@),
        decreases leaves.len() - i,
    {
        let script = script_assembly(leaves[i].1.as_slice());
        written.push(ScriptLeaf { depth: leaves[i].0, script });
        i += 1;
    }
    assert(leaves_view(written@) =~= leaves_of(scripts_view(leaves@)));
    written
}

/// The scripts of the leaves, in the order given.
pub fn script_paths(leaves: &Vec<ScriptLeaf>) -> (paths: Vec<String>)
    ensures
        texts_view(paths@) == paths_of(leaves_view(leaves@)),
{
    let mut paths: Vec<String> = Vec::new();
    let mut i: usize = 0;
    while i < leaves.len()
        invariant
            i <= leaves.len(),
            paths.len() == i,
            forall|j: int| 0 <= j < i ==> (#[trigger] paths[j])@ == leaves[j].script@,
        decreases leaves.len() - i,
    {
        paths.push(leaves[i].script.clone());
        i += 1;
    }
    assert(texts_view(paths@) =~= paths_of(leaves_view(leaves@)));
    paths
}

/// Whether the encoder of scripts takes every one of the constants.
pub fn all_encode(constants: &Vec<ExtConstant>) -> (taken: bool)
    ensures
        taken == constants_encode(constants_view(constants@)),
{
    let mut i: usize = 0;
    while i < constants.len()
        invariant
            i <= constants.len(),
            forall|j: int|
                0 <= j < i ==> constant_encodes(#[trigger] constants_view(constants@)[j]),
        decreases constants.len() - i,
    {
        let taken = match &constants[i] {
            ExtConstant::NullAsset => false,
            ExtConstant::Misplaced => false,
            ExtConstant::Script(script) => !script_is_witness_program(script.as_slice())
                || script_has_address(script.as_slice()),
            _ => true,
        };
        if !taken {
            assert(!constant_encodes(constants_view(constants@)[i as int]));
            return false;
        }
        i += 1;
    }
    true
}

/// What is reported of a descriptor that reads with public keys.
pub open spec fn keyed_info(
    descriptor: Seq<char>,
    script: Option<Seq<u8>>,
    weight: Option<usize>,
    policy: Option<Seq<char>>,
    leaves: Option<Seq<ScriptLeafView>>,
) -> DescriptorInfoView {
    DescriptorInfoView {
        descriptor,
        key_type: MiniscriptKeyType::PublicKey,
        script_pubkey: script,
        max_satisfaction_weight: weight,
        policy,
        script_paths: match leaves {
            Some(leaves) => Some(paths_of(leaves)),
            None => None,
        },
    }
}

/// What is reported of a descriptor that reads with named keys only: no
/// script and no leaf scripts.
pub open spec fn named_info(
    descriptor: Seq<char>,
    weight: Option<usize>,
    policy: Option<Seq<char>>,
) -> DescriptorInfoView {
    DescriptorInfoView {
        descriptor,
        key_type: MiniscriptKeyType::String,
        script_pubkey: None,
        max_satisfaction_weight: weight,
        policy,
        script_paths: None,
    }
}

/// Puts together what was derived from a descriptor with public keys.
pub fn describe_keyed_descriptor(
    descriptor: String,
    script: Option<Vec<u8>>,
    weight: Option<usize>,
    policy: Option<String>,
    leaves: &Option<Vec<ScriptLeaf>>,
) -> (info: DescriptorInfo)
    ensures
        info@ == keyed_info(
            descriptor@,
            match script {
                Some(bytes) => Some(bytes@),
                None => None,
            },
            weight,
            match policy {
                Some(text) => Some(text@),
                None => None,
            },
            match *leaves {
                Some(leaves) => Some(leaves_view(leaves@)),
                None => None,
            },
        ),
{
    let script_paths = match leaves {
        Some(leaves) => Some(script_paths(leaves)),
        None => None,
    };
    let script_pubkey = match script {
        Some(bytes) => Some(HexBytes(bytes)),
        None => None,
    };
    DescriptorInfo {
        descriptor,
        key_type: MiniscriptKeyType::PublicKey,
        script_pubkey,
        max_satisfaction_weight: weight,
        policy,
        script_paths,
    }
}

/// Puts together what was derived from a descriptor with named keys.
pub fn describe_named_descriptor(
    descriptor: String,
    weight: Option<usize>,
    policy: Option<String>,
) -> (info: DescriptorInfo)
    ensures
        info@ == named_info(
            descriptor@,
            weight,
            match policy {
                Some(text) => Some(text@),
                None => None,
            },
        ),
{
    DescriptorInfo {
        descriptor,
        key_type: MiniscriptKeyType::String,
        script_pubkey: None,
        max_satisfaction_weight: weight,
        policy,
        script_paths: None,
    }
}

/// The leaves of the descriptor that a text reads as with public keys.
pub open spec fn keyed_script_leaves(text: Seq<char>) -> Option<Seq<ScriptLeafView>> {
    match keyed_leaves(text) {
        Some(leaves) => Some(leaves_of(leaves)),
        None => None,
    }
}

/// The analysis of a descriptor text. Where the text reads with public keys
/// and the descriptor can be encoded, the script, the weight, the policy and
/// the leaf scripts are those of that descriptor; where it holds a constant
/// that cannot be encoded, the analysis fails. Where the text does not read
/// with public keys, the error is kept and the text is read with named keys.
pub open spec fn descriptor_analysis(text: Seq<char>) -> DescriptorReportView {
    match keyed_descriptor(text) {
        Ok(descriptor) => if keyed_encodes(text) {
            DescriptorReportView {
                first_error: None,
                info: Ok(
                    keyed_info(
                        descriptor,
                        keyed_script(text),
                        keyed_weight(text),
                        keyed_policy(text),
                        keyed_script_leaves(text),
                    ),
                ),
                leaves: keyed_script_leaves(text),
            }
        } else {
            DescriptorReportView {
                first_error: None,
                info: Err(
                    AnalysisErrorView { kind: ErrorKind::Encoding, message: constant_message() },
                ),
                leaves: None,
            }
        },
        Err(first) => DescriptorReportView {
            first_error: Some(keyed_failure_of(first, named_descriptor(text) is Ok)),
            info: match named_descriptor(text) {
                Ok(descriptor) => Ok(
                    named_info(descriptor, named_weight(text), named_policy(text)),
                ),
                Err(second) => Err(failure_of(second)),
            },
            leaves: None,
        },
    }
}

/// Analyses a descriptor text: with public keys and, where that fails, with
/// named keys. A script is reported exactly where the text reads with public
/// keys. A descriptor that reads with public keys and holds a constant on
/// which the encoding of scripts unwinds is refused.
pub fn parse_descriptor(desc_str: &str) -> (report: DescriptorReport)
    ensures
        report@ == descriptor_analysis(desc_str@),
        report.info matches Ok(info) ==> (info.script_pubkey is Some <==> info.key_type
            == MiniscriptKeyType::PublicKey),
        report.leaves matches Some(leaves) ==> report.info matches Ok(info)
            && info.script_paths matches Some(paths) && texts_view(paths@) == paths_of(
            leaves_view(leaves@),
        ),
{
    match keyed_descriptor_text(desc_str) {
        Ok(descriptor) => {
            let encodes = match keyed_taproot_constants(desc_str) {
                Some(constants) => all_encode(&constants),
                None => false,
            } && match keyed_covenant_constants(desc_str) {
                Some(constants) => all_encode(&constants),
                None => false,
            };
            if encodes {
                let leaves = match keyed_descriptor_leaves(desc_str) {
                    Some(leaves) => Some(script_leaves(&leaves)),
                    None => None,
                };
                let info = describe_keyed_descriptor(
                    descriptor,
                    keyed_descriptor_script(desc_str),
                    keyed_descriptor_weight(desc_str),
                    keyed_descriptor_policy(desc_str),
                    &leaves,
                );
                DescriptorReport { first_error: None, info: Ok(info), leaves }
            } else {
                DescriptorReport {
                    first_error: None,
                    info: Err(AnalysisError::constant()),
                    leaves: None,
                }
            }
        },
        Err(first) => {
            let info = match named_descriptor_text(desc_str) {
                Ok(descriptor) => Ok(
                    describe_named_descriptor(
                        descriptor,
                        named_descriptor_weight(desc_str),
                        named_descriptor_policy(desc_str),
                    ),
                ),
                Err(second) => Err(AnalysisError::from_rejection(second)),
            };
            let first_error = AnalysisError::from_keyed_rejection(first, info.is_ok());
            DescriptorReport { first_error: Some(first_error), info, leaves: None }
        },
    }
}

} // verus!
