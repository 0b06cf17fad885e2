//! The records that an analysis returns.

use crate::failure::{AnalysisError, AnalysisErrorView};
use crate::hex_bytes::HexBytes;
use vstd::prelude::*;

verus! {

/// How the keys of an expression are read.
#[derive(Clone, Copy, PartialEq, Eq, Debug, Structural)]
pub enum MiniscriptKeyType {
    /// Every key is a public key.
    PublicKey,
    /// Every key is a name.
    String,
}

/// A constant of a covenant fragment that the encoder of scripts looks into.
#[derive(Clone, PartialEq, Eq, Debug)]
pub enum ExtConstant {
    /// The asset that is none.
    NullAsset,
    /// An explicit or a confidential asset.
    Asset,
    /// A script, as its bytes.
    Script(Vec<u8>),
    /// A script that is known by its hash only.
    HashedScript,
    /// A constant of another kind where an asset or a script belongs.
    Misplaced,
    /// No constant: the asset or the script is read from the transaction.
    Computed,
}

/// The mathematical form of an [`ExtConstant`].
pub enum ExtConstantView {
    NullAsset,
    Asset,
    Script(Seq<u8>),
    HashedScript,
    Misplaced,
    Computed,
}

impl View for ExtConstant {
    type V = ExtConstantView;

    open spec fn view(&self) -> ExtConstantView {
        match self {
            ExtConstant::NullAsset => ExtConstantView::NullAsset,
            ExtConstant::Asset => ExtConstantView::Asset,
            ExtConstant::Script(bytes) => ExtConstantView::Script(bytes@),
            ExtConstant::HashedScript => ExtConstantView::HashedScript,
            ExtConstant::Misplaced => ExtConstantView::Misplaced,
            ExtConstant::Computed => ExtConstantView::Computed,
        }
    }
}

/// A leaf script of a Taproot descriptor.
#[derive(Clone, PartialEq, Eq, Debug)]
pub struct ScriptLeaf {
    /// The number of inner nodes between the leaf and the root of the script
    /// tree.
    pub depth: usize,
    /// The script as assembly text.
    pub script: String,
}

/// The mathematical form of a [`ScriptLeaf`].
pub struct ScriptLeafView {
    pub depth: usize,
    pub script: Seq<char>,
}

impl View for ScriptLeaf {
    type V = ScriptLeafView;

    open spec fn view(&self) -> ScriptLeafView {
        ScriptLeafView { depth: self.depth, script: self.script@ }
    }
}

/// The views of some leaves.
pub open spec fn leaves_view(leaves: Seq<ScriptLeaf>) -> Seq<ScriptLeafView> {
    Seq::new(leaves.len(), |i: int| leaves[i]@)
}

/// What is known of a descriptor.
#[derive(Clone, PartialEq, Eq, Debug)]
pub struct DescriptorInfo {
    /// The descriptor in its canonical text.
    pub descriptor: String,
    /// How its keys were read.
    pub key_type: MiniscriptKeyType,
    /// The output script; present only with public keys.
    pub script_pubkey: Option<HexBytes>,
    /// An upper bound on the weight of a satisfying witness.
    pub max_satisfaction_weight: Option<usize>,
    /// The text of the policy that the descriptor lifts to.
    pub policy: Option<String>,
    /// The leaf scripts of a Taproot descriptor, as assembly text.
    pub script_paths: Option<Vec<String>>,
}

/// The mathematical form of a [`DescriptorInfo`].
pub struct DescriptorInfoView {
    pub descriptor: Seq<char>,
    pub key_type: MiniscriptKeyType,
    pub script_pubkey: Option<Seq<u8>>,
    pub max_satisfaction_weight: Option<usize>,
    pub policy: Option<Seq<char>>,
    pub script_paths: Option<Seq<Seq<char>>>,
}

/// The views of some texts.
pub open spec fn texts_view(texts: Seq<String>) -> Seq<Seq<char>> {
    Seq::new(texts.len(), |i: int| texts[i]@)
}

impl View for DescriptorInfo {
    type V = DescriptorInfoView;

    open spec fn view(&self) -> DescriptorInfoView {
        DescriptorInfoView {
            descriptor: self.descriptor@,
            key_type: self.key_type,
            script_pubkey: match self.script_pubkey {
                Some(script) => Some(script@),
                None => None,
            },
            max_satisfaction_weight: self.max_satisfaction_weight,
            policy: match self.policy {
                Some(policy) => Some(policy@),
                None => None,
            },
            script_paths: match self.script_paths {
                Some(paths) => Some(texts_view(paths@)),
                None => None,
            },
        }
    }
}

/// What is known of a policy.
#[derive(Clone, PartialEq, Eq, Debug)]
pub struct PolicyInfo {
    /// Whether the text was read as a concrete policy and lifted.
    pub is_concrete: bool,
    /// How its keys were read.
    pub key_type: MiniscriptKeyType,
    /// Whether the empty witness satisfies the policy.
    pub is_trivial: bool,
    /// Whether nothing can satisfy the policy.
    pub is_unsatisfiable: bool,
    /// The distinct relative timelocks, each where it is first seen.
    pub relative_timelocks: Vec<u32>,
    /// The number of key leaves.
    pub n_keys: usize,
    /// The fewest key leaves whose signatures suffice.
    pub minimum_n_keys: usize,
    /// The text of the policy with its branches put in order.
    pub sorted: String,
    /// The text of the policy in normal form.
    pub normalized: String,
}

/// The mathematical form of a [`PolicyInfo`].
pub struct PolicyInfoView {
    pub is_concrete: bool,
    pub key_type: MiniscriptKeyType,
    pub is_trivial: bool,
    pub is_unsatisfiable: bool,
    pub relative_timelocks: Seq<u32>,
    pub n_keys: nat,
    pub minimum_n_keys: nat,
    pub sorted: Seq<char>,
    pub normalized: Seq<char>,
}

impl View for PolicyInfo {
    type V = PolicyInfoView;

    open spec fn view(&self) -> PolicyInfoView {
        PolicyInfoView {
            is_concrete: self.is_concrete,
            key_type: self.key_type,
            is_trivial: self.is_trivial,
            is_unsatisfiable: self.is_unsatisfiable,
            relative_timelocks: self.relative_timelocks@,
            n_keys: self.n_keys as nat,
            minimum_n_keys: self.minimum_n_keys as nat,
            sorted: self.sorted@,
            normalized: self.normalized@,
        }
    }
}

/// The outcome of a policy analysis, as mathematical values.
pub open spec fn policy_info_outcome(outcome: Result<PolicyInfo, AnalysisError>) -> Result<
    PolicyInfoView,
    AnalysisErrorView,
> {
    match outcome {
        Ok(info) => Ok(info@),
        Err(error) => Err(error@),
    }
}

/// The outcome of a descriptor analysis, as mathematical values.
pub open spec fn descriptor_info_outcome(
    outcome: Result<DescriptorInfo, AnalysisError>,
) -> Result<DescriptorInfoView, AnalysisErrorView> {
    match outcome {
        Ok(info) => Ok(info@),
        Err(error) => Err(error@),
    }
}

/// A descriptor analysis. The text is read with public keys first and, where
/// that fails, with named keys.
#[derive(PartialEq, Eq, Debug)]
pub struct DescriptorReport {
    /// Why the text could not be read with public keys, where it could not.
    pub first_error: Option<AnalysisError>,
    /// What is known of the descriptor, or why it could not be analysed.
    pub info: Result<DescriptorInfo, AnalysisError>,
    /// The leaf scripts of a Taproot descriptor with public keys, each with
    /// its depth, in the order in which the script tree is walked.
    pub leaves: Option<Vec<ScriptLeaf>>,
}

/// The mathematical form of a [`DescriptorReport`].
pub struct DescriptorReportView {
    pub first_error: Option<AnalysisErrorView>,
    pub info: Result<DescriptorInfoView, AnalysisErrorView>,
    pub leaves: Option<Seq<ScriptLeafView>>,
}

impl View for DescriptorReport {
    type V = DescriptorReportView;

    open spec fn view(&self) -> DescriptorReportView {
        DescriptorReportView {
            first_error: match self.first_error {
                Some(error) => Some(error@),
                None => None,
            },
            info: descriptor_info_outcome(self.info),
            leaves: match self.leaves {
                Some(leaves) => Some(leaves_view(leaves@)),
                None => None,
            },
        }
    }
}

} // verus!
