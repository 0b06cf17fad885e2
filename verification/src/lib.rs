//! Analysis of output-script descriptors and spending policies.
//!
//! Parsing, type checking, script derivation and lifting are done by
//! `elements-miniscript`; this crate models what comes back as plain values,
//! computes the policy predicates on that model, and assembles the records
//! that describe a descriptor or a policy.

pub mod analysis;
pub mod engine;
pub mod failure;
pub mod hex_bytes;
pub mod info;
pub mod policy;
pub mod script_tree;
pub mod sums;
pub mod text;

pub use crate::analysis::{analyze_policy, parse_descriptor, parse_policy};
pub use crate::hex_bytes::HexBytes;
pub use crate::info::{DescriptorInfo, MiniscriptKeyType, PolicyInfo};
pub use crate::text::format_str;
