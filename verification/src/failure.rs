//! Why an analysis did not produce a result.

use vstd::prelude::*;
use vstd::string::StringExecFns;

verus! {

/// Which error the parser of `elements-miniscript` reported.
#[derive(Clone, Copy, PartialEq, Eq, Debug, Structural)]
pub enum Fault {
    /// A fragment was given operands of the wrong type.
    TypeCheck,
    /// A fragment is not allowed in the script context it stands in.
    Context,
    /// The expression failed the parser's own soundness analysis.
    Analysis,
    /// The expression cannot stand at the top level.
    NonTopLevel,
    /// The expression cannot be lifted to a policy.
    Lift,
    /// A covenant is malformed or cannot be lifted to a policy.
    Covenant,
    /// The expression is nested too deeply.
    RecursionDepth,
    /// The script would be too large.
    ScriptSize,
    /// Any other error: the text is malformed.
    Other,
}

/// An error of the parser, as plain values.
#[derive(Clone, PartialEq, Eq, Debug)]
pub struct Rejection {
    /// Which error it was.
    pub fault: Fault,
    /// The parser's message.
    pub message: String,
}

/// The mathematical form of a [`Rejection`].
pub struct RejectionView {
    pub fault: Fault,
    pub message: Seq<char>,
}

impl View for Rejection {
    type V = RejectionView;

    open spec fn view(&self) -> RejectionView {
        RejectionView { fault: self.fault, message: self.message@ }
    }
}

/// The kinds of failure of an analysis.
#[derive(Clone, Copy, PartialEq, Eq, Debug, Structural)]
pub enum ErrorKind {
    /// The text is malformed.
    Syntax,
    /// Fragments are combined against the rules of their types.
    Type,
    /// The policy has no satisfying assignment.
    Unsatisfiable,
    /// A limit on size or depth is exceeded.
    Overflow,
    /// A key or a digest is not the text of one.
    Encoding,
}

/// A failed analysis: its kind and a message for the reader.
#[derive(Clone, PartialEq, Eq, Debug)]
pub struct AnalysisError {
    /// The kind of failure.
    pub kind: ErrorKind,
    /// What went wrong, in words.
    pub message: String,
}

/// The mathematical form of an [`AnalysisError`].
pub struct AnalysisErrorView {
    pub kind: ErrorKind,
    pub message: Seq<char>,
}

impl View for AnalysisError {
    type V = AnalysisErrorView;

    open spec fn view(&self) -> AnalysisErrorView {
        AnalysisErrorView { kind: self.kind, message: self.message@ }
    }
}

/// The kind of failure that a parser error stands for.
pub open spec fn kind_of_fault(fault: Fault) -> ErrorKind {
    match fault {
        Fault::TypeCheck
        | Fault::Context
        | Fault::Analysis
        | Fault::NonTopLevel
        | Fault::Lift
        | Fault::Covenant => ErrorKind::Type,
        Fault::RecursionDepth | Fault::ScriptSize => ErrorKind::Overflow,
        Fault::Other => ErrorKind::Syntax,
    }
}

/// The failure that a parser error stands for: its kind, with the parser's
/// message.
pub open spec fn failure_of(rejection: RejectionView) -> AnalysisErrorView {
    AnalysisErrorView { kind: kind_of_fault(rejection.fault), message: rejection.message }
}

/// The failure that an error of the parser with public keys stands for. The
/// parser reports a key or a digest that is not the text of one like any
/// other malformed text; where the same text reads with named keys, which
/// may be any text, that is what was wrong.
pub open spec fn keyed_failure_of(
    rejection: RejectionView,
    reads_with_names: bool,
) -> AnalysisErrorView {
    if rejection.fault == Fault::Other && reads_with_names {
        AnalysisErrorView { kind: ErrorKind::Encoding, message: rejection.message }
    } else {
        failure_of(rejection)
    }
}

/// The message of a policy that nothing can satisfy.
pub open spec fn unsatisfiable_message() -> Seq<char> {
    "could not satisfy"@
}

/// The message of a descriptor that holds a constant that cannot be encoded.
pub open spec fn constant_message() -> Seq<char> {
    "a constant of the descriptor cannot be encoded"@
}

/// The message of a policy of which a key or a digest is not the text of
/// one.
pub open spec fn literal_message() -> Seq<char> {
    "a key or a digest of the policy is not the text of one"@
}

/// The message of a policy that is too large or too deep.
pub open spec fn overflow_message() -> Seq<char> {
    "policy exceeds the limits on size and depth"@
}

impl ErrorKind {
    /// The kind of failure that a parser error stands for.
    pub fn of_fault(fault: Fault) -> (kind: ErrorKind)
        ensures
            kind == kind_of_fault(fault),
    {
        match fault {
            Fault::TypeCheck => ErrorKind::Type,
            Fault::Context => ErrorKind::Type,
            Fault::Analysis => ErrorKind::Type,
            Fault::NonTopLevel => ErrorKind::Type,
            Fault::Lift => ErrorKind::Type,
            Fault::Covenant => ErrorKind::Type,
            Fault::RecursionDepth => ErrorKind::Overflow,
            Fault::ScriptSize => ErrorKind::Overflow,
            Fault::Other => ErrorKind::Syntax,
        }
    }
}

impl AnalysisError {
    /// The failure that a parser error stands for.
    pub fn from_rejection(rejection: Rejection) -> (error: AnalysisError)
        ensures
            error@ == failure_of(rejection@),
    {
        AnalysisError { kind: ErrorKind::of_fault(rejection.fault), message: rejection.message }
    }

    /// The failure that an error of the parser with public keys stands for,
    /// given whether the same text reads with named keys.
    pub fn from_keyed_rejection(rejection: Rejection, reads_with_names: bool) -> (error:
        AnalysisError)
        ensures
            error@ == keyed_failure_of(rejection@, reads_with_names),
    {
        if rejection.fault == Fault::Other && reads_with_names {
            AnalysisError { kind: ErrorKind::Encoding, message: rejection.message }
        } else {
            AnalysisError::from_rejection(rejection)
        }
    }

    /// The failure of a policy that nothing can satisfy.
    pub fn unsatisfiable() -> (error: AnalysisError)
        ensures
            error@ == (AnalysisErrorView {
                kind: ErrorKind::Unsatisfiable,
                message: unsatisfiable_message(),
            }),
    {
        AnalysisError {
            kind: ErrorKind::Unsatisfiable,
            message: String::from_str("could not satisfy"),
        }
    }

    /// The failure of a descriptor that holds a constant that cannot be
    /// encoded.
    pub fn constant() -> (error: AnalysisError)
        ensures
            error@ == (AnalysisErrorView {
                kind: ErrorKind::Encoding,
                message: constant_message(),
            }),
    {
        AnalysisError {
            kind: ErrorKind::Encoding,
            message: String::from_str("a constant of the descriptor cannot be encoded"),
        }
    }

    /// The failure of a policy of which a key or a digest is not the text of
    /// one.
    pub fn literal() -> (error: AnalysisError)
        ensures
            error@ == (AnalysisErrorView {
                kind: ErrorKind::Encoding,
                message: literal_message(),
            }),
    {
        AnalysisError {
            kind: ErrorKind::Encoding,
            message: String::from_str("a key or a digest of the policy is not the text of one"),
        }
    }

    /// The failure of a policy that is too large or too deep.
    pub fn overflow() -> (error: AnalysisError)
        ensures
            error@ == (AnalysisErrorView {
                kind: ErrorKind::Overflow,
                message: overflow_message(),
            }),
    {
        AnalysisError {
            kind: ErrorKind::Overflow,
            message: String::from_str("policy exceeds the limits on size and depth"),
        }
    }
}

} // verus!
