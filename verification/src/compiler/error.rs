//! What can be wrong with a protocol's description.

use vstd::prelude::*;
use vstd::string::StringExecFns;

verus! {

/// The ways in which a description can be wrong.
#[derive(Debug, Clone, Copy, PartialEq, Eq, Structural)]
pub enum SchemaErrorKind {
    /// A declaration that names no type, no scalar and no other format.
    UnsupportedFormat,
    /// A length or a count that is no number, or too large a one.
    BadLength,
    /// A mapping that declares a field without saying how it is a list.
    MissingList,
    /// A list directive without a colon between method and data.
    MissingColon,
    /// A list directive whose method is none of those known.
    UnknownListMethod,
    /// Something else where a mapping belongs.
    NotAMapping,
    /// Something else where a text belongs.
    NotAText,
    /// A state or a signal without its description.
    MissingDescription,
    /// A group of signals without its class.
    MissingClass,
    /// A class that is none of those known.
    UnexpectedClass,
    /// A signal without its direction.
    MissingDirection,
    /// A direction that is none of those known.
    UnknownDirection,
    /// A name that was defined before.
    DuplicateName,
    /// An edge to a state that the machine does not have.
    UnknownState,
    /// Two signals of one class with the same identifier.
    DuplicateSignalId,
}

/// A fault in a description: what is wrong, with what, and where.
#[derive(Debug)]
pub struct SchemaError {
    pub kind: SchemaErrorKind,
    /// The field, state, type, group or signal at fault.
    pub subject: String,
    /// What the subject belongs to.
    pub context: String,
}

/// A fault by value, without its context.
pub struct Fault {
    pub kind: SchemaErrorKind,
    pub subject: Seq<char>,
}

/// A fault by value, with its context.
pub struct Failure {
    pub fault: Fault,
    pub context: Seq<char>,
}

/// The failure of kind `kind` with `subject` in `context`.
pub open spec fn failure(kind: SchemaErrorKind, subject: Seq<char>, context: Seq<char>) -> Failure {
    Failure { fault: Fault { kind, subject }, context }
}

impl SchemaError {
    /// The fault `kind` with `subject`, found in `context`.
    pub fn new(kind: SchemaErrorKind, subject: &str, context: &str) -> (e: SchemaError)
        ensures
            e.kind == kind,
            e.subject@ == subject@,
            e.context@ == context@,
    {
        SchemaError {
            kind,
            subject: String::from_str(subject),
            context: String::from_str(context),
        }
    }

    /// Whether this is the failure `failure`.
    pub open spec fn is_failure(&self, failure: Failure) -> bool {
        self.is(failure.fault, failure.context)
    }

    /// Whether this is the fault `fault`, found in `context`.
    pub open spec fn is(&self, fault: Fault, context: Seq<char>) -> bool {
        self.kind == fault.kind && self.subject@ == fault.subject && self.context@ == context
    }
}

} // verus!
