//! Errors of the policy engine.
use vstd::prelude::*;
use vstd::string::StringExecFns;

verus! {

/// Errors that can occur while loading or evaluating policies.
#[derive(Debug)]
pub enum PolicyError {
    /// A policy document could not be parsed.
    ParseError(String),
    /// A policy or rule lacks a required field.
    ValidationError(String),
    /// The context lacks a required identifier.
    MissingField(String),
    /// A field value fails semantic validation.
    InvalidFieldValue { field: String, message: String },
    /// A condition could not be evaluated.
    ConditionError(String),
    /// A rule could not be evaluated.
    RuleError(String),
    /// A named policy or rule is absent.
    NotFound(String),
    /// A value could not be converted to or from JSON.
    SerializationError(String),
    /// An invariant was violated.
    InternalError(String),
    /// A hash could not be computed.
    HashError(String),
    /// A value could not be canonicalized.
    CanonicalizationError(String),
}

/// The mathematical form of an error: its kind and its texts.
pub enum PolicyFault {
    ParseError(Seq<char>),
    ValidationError(Seq<char>),
    MissingField(Seq<char>),
    InvalidFieldValue(Seq<char>, Seq<char>),
    ConditionError(Seq<char>),
    RuleError(Seq<char>),
    NotFound(Seq<char>),
    SerializationError(Seq<char>),
    InternalError(Seq<char>),
    HashError(Seq<char>),
    CanonicalizationError(Seq<char>),
}

impl View for PolicyError {
    type V = PolicyFault;

    open spec fn view(&self) -> PolicyFault {
        match self {
            PolicyError::ParseError(s) => PolicyFault::ParseError(s@),
            PolicyError::ValidationError(s) => PolicyFault::ValidationError(s@),
            PolicyError::MissingField(s) => PolicyFault::MissingField(s@),
            PolicyError::InvalidFieldValue { field, message } => PolicyFault::InvalidFieldValue(
                field@,
                message@,
            ),
            PolicyError::ConditionError(s) => PolicyFault::ConditionError(s@),
            PolicyError::RuleError(s) => PolicyFault::RuleError(s@),
            PolicyError::NotFound(s) => PolicyFault::NotFound(s@),
            PolicyError::SerializationError(s) => PolicyFault::SerializationError(s@),
            PolicyError::InternalError(s) => PolicyFault::InternalError(s@),
            PolicyError::HashError(s) => PolicyFault::HashError(s@),
            PolicyError::CanonicalizationError(s) => PolicyFault::CanonicalizationError(s@),
        }
    }
}

/// The one-line description of an error.
pub open spec fn error_text(e: PolicyError) -> Seq<char> {
    match e {
        PolicyError::ParseError(s) => "Failed to parse policy: "@ + s@,
        PolicyError::ValidationError(s) => "Policy validation error: "@ + s@,
        PolicyError::MissingField(s) => "Missing required field: "@ + s@,
        PolicyError::InvalidFieldValue { field, message } => "Invalid field value for '"@ + field@
            + "': "@ + message@,
        PolicyError::ConditionError(s) => "Condition evaluation error: "@ + s@,
        PolicyError::RuleError(s) => "Rule evaluation error: "@ + s@,
        PolicyError::NotFound(s) => "Policy not found: "@ + s@,
        PolicyError::SerializationError(s) => "Serialization error: "@ + s@,
        PolicyError::InternalError(s) => "Internal error: "@ + s@,
        PolicyError::HashError(s) => "Hash computation error: "@ + s@,
        PolicyError::CanonicalizationError(s) => "Canonicalization error: "@ + s@,
    }
}

/// `prefix` followed by `rest`.
fn joined(prefix: &str, rest: &String) -> (r: String)
    ensures
        r@ == prefix@ + rest@,
{
    let mut out = String::from_str(prefix);
    out.append(rest.as_str());
    out
}

impl PolicyError {
    /// The one-line description of this error.
    pub fn message(&self) -> (r: String)
        ensures
            r@ == error_text(*self),
    {
        match self {
            PolicyError::ParseError(s) => joined("Failed to parse policy: ", s),
            PolicyError::ValidationError(s) => joined("Policy validation error: ", s),
            PolicyError::MissingField(s) => joined("Missing required field: ", s),
            PolicyError::InvalidFieldValue { field, message } => {
                let mut out = joined("Invalid field value for '", field);
                out.append("': ");
                out.append(message.as_str());
                out
            },
            PolicyError::ConditionError(s) => joined("Condition evaluation error: ", s),
            PolicyError::RuleError(s) => joined("Rule evaluation error: ", s),
            PolicyError::NotFound(s) => joined("Policy not found: ", s),
            PolicyError::SerializationError(s) => joined("Serialization error: ", s),
            PolicyError::InternalError(s) => joined("Internal error: ", s),
            PolicyError::HashError(s) => joined("Hash computation error: ", s),
            PolicyError::CanonicalizationError(s) => joined("Canonicalization error: ", s),
        }
    }
}

} // verus!
