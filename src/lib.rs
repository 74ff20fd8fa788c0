//! A deterministic access-control policy engine: canonical JSON, content
//! addressing and hash chaining, and evaluation of rule-based policies over
//! a request context.
pub mod canonicalization;
pub mod context;
pub mod decision;
pub mod error;
pub mod evaluator;
pub mod hash;
pub mod json;
pub mod parser;
pub mod policy;
pub mod text;
pub mod types;

pub use context::EvaluationContext;
pub use decision::{Decision, PolicyDecision};
pub use error::PolicyError;
pub use evaluator::PolicyEvaluator;
pub use json::{JsonNumber, JsonValue};
pub use policy::Policy;
