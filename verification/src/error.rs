//! The engine's error taxonomy.

use vstd::prelude::*;
use vstd::string::StringExecFns;

verus! {

/// What can go wrong during a pass.
///
/// `MissingField` and `BadParse` are structural failures of a collaborator
/// response and abort the pass; `ThresholdNotFound` is recovered per pair;
/// `NotificationTimeout` is always non-fatal; `ExternalCallFailure` passes an
/// outside error through opaquely.
#[derive(Debug, Clone)]
pub enum EngineError {
    /// An expected response field was absent.
    MissingField(String),
    /// A response value was present but of the wrong shape.
    BadParse,
    /// No stop-loss percentages are configured for the pair.
    ThresholdNotFound(String),
    /// The notification acknowledgment poll was exhausted.
    NotificationTimeout,
    /// Any other collaborator failure, passed through.
    ExternalCallFailure(String),
}

impl EngineError {
    /// A human-readable report of the error.
    pub fn message(&self) -> (r: String)
        ensures
            match self {
                EngineError::MissingField(name) => r@ == "missing field: "@ + name@,
                EngineError::BadParse => r@ == "could not parse the response"@,
                EngineError::ThresholdNotFound(pair) => r@ == "no stop loss percentages for "@
                    + pair@,
                EngineError::NotificationTimeout => r@ == "Cannot retrieve the task"@,
                EngineError::ExternalCallFailure(what) => r@ == "external call failed: "@ + what@,
            },
    {
        match self {
            EngineError::MissingField(name) => String::from_str("missing field: ").concat(
                name.as_str(),
            ),
            EngineError::BadParse => String::from_str("could not parse the response"),
            EngineError::ThresholdNotFound(pair) => String::from_str(
                "no stop loss percentages for ",
            ).concat(pair.as_str()),
            EngineError::NotificationTimeout => String::from_str("Cannot retrieve the task"),
            EngineError::ExternalCallFailure(what) => String::from_str(
                "external call failed: ",
            ).concat(what.as_str()),
        }
    }
}

} // verus!
