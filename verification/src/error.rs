//! The failures that the runtime reports to its caller.

use vstd::prelude::*;
use vstd::std_specs::cmp::PartialEqSpecImpl;
use vstd::string::StringExecFns;

verus! {

/// What can go wrong while a window is read, an envelope is opened or a
/// plan is run.
#[derive(Debug)]
pub enum FlockError {
    /// The schema of a window was asked for before any batch arrived.
    EmptyWindow,
    /// The text is not an envelope, or what it carries cannot be decoded.
    MalformedEnvelope,
    /// The envelope names an encoding that the runtime cannot undo.
    UnsupportedEncoding,
    /// The engine failed to run a plan; the text holds the engine's error
    /// and the plan.
    Plan(String),
}

/// What a plan failure says: the engine's error, then the plan in quotes.
pub open spec fn plan_failure_text(engine_error: Seq<char>, plan: Seq<char>) -> Seq<char> {
    engine_error + ". Failed to execute the plan '"@ + plan + "'"@
}

impl FlockError {
    /// Two failures are the same.
    pub open spec fn same(&self, other: &FlockError) -> bool {
        match (*self, *other) {
            (FlockError::EmptyWindow, FlockError::EmptyWindow) => true,
            (FlockError::MalformedEnvelope, FlockError::MalformedEnvelope) => true,
            (FlockError::UnsupportedEncoding, FlockError::UnsupportedEncoding) => true,
            (FlockError::Plan(a), FlockError::Plan(b)) => a@ == b@,
            _ => false,
        }
    }

    /// The description of a failure.
    pub open spec fn message_text(&self) -> Seq<char> {
        match *self {
            FlockError::EmptyWindow => "Record batches are empty."@,
            FlockError::MalformedEnvelope => "The envelope is malformed."@,
            FlockError::UnsupportedEncoding => "The encoding is not supported."@,
            FlockError::Plan(text) => text@,
        }
    }

    /// A short description of the failure.
    pub fn message(&self) -> (s: String)
        ensures
            s@ == self.message_text(),
    {
        match self {
            FlockError::EmptyWindow => "Record batches are empty.".to_string(),
            FlockError::MalformedEnvelope => "The envelope is malformed.".to_string(),
            FlockError::UnsupportedEncoding => "The encoding is not supported.".to_string(),
            FlockError::Plan(text) => text.clone(),
        }
    }

    /// The failure of the engine to run a plan, with the plan attached to
    /// the engine's error.
    pub fn plan_failure(engine_error: &str, plan: &str) -> (e: FlockError)
        ensures
            e matches FlockError::Plan(text) && text@ == plan_failure_text(engine_error@, plan@),
    {
        let mut text = String::from_str(engine_error);
        text.append(". Failed to execute the plan '");
        text.append(plan);
        text.append("'");
        FlockError::Plan(text)
    }
}

impl PartialEq for FlockError {
    fn eq(&self, other: &FlockError) -> (r: bool) {
        match self {
            FlockError::EmptyWindow => match other {
                FlockError::EmptyWindow => true,
                _ => false,
            },
            FlockError::MalformedEnvelope => match other {
                FlockError::MalformedEnvelope => true,
                _ => false,
            },
            FlockError::UnsupportedEncoding => match other {
                FlockError::UnsupportedEncoding => true,
                _ => false,
            },
            FlockError::Plan(a) => match other {
                FlockError::Plan(b) => *a == *b,
                _ => false,
            },
        }
    }
}

impl PartialEqSpecImpl for FlockError {
    open spec fn obeys_eq_spec() -> bool {
        true
    }

    open spec fn eq_spec(&self, other: &FlockError) -> bool {
        self.same(other)
    }
}

impl Clone for FlockError {
    fn clone(&self) -> (r: FlockError)
        ensures
            r == *self,
    {
        match self {
            FlockError::EmptyWindow => FlockError::EmptyWindow,
            FlockError::MalformedEnvelope => FlockError::MalformedEnvelope,
            FlockError::UnsupportedEncoding => FlockError::UnsupportedEncoding,
            FlockError::Plan(text) => FlockError::Plan(text.clone()),
        }
    }
}

} // verus!
