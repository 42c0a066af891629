use vstd::prelude::*;
use vstd::string::*;

verus! {

/// The ways in which an evaluation can fail. No failure is recovered from:
/// the first one ends the evaluation and is handed to the caller.
#[derive(Debug, Clone, PartialEq, Eq)]
pub enum BuilderError {
    /// A map adapter was asked for a value before it was asked for a key.
    InvalidMapAccess,
    /// A consumer rejected an evaluated value; carries the consumer's message.
    InvalidDeserialization(String),
    /// An argument slot that does not exist, a pop from an empty argument
    /// stack, a closure without a body, or a conditional with fewer than
    /// three children.
    InvalidFunctionArgument,
    /// A handle whose target is no longer alive.
    InvalidSelfRefrence,
    /// A node that has no evaluation rule: `Empty` and the reserved variants.
    Unimplemented,
    /// The evaluation nests deeper than the depth the caller allowed.
    DepthExceeded,
}

impl BuilderError {
    /// The text that describes an error.
    pub open spec fn message(self) -> Seq<char> {
        match self {
            BuilderError::InvalidMapAccess => "Invalid map access sequence."@,
            BuilderError::InvalidDeserialization(reason) => "Invalid deserialization: "@ + reason@,
            BuilderError::InvalidFunctionArgument => "Invalid function argument."@,
            BuilderError::InvalidSelfRefrence => "Invalid self reference."@,
            BuilderError::Unimplemented => "Unimplemented data type."@,
            BuilderError::DepthExceeded => "Evaluation depth exceeded."@,
        }
    }

    /// The error of a consumer that rejects a value with the given message.
    pub fn custom(msg: &str) -> (e: BuilderError)
        ensures
            e matches BuilderError::InvalidDeserialization(reason) && reason@ == msg@,
    {
        BuilderError::InvalidDeserialization(msg.to_owned())
    }

    /// Renders the error as text.
    pub fn to_string(&self) -> (s: String)
        ensures
            s@ == self.message(),
    {
        match self {
            BuilderError::InvalidMapAccess => "Invalid map access sequence.".to_owned(),
            BuilderError::InvalidDeserialization(reason) => {
                "Invalid deserialization: ".to_owned().concat(reason.as_str())
            },
            BuilderError::InvalidFunctionArgument => "Invalid function argument.".to_owned(),
            BuilderError::InvalidSelfRefrence => "Invalid self reference.".to_owned(),
            BuilderError::Unimplemented => "Unimplemented data type.".to_owned(),
            BuilderError::DepthExceeded => "Evaluation depth exceeded.".to_owned(),
        }
    }
}

} // verus!
