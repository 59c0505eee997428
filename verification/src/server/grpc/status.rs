//! Why a request of a miner failed.
use vstd::prelude::*;

verus! {

/// Kinds of failure.
#[derive(Clone, Copy, PartialEq, Eq, Structural, Debug)]
pub enum Code {
    /// The request is not what it should be.
    InvalidArgument,
    /// Something that the request needs is not in place.
    FailedPrecondition,
    /// The node failed.
    Internal,
    /// The answer took too long.
    DeadlineExceeded,
}

/// Why a request failed.
pub struct Status {
    /// The kind of failure.
    pub code: Code,
    /// What users are told.
    pub message: String,
}

impl View for Status {
    type V = (Code, Seq<char>);

    open spec fn view(&self) -> (Code, Seq<char>) {
        (self.code, self.message@)
    }
}

impl Status {
    /// A failure with a message.
    pub fn new(code: Code, message: &str) -> (status: Status)
        ensures
            status@ == (code, message@),
    {
        Status { code, message: message.to_owned() }
    }

    /// A failure with a message that goes on with what was wrong.
    pub fn with_cause(code: Code, message: &str, cause: &str) -> (status: Status)
        ensures
            status@ == (code, message@ + cause@),
    {
        let mut text = message.to_owned();
        vstd::string::StringExecFns::append(&mut text, cause);
        Status { code, message: text }
    }
}

}
