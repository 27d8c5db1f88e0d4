//! The error type shared by every module.
use vstd::prelude::*;

verus! {

/// Why an operation was refused.
#[derive(Clone, Debug)]
pub enum Error {
    /// The request is outside what the array backend, or a cap on it, admits.
    Backend { message: String },
    /// The shapes or element types of the operands do not fit together.
    ShapeMismatch { message: String },
    /// Memory for the result could not be reserved.
    OutOfMemory { message: String },
}

pub type Result<T> = std::result::Result<T, Error>;

/// What kind of error a model of an operation owes.
pub ghost enum Fault {
    Backend,
    Shape,
}

impl Error {
    /// Whether this error is of the given kind.
    pub open spec fn is_fault(self, fault: Fault) -> bool {
        match fault {
            Fault::Backend => self is Backend,
            Fault::Shape => self is ShapeMismatch,
        }
    }

    /// The text of the error.
    pub open spec fn text(self) -> Seq<char> {
        match self {
            Error::Backend { message } => message@,
            Error::ShapeMismatch { message } => message@,
            Error::OutOfMemory { message } => message@,
        }
    }

    /// The text of the error.
    pub fn message(&self) -> (text: &str)
        ensures
            text@ == self.text(),
    {
        match self {
            Error::Backend { message } => message.as_str(),
            Error::ShapeMismatch { message } => message.as_str(),
            Error::OutOfMemory { message } => message.as_str(),
        }
    }
}

/// A backend error with the given text.
pub(crate) fn backend(message: &str) -> (e: Error)
    ensures
        e is Backend,
        e.text() == message@,
{
    Error::Backend { message: message.to_owned() }
}

/// A shape error with the given text.
pub(crate) fn shape_mismatch(message: &str) -> (e: Error)
    ensures
        e is ShapeMismatch,
        e.text() == message@,
{
    Error::ShapeMismatch { message: message.to_owned() }
}

/// A memory error with the given text.
pub(crate) fn out_of_memory(message: &str) -> (e: Error)
    ensures
        e is OutOfMemory,
        e.text() == message@,
{
    Error::OutOfMemory { message: message.to_owned() }
}

} // verus!
