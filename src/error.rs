use vstd::prelude::*;

verus! {

/// Why a value could not be flattened.
#[derive(Debug, Clone, PartialEq, Eq)]
pub enum Error {
    /// A failure reported while the value was being presented (a custom error
    /// of the value's own serialization code), with its message.
    Message(String),
    /// A leaf with no numeric representation: text, a character or raw bytes.
    Unsupported,
    /// A map key that is not text.
    KeyNotString,
    /// A broken invariant of the path stack; a well-formed traversal never
    /// returns it.
    InternalError,
}

pub type Result<T> = core::result::Result<T, Error>;

impl Error {
    /// Builds a `Message` error from a message.
    pub fn custom(msg: String) -> (r: Error)
        ensures
            r == Error::Message(msg),
    {
        Error::Message(msg)
    }
}

} // verus!
