//! The error of the object-file backend.
use vstd::prelude::*;

verus! {

/// Why the object-file backend could not emit a program.
#[derive(Debug)]
pub struct ObjectError {
    pub message: String,
}

impl ObjectError {
    /// The error with message `message`.
    pub fn new(message: String) -> (r: ObjectError)
        ensures
            r.message == message,
    {
        ObjectError { message }
    }
}

} // verus!
