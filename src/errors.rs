//! A plain error carrying a message.
use vstd::prelude::*;

verus! {

/// An error described by a message.
pub struct StringError {
    msg: String,
}

impl StringError {
    /// The message.
    pub closed spec fn text(&self) -> Seq<char> {
        self.msg@
    }

    /// An error with message `err`.
    pub fn new(err: &str) -> (r: StringError)
        ensures
            r.text() == err@,
    {
        StringError { msg: err.to_owned() }
    }

    /// The message.
    pub fn message(&self) -> (r: String)
        ensures
            r@ == self.text(),
    {
        self.msg.clone()
    }
}

} // verus!
