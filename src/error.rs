use vstd::prelude::*;

verus! {

/// A failure that carries a human-readable message.
#[derive(Debug)]
pub struct GenericError {
    msg: String,
}

impl GenericError {
    /// The message this error carries.
    pub closed spec fn message(&self) -> Seq<char> {
        self.msg@
    }

    /// Wraps `msg` as an error.
    pub fn new(msg: String) -> (r: Self)
        ensures
            r.message() == msg@,
    {
        GenericError { msg }
    }

    /// The message, as text.
    pub fn msg(&self) -> (r: &str)
        ensures
            r@ == self.message(),
    {
        self.msg.as_str()
    }

    /// The message, as an owned string (what displaying the error shows).
    pub fn to_string(&self) -> (r: String)
        ensures
            r@ == self.message(),
    {
        self.msg.clone()
    }
}

} // verus!
