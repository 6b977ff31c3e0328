//! Why the shop does not do what it was asked to do.

use vstd::prelude::*;

verus! {

/// A failure, with the text that says what is wrong.
#[derive(Debug)]
pub enum ShopError {
    /// The request, or what it refers to, is not as it has to be. The text is the
    /// answer to the request.
    Refused(String),
    /// Stored data has a shape that the shop never writes and cannot work with.
    Broken(String),
}

/// What a failure says.
pub enum Fault {
    Refused(Seq<char>),
    Broken(Seq<char>),
}

impl View for ShopError {
    type V = Fault;

    open spec fn view(&self) -> Fault {
        match self {
            ShopError::Refused(text) => Fault::Refused(text@),
            ShopError::Broken(text) => Fault::Broken(text@),
        }
    }
}

/// An outcome of a function is the outcome that its contract names.
pub open spec fn agrees<T: View>(r: Result<T, ShopError>, m: Result<T::V, Fault>) -> bool {
    match r {
        Ok(v) => m matches Ok(w) && w == v@,
        Err(e) => m matches Err(f) && f == e@,
    }
}

impl ShopError {
    /// The text of the failure.
    pub fn text(&self) -> (r: &str)
        ensures
            match self@ {
                Fault::Refused(t) => r@ == t,
                Fault::Broken(t) => r@ == t,
            },
    {
        match self {
            ShopError::Refused(t) => t.as_str(),
            ShopError::Broken(t) => t.as_str(),
        }
    }
}

/// A refusal with this text.
pub(crate) fn refused(text: &str) -> (r: ShopError)
    ensures
        r@ == Fault::Refused(text@),
{
    ShopError::Refused(text.to_string())
}

/// A failure on broken data with this text.
pub(crate) fn broken(text: &str) -> (r: ShopError)
    ensures
        r@ == Fault::Broken(text@),
{
    ShopError::Broken(text.to_string())
}

} // verus!
