use vstd::prelude::*;

verus! {

/// The single error kind of the engine: an opaque failure with a message,
/// and optionally the failure that caused it.
#[derive(Debug)]
pub struct Error {
    inner: String,
    cause: Option<Box<Error>>,
}

impl Error {
    /// The message.
    pub closed spec fn view(&self) -> Seq<char> {
        self.inner@
    }

    /// The failure that caused this one, if any.
    pub closed spec fn cause_spec(&self) -> Option<Error> {
        match self.cause {
            Some(c) => Some(*c),
            None => None,
        }
    }

    pub fn new(message: String) -> (r: Error)
        ensures
            r@ == message@,
            r.cause_spec() is None,
    {
        Error { inner: message, cause: None }
    }

    /// An error with `message`, caused by `cause`.
    pub fn with_cause(message: String, cause: Error) -> (r: Error)
        ensures
            r@ == message@,
            r.cause_spec() == Some(cause),
    {
        Error { inner: message, cause: Some(Box::new(cause)) }
    }

    pub fn inner(&self) -> (r: &String)
        ensures
            r@ == self@,
    {
        &self.inner
    }

    pub fn cause(&self) -> (r: Option<&Error>)
        ensures
            match r {
                Some(c) => self.cause_spec() == Some(*c),
                None => self.cause_spec() is None,
            },
    {
        match &self.cause {
            Some(c) => Some(&**c),
            None => None,
        }
    }
}

pub type Result<T> = core::result::Result<T, Error>;

} // verus!
