//! The library's error type: a message for the user.
use vstd::prelude::*;
use crate::text::{chars_of, push_str, string_of};

verus! {

/// An error with a human-readable message.
#[derive(Debug, Clone)]
pub enum Error {
    Msg(String),
}

impl Error {
    /// The message's characters.
    pub open spec fn msg(self) -> Seq<char> {
        match self {
            Error::Msg(m) => m@,
        }
    }

    /// The error whose message is `prefix`, `body` and `suffix` in a row.
    pub fn with(prefix: &str, body: &str, suffix: &str) -> (r: Error)
        ensures
            r.msg() == prefix@ + body@ + suffix@,
    {
        let mut m = chars_of(prefix);
        push_str(&mut m, body);
        push_str(&mut m, suffix);
        Error::Msg(string_of(&m))
    }

    /// The error whose message is `prefix` followed by `body`.
    pub fn prefixed(prefix: &str, body: &str) -> (r: Error)
        ensures
            r.msg() == prefix@ + body@,
    {
        let mut m = chars_of(prefix);
        push_str(&mut m, body);
        Error::Msg(string_of(&m))
    }

    /// The error whose message is `body` followed by `suffix`.
    pub fn suffixed(body: &str, suffix: &str) -> (r: Error)
        ensures
            r.msg() == body@ + suffix@,
    {
        let mut m = chars_of(body);
        push_str(&mut m, suffix);
        Error::Msg(string_of(&m))
    }

    /// This error with `more` appended to its message.
    pub fn append(self, more: &str) -> (r: Error)
        ensures
            r.msg() == self.msg() + more@,
    {
        match self {
            Error::Msg(m) => {
                let mut v = chars_of(m.as_str());
                push_str(&mut v, more);
                Error::Msg(string_of(&v))
            },
        }
    }

    /// The error with exactly this message.
    pub fn from_str(m: &str) -> (r: Error)
        ensures
            r.msg() == m@,
    {
        Error::Msg(string_of(&chars_of(m)))
    }

    /// The message.
    pub fn message(&self) -> (r: String)
        ensures
            r@ == self.msg(),
    {
        match self {
            Error::Msg(m) => m.clone(),
        }
    }
}

} // verus!
