//! The errors of the library.

use vstd::prelude::*;

verus! {

/// Why an operation failed. Errors of outside libraries are kept as their message.
#[derive(Debug, PartialEq)]
pub enum Error {
    Selector(String),
    Io(String),
    Internal(String),
    CookiePathUnvaliable,
    Network(String),
    CookieMissing,
    HeaderMissing(String),
    TokenNotFound(String),
    LoginFailed,
    MalformedCookie(String),
    NoCookie,
    CookieNotUtf8,
    UrlIncorrectFormat,
    AuthenticationError,
    /// A test case line does not have the expected shape.
    PatternMismatch,
}

} // verus!
