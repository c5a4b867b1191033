//! The library's error type.

use vstd::prelude::*;

verus! {

/// What can go wrong. The first three carry the words of the layer that failed
/// (the database, the operating system, the JSON reader).
#[derive(Debug)]
pub enum CoreError {
    Sql(String),
    Io(String),
    Json(String),
    InvalidMoney(String),
    Rpc(String),
    NotFound(String),
}

/// The outcome of an operation that can fail.
pub type Result<T> = core::result::Result<T, CoreError>;

impl CoreError {
    /// The one-line message of the error.
    pub open spec fn text(&self) -> Seq<char> {
        match self {
            CoreError::Sql(s) => "sqlite: "@ + s@,
            CoreError::Io(s) => "io: "@ + s@,
            CoreError::Json(s) => "json: "@ + s@,
            CoreError::InvalidMoney(s) => "invalid money string: "@ + s@,
            CoreError::Rpc(s) => "rpc protocol: "@ + s@,
            CoreError::NotFound(s) => "not found: "@ + s@,
        }
    }

    /// The one-line message of the error.
    pub fn to_string(&self) -> (r: String)
        ensures
            r@ == self.text(),
    {
        match self {
            CoreError::Sql(s) => "sqlite: ".to_owned().concat(s.as_str()),
            CoreError::Io(s) => "io: ".to_owned().concat(s.as_str()),
            CoreError::Json(s) => "json: ".to_owned().concat(s.as_str()),
            CoreError::InvalidMoney(s) => "invalid money string: ".to_owned().concat(s.as_str()),
            CoreError::Rpc(s) => "rpc protocol: ".to_owned().concat(s.as_str()),
            CoreError::NotFound(s) => "not found: ".to_owned().concat(s.as_str()),
        }
    }
}

} // verus!
