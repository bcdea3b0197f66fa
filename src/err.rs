//! The errors of the store and of the server's start-up.
use vstd::prelude::*;

verus! {

/// A removal named a key that holds no value.
#[derive(Debug, Clone, Copy, PartialEq, Eq, Structural)]
pub struct KeyNonExist;

/// A name on the command line matched no engine.
#[derive(Debug, Clone, Copy, PartialEq, Eq, Structural)]
pub struct ParseError;

/// The data directory was written by another engine.
#[derive(Debug, Clone, Copy, PartialEq, Eq, Structural)]
pub struct ServerNotMatch;

impl KeyNonExist {
    pub fn description(&self) -> (r: String)
        ensures
            r@ == "Key not found"@,
    {
        "Key not found".to_owned()
    }
}

impl ParseError {
    pub fn description(&self) -> (r: String)
        ensures
            r@ == "Parse failed"@,
    {
        "Parse failed".to_owned()
    }
}

impl ServerNotMatch {
    pub fn description(&self) -> (r: String)
        ensures
            r@ == "Server not match"@,
    {
        "Server not match".to_owned()
    }
}

/// What an operation of the store can fail with.
#[derive(Debug, Clone, Copy, PartialEq, Eq, Structural)]
pub enum KvsError {
    /// A removal named a key that holds no value.
    KeyNotFound,
    /// A record of the log did not decode.
    Corrupt,
    /// The log would outgrow the address space.
    LogFull,
    /// The storage underneath failed.
    Storage,
}

} // verus!
