//! The server's start-up decisions: which engine a name selects, and whether
//! the data directory's engine marker lets that engine open it.
use vstd::prelude::*;
use crate::err::{ParseError, ServerNotMatch};

verus! {

/// The engines that a server can run.
#[derive(Debug, Clone, Copy, PartialEq, Eq, Structural)]
pub enum Engine {
    Kvs,
    Sled,
}

/// The marker byte that records which engine wrote a data directory:
/// 1 for the log-structured engine, 2 for the alternative.
pub open spec fn tag_spec(e: Engine) -> u8 {
    match e {
        Engine::Kvs => 1,
        Engine::Sled => 2,
    }
}

impl Engine {
    /// The engine that a command-line name selects: `kvs` or `sled`.
    pub fn from_name(s: &str) -> (r: Result<Engine, ParseError>)
        ensures
            r == (if s@ == "kvs"@ {
                Ok::<Engine, ParseError>(Engine::Kvs)
            } else if s@ == "sled"@ {
                Ok(Engine::Sled)
            } else {
                Err(ParseError)
            }),
    {
        let kvs = "kvs".to_owned();
        let sled = "sled".to_owned();
        let given = s.to_owned();
        if given == kvs {
            Ok(Engine::Kvs)
        } else if given == sled {
            Ok(Engine::Sled)
        } else {
            Err(ParseError)
        }
    }

    pub fn tag(&self) -> (r: u8)
        ensures
            r == tag_spec(*self),
    {
        match self {
            Engine::Kvs => 1,
            Engine::Sled => 2,
        }
    }
}

/// Decides whether `requested` may open a directory whose marker byte is
/// `stored` (0 when none was written): it may where the marker is 0 or its
/// own. On success the result is the byte to write back.
pub fn check_engine_tag(requested: Engine, stored: u8) -> (r: Result<u8, ServerNotMatch>)
    ensures
        r == (if stored == 0 || stored == tag_spec(requested) {
            Ok::<u8, ServerNotMatch>(tag_spec(requested))
        } else {
            Err(ServerNotMatch)
        }),
{
    let t = requested.tag();
    if stored == 0 || stored == t {
        Ok(t)
    } else {
        Err(ServerNotMatch)
    }
}

} // verus!
