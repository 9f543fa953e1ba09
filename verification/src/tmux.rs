//! The multiplexer session that the tool runs in.
//!
//! Whoever starts the tool asks the environment for the session and hands
//! on what it said, if anything. The session is that text without the white
//! space around it; no text, or none but white space, is no session.

use crate::text::{trim, trimmed};
use vstd::prelude::*;

verus! {

/// The name of a multiplexer session. It is never empty.
#[derive(Debug, PartialEq, Eq)]
pub struct SessionId {
    pub(crate) name: String,
}

impl View for SessionId {
    type V = Seq<char>;

    open(crate) spec fn view(&self) -> Seq<char> {
        self.name@
    }
}

impl SessionId {
    #[verifier::type_invariant]
    spec fn is_named(&self) -> bool {
        self.name@.len() > 0
    }

    /// The name.
    pub fn as_str(&self) -> (name: &str)
        ensures
            name@ == self@,
            name@.len() > 0,
    {
        proof {
            use_type_invariant(self);
        }
        self.name.as_str()
    }
}

/// The tool does not run inside a multiplexer session.
#[derive(Clone, Copy, Debug, PartialEq, Eq, Structural)]
pub struct NoActiveSessionError;

/// What a session works with: the multiplexer session that it runs in, and
/// a directory of its own for what it needs to put down.
#[derive(Debug, PartialEq, Eq)]
pub struct SessionContext {
    pub session: SessionId,
    pub work_dir: String,
}

/// The session that the environment's answer names, if it names one.
pub open spec fn session_of(ambient: Option<Seq<char>>) -> Option<Seq<char>> {
    match ambient {
        Some(text) => if trim(text).len() > 0 {
            Some(trim(text))
        } else {
            None
        },
        None => None,
    }
}

/// What the environment said, as a value.
pub open spec fn ambient_view(ambient: Option<&str>) -> Option<Seq<char>> {
    match ambient {
        Some(text) => Some(text@),
        None => None,
    }
}

/// The multiplexer session that the tool runs in, from what the environment
/// said of it.
pub fn current_session(ambient: Option<&str>) -> (found: Result<SessionId, NoActiveSessionError>)
    ensures
        match found {
            Ok(session) => session_of(ambient_view(ambient)) == Some(session@),
            Err(_) => session_of(ambient_view(ambient)) is None,
        },
{
    match ambient {
        Some(text) => {
            let name = trimmed(text);
            if name.as_str().is_empty() {
                Err(NoActiveSessionError)
            } else {
                Ok(SessionId { name })
            }
        },
        None => Err(NoActiveSessionError),
    }
}

} // verus!
