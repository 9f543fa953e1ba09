//! Marking a student's work against a fixed rubric: the rubric model and its
//! text format, the marking session as a state machine, and the small
//! decisions around it.

use vstd::prelude::*;
use vstd::string::*;

pub mod engine;
pub mod grammar;
pub mod input;
pub mod laws;
pub mod parse;
pub mod scheme;
pub mod text;
pub mod tmux;

verus! {

/// What the marker passes on the command line.
#[derive(Debug)]
pub struct Args {
    /// The endpoint used for marking; overrides the one derived from course
    /// and session.
    pub endpoint: Option<String>,
    /// The path to the marking scheme.
    pub scheme: String,
    /// The course.
    pub course: String,
    /// The session.
    pub session: String,
}

/// The endpoint of a course's marking server for one session.
pub open spec fn default_endpoint(course: Seq<char>, session: Seq<char>) -> Seq<char> {
    "https://cgi.cse.unsw.edu.au/~"@ + course + "/"@ + session + "/imark/server.cgi/"@
}

/// The endpoint that `args` selects: the explicit one where given, else the
/// default for the course and session.
pub open spec fn endpoint_of(args: Args) -> Seq<char> {
    match args.endpoint {
        Some(endpoint) => endpoint@,
        None => default_endpoint(args.course@, args.session@),
    }
}

/// The marking endpoint for `args`.
pub fn get_endpoint(args: &Args) -> (endpoint: String)
    ensures
        endpoint@ == endpoint_of(*args),
{
    match &args.endpoint {
        Some(endpoint) => endpoint.clone(),
        None => {
            let mut url = String::from_str("https://cgi.cse.unsw.edu.au/~");
            url.append(args.course.as_str());
            url.append("/");
            url.append(args.session.as_str());
            url.append("/imark/server.cgi/");
            url
        },
    }
}

} // verus!
