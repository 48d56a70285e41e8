//! Configuration, command and response logic of a tester for HTTP servers.
use vstd::prelude::*;

pub mod check;
pub mod config;
pub mod json;
pub mod parse;
pub mod render;
pub mod report;
pub mod run;
pub mod server;
pub mod suite;
pub mod text;

verus! {

/// How the tests reach the server: one already running, or one they build and start.
#[derive(Clone, Copy, Debug, PartialEq, Eq)]
pub enum Version {
    Debug,
    Release,
}

impl Version {
    /// Whether the tests start the server themselves (and stop it when done).
    pub fn starts_server(&self) -> (r: bool)
        ensures
            r == (*self is Release),
    {
        match self {
            Version::Debug => false,
            Version::Release => true,
        }
    }
}

/// Pipelining, proxy and performance tests run only in the `advanced` mode.
pub fn runs_advanced_tests(mode: &str) -> (r: bool)
    ensures
        r == (mode@ == "advanced"@),
{
    text::str_eq(mode, "advanced")
}

} // verus!
