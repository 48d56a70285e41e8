//! Whether the tester can run: the tools it calls and the mode it runs in.
use vstd::prelude::*;

use crate::text::str_eq;

verus! {

/// Which of the command-line tools that the tests call were found on the machine.
pub struct ToolsFound {
    pub curl: bool,
    pub nc: bool,
    pub ab: bool,
}

/// The message when a tool is missing.
pub open spec fn tools_missing_message() -> Seq<char> {
    "Checking tools finished. Please install all tools."@
}

/// Succeeds when `curl`, `nc` and `ab` were all found.
pub fn check_tools(found: &ToolsFound) -> (r: Result<(), String>)
    ensures
        r is Ok <==> found.curl && found.nc && found.ab,
        r matches Err(m) ==> m@ == tools_missing_message(),
{
    if found.curl && found.nc && found.ab {
        Ok(())
    } else {
        Err(String::from_str("Checking tools finished. Please install all tools."))
    }
}

/// A mode that the tests run in.
pub open spec fn is_known_mode(mode: Seq<char>) -> bool {
    mode == "basic"@ || mode == "advanced"@
}

/// The message for a mode that is neither `basic` nor `advanced`.
pub open spec fn unknown_mode_message(mode: Seq<char>) -> Seq<char> {
    "Unknown mode "@ + mode + ", which should be 'basic' or 'advanced'."@
}

/// Succeeds when the tools are all found and `mode` is `basic` or `advanced`;
/// a missing tool is reported first.
pub fn check_mode(mode: &str, found: &ToolsFound) -> (r: Result<(), String>)
    ensures
        r is Ok <==> found.curl && found.nc && found.ab && is_known_mode(mode@),
        r matches Err(m) ==> m@ == if found.curl && found.nc && found.ab {
            unknown_mode_message(mode@)
        } else {
            tools_missing_message()
        },
{
    check_tools(found)?;
    if str_eq(mode, "basic") || str_eq(mode, "advanced") {
        Ok(())
    } else {
        let mut m = String::from_str("Unknown mode ");
        m.append(mode);
        m.append(", which should be 'basic' or 'advanced'.");
        Err(m)
    }
}


/// The shell command that tells whether `tool` is installed: `which {tool}`.
pub fn probe_command(tool: &str) -> (r: String)
    ensures
        r@ == "which "@ + tool@,
{
    let mut c = String::from_str("which ");
    c.append(tool);
    c
}

} // verus!
