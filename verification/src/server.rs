//! Starting the server under test.
use vstd::prelude::*;

verus! {

/// The shell command that starts the server: `{bin} {server_args}`.
pub fn server_command(bin: &str, server_args: &str) -> (r: String)
    ensures
        r@ == bin@ + " "@ + server_args@,
{
    let mut c = bin.to_owned();
    c.append(" ");
    c.append(server_args);
    c
}

} // verus!
