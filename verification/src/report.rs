//! The summary that ends a test run.
use vstd::prelude::*;

use crate::text::{decimal, push_decimal};

verus! {

/// How a report line is logged.
#[derive(Clone, Copy, Debug, PartialEq, Eq)]
pub enum Level {
    Info,
    Warn,
    Error,
    Debug,
}

/// `{name} test items: all {all}, passes {passes}` for a run, `{name} not test...` for none.
pub open spec fn summary_text(name: Seq<char>, result: Option<(usize, usize)>) -> Seq<char> {
    match result {
        Some((all, passes)) => name + " test items: all "@ + decimal(all as nat) + ", passes "@
            + decimal(passes as nat),
        None => name + " not test..."@,
    }
}

/// The summary line of one kind of test and its level: `Info` when every item passed,
/// `Warn` when one failed or the tests did not run.
pub fn summary_line(name: &str, result: Option<(usize, usize)>) -> (r: (Level, String))
    ensures
        r.1@ == summary_text(name@, result),
        r.0 == (if result matches Some((all, passes)) && all == passes {
            Level::Info
        } else {
            Level::Warn
        }),
{
    let mut line = name.to_owned();
    match result {
        Some((all, passes)) => {
            line.append(" test items: all ");
            push_decimal(&mut line, all as u64);
            line.append(", passes ");
            push_decimal(&mut line, passes as u64);
            if all == passes {
                (Level::Info, line)
            } else {
                (Level::Warn, line)
            }
        },
        None => {
            line.append(" not test...");
            (Level::Warn, line)
        },
    }
}

/// `Perfermance test {count} times.`, the heading of the performance results.
pub fn performance_heading(count: usize) -> (r: String)
    ensures
        r@ == "Perfermance test "@ + decimal(count as nat) + " times."@,
{
    let mut line = String::from_str("Perfermance test ");
    push_decimal(&mut line, count as u64);
    line.append(" times.");
    line
}

} // verus!
