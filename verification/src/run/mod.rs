//! The test runs: the requests they make and how they judge the replies.
use vstd::prelude::*;

use crate::config::{ConfigError, ConfigFault, ItemKind};
use crate::json::{elements_of, views_of, JsonValue};
use crate::report::Level;
use crate::text::str_eq;

pub mod http;
pub mod perf;
pub mod pipe;
pub mod proxy;
pub mod steps;

verus! {

/// A test passes when what the server sent equals the expected content.
/// `test`, `path` and `file` name the test in reports and do not change the verdict.
pub fn compare_result(test: &str, path: &str, file: &str, content: &str, output: &str) -> (r: Result<(), ()>)
    ensures
        r is Ok <==> content@ == output@,
{
    if str_eq(content, output) {
        Ok(())
    } else {
        Err(())
    }
}

/// The elements of a list of test items, or `NotArray` when `items` is no array.
pub fn item_list(items: &JsonValue, kind: ItemKind) -> (r: Result<&Vec<JsonValue>, ConfigError>)
    ensures
        match r {
            Ok(v) => elements_of(items@) == Some(views_of(v@)),
            Err(e) => elements_of(items@) is None && e@ == ConfigFault::NotArray {
                item: kind,
                value: items@,
            },
        },
{
    match items.as_array() {
        Some(v) => Ok(v),
        None => Err(ConfigError::NotArray { item: kind, value: items.deep_copy() }),
    }
}


/// The lines that report the verdict on one reply, with their levels: on a pass,
/// `{test}: Path {path} pass.`; otherwise the difference from `file`, then what was
/// expected and what was received.
pub open spec fn verdict_text(test: Seq<char>, path: Seq<char>, file: Seq<char>, content: Seq<char>, output: Seq<char>) -> Seq<(Level, Seq<char>)> {
    if content == output {
        seq![(Level::Info, test + ": Path "@ + path + " pass."@)]
    } else {
        seq![
            (Level::Error, "The content of path "@ + path + " is different from source "@ + file + "\n"@),
            (Level::Debug, "You should recv:\n"@ + content),
            (Level::Debug, "You actually recv:\n"@ + output + "\n"@),
        ]
    }
}

/// The contents of report lines.
pub open spec fn lines_view(lines: Seq<(Level, String)>) -> Seq<(Level, Seq<char>)> {
    lines.map_values(|l: (Level, String)| (l.0, l.1@))
}

/// `prefix`, then `middle`, then `suffix`.
pub(crate) fn joined3(prefix: &str, middle: &str, suffix: &str) -> (r: String)
    ensures
        r@ == prefix@ + middle@ + suffix@,
{
    let mut m = prefix.to_owned();
    m.append(middle);
    m.append(suffix);
    m
}

/// The report of the verdict on one reply; the verdict is the one `compare_result` gives.
pub fn verdict_lines(test: &str, path: &str, file: &str, content: &str, output: &str) -> (r: Vec<(Level, String)>)
    ensures
        lines_view(r@) == verdict_text(test@, path@, file@, content@, output@),
{
    let mut lines: Vec<(Level, String)> = Vec::new();
    match compare_result(test, path, file, content, output) {
        Ok(()) => {
            let head = joined3(test, ": Path ", path);
            lines.push((Level::Info, joined3(head.as_str(), " pass.", "")));
            proof {
                reveal_strlit("");
            }
        },
        Err(()) => {
            let head = joined3("The content of path ", path, " is different from source ");
            lines.push((Level::Error, joined3(head.as_str(), file, "\n")));
            lines.push((Level::Debug, joined3("You should recv:\n", content, "")));
            lines.push((Level::Debug, joined3("You actually recv:\n", output, "\n")));
            proof {
                reveal_strlit("");
            }
        },
    }
    assert(lines_view(lines@) =~= verdict_text(test@, path@, file@, content@, output@));
    lines
}

} // verus!
