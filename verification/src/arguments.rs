//! A tool call's arguments before and after they are parsed: what text goes
//! to the JSON parser, and how a parse failure reads to the model.
//!
//! The parse itself, into the arguments of each tool, is the caller's part.

use vstd::prelude::*;

use crate::errors::ToolError;
use crate::resolve::owned_text;
use crate::text::{is_blank, replace_all, replace_text, trim};

verus! {

/// What is parsed for a call: its arguments, or an empty object where the
/// model sent nothing but whitespace.
pub open spec fn spec_json_input(arguments: Seq<char>) -> Seq<char> {
    if trim(arguments).len() == 0 {
        "{}"@
    } else {
        arguments
    }
}

pub fn json_input(arguments: &str) -> (s: String)
    ensures
        s@ == spec_json_input(arguments@),
{
    if is_blank(arguments) {
        let mut s = String::new();
        s.append("{}");
        s
    } else {
        owned_text(arguments)
    }
}

/// A parser's message in words a model can act on: the Rust types it names
/// are said as the JSON it should send.
pub open spec fn humanized(reason: Seq<char>) -> Seq<char> {
    let a = replace_all(reason, "expected u32"@, "expected a number"@);
    let b = replace_all(a, "expected u64"@, "expected a number"@);
    let c = replace_all(b, "expected usize"@, "expected a number"@);
    let d = replace_all(c, "expected a sequence"@, "expected a JSON array"@);
    replace_all(d, "expected a map"@, "expected a JSON object"@)
}

pub fn humanize_serde_error(reason: &str) -> (s: String)
    ensures
        s@ == humanized(reason@),
{
    let a = replace_text(reason, "expected u32", "expected a number");
    let b = replace_text(a.as_str(), "expected u64", "expected a number");
    let c = replace_text(b.as_str(), "expected usize", "expected a number");
    let d = replace_text(c.as_str(), "expected a sequence", "expected a JSON array");
    replace_text(d.as_str(), "expected a map", "expected a JSON object")
}

/// The error a call whose arguments did not parse comes back with: the tool
/// it named, and the parser's message in the model's terms.
pub fn argument_error(tool: &str, parse_message: &str) -> (e: ToolError)
    ensures
        e matches ToolError::InvalidArguments { tool: t, reason: r } && t@ == tool@ && r@ == humanized(
            parse_message@,
        ),
{
    ToolError::InvalidArguments { tool: owned_text(tool), reason: humanize_serde_error(parse_message) }
}

} // verus!
