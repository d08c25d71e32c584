//! The texts that a prompt shows.

use vstd::prelude::*;
use vstd::string::StringExecFns;

use crate::text::joined;

verus! {

/// The texts of prompts.
pub struct Inquirer;

impl Inquirer {
    /// What a prompt shows for an answer: an empty answer as `<empty>`, any
    /// other as it is.
    pub fn empty_formatter(input: &str) -> (shown: String)
        ensures
            shown@ == if input@.len() == 0 {
                "<empty>"@
            } else {
                input@
            },
    {
        if input.is_empty() {
            String::from_str("<empty>")
        } else {
            String::from_str(input)
        }
    }

    /// The name under which the answer is kept, the hint with a colon behind
    /// it, and the help that says where the answer goes.
    pub fn messages(name: &str, hint: &str) -> (texts: (String, String, String))
        ensures
            texts.0@ == name@,
            texts.1@ == hint@ + ":"@,
            texts.2@ == "The answer will be mapped to: "@ + name@,
    {
        (
            String::from_str(name),
            joined(hint, ":"),
            joined("The answer will be mapped to: ", name),
        )
    }
}

} // verus!
