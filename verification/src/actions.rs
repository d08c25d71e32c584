//! What the actions of a template need besides the files they work on.

pub mod prompts;
