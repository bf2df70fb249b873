//! What command-line handling hands the rest of the program: a map from
//! option name to value, plus the raw command/regex specifications. Reading
//! and interpreting the actual arguments is the shell's job; the core only
//! consumes the values collected here.

use vstd::prelude::*;

verus! {

/// The collected command-line options: named options with their values, and
/// the raw `command[SPLIT]args...[SPLIT]regex` specifications in order.
pub struct ArgsResult {
    pub map: std::collections::HashMap<String, String>,
    pub regex_cmds: Vec<String>,
}

} // verus!
