//! The `ydotool type` argument vector. The transcript is passed as one `--`-terminated
//! argument, so no part of it can be read as a flag or a shell token.

use vstd::prelude::*;
use crate::text::{dec, dec_string};

verus! {

/// The arguments (after the `ydotool` binary) that type `text` with the given
/// inter-key delay: `type --key-delay <ms> -- <text>`.
pub open spec fn type_argv(text: Seq<char>, key_delay_ms: nat) -> Seq<Seq<char>> {
    seq!["type"@, "--key-delay"@, dec(key_delay_ms), "--"@, text]
}

/// Build the argument vector to type `text` with the given inter-key delay.
pub fn type_command(text: &str, key_delay_ms: u32) -> (argv: Vec<String>)
    ensures
        argv@.map_values(|a: String| a@) == type_argv(text@, key_delay_ms as nat),
{
    let mut argv: Vec<String> = Vec::new();
    argv.push("type".to_owned());
    argv.push("--key-delay".to_owned());
    argv.push(dec_string(key_delay_ms as u64));
    argv.push("--".to_owned());
    argv.push(text.to_owned());
    assert(argv@.map_values(|a: String| a@) =~= type_argv(text@, key_delay_ms as nat));
    argv
}

} // verus!
