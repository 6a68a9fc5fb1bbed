//! Selection of the container file from the command-line argument list.

use vstd::prelude::*;

verus! {

/// The command-line selection: the path of the container file to visualize,
/// if one was given.
pub struct Cli {
    pub wav_file: Option<String>,
}

/// Picks the file operand out of the raw argument list, whose first entry is
/// the program name: the first operand becomes the selected file, and an
/// argument list without operands selects none.
pub fn parse_args(args: &Vec<String>) -> (c: Cli)
    ensures
        args@.len() >= 2 ==> (c.wav_file matches Some(f) && f@ == args@[1]@),
        args@.len() < 2 ==> c.wav_file is None,
{
    if args.len() >= 2 {
        Cli { wav_file: Some(args[1].clone()) }
    } else {
        Cli { wav_file: None }
    }
}

} // verus!
