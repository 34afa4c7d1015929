//! The command line: the program's name and the file to run.

use vstd::prelude::*;

verus! {

/// What the command line asks for.
#[derive(Debug)]
pub struct Config<'a> {
    pub filename: &'a str,
}

impl<'a> Config<'a> {
    /// Reads the arguments, the first of which is the program's name: with
    /// exactly one more, that one is the file name; with none, or with more
    /// than one, the arguments are refused.
    pub fn build(args: &'a Vec<String>) -> (config: Result<Config<'a>, &'static str>)
        requires
            args@.len() >= 1,
        ensures
            match config {
                Ok(c) => args@.len() == 2 && c.filename@ == args@[1]@,
                Err(msg) => if args@.len() > 2 {
                    msg@ == "Too many args"@
                } else {
                    args@.len() == 1 && msg@ == "No filename passed"@
                },
            },
    {
        if args.len() > 2 {
            return Err("Too many args");
        }
        if args.len() == 1 {
            return Err("No filename passed");
        }
        Ok(Config { filename: args[1].as_str() })
    }
}

} // verus!
