//! Command-line configuration: the path of the file with the
//! participant names.

use vstd::prelude::*;

verus! {

/// What the command line hands the program.
pub struct Config {
    pub file_path: String,
}

impl Config {
    /// Reads the file path from the argument list: the element after
    /// the program name. An argument list holding only the program
    /// name is outside the contract (its lookup would fail).
    pub fn build(args: &[String]) -> (r: Result<Config, &'static str>)
        requires
            args@.len() != 1,
        ensures
            args@.len() == 0 ==> (r matches Err(m) && m@ == "not enough arguments"@),
            args@.len() >= 2 ==> (r matches Ok(c) && c.file_path@ == args@[1]@),
    {
        if args.len() < 1 {
            return Err("not enough arguments");
        }
        let file_path = args[1].clone();
        Ok(Config { file_path })
    }
}

} // verus!
