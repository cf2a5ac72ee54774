//! The pure part of building the tool's configuration from its argument
//! list.  Reading the environment, printing the usage text and ending the
//! process stay with the caller, which hands in the one environment fact
//! the decision needs.

use vstd::prelude::*;
use vstd::slice::slice_index_get;
use vstd::string::StringExecFns;

verus! {

/// A configured search: what to look for, in which file, and whether the
/// comparison is exact or lowercase-normalised.
pub struct Config {
    pub query: String,
    pub filename: String,
    pub case_sensitive: bool,
}

/// `flag` occurs among the arguments.
pub open spec fn flag_present(args: Seq<String>, flag: Seq<char>) -> bool {
    exists|i: int| 0 <= i < args.len() && args[i]@ == flag
}

fn contains_flag(args: &[String], flag: &String) -> (r: bool)
    ensures
        r == flag_present(args@, flag@),
{
    let mut i: usize = 0;
    let mut found = false;
    while i < args.len()
        invariant
            i <= args@.len(),
            found <==> exists|k: int| 0 <= k < i && args@[k]@ == flag@,
        decreases args@.len() - i,
    {
        let a: &String = slice_index_get(args, i);
        if *a == *flag {
            found = true;
            proof {
                assert(args@[i as int]@ == flag@);
            }
        } else {
            proof {
                assert(args@[i as int]@ != flag@);
            }
        }
        i += 1;
    }
    found
}

/// Whether the argument list asks for the usage text.
pub fn help_requested(args: &[String]) -> (r: bool)
    ensures
        r == flag_present(args@, "--help"@),
{
    let flag = String::from_str("--help");
    contains_flag(args, &flag)
}

impl Config {
    /// Builds the configuration from the raw argument list (the program
    /// name first, then the query and the file path) and from whether the
    /// caller found the environment asking for case-insensitive search.
    /// The search is case-sensitive exactly when neither the flag among
    /// the arguments nor the environment asks otherwise.
    pub fn new(args: &[String], case_insensitive_env: bool) -> (result: Result<
        Config,
        &'static str,
    >)
        ensures
            match result {
                Ok(config) => args@.len() >= 3 && config.query@ == args@[1]@ && config.filename@
                    == args@[2]@ && config.case_sensitive == !(case_insensitive_env
                    || flag_present(args@, "--case_insensitive"@)),
                Err(msg) => args@.len() < 3 && msg@ == "not enough arguments, see --help"@,
            },
    {
        if args.len() < 3 {
            return Err("not enough arguments, see --help");
        }
        let flag = String::from_str("--case_insensitive");
        let case_insensitive_flag = contains_flag(args, &flag);
        let query = slice_index_get(args, 1).clone();
        let filename = slice_index_get(args, 2).clone();
        Ok(
            Config {
                query,
                filename,
                case_sensitive: !(case_insensitive_env || case_insensitive_flag),
            },
        )
    }
}

} // verus!
