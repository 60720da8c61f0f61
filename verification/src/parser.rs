//! Command-line classification.

use vstd::prelude::*;
use vstd::string::StringExecFns;
use crate::types::CliArgs;

verus! {

/// How a raw argument list is classified: the first real argument decides,
/// anything unrecognized is `Unknown`.
pub open spec fn spec_parse_cli(args: Seq<String>) -> CliArgs {
    if args.len() <= 1 {
        CliArgs::NoArguments
    } else if args[1]@ == "--help"@ || args[1]@ == "-h"@ {
        CliArgs::Help
    } else if args[1]@ == "--clean-history"@ || args[1]@ == "-c"@ {
        CliArgs::CleanHistory
    } else {
        CliArgs::Unknown
    }
}

/// Classifies the argument list as handed over by the process environment
/// (the leading element names the executable).
pub fn cli_args_parser(args: &Vec<String>) -> (r: CliArgs)
    ensures
        r == spec_parse_cli(args@),
{
    if args.len() <= 1 {
        return CliArgs::NoArguments;
    }
    let a = &args[1];
    if a.eq(&String::from_str("--help")) || a.eq(&String::from_str("-h")) {
        CliArgs::Help
    } else if a.eq(&String::from_str("--clean-history")) || a.eq(&String::from_str("-c")) {
        CliArgs::CleanHistory
    } else {
        CliArgs::Unknown
    }
}

} // verus!
