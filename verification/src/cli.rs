//! Command-line plumbing the library can decide: whether an invocation that
//! names no subcommand should default to the client subcommand.

use vstd::prelude::*;
use crate::strutil::{first_char_is, str_eq};

verus! {

/// Whether the argument row needs the default subcommand spliced in after
/// the program name: there is no second argument, or the second argument is
/// a flag other than the help and version flags.
pub open spec fn needs_default_subcommand(args: Seq<Seq<char>>) -> bool {
    if args.len() < 2 {
        true
    } else {
        let a = args[1];
        if a == "-h"@ || a == "--help"@ || a == "-V"@ || a == "--version"@ {
            false
        } else {
            a.len() > 0 && a[0] == '-'
        }
    }
}

/// Splices the default `client` subcommand into an argument row that starts
/// with flags instead of a subcommand; rows that name a subcommand or ask
/// for help or the version pass through unchanged.
pub fn cli_args_with_default_subcommand(args: Vec<String>) -> (r: Vec<String>)
    requires
        args@.len() >= 1,
    ensures
        r.deep_view() == if needs_default_subcommand(args.deep_view()) {
            args.deep_view().insert(1, "client"@)
        } else {
            args.deep_view()
        },
{
    let mut args = args;
    let needs_default_client = if args.len() < 2 {
        true
    } else {
        let a = &args[1];
        if str_eq(a.as_str(), "-h") || str_eq(a.as_str(), "--help") || str_eq(a.as_str(), "-V")
            || str_eq(a.as_str(), "--version") {
            false
        } else {
            first_char_is(a.as_str(), '-')
        }
    };
    proof {
        assert(args.deep_view().len() == args@.len());
        if args@.len() >= 2 {
            assert(args.deep_view()[1] == args@[1]@);
        }
        assert(needs_default_client == needs_default_subcommand(args.deep_view()));
    }
    if needs_default_client {
        let ghost before = args.deep_view();
        args.insert(1, "client".to_owned());
        proof {
            assert(args.deep_view() =~= before.insert(1, "client"@)) by {
                assert forall|i: int| 0 <= i < args.deep_view().len() implies args.deep_view()[i]
                    == before.insert(1, "client"@)[i] by {
                    assert(args.deep_view()[i] == args@[i]@);
                }
            }
        }
    }
    args
}

} // verus!
