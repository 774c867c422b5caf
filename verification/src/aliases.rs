//! Command-line alias preprocessing.
//!
//! The argument parser cannot alias a subcommand to a different level of
//! the command tree, so before parsing, a top-level alias such as `start`
//! is rewritten into its real form `service start` (and `install` into
//! `package install`), unless the arguments already spell the expanded
//! form. Only the first non-flag argument is considered, and matching is
//! exact, so `START` is left alone.

use crate::strutil::str_eq;
use vstd::prelude::*;
use vstd::string::*;

verus! {

/// Is the argument a flag (does it start with `-`)?
pub open spec fn is_flag(arg: Seq<char>) -> bool {
    arg.len() > 0 && arg[0] == '-'
}

/// The first index at or after `k` holding a non-flag argument.
pub open spec fn first_command_index_from(args: Seq<Seq<char>>, k: int) -> Option<int>
    decreases args.len() - k,
{
    if k < 0 || k >= args.len() {
        None
    } else if !is_flag(args[k]) {
        Some(k)
    } else {
        first_command_index_from(args, k + 1)
    }
}

/// Is the command a top-level alias of a `service` subcommand?
pub open spec fn is_service_alias(cmd: Seq<char>) -> bool {
    cmd == "start"@ || cmd == "restart"@ || cmd == "stop"@ || cmd == "status"@
}

/// Is the command a top-level alias of a `package` subcommand?
pub open spec fn is_package_alias(cmd: Seq<char>) -> bool {
    cmd == "install"@ || cmd == "uninstall"@
}

/// The alias rewriting: with fewer than two arguments, or no command, or
/// an already-expanded command, the arguments pass through; an alias is
/// replaced by its parent subcommand with the alias re-inserted after it.
pub open spec fn preprocess_spec(args: Seq<Seq<char>>) -> Seq<Seq<char>> {
    if args.len() < 2 {
        args
    } else {
        match first_command_index_from(args, 1) {
            None => args,
            Some(idx) => {
                let cmd = args[idx];
                let already_expanded = idx + 1 < args.len() && (cmd == "service"@ || cmd
                    == "package"@);
                if already_expanded {
                    args
                } else if is_service_alias(cmd) {
                    args.update(idx, "service"@).insert(idx + 1, cmd)
                } else if is_package_alias(cmd) {
                    args.update(idx, "package"@).insert(idx + 1, cmd)
                } else {
                    args
                }
            },
        }
    }
}

/// A scan finding the first non-flag argument at or after `k` agrees with
/// `first_command_index_from`.
proof fn lemma_first_command_from_scan(args: Seq<Seq<char>>, k: int, i: int)
    requires
        0 <= k <= i <= args.len(),
        forall|j: int| k <= j < i ==> is_flag(#[trigger] args[j]),
        i == args.len() || !is_flag(args[i]),
    ensures
        first_command_index_from(args, k) == (if i == args.len() {
            Option::<int>::None
        } else {
            Option::<int>::Some(i)
        }),
    decreases i - k,
{
    if k < args.len() && is_flag(args[k]) {
        lemma_first_command_from_scan(args, k + 1, i);
    }
}

/// Is the argument a flag?
fn arg_is_flag(arg: &String) -> (r: bool)
    ensures
        r == is_flag(arg@),
{
    let len = arg.as_str().unicode_len();
    len > 0 && arg.as_str().get_char(0) == '-'
}

/// Rewrite top-level aliases into their real subcommand form before the
/// arguments are parsed.
pub fn preprocess_aliases(args: Vec<String>) -> (r: Vec<String>)
    ensures
        r.deep_view() == preprocess_spec(args.deep_view()),
{
    let ghost orig = args.deep_view();
    let mut args = args;
    proof {
        assert(args.deep_view() == orig);
    }
    if args.len() < 2 {
        return args;
    }
    let n = args.len();

    // Find the first non-flag argument: the command.
    let mut i: usize = 1;
    while i < n && arg_is_flag(&args[i])
        invariant
            1 <= i <= n,
            n == args@.len(),
            args.deep_view() == orig,
            orig.len() == n,
            forall|j: int| 1 <= j < i ==> is_flag(#[trigger] orig[j]),
        decreases n - i,
    {
        proof {
            assert(orig[i as int] == args@[i as int]@);
        }
        i += 1;
    }
    proof {
        assert(i < n ==> !is_flag(orig[i as int])) by {
            if i < n {
                assert(orig[i as int] == args@[i as int]@);
            }
        }
        lemma_first_command_from_scan(orig, 1, i as int);
    }
    if i == n {
        return args;
    }
    let idx = i;
    let ghost idxg = idx as int;

    let cmd = args[idx].clone();
    proof {
        assert(cmd@ == orig[idxg]);
    }

    // `espanso service start` and the like are already expanded.
    let already_expanded = idx + 1 < args.len() && (str_eq(cmd.as_str(), "service") || str_eq(
        cmd.as_str(),
        "package",
    ));
    if already_expanded {
        return args;
    }

    let is_service = str_eq(cmd.as_str(), "start") || str_eq(cmd.as_str(), "restart") || str_eq(
        cmd.as_str(),
        "stop",
    ) || str_eq(cmd.as_str(), "status");
    let is_package = str_eq(cmd.as_str(), "install") || str_eq(cmd.as_str(), "uninstall");

    if is_service {
        args[idx] = String::from_str("service");
        proof {
            assert(args.deep_view() =~= orig.update(idxg, "service"@));
        }
        let ghost mid = args.deep_view();
        args.insert(idx + 1, cmd);
        proof {
            assert(args.deep_view() =~= mid.insert(idxg + 1, orig[idxg]));
        }
    } else if is_package {
        args[idx] = String::from_str("package");
        proof {
            assert(args.deep_view() =~= orig.update(idxg, "package"@));
        }
        let ghost mid = args.deep_view();
        args.insert(idx + 1, cmd);
        proof {
            assert(args.deep_view() =~= mid.insert(idxg + 1, orig[idxg]));
        }
    }
    args
}

} // verus!
