//! The management-mode entry point: invoked with the operation arguments,
//! it renders the usage text under the binary's own name. The caller prints
//! the text and exits with the returned code.

use vstd::prelude::*;

use crate::path::{basename, basename_spec};

verus! {

/// The usage text, with the binary's name substituted wherever an
/// invocation is shown.
pub open spec fn help_text_spec(bin: Seq<char>) -> Seq<char> {
    "usage: "@ + bin
        + " <operation> [<arg1> <arg2> ...]\n\n  <operation>\n\n    - Link new commands\n\n        "@
        + bin + " new <command-name-1> <command-name-2> ...\n        "@ + bin
        + " add <command-name-1> <command-name-2> ...\n        "@ + bin
        + " ln <command-name-1> <command-name-2> ...\n\n    - Unlink existing commands\n\n        "@
        + bin + " del <command-name-1> <command-name-2> ...\n        "@ + bin
        + " rm <command-name-1> <command-name-2> ...\n\n    - List linked commands\n\n        "@
        + bin + " list\n\n"@
}

/// Renders the usage text for a binary called `bin_name`.
pub fn help_text(bin_name: &str) -> (r: String)
    ensures
        r@ == help_text_spec(bin_name@),
{
    let mut out = String::from_str("usage: ");
    out.append(bin_name);
    out.append(
        " <operation> [<arg1> <arg2> ...]\n\n  <operation>\n\n    - Link new commands\n\n        ",
    );
    out.append(bin_name);
    out.append(" new <command-name-1> <command-name-2> ...\n        ");
    out.append(bin_name);
    out.append(" add <command-name-1> <command-name-2> ...\n        ");
    out.append(bin_name);
    out.append(" ln <command-name-1> <command-name-2> ...\n\n    - Unlink existing commands\n\n        ");
    out.append(bin_name);
    out.append(" del <command-name-1> <command-name-2> ...\n        ");
    out.append(bin_name);
    out.append(" rm <command-name-1> <command-name-2> ...\n\n    - List linked commands\n\n        ");
    out.append(bin_name);
    out.append(" list\n\n");
    proof {
        assert(out@ =~= help_text_spec(bin_name@));
    }
    out
}

/// Manage (add / remove / list) linked subsystem commands: the entry point
/// of the management mode. Called with the raw arguments (the binary's own
/// path first), it yields the text to print and the process exit code.
pub fn management_mode(args: &[String]) -> (r: (String, Option<i32>))
    ensures
        r.1 == Some(0i32),
        args@.len() > 0 ==> r.0@ == help_text_spec(basename_spec(args@[0]@)),
        args@.len() == 0 ==> r.0@ == help_text_spec(Seq::<char>::empty()),
{
    let text = if args.len() > 0 {
        let bin = basename(args[0].as_str());
        help_text(bin.as_str())
    } else {
        help_text("")
    };
    proof {
        if args@.len() == 0 {
            reveal_strlit("");
            assert(""@ =~= Seq::<char>::empty());
        }
    }
    (text, Some(0))
}

} // verus!
