//! Opening things at the right privilege level.
//!
//! The launcher runs elevated, so that its hotkey works everywhere. Started
//! directly, everything it opens would be elevated too. So a target is handed
//! to Explorer, which runs as the user and opens it on the launcher's behalf.
use vstd::prelude::*;
use vstd::string::*;

use crate::pieces;
use crate::plugin;

verus! {

/// What is asked to open a target when the launcher is elevated.
pub const EXPLORER: &'static str = "explorer.exe";

/// The file to run and its arguments, which open `target`, through `program`
/// where one is named. Explorer cannot pass on a program with an argument:
/// that case is run directly, and elevated if the launcher is.
pub open spec fn plan(target: Seq<char>, program: Option<Seq<char>>, elevated: bool) -> (
    Seq<char>,
    Option<Seq<char>>,
) {
    match program {
        Some(p) => (p, Some(target)),
        None => if elevated {
            (EXPLORER@, Some("\""@ + target + "\""@))
        } else {
            (target, None)
        },
    }
}

/// How to open `target`: the file to run and its arguments.
pub fn open(target: &str, program: Option<&str>, elevated: bool) -> (r: (String, Option<String>))
    ensures
        ((r.0)@, plugin::worded(r.1)) == plan(
            target@,
            match program {
                Some(p) => Some(p@),
                None => None,
            },
            elevated,
        ),
{
    match program {
        Some(p) => (p.to_owned(), Some(target.to_owned())),
        None => {
            if elevated {
                let quoted = pieces::concat("\"", target);
                (EXPLORER.to_owned(), Some(pieces::concat(quoted.as_str(), "\"")))
            } else {
                (target.to_owned(), None)
            }
        },
    }
}

/// An elevated launcher starts nothing itself unless a program was named.
pub proof fn law_targets_are_handed_to_explorer(target: Seq<char>)
    ensures
        plan(target, None, true).0 == EXPLORER@,
        plan(target, None, false) == (target, None::<Seq<char>>),
{
}

} // verus!
