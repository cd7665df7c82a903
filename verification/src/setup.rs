//! Starting at login.
//!
//! The launcher needs to be started elevated, which nothing but a scheduled
//! task can do without asking. The task is made anew at every start, so that
//! it always points at where the program is.
use vstd::prelude::*;
use vstd::string::*;

use crate::config::{self, Config};
use crate::pieces;

verus! {

/// Name of the task.
pub const TASK_NAME: &'static str = "Apex Elevated Logon";

/// Arguments that make the task.
pub open spec fn creation(exe: Seq<char>) -> Seq<Seq<char>> {
    seq![
        "/create"@,
        "/tn"@,
        TASK_NAME@,
        "/tr"@,
        "\""@ + exe + "\""@,
        "/sc"@,
        "onlogon"@,
        "/rl"@,
        "highest"@,
        "/f"@,
    ]
}

/// Arguments that remove the task.
pub open spec fn removal() -> Seq<Seq<char>> {
    seq!["/delete"@, "/tn"@, TASK_NAME@, "/f"@]
}

/// What the task scheduler is asked to do: make the task when the launcher is
/// to start at login, and remove it when it is not and the task is there.
pub open spec fn task_change(enabled: bool, exe: Seq<char>, exists: bool) -> Option<Seq<Seq<char>>> {
    if enabled {
        Some(creation(exe))
    } else if exists {
        Some(removal())
    } else {
        None
    }
}

/// The texts of an optional list.
pub open spec fn listed(v: Option<Vec<String>>) -> Option<Seq<Seq<char>>> {
    match v {
        Some(v) => Some(pieces::strings(v@)),
        None => None,
    }
}

/// What the task scheduler is asked to do.
pub fn logon_task(enabled: bool, exe: &str, exists: bool) -> (r: Option<Vec<String>>)
    ensures
        listed(r) == task_change(enabled, exe@, exists),
{
    if enabled {
        let quoted = pieces::concat("\"", exe);
        let mut args: Vec<String> = Vec::new();
        args.push("/create".to_owned());
        args.push("/tn".to_owned());
        args.push(TASK_NAME.to_owned());
        args.push("/tr".to_owned());
        args.push(pieces::concat(quoted.as_str(), "\""));
        args.push("/sc".to_owned());
        args.push("onlogon".to_owned());
        args.push("/rl".to_owned());
        args.push("highest".to_owned());
        args.push("/f".to_owned());
        assert(pieces::strings(args@) =~= creation(exe@));
        Some(args)
    } else if exists {
        let mut args: Vec<String> = Vec::new();
        args.push("/delete".to_owned());
        args.push("/tn".to_owned());
        args.push(TASK_NAME.to_owned());
        args.push("/f".to_owned());
        assert(pieces::strings(args@) =~= removal());
        Some(args)
    } else {
        None
    }
}

/// Whether there is to be a Start menu entry.
pub fn wants_start_menu(config: &Config) -> (r: bool)
    ensures
        r == config::flag_of(config@, "general"@, "start_menu"@, true),
{
    config.general_flag("start_menu", true)
}

/// Whether the launcher is to start at login.
pub fn wants_startup(config: &Config) -> (r: bool)
    ensures
        r == config::flag_of(config@, "general"@, "start_on_startup"@, true),
{
    config.general_flag("start_on_startup", true)
}

} // verus!
