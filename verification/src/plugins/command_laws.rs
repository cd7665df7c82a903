//! What holds of the launcher's own commands: what finds them, and what each
//! of them does.
use vstd::prelude::*;
use vstd::string::*;

use crate::fuzzy;
use crate::plugin::{Answer, Bitmap, Deed, Filled, Offer, Outcome, Plugin, Row, ShellCommand};
use crate::plugins::commands::{self, Commands, Listed};
use crate::plugins::search_laws;
use crate::plugins::shelf_laws;

verus! {

// ---- what a query finds ----------------------------------------------------------------------

/// The query can be placed on the command's label, or on the label and the
/// keywords behind it.
pub open spec fn reached(q: Seq<char>, c: Listed) -> bool {
    search_laws::named(q, c.label) || search_laws::named(q, c.label + seq![' '] + c.keywords)
}

/// A row shows a command: its label without the prefix, and the prefix as the
/// group it belongs to.
pub open spec fn shows(row: Row, c: Listed, icon: Option<Bitmap>) -> bool {
    &&& row.plugin == "commands"@
    &&& row.payload == c.id
    &&& c.label == "Apex: "@ + row.title
    &&& row.category == "Apex"@
    &&& row.subtitle == "Command"@
    &&& row.badge is None
    &&& row.icon == icon
}

/// A row's score: what the label is worth, or what label and keywords are
/// worth less twelve, whichever is more.
pub open spec fn scores(row: Row, c: Listed, q: Seq<char>) -> bool {
    let all = c.label + seq![' '] + c.keywords;
    &&& search_laws::named(q, c.label) ==> exists|s: int| #[trigger]
        search_laws::worth(q, c.label, s) && row.score >= s
    &&& search_laws::named(q, all) ==> exists|s: int| #[trigger]
        search_laws::worth(q, all, s) && row.score >= s - 12
    &&& (exists|s: int| #[trigger] search_laws::worth(q, c.label, s) && row.score == s) || (exists|
        s: int,
    | #[trigger]
        search_laws::worth(q, all, s) && row.score == fuzzy::told(s - 12))
}

/// `rows` are those of the commands at the positions `at`: all that the query
/// reaches and no others, in their order.
pub open spec fn finds(
    rows: Seq<Row>,
    at: Seq<int>,
    cs: Seq<Listed>,
    q: Seq<char>,
    icon: Option<Bitmap>,
) -> bool {
    &&& at.len() == rows.len()
    &&& search_laws::ascending(at, cs.len() as int)
    &&& forall|i: int|
        0 <= i < rows.len() ==> shows(#[trigger] rows[i], cs[at[i]], icon) && scores(
            rows[i],
            cs[at[i]],
            q,
        )
    &&& forall|k: int| #[trigger] at.contains(k) <==> 0 <= k < cs.len() && reached(q, cs[k])
}

/// Every label starts with the prefix all commands share.
pub open spec fn prefixed(cs: Seq<Listed>) -> bool {
    forall|i: int| 0 <= i < cs.len() ==> "Apex: "@.is_prefix_of(#[trigger] cs[i].label)
}

proof fn lemma_row(c: Listed, q: Seq<char>, icon: Option<Bitmap>)
    requires
        "Apex: "@.is_prefix_of(c.label),
    ensures
        commands::command_score(c, q) is Some <==> reached(q, c),
        commands::command_score(c, q) matches Some(score) ==> shows(
            commands::command_row(c, score, icon),
            c,
            icon,
        ) && scores(commands::command_row(c, score, icon), c, q),
{
    reveal_strlit(" ");
    assert(" "@ =~= seq![' ']);
    let all = c.label + seq![' '] + c.keywords;
    search_laws::lemma_name_score(q, c.label);
    search_laws::lemma_name_score(q, all);
    assert(commands::haystack(c) == all);
    let prefix = "Apex: "@;
    assert(c.label.subrange(0, prefix.len() as int) =~= prefix);
    assert(prefix + c.label.skip(prefix.len() as int) =~= c.label);
    if let Some(b) = fuzzy::name_score(q, all) {
        assert(search_laws::worth(q, all, b as int));
        fuzzy::law_name_scores_are_bounded(q, all);
    }
    if let Some(a) = fuzzy::name_score(q, c.label) {
        assert(search_laws::worth(q, c.label, a as int));
    }
}

proof fn lemma_command_rows(cs: Seq<Listed>, q: Seq<char>, icon: Option<Bitmap>) -> (at: Seq<int>)
    requires
        prefixed(cs),
    ensures
        finds(commands::command_rows(cs, q, icon), at, cs, q, icon),
    decreases cs.len(),
{
    let rows = commands::command_rows(cs, q, icon);
    if cs.len() == 0 {
        Seq::empty()
    } else {
        let front = cs.drop_last();
        let before = commands::command_rows(front, q, icon);
        assert forall|i: int| 0 <= i < front.len() implies "Apex: "@.is_prefix_of(
            #[trigger] front[i].label,
        ) by {
            assert(front[i] == cs[i]);
        }
        let so_far = lemma_command_rows(front, q, icon);
        let c = cs[cs.len() - 1];
        assert("Apex: "@.is_prefix_of(c.label));
        let n = front.len() as int;
        lemma_row(c, q, icon);
        match commands::command_score(c, q) {
            Some(score) => {
                let at = so_far.push(n);
                assert(rows == before.push(commands::command_row(c, score, icon)));
                assert forall|i: int| 0 <= i < rows.len() implies shows(
                    #[trigger] rows[i],
                    cs[at[i]],
                    icon,
                ) && scores(rows[i], cs[at[i]], q) by {
                    if i < before.len() {
                        assert(rows[i] == before[i]);
                        assert(cs[at[i]] == front[so_far[i]]);
                    }
                }
                assert forall|k: int| #[trigger] at.contains(k) <==> 0 <= k < cs.len() && reached(
                    q,
                    cs[k],
                ) by {
                    if at.contains(k) {
                        let i = choose|i: int| 0 <= i < at.len() && at[i] == k;
                        if i < so_far.len() {
                            assert(so_far[i] == k);
                            assert(so_far.contains(k));
                        }
                    }
                    if 0 <= k < n && reached(q, cs[k]) {
                        assert(front[k] == cs[k]);
                        assert(so_far.contains(k));
                        let i = choose|i: int| 0 <= i < so_far.len() && so_far[i] == k;
                        assert(at[i] == k);
                    }
                    if k == n {
                        assert(at[so_far.len() as int] == k);
                    }
                }
                at
            },
            None => {
                assert(rows == before);
                assert forall|i: int| 0 <= i < rows.len() implies shows(
                    #[trigger] rows[i],
                    cs[so_far[i]],
                    icon,
                ) && scores(rows[i], cs[so_far[i]], q) by {
                    assert(cs[so_far[i]] == front[so_far[i]]);
                }
                so_far
            },
        }
    }
}

proof fn lemma_labels()
    ensures
        prefixed(commands::listed()),
        commands::listed().len() == 11,
{
    reveal_strlit("Apex: ");
    reveal_strlit("Apex: Reload");
    reveal_strlit("Apex: Restart");
    reveal_strlit("Apex: Quit");
    reveal_strlit("Apex: Open Config");
    reveal_strlit("Apex: Open Config Folder");
    reveal_strlit("Apex: Toggle Tray Icon");
    reveal_strlit("Apex: Toggle Start at Login");
    reveal_strlit("Apex: Add Source Folder");
    reveal_strlit("Apex: Manage Source Folders");
    reveal_strlit("Apex: Manage Hidden Entries");
    reveal_strlit("Apex: Clear Launch History");
    let cs = commands::listed();
    assert forall|i: int| 0 <= i < cs.len() implies "Apex: "@.is_prefix_of(
        #[trigger] cs[i].label,
    ) by {
        assert(cs[i].label.subrange(0, 6) =~= "Apex: "@);
    }
}

/// A query finds every command that it can be placed on, by label or by
/// keywords, and no other, each once and in order. The row shows the label
/// without the prefix all commands share. A keyword costs twelve points.
pub proof fn law_commands_are_found_by_label_and_keywords(p: &Commands, q: Seq<char>) -> (at: Seq<
    int,
>)
    ensures
        finds(p.found(q), at, commands::listed(), q, p.icon()),
{
    lemma_labels();
    lemma_command_rows(commands::listed(), q, p.icon())
}

/// Commands are found by searching alone: none is listed by itself or made
/// again from launch history. Enter runs them, and the panel offers the same.
pub proof fn law_commands_are_only_searched_for(p: &Commands, row: Row, id: Seq<char>)
    ensures
        p.stock().len() == 0,
        p.made(row.payload) is None,
        p.name() == "commands"@,
        p.offered(row).len() == 1,
        p.offered(row)[0].id == "run"@,
        p.on_action(id, row) == p.on_activate(row),
{
}

// ---- what a command does ---------------------------------------------------------------------

proof fn lemma_ids()
    ensures
        "reload"@.len() == 6,
        "restart"@.len() == 7,
        "quit"@.len() == 4,
        "config"@.len() == 6,
        "config_folder"@.len() == 13,
        "tray"@.len() == 4,
        "startup"@.len() == 7,
        "add_source"@.len() == 10,
        "sources"@.len() == 7,
        "hidden"@.len() == 6,
        "clear_history"@.len() == 13,
        "reload"@[0] == 'r',
        "config"@[0] == 'c',
        "hidden"@[0] == 'h',
        "quit"@[0] == 'q',
        "tray"@[0] == 't',
        "restart"@[0] == 'r',
        "startup"@[1] == 't',
        "sources"@[0] == 's',
        "sources"@[1] == 'o',
        "startup"@[0] == 's',
        "clear_history"@[1] == 'l',
        "config_folder"@[1] == 'o',
{
    reveal_strlit("reload");
    reveal_strlit("restart");
    reveal_strlit("quit");
    reveal_strlit("config");
    reveal_strlit("config_folder");
    reveal_strlit("tray");
    reveal_strlit("startup");
    reveal_strlit("add_source");
    reveal_strlit("sources");
    reveal_strlit("hidden");
    reveal_strlit("clear_history");
}

/// Each command does its own thing and no other command does it: reloading
/// goes through every plugin, quitting, restarting, the tray icon, the launch
/// history and the two lists are for the window, the configuration and its
/// folder are opened, starting at login is flipped, and a source folder is
/// asked for. Nothing else does anything.
pub proof fn law_each_command_does_its_own_thing(p: &Commands, row: Row)
    ensures
        ({
            let id = row.payload;
            let a = p.on_activate(row);
            &&& a.result == Outcome::Refresh <==> id == "reload"@
            &&& a.result == Outcome::Shell(ShellCommand::Restart) <==> id == "restart"@
            &&& a.result == Outcome::Shell(ShellCommand::Quit) <==> id == "quit"@
            &&& a.result == Outcome::Shell(ShellCommand::ToggleTray) <==> id == "tray"@
            &&& a.result == Outcome::Shell(ShellCommand::ClearHistory) <==> id == "clear_history"@
            &&& a.result == Outcome::Shell(ShellCommand::ShowHidden) <==> id == "hidden"@
            &&& a.result == Outcome::Shell(ShellCommand::ShowSources) <==> id == "sources"@
            &&& a.result is RequestForm <==> id == "add_source"@
            &&& a.effect == (Deed::OpenConfig { folder: false }) <==> id == "config"@
            &&& a.effect == (Deed::OpenConfig { folder: true }) <==> id == "config_folder"@
            &&& a.result == Outcome::Dismiss <==> a.effect is OpenConfig
            &&& a.effect == Deed::ToggleStartup <==> id == "startup"@
            &&& a.effect == Deed::Nothing || a.effect is OpenConfig || a.effect
                == Deed::ToggleStartup
            &&& a.result == Outcome::Close ==> false
            &&& a == Answer::just(Outcome::Done) <==> !exists|c: Listed|
                #![trigger commands::listed().contains(c)]
                commands::listed().contains(c) && c.id == id
        }),
{
    lemma_ids();
    let cs = commands::listed();
    let id = row.payload;
    assert(cs[0].id == "reload"@ && cs[1].id == "restart"@ && cs[2].id == "quit"@ && cs[3].id
        == "config"@ && cs[4].id == "config_folder"@ && cs[5].id == "tray"@ && cs[6].id
        == "startup"@ && cs[7].id == "add_source"@ && cs[8].id == "sources"@ && cs[9].id
        == "hidden"@ && cs[10].id == "clear_history"@);
    assert(p.on_activate(row) == Answer::just(Outcome::Done) <==> !exists|c: Listed|
        #![trigger commands::listed().contains(c)]
        commands::listed().contains(c) && c.id == id) by {
        if p.on_activate(row) != Answer::just(Outcome::Done) {
            assert(exists|i: int| 0 <= i < cs.len() && (#[trigger] cs[i]).id == id);
            let i = choose|i: int| 0 <= i < cs.len() && (#[trigger] cs[i]).id == id;
            assert(cs.contains(cs[i]));
        }
    }
}

/// The source form comes up empty. A folder that is named and is there is
/// added, and everything reloaded; anything else brings the form back with
/// what was typed. No other form does anything.
pub proof fn law_source_folders_are_added_if_they_are_there(
    p: &Commands,
    id: Seq<char>,
    row: Row,
    fields: Seq<Filled>,
    folder: bool,
)
    ensures
        row.payload == "add_source"@ ==> match p.on_activate(row).result {
            Outcome::RequestForm { action_id, fields, .. } => action_id == "add_source"@
                && fields.len() == 1 && fields[0].value.len() == 0,
            _ => false,
        },
        ({
            let path = shelf_laws::taken(fields, 0);
            let a = p.on_form("add_source"@, row, fields, folder);
            &&& p.form_wants("add_source"@, fields) == Some(path)
            &&& path.len() > 0 && folder ==> a.effect == (Deed::AddSource { path }) && a.result
                == Outcome::Refresh
            &&& path.len() == 0 || !folder ==> a.effect == Deed::Nothing && match a.result {
                Outcome::RequestForm { action_id, fields, .. } => action_id == "add_source"@
                    && fields.len() == 1 && fields[0].value == path,
                _ => false,
            }
        }),
        id != "add_source"@ ==> p.on_form(id, row, fields, folder) == Answer::just(Outcome::Done)
            && p.form_wants(id, fields) is None,
{
    lemma_ids();
    reveal_strlit("");
    if fields.len() > 0 {
        shelf_laws::lemma_without_quotes(fields[0].value);
    }
}

/// Every command goes by its own label, and is found by the words one would
/// look for it with.
pub proof fn law_what_the_commands_are_called(c: Listed)
    requires
        commands::listed().contains(c),
    ensures
        c.id == "reload"@ ==> c.label == "Apex: Reload"@ && c.keywords == "refresh rescan reindex"@,
        c.id == "restart"@ ==> c.label == "Apex: Restart"@ && c.keywords == "relaunch"@,
        c.id == "quit"@ ==> c.label == "Apex: Quit"@ && c.keywords == "exit close kill"@,
        c.id == "config"@ ==> c.label == "Apex: Open Config"@ && c.keywords
            == "settings toml preferences edit"@,
        c.id == "config_folder"@ ==> c.label == "Apex: Open Config Folder"@ && c.keywords
            == "directory appdata"@,
        c.id == "tray"@ ==> c.label == "Apex: Toggle Tray Icon"@ && c.keywords
            == "systray notification area"@,
        c.id == "startup"@ ==> c.label == "Apex: Toggle Start at Login"@ && c.keywords
            == "startup autostart boot signin"@,
        c.id == "add_source"@ ==> c.label == "Apex: Add Source Folder"@ && c.keywords
            == "index scan portable tools directory"@,
        c.id == "sources"@ ==> c.label == "Apex: Manage Source Folders"@ && c.keywords
            == "remove delete indexed directory folders"@,
        c.id == "hidden"@ ==> c.label == "Apex: Manage Hidden Entries"@ && c.keywords
            == "unhide restore show excluded"@,
        c.id == "clear_history"@ ==> c.label == "Apex: Clear Launch History"@ && c.keywords
            == "frecency reset forget ranking"@,
{
    lemma_ids();
    let cs = commands::listed();
    let i = choose|i: int| 0 <= i < cs.len() && cs[i] == c;
    assert(cs[i] == c);
}

/// The form for a source folder says what it is for, or that there is no such
/// folder.
pub proof fn law_what_the_source_form_says(
    p: &Commands,
    row: Row,
    fields: Seq<Filled>,
    folder: bool,
)
    ensures
        p.on_activate(row).result matches Outcome::RequestForm { title, .. } ==> title
            == "Add Source Folder"@,
        p.on_form("add_source"@, row, fields, folder).result matches Outcome::RequestForm {
            title,
            ..
        } ==> title == "Folder not found"@,
{
    lemma_ids();
}

/// The panel of a command offers to run it, and that is the same as the Enter
/// key.
pub proof fn law_what_is_offered_for_a_command(p: &Commands, row: Row, id: Seq<char>)
    ensures
        p.offered(row) == seq![Offer { id: "run"@, label: "Run"@ }],
        p.on_action(id, row) == p.on_activate(row),
{
}

} // verus!
