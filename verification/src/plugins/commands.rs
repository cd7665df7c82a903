//! The launcher's own commands, as searchable rows.
//!
//! They act on the launcher itself. All share the `Apex: ` prefix, so typing
//! "apex" lists them, while each stays reachable by its own word. Running a
//! command is not launching something, so commands stay out of launch history
//! and of the default list.
use std::sync::Arc;
use vstd::prelude::*;
use vstd::string::*;

use crate::appindex::{AppIndex, Catalogue};
use crate::fuzzy::{self, fold_case, tell, Pattern};
use crate::pieces;
use crate::plugin::{
    self, share_icon, Action, ActionResult, Answer, Bitmap, Deed, Disk, Effect, Filled, FormField,
    Icon, Memory, Offer, Outcome, Plugin, Reply, ResultItem, Row, ShellCommand,
};
use crate::rewrite::{self, sanitize_value};
use crate::text::{self, chars_of, same, slice_of, string_of};

verus! {

pub const ID: &'static str = "commands";

/// What a hit among the keywords loses, so that a command whose label matches
/// as well comes before one that only matched a synonym. A synonym typed out
/// still comes before letters scattered over a label.
pub const KEYWORD_PENALTY: i32 = 12;

/// A command: what it is called, and the words that also find it.
#[verifier::ext_equal]
pub struct Listed {
    pub id: Seq<char>,
    pub label: Seq<char>,
    pub keywords: Seq<char>,
}

/// Every command. The obvious search term is often not in the label, hence
/// the keywords.
pub open spec fn listed() -> Seq<Listed> {
    seq![
        Listed {
            id: "reload"@,
            label: "Apex: Reload"@,
            keywords: "refresh rescan reindex"@,
        },
        Listed { id: "restart"@, label: "Apex: Restart"@, keywords: "relaunch"@ },
        Listed { id: "quit"@, label: "Apex: Quit"@, keywords: "exit close kill"@ },
        Listed {
            id: "config"@,
            label: "Apex: Open Config"@,
            keywords: "settings toml preferences edit"@,
        },
        Listed {
            id: "config_folder"@,
            label: "Apex: Open Config Folder"@,
            keywords: "directory appdata"@,
        },
        Listed {
            id: "tray"@,
            label: "Apex: Toggle Tray Icon"@,
            keywords: "systray notification area"@,
        },
        Listed {
            id: "startup"@,
            label: "Apex: Toggle Start at Login"@,
            keywords: "startup autostart boot signin"@,
        },
        Listed {
            id: "add_source"@,
            label: "Apex: Add Source Folder"@,
            keywords: "index scan portable tools directory"@,
        },
        Listed {
            id: "sources"@,
            label: "Apex: Manage Source Folders"@,
            keywords: "remove delete indexed directory folders"@,
        },
        Listed {
            id: "hidden"@,
            label: "Apex: Manage Hidden Entries"@,
            keywords: "unhide restore show excluded"@,
        },
        Listed {
            id: "clear_history"@,
            label: "Apex: Clear Launch History"@,
            keywords: "frecency reset forget ranking"@,
        },
    ]
}

/// The label and the keywords, as one text to match against.
pub open spec fn haystack(c: Listed) -> Seq<char> {
    c.label + " "@ + c.keywords
}

/// What a query scores against a command: the better of its label, and of
/// label and keywords less the penalty.
pub open spec fn command_score(c: Listed, q: Seq<char>) -> Option<int> {
    let direct = fuzzy::name_score(q, c.label);
    let alt = fuzzy::name_score(q, haystack(c));
    match (direct, alt) {
        (Some(a), Some(b)) => Some(
            if a >= b - KEYWORD_PENALTY {
                a as int
            } else {
                b - KEYWORD_PENALTY
            },
        ),
        (Some(a), None) => Some(a as int),
        (None, Some(b)) => Some(fuzzy::told(b - KEYWORD_PENALTY)),
        (None, None) => None,
    }
}

/// A label without the prefix all commands share.
pub open spec fn short(label: Seq<char>) -> Seq<char> {
    if pieces::stands_at(label, "Apex: "@, 0) {
        label.skip("Apex: "@.len() as int)
    } else {
        label
    }
}

pub open spec fn command_row(c: Listed, score: int, icon: Option<Bitmap>) -> Row {
    Row {
        plugin: ID@,
        title: short(c.label),
        badge: None,
        category: "Apex"@,
        subtitle: "Command"@,
        payload: c.id,
        score,
        icon,
    }
}

/// The rows of the commands that match.
pub open spec fn command_rows(cs: Seq<Listed>, q: Seq<char>, icon: Option<Bitmap>) -> Seq<Row>
    decreases cs.len(),
{
    if cs.len() == 0 {
        Seq::empty()
    } else {
        let before = command_rows(cs.drop_last(), q, icon);
        match command_score(cs.last(), q) {
            Some(score) => before.push(command_row(cs.last(), score, icon)),
            None => before,
        }
    }
}

proof fn lemma_command_rows_are_own(cs: Seq<Listed>, q: Seq<char>, icon: Option<Bitmap>)
    ensures
        plugin::all_of(command_rows(cs, q, icon), ID@),
    decreases cs.len(),
{
    if cs.len() > 0 {
        lemma_command_rows_are_own(cs.drop_last(), q, icon);
    }
}

/// The form that asks for a source folder.
pub open spec fn source_form_of(title: Seq<char>, value: Seq<char>) -> Outcome {
    Outcome::RequestForm {
        title,
        action_id: "add_source"@,
        fields: seq![Filled { label: "Folder (paste with Ctrl+V)"@, value }],
    }
}

/// The answer to a command being run.
pub open spec fn command_answer(id: Seq<char>) -> Answer {
    if id == "reload"@ {
        Answer::just(Outcome::Refresh)
    } else if id == "restart"@ {
        Answer::just(Outcome::Shell(ShellCommand::Restart))
    } else if id == "quit"@ {
        Answer::just(Outcome::Shell(ShellCommand::Quit))
    } else if id == "tray"@ {
        Answer::just(Outcome::Shell(ShellCommand::ToggleTray))
    } else if id == "clear_history"@ {
        Answer::just(Outcome::Shell(ShellCommand::ClearHistory))
    } else if id == "hidden"@ {
        Answer::just(Outcome::Shell(ShellCommand::ShowHidden))
    } else if id == "sources"@ {
        Answer::just(Outcome::Shell(ShellCommand::ShowSources))
    } else if id == "add_source"@ {
        Answer::just(source_form_of("Add Source Folder"@, ""@))
    } else if id == "config"@ {
        Answer::after(Deed::OpenConfig { folder: false }, Outcome::Dismiss)
    } else if id == "config_folder"@ {
        Answer::after(Deed::OpenConfig { folder: true }, Outcome::Dismiss)
    } else if id == "startup"@ {
        Answer::after(Deed::ToggleStartup, Outcome::Done)
    } else {
        Answer::just(Outcome::Done)
    }
}

/// The folder a form names, cleaned up.
pub open spec fn folder_named(fields: Seq<Filled>) -> Seq<char> {
    if fields.len() > 0 {
        text::trimmed(rewrite::without_quotes(fields[0].value))
    } else {
        Seq::empty()
    }
}

/// The answer to the source-folder form: the form again when there is no such
/// folder, else the folder is added and everything reloaded.
pub open spec fn source_answer(fields: Seq<Filled>, folder: bool) -> Answer {
    let path = folder_named(fields);
    if path.len() == 0 || !folder {
        Answer::just(source_form_of("Folder not found"@, path))
    } else {
        Answer::after(Deed::AddSource { path }, Outcome::Refresh)
    }
}

struct Command {
    id: &'static str,
    label: &'static str,
    pattern: Pattern,
    /// Label and keywords, matched apart so that scoring the label does not
    /// depend on how many keywords there are.
    alt: Pattern,
}

impl Command {
    spec fn is(self, c: Listed) -> bool {
        &&& self.id@ == c.id
        &&& self.label@ == c.label
        &&& self.pattern.of(c.label)
        &&& self.pattern.fits()
        &&& self.alt.of(haystack(c))
        &&& self.alt.fits()
    }

    fn new(id: &'static str, label: &'static str, keywords: &str) -> (c: Command)
        ensures
            c.is(Listed { id: id@, label: label@, keywords: keywords@ }),
    {
        let spaced = pieces::concat(label, " ");
        let alt = pieces::concat(spaced.as_str(), keywords);
        Command { id, label, pattern: Pattern::new(label), alt: Pattern::new(alt.as_str()) }
    }

    fn score(&self, query: &[char]) -> (r: Option<i32>)
        requires
            self.pattern.fits(),
            self.alt.fits(),
        ensures
            forall|c: Listed, q: Seq<char>|
                #![trigger self.is(c), fuzzy::folded(q)]
                self.is(c) && query@ == fuzzy::folded(q) ==> match r {
                    Some(s) => command_score(c, q) == Some(s as int),
                    None => command_score(c, q) is None,
                },
    {
        let direct = self.pattern.score(query);
        let alt = self.alt.score(query);
        match (direct, alt) {
            (Some(a), Some(b)) => {
                let b: i32 = tell(b as i128 - KEYWORD_PENALTY as i128);
                Some(
                    if a >= b {
                        a
                    } else {
                        b
                    },
                )
            },
            (Some(a), None) => Some(a),
            (None, Some(b)) => Some(tell(b as i128 - KEYWORD_PENALTY as i128)),
            (None, None) => None,
        }
    }
}

fn all() -> (v: Vec<Command>)
    ensures
        v@.len() == listed().len(),
        forall|i: int| 0 <= i < v@.len() ==> (#[trigger] v@[i]).is(listed()[i]),
{
    let mut v: Vec<Command> = Vec::new();
    v.push(Command::new("reload", "Apex: Reload", "refresh rescan reindex"));
    v.push(Command::new("restart", "Apex: Restart", "relaunch"));
    v.push(Command::new("quit", "Apex: Quit", "exit close kill"));
    v.push(Command::new("config", "Apex: Open Config", "settings toml preferences edit"));
    v.push(Command::new("config_folder", "Apex: Open Config Folder", "directory appdata"));
    v.push(Command::new("tray", "Apex: Toggle Tray Icon", "systray notification area"));
    v.push(Command::new("startup", "Apex: Toggle Start at Login", "startup autostart boot signin"));
    v.push(
        Command::new("add_source", "Apex: Add Source Folder", "index scan portable tools directory"),
    );
    v.push(
        Command::new(
            "sources",
            "Apex: Manage Source Folders",
            "remove delete indexed directory folders",
        ),
    );
    v.push(
        Command::new("hidden", "Apex: Manage Hidden Entries", "unhide restore show excluded"),
    );
    v.push(
        Command::new("clear_history", "Apex: Clear Launch History", "frecency reset forget ranking"),
    );
    v
}

/// The commands plugin.
pub struct Commands {
    commands: Vec<Command>,
    icon: Option<Arc<Icon>>,
}

impl Commands {
    #[verifier::type_invariant]
    spec fn complete(self) -> bool {
        &&& self.commands@.len() == listed().len()
        &&& forall|i: int|
            0 <= i < self.commands@.len() ==> (#[trigger] self.commands@[i]).is(listed()[i])
    }

    /// The icon every command shows.
    pub closed spec fn icon(self) -> Option<Bitmap> {
        plugin::shown(self.icon)
    }

    pub fn new(icon: Option<Arc<Icon>>) -> (c: Commands)
        ensures
            c.icon() == plugin::shown(icon),
    {
        Commands { commands: all(), icon }
    }

    /// How many commands there are.
    pub fn len(&self) -> (n: usize)
        ensures
            n == listed().len(),
    {
        proof {
            use_type_invariant(self);
        }
        self.commands.len()
    }
}

impl Default for Commands {
    fn default() -> (c: Commands)
        ensures
            c.icon() is None,
    {
        Commands::new(None)
    }
}

fn short_label(label: &str) -> (r: String)
    ensures
        r@ == short(label@),
{
    let l = chars_of(label);
    let p = chars_of("Apex: ");
    if pieces::is_at(l.as_slice(), p.as_slice(), 0) {
        let rest = slice_of(l.as_slice(), p.len(), l.len());
        assert(rest@ =~= label@.skip("Apex: "@.len() as int));
        string_of(rest.as_slice())
    } else {
        label.to_owned()
    }
}

fn source_form(title: &str, value: &str) -> (r: ActionResult)
    ensures
        r@ == source_form_of(title@, value@),
{
    let mut fields: Vec<FormField> = Vec::new();
    fields.push(FormField::new("Folder (paste with Ctrl+V)", value));
    assert(plugin::filled(fields@) =~= seq![
        Filled { label: "Folder (paste with Ctrl+V)"@, value: value@ },
    ]);
    ActionResult::RequestForm { title: title.to_owned(), action_id: "add_source", fields }
}

fn folder_in(fields: &Vec<FormField>) -> (r: String)
    ensures
        r@ == folder_named(plugin::filled(fields@)),
{
    if fields.len() > 0 {
        assert(plugin::filled(fields@)[0] == fields@[0]@);
        sanitize_value(fields[0].value.as_str())
    } else {
        let r = String::new();
        assert(r@ =~= Seq::empty());
        r
    }
}

/// The plugin keeps nothing in mind: its commands never change.
pub open spec fn remembering_nothing() -> Memory {
    Memory { apps: Seq::empty(), aliases: Seq::empty(), links: Seq::empty() }
}

impl Plugin for Commands {
    open spec fn memory(&self) -> Memory {
        remembering_nothing()
    }

    open spec fn reloaded(&self, disk: Disk) -> Memory {
        remembering_nothing()
    }

    open spec fn indexed(&self, index: Catalogue) -> Memory {
        remembering_nothing()
    }

    open spec fn acted(&self, action_id: Seq<char>, row: Row) -> Memory {
        remembering_nothing()
    }

    open spec fn told(&self, action_id: Seq<char>, row: Row, text: Seq<char>) -> Memory {
        remembering_nothing()
    }

    open spec fn formed(
        &self,
        action_id: Seq<char>,
        row: Row,
        fields: Seq<Filled>,
        folder: bool,
    ) -> Memory {
        remembering_nothing()
    }

    open spec fn name(&self) -> Seq<char> {
        ID@
    }

    open spec fn found(&self, q: Seq<char>) -> Seq<Row> {
        command_rows(listed(), q, self.icon())
    }

    open spec fn made(&self, payload: Seq<char>) -> Option<Row> {
        None
    }

    open spec fn stock(&self) -> Seq<Row> {
        Seq::empty()
    }

    open spec fn offered(&self, row: Row) -> Seq<Offer> {
        seq![Offer { id: "run"@, label: "Run"@ }]
    }

    open spec fn on_activate(&self, row: Row) -> Answer {
        command_answer(row.payload)
    }

    open spec fn on_action(&self, action_id: Seq<char>, row: Row) -> Answer {
        command_answer(row.payload)
    }

    open spec fn on_text(&self, action_id: Seq<char>, row: Row, text: Seq<char>) -> Answer {
        Answer::just(Outcome::Done)
    }

    open spec fn form_wants(&self, action_id: Seq<char>, fields: Seq<Filled>) -> Option<Seq<char>> {
        if action_id == "add_source"@ {
            Some(folder_named(fields))
        } else {
            None
        }
    }

    open spec fn on_form(
        &self,
        action_id: Seq<char>,
        row: Row,
        fields: Seq<Filled>,
        folder: bool,
    ) -> Answer {
        if action_id == "add_source"@ {
            source_answer(fields, folder)
        } else {
            Answer::just(Outcome::Done)
        }
    }

    fn id(&self) -> (r: &'static str) {
        ID
    }

    fn query(&self, q: &str, out: &mut Vec<ResultItem>) {
        proof {
            use_type_invariant(self);
        }
        let query = fold_case(q);
        let ghost start = plugin::rows(out@);
        let ghost icon = self.icon();
        let ghost cs = listed();
        let mut i: usize = 0;
        assert(plugin::rows(out@) =~= start + command_rows(cs.take(0), q@, icon));
        while i < self.commands.len()
            invariant
                i <= self.commands@.len(),
                self.complete(),
                query@ == fuzzy::folded(q@),
                icon == plugin::shown(self.icon),
                cs == listed(),
                plugin::rows(out@) == start + command_rows(cs.take(i as int), q@, icon),
            decreases self.commands@.len() - i,
        {
            let c = &self.commands[i];
            let ghost before = command_rows(cs.take(i as int), q@, icon);
            proof {
                assert(c.is(cs[i as int]));
                assert(cs.take(i + 1).drop_last() =~= cs.take(i as int));
                assert(cs.take(i + 1).last() == cs[i as int]);
            }
            if let Some(score) = c.score(query.as_slice()) {
                let ghost so_far = plugin::rows(out@);
                let item = ResultItem {
                    plugin: ID,
                    title: short_label(c.label),
                    badge: None,
                    category: "Apex".to_owned(),
                    subtitle: "Command".to_owned(),
                    payload: c.id.to_owned(),
                    score,
                    icon: share_icon(&self.icon),
                };
                out.push(item);
                proof {
                    assert(plugin::rows(out@) =~= so_far.push(item@));
                    assert(item@ == command_row(cs[i as int], score as int, icon));
                    assert(plugin::rows(out@) =~= start + before.push(item@));
                }
            }
            i += 1;
        }
        assert(cs.take(cs.len() as int) =~= cs);
    }

    fn item_for(&self, payload: &str) -> (r: Option<ResultItem>) {
        None
    }

    fn browse(&self, limit: usize, out: &mut Vec<ResultItem>) {
    }

    fn refresh(&mut self, disk: &Disk)
        ensures
            final(self).icon() == old(self).icon(),
    {
    }

    fn index_arrived(&mut self, index: &AppIndex)
        ensures
            final(self).icon() == old(self).icon(),
    {
    }

    fn activate(&self, item: &ResultItem) -> (r: Reply) {
        let id = item.payload.as_str();
        if same(id, "reload") {
            Reply::just(ActionResult::Refresh)
        } else if same(id, "restart") {
            Reply::just(ActionResult::Shell(ShellCommand::Restart))
        } else if same(id, "quit") {
            Reply::just(ActionResult::Shell(ShellCommand::Quit))
        } else if same(id, "tray") {
            Reply::just(ActionResult::Shell(ShellCommand::ToggleTray))
        } else if same(id, "clear_history") {
            Reply::just(ActionResult::Shell(ShellCommand::ClearHistory))
        } else if same(id, "hidden") {
            Reply::just(ActionResult::Shell(ShellCommand::ShowHidden))
        } else if same(id, "sources") {
            Reply::just(ActionResult::Shell(ShellCommand::ShowSources))
        } else if same(id, "add_source") {
            Reply::just(source_form("Add Source Folder", ""))
        } else if same(id, "config") {
            Reply::after(Effect::OpenConfig { folder: false }, ActionResult::Dismiss)
        } else if same(id, "config_folder") {
            Reply::after(Effect::OpenConfig { folder: true }, ActionResult::Dismiss)
        } else if same(id, "startup") {
            // The change is silent, so the list stays, with the row to undo it.
            Reply::after(Effect::ToggleStartup, ActionResult::Done)
        } else {
            Reply::just(ActionResult::Done)
        }
    }

    fn actions(&self, item: &ResultItem) -> (r: Vec<Action>) {
        let mut r: Vec<Action> = Vec::new();
        r.push(Action { id: "run", label: "Run".to_owned() });
        assert(plugin::offers(r@) =~= seq![Offer { id: "run"@, label: "Run"@ }]);
        r
    }

    fn run_action(&mut self, action_id: &str, item: &ResultItem) -> (r: Reply)
        ensures
            final(self).icon() == old(self).icon(),
    {
        self.activate(item)
    }

    fn submit_text(&mut self, action_id: &str, item: &ResultItem, text: &str) -> (r: Reply)
        ensures
            final(self).icon() == old(self).icon(),
    {
        Reply::just(ActionResult::Done)
    }

    fn form_path(&self, action_id: &str, fields: &Vec<FormField>) -> (r: Option<String>) {
        if same(action_id, "add_source") {
            Some(folder_in(fields))
        } else {
            None
        }
    }

    fn submit_form(
        &mut self,
        action_id: &str,
        item: &ResultItem,
        fields: &Vec<FormField>,
        folder: bool,
    ) -> (r: Reply)
        ensures
            final(self).icon() == old(self).icon(),
    {
        if !same(action_id, "add_source") {
            return Reply::just(ActionResult::Done);
        }
        let path = folder_in(fields);
        let named = chars_of(path.as_str());
        // The form again, rather than a source that indexes nothing.
        if named.len() == 0 || !folder {
            return Reply::just(source_form("Folder not found", path.as_str()));
        }
        Reply::after(Effect::AddSource { path }, ActionResult::Refresh)
    }
}

/// A command whose label matches comes before one that matches by its keywords
/// alone, and no better.
pub proof fn law_labels_come_before_keywords(c: Listed, d: Listed, q: Seq<char>)
    requires
        fuzzy::name_score(q, c.label) is Some,
        fuzzy::name_score(q, d.label) is None,
        fuzzy::name_score(q, haystack(d)) is Some,
        fuzzy::name_score(q, haystack(d))->0 <= fuzzy::name_score(q, c.label)->0,
        i32::MIN + KEYWORD_PENALTY <= fuzzy::name_score(q, haystack(d))->0,
    ensures
        command_score(c, q) is Some,
        command_score(d, q) is Some,
        command_score(c, q)->0 > command_score(d, q)->0,
{
}

/// Every command row says where it comes from.
pub proof fn law_command_rows_are_own(p: &Commands)
    ensures
        plugin::owns_its_rows(p),
{
    assert forall|q: Seq<char>| plugin::all_of(#[trigger] p.found(q), p.name()) by {
        lemma_command_rows_are_own(listed(), q, p.icon());
    }
}

/// Commands are never remembered as launches: they make no row of a payload,
/// list nothing by themselves, and no answer of theirs counts as a launch.
pub proof fn law_commands_are_not_remembered(
    p: &Commands,
    row: Row,
    action_id: Seq<char>,
    s: Seq<char>,
    fields: Seq<Filled>,
    folder: bool,
    ok: bool,
)
    ensures
        p.made(s) is None,
        p.stock().len() == 0,
        !(p.on_activate(row).outcome(ok) is Close),
        !(p.on_action(action_id, row).outcome(ok) is Close),
        !(p.on_text(action_id, row, s).outcome(ok) is Close),
        !(p.on_form(action_id, row, fields, folder).outcome(ok) is Close),
{
}

} // verus!
