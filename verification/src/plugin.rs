//! What the launcher and its plugins exchange.
//!
//! Every capability ships as a plugin. Disabled plugins are never
//! constructed, so they cost nothing; the core is a thin shell around those
//! that are there.
use std::sync::Arc;
use vstd::prelude::*;
use vstd::string::*;

use crate::appindex::{AppIndex, Application, Catalogue};
use crate::config::Config;
use crate::plugins::quicklinks::Link;
use crate::rewrite::{Change, Rewriting};

verus! {

/// Decoded icon pixels: premultiplied BGRA, row by row, `width * 4` bytes to a
/// row. Shared by `Arc` between a plugin's cache and result rows.
pub struct Icon {
    pub width: u32,
    pub height: u32,
    pub bgra: Vec<u8>,
}

/// What an icon shows.
#[verifier::ext_equal]
pub struct Bitmap {
    pub width: u32,
    pub height: u32,
    pub bgra: Seq<u8>,
}

impl View for Icon {
    type V = Bitmap;

    open spec fn view(&self) -> Bitmap {
        Bitmap { width: self.width, height: self.height, bgra: self.bgra@ }
    }
}

/// What an optional icon shows.
pub open spec fn shown(icon: Option<Arc<Icon>>) -> Option<Bitmap> {
    match icon {
        Some(i) => Some(i@),
        None => None,
    }
}

/// `Arc::clone`: another handle to the same value.
#[verifier::external_body]
pub(crate) fn share(icon: &Arc<Icon>) -> (r: Arc<Icon>)
    ensures
        r == *icon,
{
    Arc::clone(icon)
}

/// Another handle to an icon, if there is one.
pub fn share_icon(icon: &Option<Arc<Icon>>) -> (r: Option<Arc<Icon>>)
    ensures
        r == *icon,
{
    match icon {
        Some(i) => Some(share(i)),
        None => None,
    }
}

/// One line of the result list.
pub struct ResultItem {
    /// Id of the plugin that made the row.
    pub plugin: &'static str,
    pub title: String,
    /// Short label drawn as a pill right after the title: the alias that
    /// reaches the row.
    pub badge: Option<String>,
    /// The group the row belongs to; empty when it has none.
    pub category: String,
    pub subtitle: String,
    /// What the plugin knows the row by: a path, an id, a slug.
    pub payload: String,
    /// Relevance; higher sorts first.
    pub score: i32,
    pub icon: Option<Arc<Icon>>,
}

/// What a line of the result list shows.
#[verifier::ext_equal]
pub struct Row {
    pub plugin: Seq<char>,
    pub title: Seq<char>,
    pub badge: Option<Seq<char>>,
    pub category: Seq<char>,
    pub subtitle: Seq<char>,
    pub payload: Seq<char>,
    pub score: int,
    pub icon: Option<Bitmap>,
}

/// What an optional text holds.
pub open spec fn worded(s: Option<String>) -> Option<Seq<char>> {
    match s {
        Some(s) => Some(s@),
        None => None,
    }
}

impl View for ResultItem {
    type V = Row;

    open spec fn view(&self) -> Row {
        Row {
            plugin: self.plugin@,
            title: self.title@,
            badge: worded(self.badge),
            category: self.category@,
            subtitle: self.subtitle@,
            payload: self.payload@,
            score: self.score as int,
            icon: shown(self.icon),
        }
    }
}

/// The rows a list of results shows.
pub open spec fn rows(v: Seq<ResultItem>) -> Seq<Row> {
    v.map_values(|i: ResultItem| i@)
}

/// The row an optional result shows.
pub open spec fn maybe_row(i: Option<ResultItem>) -> Option<Row> {
    match i {
        Some(i) => Some(i@),
        None => None,
    }
}

/// An entry of the actions panel.
pub struct Action {
    pub id: &'static str,
    pub label: String,
}

/// What an entry of the actions panel says.
#[verifier::ext_equal]
pub struct Offer {
    pub id: Seq<char>,
    pub label: Seq<char>,
}

impl View for Action {
    type V = Offer;

    open spec fn view(&self) -> Offer {
        Offer { id: self.id@, label: self.label@ }
    }
}

/// What the entries of an actions panel say.
pub open spec fn offers(v: Seq<Action>) -> Seq<Offer> {
    v.map_values(|a: Action| a@)
}

/// One editable line of a form.
pub struct FormField {
    pub label: String,
    pub value: String,
}

/// What a line of a form holds.
#[verifier::ext_equal]
pub struct Filled {
    pub label: Seq<char>,
    pub value: Seq<char>,
}

impl View for FormField {
    type V = Filled;

    open spec fn view(&self) -> Filled {
        Filled { label: self.label@, value: self.value@ }
    }
}

/// What the lines of a form hold.
pub open spec fn filled(v: Seq<FormField>) -> Seq<Filled> {
    v.map_values(|f: FormField| f@)
}

impl FormField {
    pub fn new(label: &str, value: &str) -> (f: FormField)
        ensures
            f@ == (Filled { label: label@, value: value@ }),
    {
        FormField { label: label.to_owned(), value: value.to_owned() }
    }
}

/// What a plugin can ask for but not do itself, because it needs the window or
/// the process.
#[derive(Clone, Copy, PartialEq, Eq, Structural)]
pub enum ShellCommand {
    Quit,
    Restart,
    ToggleTray,
    ClearHistory,
    /// List hidden entries so they can be restored.
    ShowHidden,
    /// List source folders so they can be removed.
    ShowSources,
}

/// What happens after a plugin handled an action.
pub enum ActionResult {
    /// Back to searching; the query is run again.
    Done,
    /// Something was launched: hide the window and remember the launch.
    Close,
    /// Hide the window and remember nothing.
    Dismiss,
    /// Reload every plugin from disk and go back to the default list.
    Refresh,
    /// Something for the window or the process.
    Shell(ShellCommand),
    /// Ask for a line of text.
    RequestText { prompt: String, action_id: &'static str },
    /// Ask for a form to be filled in.
    RequestForm { title: String, action_id: &'static str, fields: Vec<FormField> },
}

/// What happens after an action.
#[verifier::ext_equal]
pub enum Outcome {
    Done,
    Close,
    Dismiss,
    Refresh,
    Shell(ShellCommand),
    RequestText { prompt: Seq<char>, action_id: Seq<char> },
    RequestForm { title: Seq<char>, action_id: Seq<char>, fields: Seq<Filled> },
}

impl View for ActionResult {
    type V = Outcome;

    open spec fn view(&self) -> Outcome {
        match self {
            ActionResult::Done => Outcome::Done,
            ActionResult::Close => Outcome::Close,
            ActionResult::Dismiss => Outcome::Dismiss,
            ActionResult::Refresh => Outcome::Refresh,
            ActionResult::Shell(c) => Outcome::Shell(*c),
            ActionResult::RequestText { prompt, action_id } => Outcome::RequestText {
                prompt: prompt@,
                action_id: action_id@,
            },
            ActionResult::RequestForm { title, action_id, fields } => Outcome::RequestForm {
                title: title@,
                action_id: action_id@,
                fields: filled(fields@),
            },
        }
    }
}

/// Something to be done outside: to the disk, or by the system.
pub enum Effect {
    Nothing,
    Launch { app_id: String },
    LaunchAsAdmin { app_id: String },
    /// Show where an application came from.
    Reveal { app_id: String },
    /// Open a link, through a program unless that is empty.
    OpenLink { link: String, open_with: String },
    /// Open the configuration file, or the folder that holds it.
    OpenConfig { folder: bool },
    /// Flip whether the launcher starts at login, and apply it.
    ToggleStartup,
    /// Change the configuration file.
    Rewrite(Change),
    /// Add a folder to the sources, unless it is one.
    AddSource { path: String },
}

/// Something to be done outside.
#[verifier::ext_equal]
pub enum Deed {
    Nothing,
    Launch { app_id: Seq<char> },
    LaunchAsAdmin { app_id: Seq<char> },
    Reveal { app_id: Seq<char> },
    OpenLink { link: Seq<char>, open_with: Seq<char> },
    OpenConfig { folder: bool },
    ToggleStartup,
    Rewrite(Rewriting),
    AddSource { path: Seq<char> },
}

impl View for Effect {
    type V = Deed;

    open spec fn view(&self) -> Deed {
        match self {
            Effect::Nothing => Deed::Nothing,
            Effect::Launch { app_id } => Deed::Launch { app_id: app_id@ },
            Effect::LaunchAsAdmin { app_id } => Deed::LaunchAsAdmin { app_id: app_id@ },
            Effect::Reveal { app_id } => Deed::Reveal { app_id: app_id@ },
            Effect::OpenLink { link, open_with } => Deed::OpenLink {
                link: link@,
                open_with: open_with@,
            },
            Effect::OpenConfig { folder } => Deed::OpenConfig { folder: *folder },
            Effect::ToggleStartup => Deed::ToggleStartup,
            Effect::Rewrite(c) => Deed::Rewrite(c@),
            Effect::AddSource { path } => Deed::AddSource { path: path@ },
        }
    }
}

/// A plugin's answer to an action: what is to be done outside, and what
/// happens after it.
pub struct Reply {
    pub effect: Effect,
    pub result: ActionResult,
    /// Stay with the list when the effect failed, so that the failure shows.
    pub stay_on_failure: bool,
    /// Reload every plugin from disk once the effect is done.
    pub reload: bool,
}

/// A plugin's answer.
#[verifier::ext_equal]
pub struct Answer {
    pub effect: Deed,
    pub result: Outcome,
    pub stay_on_failure: bool,
    pub reload: bool,
}

impl View for Reply {
    type V = Answer;

    open spec fn view(&self) -> Answer {
        Answer {
            effect: self.effect@,
            result: self.result@,
            stay_on_failure: self.stay_on_failure,
            reload: self.reload,
        }
    }
}

impl Answer {
    /// An answer that only says what happens next.
    pub open spec fn just(result: Outcome) -> Answer {
        Answer { effect: Deed::Nothing, result, stay_on_failure: false, reload: false }
    }

    /// An answer that wants something done first.
    pub open spec fn after(effect: Deed, result: Outcome) -> Answer {
        Answer { effect, result, stay_on_failure: false, reload: false }
    }

    /// What happens once the effect was done, or failed.
    pub open spec fn outcome(self, ok: bool) -> Outcome {
        if !ok && self.stay_on_failure {
            Outcome::Done
        } else {
            self.result
        }
    }
}

impl Reply {
    pub fn just(result: ActionResult) -> (r: Reply)
        ensures
            r@ == Answer::just(result@),
    {
        Reply { effect: Effect::Nothing, result, stay_on_failure: false, reload: false }
    }

    pub fn after(effect: Effect, result: ActionResult) -> (r: Reply)
        ensures
            r@ == Answer::after(effect@, result@),
    {
        Reply { effect, result, stay_on_failure: false, reload: false }
    }

    /// What happens once the effect was done, or failed.
    pub fn outcome(self, ok: bool) -> (r: ActionResult)
        ensures
            r@ == self@.outcome(ok),
    {
        if !ok && self.stay_on_failure {
            ActionResult::Done
        } else {
            self.result
        }
    }
}

/// What a reload read from disk.
pub struct Disk {
    pub config: Config,
    /// The links and paths among the settings that are folders.
    pub folders: Vec<String>,
}

/// A row stands in the list: same plugin, same payload.
pub open spec fn present(list: Seq<Row>, row: Row) -> bool {
    exists|i: int|
        0 <= i < list.len() && (#[trigger] list[i]).plugin == row.plugin && list[i].payload
            == row.payload
}

/// `list` and up to `limit` rows of `stock`, in order, those that stand in the
/// list already left out.
pub open spec fn browsed(list: Seq<Row>, stock: Seq<Row>, limit: nat) -> Seq<Row>
    decreases stock.len(),
{
    if stock.len() == 0 {
        list
    } else {
        let so_far = browsed(list, stock.drop_last(), limit);
        if so_far.len() - list.len() >= limit || present(so_far, stock.last()) {
            so_far
        } else {
            so_far.push(stock.last())
        }
    }
}

/// Whether the list has a row of this plugin and payload.
pub fn is_present(list: &Vec<ResultItem>, plugin: &str, payload: &str) -> (r: bool)
    ensures
        forall|row: Row|
            row.plugin == plugin@ && row.payload == payload@ ==> r == #[trigger] present(
                rows(list@),
                row,
            ),
{
    let mut i: usize = 0;
    while i < list.len()
        invariant
            i <= list@.len(),
            forall|k: int|
                0 <= k < i ==> !((#[trigger] rows(list@)[k]).plugin == plugin@ && rows(
                    list@,
                )[k].payload == payload@),
        decreases list@.len() - i,
    {
        if crate::text::same(list[i].plugin, plugin) && crate::text::same(
            list[i].payload.as_str(),
            payload,
        ) {
            assert(rows(list@)[i as int] == list@[i as int]@);
            return true;
        }
        i += 1;
    }
    false
}

/// All rows are those of one plugin.
pub open spec fn all_of(list: Seq<Row>, name: Seq<char>) -> bool {
    forall|i: int| 0 <= i < list.len() ==> (#[trigger] list[i]).plugin == name
}

/// What a plugin keeps in mind between calls: applications, the names they
/// were given, quicklinks. What it does not deal in is empty.
#[verifier::ext_equal]
pub struct Memory {
    pub apps: Seq<Application>,
    pub aliases: Seq<(Seq<char>, Seq<char>)>,
    pub links: Seq<Link>,
}

/// A capability of the launcher.
pub trait Plugin {
    /// The plugin's id.
    spec fn name(&self) -> Seq<char>;

    /// What the plugin keeps in mind.
    spec fn memory(&self) -> Memory;

    /// What it keeps in mind after a reload from disk.
    spec fn reloaded(&self, disk: Disk) -> Memory;

    /// What it keeps in mind once a new application index is there.
    spec fn indexed(&self, index: Catalogue) -> Memory;

    /// What it keeps in mind after an action of the panel.
    spec fn acted(&self, action_id: Seq<char>, row: Row) -> Memory;

    /// What it keeps in mind after text that was asked for.
    spec fn told(&self, action_id: Seq<char>, row: Row, text: Seq<char>) -> Memory;

    /// What it keeps in mind after a form that was asked for.
    spec fn formed(
        &self,
        action_id: Seq<char>,
        row: Row,
        fields: Seq<Filled>,
        folder: bool,
    ) -> Memory;

    /// The rows that match a query.
    spec fn found(&self, q: Seq<char>) -> Seq<Row>;

    /// The row of a payload.
    spec fn made(&self, payload: Seq<char>) -> Option<Row>;

    /// Everything the plugin lists by itself, in its own order.
    spec fn stock(&self) -> Seq<Row>;

    /// The actions offered for a row.
    spec fn offered(&self, row: Row) -> Seq<Offer>;

    /// The answer to a row being activated.
    spec fn on_activate(&self, row: Row) -> Answer;

    /// The answer to an action of the panel.
    spec fn on_action(&self, action_id: Seq<char>, row: Row) -> Answer;

    /// The answer to text that was asked for.
    spec fn on_text(&self, action_id: Seq<char>, row: Row, text: Seq<char>) -> Answer;

    /// The path whose being a folder decides how a form is taken.
    spec fn form_wants(&self, action_id: Seq<char>, fields: Seq<Filled>) -> Option<Seq<char>>;

    /// The answer to a form that was asked for; `folder` says whether the path
    /// it names is a folder.
    spec fn on_form(
        &self,
        action_id: Seq<char>,
        row: Row,
        fields: Seq<Filled>,
        folder: bool,
    ) -> Answer;

    /// Stable identifier, also used in the configuration file.
    fn id(&self) -> (r: &'static str)
        ensures
            r@ == self.name(),
    ;

    /// Appends the rows that match `q`. Runs on every keystroke.
    fn query(&self, q: &str, out: &mut Vec<ResultItem>)
        ensures
            rows(final(out)@) == rows(old(out)@) + self.found(q@),
    ;

    /// Makes the row of a payload this plugin made a row of before. `None`
    /// when there is no such thing any more.
    fn item_for(&self, payload: &str) -> (r: Option<ResultItem>)
        ensures
            maybe_row(r) == self.made(payload@),
    ;

    /// Appends up to `limit` of the plugin's own rows, leaving out those that
    /// are there already.
    fn browse(&self, limit: usize, out: &mut Vec<ResultItem>)
        ensures
            rows(final(out)@) == browsed(rows(old(out)@), self.stock(), limit as nat),
    ;

    /// Takes over what a reload read from disk.
    fn refresh(&mut self, disk: &Disk)
        ensures
            final(self).memory() == old(self).reloaded(*disk),
            final(self).name() == old(self).name(),
    ;

    /// Takes over a new application index.
    fn index_arrived(&mut self, index: &AppIndex)
        ensures
            final(self).memory() == old(self).indexed(index@),
            final(self).name() == old(self).name(),
    ;

    /// The Enter key on a row.
    fn activate(&self, item: &ResultItem) -> (r: Reply)
        ensures
            r@ == self.on_activate(item@),
    ;

    /// The entries of the actions panel.
    fn actions(&self, item: &ResultItem) -> (r: Vec<Action>)
        ensures
            offers(r@) == self.offered(item@),
    ;

    /// Runs an action of the panel.
    fn run_action(&mut self, action_id: &str, item: &ResultItem) -> (r: Reply)
        ensures
            r@ == old(self).on_action(action_id@, item@),
            final(self).memory() == old(self).acted(action_id@, item@),
            final(self).name() == old(self).name(),
    ;

    /// Takes text that was asked for.
    fn submit_text(&mut self, action_id: &str, item: &ResultItem, text: &str) -> (r: Reply)
        ensures
            r@ == old(self).on_text(action_id@, item@, text@),
            final(self).memory() == old(self).told(action_id@, item@, text@),
            final(self).name() == old(self).name(),
    ;

    /// The path whose being a folder decides how a form is taken.
    fn form_path(&self, action_id: &str, fields: &Vec<FormField>) -> (r: Option<String>)
        ensures
            worded(r) == self.form_wants(action_id@, filled(fields@)),
    ;

    /// Takes a form that was asked for, its fields in the order they had.
    fn submit_form(
        &mut self,
        action_id: &str,
        item: &ResultItem,
        fields: &Vec<FormField>,
        folder: bool,
    ) -> (r: Reply)
        ensures
            r@ == old(self).on_form(action_id@, item@, filled(fields@), folder),
            final(self).memory() == old(self).formed(action_id@, item@, filled(fields@), folder),
            final(self).name() == old(self).name(),
    ;
}

/// Every row says which plugin made it, and a row made of a payload has that
/// payload.
pub open spec fn owns_its_rows<P: Plugin + ?Sized>(p: &P) -> bool {
    &&& forall|q: Seq<char>| all_of(#[trigger] p.found(q), p.name())
    &&& all_of(p.stock(), p.name())
    &&& forall|payload: Seq<char>|
        (#[trigger] p.made(payload)) matches Some(row) ==> row.plugin == p.name() && row.payload
            == payload
}

} // verus!
