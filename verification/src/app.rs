//! The launcher's state: what was typed, what the list shows, and what lies
//! over it.
//!
//! The state never touches the disk or the system. What it needs to know of
//! them is handed in as [`Outside`]; what is to be done to them is handed out
//! as an effect, and the result comes back to [`App::apply`].
use std::sync::Arc;
use vstd::prelude::*;
use vstd::string::*;

use crate::appindex::{AppIndex, Catalogue};
use crate::config::{self, holds_string, Config};
use crate::editor::{self, Edit, Field, FormEntry, TextField};
use crate::fuzzy;
use crate::order::{self, Key, Keyed};
use crate::pieces;
use crate::plugin::{
    self, share_icon, Action, ActionResult, Answer, Bitmap, Deed, Disk, Effect, Filled, FormField,
    Icon, Memory, Offer, Outcome, Plugin, Reply, ResultItem, Row, ShellCommand,
};
use crate::render;
use crate::rewrite::{Change, Rewriting};
use crate::text::{self, chars_of, eq_ignore_ascii_case, same, slice_of, string_of, trim_str};

verus! {

/// Most rows a list holds.
pub const MAX_RESULTS: usize = 400;

/// Most entries offered as suggestions before the full list.
pub const MAX_SUGGESTIONS: usize = 5;

pub const SUGGESTIONS: &'static str = "Suggestions";

pub const COMMANDS: &'static str = "Commands";

/// Section of the configuration that holds the hidden entries.
pub const HIDDEN: &'static str = "hidden";

/// Section of the configuration that holds the source folders.
pub const SOURCES: &'static str = "sources";

pub const ACTION_HIDE: &'static str = "__hide";

pub const ACTION_UNHIDE: &'static str = "__unhide";

pub const ACTION_REMOVE_SOURCE: &'static str = "__remove_source";

/// Owner of the rows that no plugin made.
pub const SHELL: &'static str = "__shell";

/// Which catalogue the list shows.
#[derive(Clone, Copy, PartialEq, Eq, Structural)]
pub enum Listing {
    Normal,
    /// Hidden entries only, so they can be restored.
    Hidden,
    /// Source folders, so they can be removed.
    Sources,
}

/// What the keyboard speaks to.
pub enum Mode {
    Search,
    Actions { actions: Vec<Action>, selected: usize },
    TextInput { prompt: String, action_id: &'static str, buffer: TextField },
    Form { title: String, action_id: &'static str, fields: Vec<FormEntry>, focused: usize },
}

/// What the window does after an action.
#[derive(Clone, Copy, PartialEq, Eq, Structural)]
pub enum UiOutcome {
    Stay,
    Hide,
    /// Something only the window can do.
    Shell(ShellCommand),
}

/// A launched entry's standing: entries come best first.
pub struct Standing {
    pub plugin: String,
    pub payload: String,
    /// What past use adds to the score.
    pub bonus: u8,
}

/// A source folder, and the name it is shown by.
pub struct Source {
    pub path: String,
    pub name: String,
}

impl Source {
    /// A source folder shown by the last component of its path, or by the
    /// whole path where it has none.
    pub fn named(path: &str, last: Option<&str>) -> (r: Source)
        ensures
            r.path@ == path@,
            r.name@ == match last {
                Some(name) => name@,
                None => path@,
            },
    {
        let name = match last {
            Some(name) => name.to_owned(),
            None => path.to_owned(),
        };
        Source { path: path.to_owned(), name }
    }
}

/// What the state needs to know of the outside.
pub struct Outside {
    /// Launch history, best first.
    pub standing: Vec<Standing>,
    pub sources: Vec<Source>,
    pub folder_icon: Option<Arc<Icon>>,
    /// What is on disk.
    pub disk: Disk,
}

// ---- what it all means ----------------------------------------------------------------

/// A launched entry's standing.
#[verifier::ext_equal]
pub struct Rank {
    pub plugin: Seq<char>,
    pub payload: Seq<char>,
    pub bonus: int,
}

/// A source folder.
#[verifier::ext_equal]
pub struct Place {
    pub path: Seq<char>,
    pub name: Seq<char>,
}

/// What is known of the outside.
#[verifier::ext_equal]
pub struct World {
    pub standing: Seq<Rank>,
    pub sources: Seq<Place>,
    pub folder_icon: Option<Bitmap>,
}

pub open spec fn ranks(v: Seq<Standing>) -> Seq<Rank> {
    v.map_values(
        |s: Standing| Rank { plugin: s.plugin@, payload: s.payload@, bonus: s.bonus as int },
    )
}

pub open spec fn places(v: Seq<Source>) -> Seq<Place> {
    v.map_values(|s: Source| Place { path: s.path@, name: s.name@ })
}

impl View for Outside {
    type V = World;

    open spec fn view(&self) -> World {
        World {
            standing: ranks(self.standing@),
            sources: places(self.sources@),
            folder_icon: plugin::shown(self.folder_icon),
        }
    }
}

/// A line of a form: its label, and the field behind it.
#[verifier::ext_equal]
pub struct FormLine {
    pub label: Seq<char>,
    pub value: Field,
}

pub open spec fn form_lines(v: Seq<FormEntry>) -> Seq<FormLine> {
    v.map_values(|f: FormEntry| FormLine { label: f.label@, value: f.value@ })
}

/// What the keyboard speaks to.
#[verifier::ext_equal]
pub enum Screen {
    Search,
    Actions { actions: Seq<Offer>, selected: int },
    TextInput { prompt: Seq<char>, action_id: Seq<char>, buffer: Field },
    Form { title: Seq<char>, action_id: Seq<char>, fields: Seq<FormLine>, focused: int },
}

impl View for Mode {
    type V = Screen;

    open spec fn view(&self) -> Screen {
        match self {
            Mode::Search => Screen::Search,
            Mode::Actions { actions, selected } => Screen::Actions {
                actions: plugin::offers(actions@),
                selected: *selected as int,
            },
            Mode::TextInput { prompt, action_id, buffer } => Screen::TextInput {
                prompt: prompt@,
                action_id: action_id@,
                buffer: buffer@,
            },
            Mode::Form { title, action_id, fields, focused } => Screen::Form {
                title: title@,
                action_id: action_id@,
                fields: form_lines(fields@),
                focused: *focused as int,
            },
        }
    }
}

/// The state, but for the plugins.
#[verifier::ext_equal]
pub struct State {
    pub mode: Screen,
    pub query: Field,
    pub results: Seq<Row>,
    pub selected: int,
    pub sections: Seq<(int, Seq<char>)>,
    /// How far the list is scrolled, in tenths of a DIP.
    pub scroll: int,
    /// Keys of the hidden entries.
    pub hidden: Seq<Seq<char>>,
    pub listing: Listing,
}

/// What an entry goes by, whatever plugin made it. The slash is safe: it
/// stands in no plugin's id.
pub open spec fn key_of(plugin: Seq<char>, payload: Seq<char>) -> Seq<char> {
    plugin + "/"@ + payload
}

pub open spec fn is_hidden(hidden: Seq<Seq<char>>, row: Row) -> bool {
    hidden.contains(key_of(row.plugin, row.payload))
}

/// The rows that are not hidden.
pub open spec fn visible(rows: Seq<Row>, hidden: Seq<Seq<char>>) -> Seq<Row>
    decreases rows.len(),
{
    if rows.len() == 0 {
        rows
    } else {
        let before = visible(rows.drop_last(), hidden);
        if is_hidden(hidden, rows.last()) {
            before
        } else {
            before.push(rows.last())
        }
    }
}

/// What past use adds to an entry's score.
pub open spec fn bonus_of(standing: Seq<Rank>, plugin: Seq<char>, payload: Seq<char>) -> int
    decreases standing.len(),
{
    if standing.len() == 0 {
        0
    } else if standing[0].plugin == plugin && standing[0].payload == payload {
        standing[0].bonus
    } else {
        bonus_of(standing.drop_first(), plugin, payload)
    }
}

pub open spec fn boosted(row: Row, standing: Seq<Rank>) -> Row {
    Row { score: fuzzy::told(row.score + bonus_of(standing, row.plugin, row.payload)), ..row }
}

pub open spec fn all_boosted(rows: Seq<Row>, standing: Seq<Rank>) -> Seq<Row> {
    rows.map_values(|r: Row| boosted(r, standing))
}

/// Better scores first, equal scores by title.
pub open spec fn by_score() -> spec_fn(Row) -> Key {
    |r: Row| Key { number: -r.score, text: r.title }
}

/// What all plugins find, one after the other.
pub open spec fn all_found(plugins: Seq<Box<dyn Plugin>>, q: Seq<char>) -> Seq<Row>
    decreases plugins.len(),
{
    if plugins.len() == 0 {
        Seq::empty()
    } else {
        all_found(plugins.drop_last(), q) + plugins.last().found(q)
    }
}

/// The first rows, at most [`MAX_RESULTS`] of them.
pub open spec fn capped(rows: Seq<Row>) -> Seq<Row> {
    if rows.len() > MAX_RESULTS {
        rows.take(MAX_RESULTS as int)
    } else {
        rows
    }
}

/// The list for a typed query.
pub open spec fn searched(
    plugins: Seq<Box<dyn Plugin>>,
    q: Seq<char>,
    hidden: Seq<Seq<char>>,
    standing: Seq<Rank>,
) -> Seq<Row> {
    capped(
        order::ranked(all_boosted(visible(all_found(plugins, q), hidden), standing), by_score()),
    )
}

/// Where the plugin with an id stands; the number of plugins when there is
/// none.
pub open spec fn plugin_at(plugins: Seq<Box<dyn Plugin>>, id: Seq<char>) -> int
    decreases plugins.len(),
{
    if plugins.len() == 0 || plugins[0].name() == id {
        0
    } else {
        1 + plugin_at(plugins.drop_first(), id)
    }
}

/// The row a plugin makes of a payload, where there is such a plugin.
pub open spec fn row_of(plugins: Seq<Box<dyn Plugin>>, id: Seq<char>, payload: Seq<char>) -> Option<
    Row,
> {
    let i = plugin_at(plugins, id);
    if i < plugins.len() {
        plugins[i].made(payload)
    } else {
        None
    }
}

/// The rows of the most used entries that still exist and are not hidden, at
/// most [`MAX_SUGGESTIONS`] of them.
pub open spec fn suggested(
    plugins: Seq<Box<dyn Plugin>>,
    standing: Seq<Rank>,
    hidden: Seq<Seq<char>>,
) -> Seq<Row>
    decreases standing.len(),
{
    if standing.len() == 0 {
        Seq::empty()
    } else {
        let before = suggested(plugins, standing.drop_last(), hidden);
        let r = standing.last();
        match row_of(plugins, r.plugin, r.payload) {
            Some(row) => if before.len() >= MAX_SUGGESTIONS || hidden.contains(
                key_of(r.plugin, r.payload),
            ) {
                before
            } else {
                before.push(row)
            },
            None => before,
        }
    }
}

/// `rows` and what the plugins list by themselves, up to [`MAX_RESULTS`].
pub open spec fn padded(plugins: Seq<Box<dyn Plugin>>, rows: Seq<Row>) -> Seq<Row>
    decreases plugins.len(),
{
    if plugins.len() == 0 {
        rows
    } else {
        let before = padded(plugins.drop_last(), rows);
        if before.len() >= MAX_RESULTS {
            before
        } else {
            plugin::browsed(before, plugins.last().stock(), (MAX_RESULTS - before.len()) as nat)
        }
    }
}

/// The first of the launch history that a list looks at.
pub open spec fn leading(standing: Seq<Rank>) -> Seq<Rank> {
    if standing.len() > MAX_RESULTS {
        standing.take(MAX_RESULTS as int)
    } else {
        standing
    }
}

/// The list for an empty query: suggestions from launch history, then
/// everything else.
pub open spec fn default_rows(
    plugins: Seq<Box<dyn Plugin>>,
    hidden: Seq<Seq<char>>,
    standing: Seq<Rank>,
) -> Seq<Row> {
    visible(padded(plugins, suggested(plugins, leading(standing), hidden)), hidden)
}

/// Its sections. A heading with nothing under it is left out.
pub open spec fn default_sections(
    plugins: Seq<Box<dyn Plugin>>,
    hidden: Seq<Seq<char>>,
    standing: Seq<Rank>,
) -> Seq<(int, Seq<char>)> {
    let n = suggested(plugins, leading(standing), hidden).len() as int;
    let first = if n > 0 {
        seq![(0int, SUGGESTIONS@)]
    } else {
        Seq::empty()
    };
    if default_rows(plugins, hidden, standing).len() > n {
        first.push((n, COMMANDS@))
    } else {
        first
    }
}

/// The rows of hidden entries, by their keys.
pub open spec fn hidden_rows(plugins: Seq<Box<dyn Plugin>>, keys: Seq<Seq<char>>) -> Seq<Row>
    decreases keys.len(),
{
    if keys.len() == 0 {
        Seq::empty()
    } else {
        let before = hidden_rows(plugins, keys.drop_last());
        let k = keys.last();
        let slash = pieces::first_of(k, '/');
        match row_of(plugins, k.take(slash), k.skip(slash + 1)) {
            Some(row) => if slash < k.len() {
                before.push(row)
            } else {
                before
            },
            None => before,
        }
    }
}

/// The row of a source folder.
pub open spec fn source_row(p: Place, icon: Option<Bitmap>) -> Row {
    Row {
        plugin: SHELL@,
        title: p.name,
        badge: None,
        category: ""@,
        subtitle: "Source folder"@,
        payload: p.path,
        score: 0,
        icon,
    }
}

/// One heading over a list, or none over an empty one.
pub open spec fn under(rows: Seq<Row>, heading: Seq<char>) -> Seq<(int, Seq<char>)> {
    if rows.len() > 0 {
        seq![(0int, heading)]
    } else {
        Seq::empty()
    }
}

impl State {
    /// Typing leaves the special listings: they are there to be reviewed, not
    /// searched.
    pub open spec fn listing_now(self) -> Listing {
        if self.query.text.len() > 0 {
            Listing::Normal
        } else {
            self.listing
        }
    }

    /// The rows the list should show.
    pub open spec fn rows_now(self, plugins: Seq<Box<dyn Plugin>>, w: World) -> Seq<Row> {
        match self.listing_now() {
            Listing::Hidden => hidden_rows(plugins, order::ranked(self.hidden, order::by_text())),
            Listing::Sources => w.sources.map_values(|p: Place| source_row(p, w.folder_icon)),
            Listing::Normal => if self.query.text.len() == 0 {
                capped(default_rows(plugins, self.hidden, w.standing))
            } else {
                searched(plugins, self.query.text, self.hidden, w.standing)
            },
        }
    }

    /// The sections they fall into.
    pub open spec fn sections_now(self, plugins: Seq<Box<dyn Plugin>>, w: World) -> Seq<
        (int, Seq<char>),
    > {
        match self.listing_now() {
            Listing::Hidden => under(self.rows_now(plugins, w), "Hidden"@),
            Listing::Sources => under(self.rows_now(plugins, w), "Source folders"@),
            Listing::Normal => if self.query.text.len() == 0 {
                default_sections(plugins, self.hidden, w.standing)
            } else {
                Seq::empty()
            },
        }
    }

    /// The state with its list made anew, from the top.
    pub open spec fn refreshed(self, plugins: Seq<Box<dyn Plugin>>, w: World) -> State {
        State {
            results: self.rows_now(plugins, w),
            sections: self.sections_now(plugins, w),
            selected: 0,
            scroll: 0,
            listing: self.listing_now(),
            ..self
        }
    }

    /// The same with the selection where it was, or on the last row.
    pub open spec fn requeried(self, plugins: Seq<Box<dyn Plugin>>, w: World) -> State {
        let s = self.refreshed(plugins, w);
        let last = if s.results.len() > 0 {
            s.results.len() - 1
        } else {
            0
        };
        State {
            selected: if self.selected < last {
                self.selected
            } else {
                last
            },
            ..s
        }
    }
}

impl State {
    /// The field the keyboard writes to: the query, the prompt, or the line of
    /// the form that has the focus. None while the actions panel is open.
    pub open spec fn focused(self) -> Option<Field> {
        match self.mode {
            Screen::Search => Some(self.query),
            Screen::TextInput { buffer, .. } => Some(buffer),
            Screen::Form { fields, focused, .. } => if 0 <= focused < fields.len() {
                Some(fields[focused].value)
            } else {
                None
            },
            Screen::Actions { .. } => None,
        }
    }

    /// The state with another value in that field.
    pub open spec fn with_focused(self, f: Field) -> State {
        match self.mode {
            Screen::Search => State { query: f, ..self },
            Screen::TextInput { prompt, action_id, .. } => State {
                mode: Screen::TextInput { prompt, action_id, buffer: f },
                ..self
            },
            Screen::Form { title, action_id, fields, focused } => State {
                mode: Screen::Form {
                    title,
                    action_id,
                    fields: fields.update(
                        focused,
                        FormLine { label: fields[focused].label, value: f },
                    ),
                    focused,
                },
                ..self
            },
            Screen::Actions { .. } => self,
        }
    }

    /// The state once an edit went to that field, and whether a text changed.
    /// A changed query is looked up at once.
    pub open spec fn edited(self, edit: Edit, plugins: Seq<Box<dyn Plugin>>, w: World) -> (
        State,
        bool,
    ) {
        match self.focused() {
            Some(f) => {
                let (g, changed) = f.edited(edit);
                let s = self.with_focused(g);
                if changed && self.mode is Search {
                    (s.refreshed(plugins, w), changed)
                } else {
                    (s, changed)
                }
            },
            None => (self, false),
        }
    }

    /// The text selected in that field.
    pub open spec fn selection(self) -> Option<Seq<char>> {
        match self.focused() {
            Some(f) => if f.has_selection() {
                Some(f.selected())
            } else {
                None
            },
            None => None,
        }
    }

    /// The state once that text was cut out.
    pub open spec fn cut(self, plugins: Seq<Box<dyn Plugin>>, w: World) -> State {
        match self.selection() {
            Some(_) => {
                let s = self.with_focused(self.focused()->0.unselected());
                if self.mode is Search {
                    s.refreshed(plugins, w)
                } else {
                    s
                }
            },
            None => self,
        }
    }

    /// The state with an empty query, looked up.
    pub open spec fn cleared(self, plugins: Seq<Box<dyn Plugin>>, w: World) -> State {
        State { query: blank_field(), ..self }.refreshed(plugins, w)
    }

    /// The selected row.
    pub open spec fn chosen(self) -> Option<Row> {
        if 0 <= self.selected < self.results.len() {
            Some(self.results[self.selected])
        } else {
            None
        }
    }
}

impl State {
    /// How far the list can be scrolled, in tenths, as far as a number can
    /// say.
    pub open spec fn limit(self) -> int {
        let limit = render::scroll_limit(self.results.len() as int, self.sections.len() as int);
        if limit < i64::MAX {
            limit
        } else {
            i64::MAX as int
        }
    }

    /// A section starts with the row.
    pub open spec fn starts_section(self, i: int) -> bool {
        exists|k: int| 0 <= k < self.sections.len() && (#[trigger] self.sections[k]).0 == i
    }

    /// Scrolled to `at`, or as near to it as the list goes.
    pub open spec fn scrolled_to(self, at: int) -> State {
        State {
            scroll: if at < 0 {
                0
            } else if at > self.limit() {
                self.limit()
            } else {
                at
            },
            ..self
        }
    }

    /// Where the selected row starts, in tenths; with its heading where it has
    /// one.
    pub open spec fn chosen_top(self) -> int {
        let row = render::offset_of_row(self.sections, self.selected) * 10;
        if self.starts_section(self.selected) {
            row - render::HEADER_H * 10
        } else {
            row
        }
    }

    /// Where the selected row ends, in tenths.
    pub open spec fn chosen_bottom(self) -> int {
        (render::offset_of_row(self.sections, self.selected) + render::ROW_H) * 10
    }

    /// Scrolled as little as shows the selected row.
    pub open spec fn followed(self) -> State {
        if self.chosen_top() < self.scroll {
            self.scrolled_to(self.chosen_top())
        } else if self.chosen_bottom() > self.scroll + render::LIST_VIEWPORT_H * 10 {
            self.scrolled_to(self.chosen_bottom() - render::LIST_VIEWPORT_H * 10)
        } else {
            self.scrolled_to(self.scroll)
        }
    }

    /// The selection moved on by `by` rows, round and round, and in sight.
    pub open spec fn moved(self, by: int) -> State {
        if self.results.len() == 0 {
            State { selected: 0, ..self }
        } else {
            State {
                selected: stepped(self.selected, by, self.results.len() as int),
                ..self
            }.followed()
        }
    }

    /// A row of the list lies under a point `y` pixels down the window, at
    /// `dpi` pixels to the inch.
    pub open spec fn lies_under(self, i: int, y: int, dpi: int) -> bool {
        let down = y * 960 - render::LIST_TOP * 10 * dpi;
        let at = down + self.scroll * dpi;
        let top = render::offset_of_row(self.sections, i) * 10 * dpi;
        &&& 0 <= i < self.results.len()
        &&& 0 <= down <= render::LIST_VIEWPORT_H * 10 * dpi
        &&& top <= at < top + render::ROW_H * 10 * dpi
    }

    /// The state without the key `k` among the hidden ones, or with it.
    pub open spec fn with_hidden(self, k: Seq<char>, hide: bool) -> State {
        State {
            hidden: if hide {
                if self.hidden.contains(k) {
                    self.hidden
                } else {
                    self.hidden.push(k)
                }
            } else {
                without_text(self.hidden, k)
            },
            ..self
        }
    }

    /// What becomes of the state after an action: the result `o`, with the
    /// plugins as they then are, and `stored` the hidden keys on disk.
    pub open spec fn after(
        self,
        o: Outcome,
        plugins: Seq<Box<dyn Plugin>>,
        w: World,
        stored: Seq<Seq<char>>,
    ) -> State {
        let s = State { mode: Screen::Search, ..self };
        match o {
            Outcome::Done => s.requeried(plugins, w),
            Outcome::Close | Outcome::Dismiss => s,
            Outcome::Shell(c) => match c {
                ShellCommand::ClearHistory => s.cleared(
                    plugins,
                    World { standing: Seq::empty(), ..w },
                ),
                ShellCommand::ShowHidden => State { listing: Listing::Hidden, ..s }.cleared(
                    plugins,
                    w,
                ),
                ShellCommand::ShowSources => State { listing: Listing::Sources, ..s }.cleared(
                    plugins,
                    w,
                ),
                _ => s,
            },
            Outcome::Refresh => State {
                hidden: told_apart(stored),
                listing: Listing::Normal,
                ..s
            }.cleared(plugins, w),
            Outcome::RequestText { prompt, action_id } => State {
                mode: Screen::TextInput { prompt, action_id, buffer: blank_field() },
                ..self
            },
            Outcome::RequestForm { title, action_id, fields } => State {
                mode: Screen::Form { title, action_id, fields: form_from(fields), focused: 0 },
                ..self
            },
        }
    }
}

/// The texts but `k`.
pub open spec fn without_text(v: Seq<Seq<char>>, k: Seq<char>) -> Seq<Seq<char>>
    decreases v.len(),
{
    if v.len() == 0 {
        v
    } else if v.last() == k {
        without_text(v.drop_last(), k)
    } else {
        without_text(v.drop_last(), k).push(v.last())
    }
}

/// The paths but those that are `path`, ASCII case aside.
pub open spec fn paths_without(v: Seq<Place>, path: Seq<char>) -> Seq<Seq<char>>
    decreases v.len(),
{
    if v.len() == 0 {
        Seq::empty()
    } else if text::same_ignoring_case(v.last().path, path) {
        paths_without(v.drop_last(), path)
    } else {
        paths_without(v.drop_last(), path).push(v.last().path)
    }
}

/// A form as it opens: every line with its value, the caret at its end.
pub open spec fn form_from(fields: Seq<Filled>) -> Seq<FormLine> {
    fields.map_values(
        |f: Filled|
            FormLine {
                label: f.label,
                value: Field {
                    text: f.value,
                    caret: f.value.len() as int,
                    anchor: f.value.len() as int,
                    pending: None,
                },
            },
    )
}

/// A form as it is handed in: every value trimmed.
pub open spec fn form_given(fields: Seq<FormLine>) -> Seq<Filled> {
    fields.map_values(
        |f: FormLine| Filled { label: f.label, value: text::trimmed(f.value.text) },
    )
}

/// The plugins are those there were, though each may have changed.
pub open spec fn same_names(a: Seq<Box<dyn Plugin>>, b: Seq<Box<dyn Plugin>>) -> bool {
    &&& a.len() == b.len()
    &&& forall|i: int| 0 <= i < a.len() ==> (#[trigger] a[i]).name() == b[i].name()
}

/// The plugins after every one of them was reloaded from disk.
pub open spec fn all_reloaded(
    a: Seq<Box<dyn Plugin>>,
    b: Seq<Box<dyn Plugin>>,
    disk: Disk,
) -> bool {
    &&& same_names(a, b)
    &&& forall|i: int| 0 <= i < a.len() ==> (#[trigger] a[i]).memory() == b[i].reloaded(disk)
}

/// The plugins after every one of them got a new application index.
pub open spec fn all_indexed(
    a: Seq<Box<dyn Plugin>>,
    b: Seq<Box<dyn Plugin>>,
    index: Catalogue,
) -> bool {
    &&& same_names(a, b)
    &&& forall|i: int| 0 <= i < a.len() ==> (#[trigger] a[i]).memory() == b[i].indexed(index)
}

/// No plugin but the one with an id has changed.
pub open spec fn same_but(
    a: Seq<Box<dyn Plugin>>,
    b: Seq<Box<dyn Plugin>>,
    id: Seq<char>,
) -> bool {
    &&& same_names(a, b)
    &&& forall|i: int| 0 <= i < a.len() && i != plugin_at(b, id) ==> #[trigger] a[i] == b[i]
}

/// The plugins after the one that made `row` dealt with it and keeps `m` in
/// mind. Nothing changes where no plugin made it.
pub open spec fn dealt_with(
    a: Seq<Box<dyn Plugin>>,
    b: Seq<Box<dyn Plugin>>,
    row: Row,
    m: Memory,
) -> bool {
    let k = plugin_at(b, row.plugin);
    &&& same_but(a, b, row.plugin)
    &&& k < b.len() ==> a[k].memory() == m
}

/// Making a section of the configuration the list `values`.
pub open spec fn listing_change(section: Seq<char>, values: Seq<Seq<char>>) -> Deed {
    Deed::Rewrite(Rewriting::SetList { section, values })
}

/// An action of the panel that every row has, whatever made it.
pub open spec fn is_shell_action(id: Seq<char>) -> bool {
    id == ACTION_HIDE@ || id == ACTION_UNHIDE@ || id == ACTION_REMOVE_SOURCE@
}

impl State {
    /// The answer to the selected row being activated. Rows that nothing owns
    /// do nothing.
    pub open spec fn activation(self, plugins: Seq<Box<dyn Plugin>>) -> Answer {
        match self.chosen() {
            Some(row) => {
                let k = plugin_at(plugins, row.plugin);
                if k < plugins.len() {
                    plugins[k].on_activate(row)
                } else {
                    Answer::just(Outcome::Done)
                }
            },
            None => Answer::just(Outcome::Done),
        }
    }

    /// The id of the action that is highlighted in the panel.
    pub open spec fn highlighted(self) -> Option<Seq<char>> {
        match self.mode {
            Screen::Actions { actions, selected } => if 0 <= selected < actions.len() {
                Some(actions[selected].id)
            } else {
                None
            },
            _ => None,
        }
    }

    /// The state once the highlighted action was run. Hiding and restoring
    /// take hold at once.
    pub open spec fn acted(self) -> State {
        match (self.highlighted(), self.chosen()) {
            (Some(id), Some(row)) => {
                let k = key_of(row.plugin, row.payload);
                if id == ACTION_HIDE@ {
                    self.with_hidden(k, true)
                } else if id == ACTION_UNHIDE@ {
                    self.with_hidden(k, false)
                } else {
                    self
                }
            },
            _ => self,
        }
    }

    /// The answer to the highlighted action. Those that every row has never
    /// reach a plugin.
    pub open spec fn action(self, plugins: Seq<Box<dyn Plugin>>, w: World) -> Option<Answer> {
        match (self.highlighted(), self.chosen()) {
            (Some(id), Some(row)) => {
                let k = plugin_at(plugins, row.plugin);
                Some(
                    if id == ACTION_HIDE@ || id == ACTION_UNHIDE@ {
                        Answer::after(
                            listing_change(
                                HIDDEN@,
                                order::ranked(self.acted().hidden, order::by_text()),
                            ),
                            Outcome::Done,
                        )
                    } else if id == ACTION_REMOVE_SOURCE@ {
                        Answer {
                            reload: true,
                            ..Answer::after(
                                listing_change(SOURCES@, paths_without(w.sources, row.payload)),
                                Outcome::Done,
                            )
                        }
                    } else if k < plugins.len() {
                        plugins[k].on_action(id, row)
                    } else {
                        Answer::just(Outcome::Done)
                    },
                )
            },
            (Some(id), None) => if id == ACTION_HIDE@ || id == ACTION_UNHIDE@ || id
                == ACTION_REMOVE_SOURCE@ {
                None
            } else {
                Some(Answer::just(Outcome::Done))
            },
            _ => None,
        }
    }

    /// The answer to the text that was asked for.
    pub open spec fn text_answer(self, plugins: Seq<Box<dyn Plugin>>) -> Option<Answer> {
        match self.mode {
            Screen::TextInput { action_id, buffer, .. } => Some(
                match self.chosen() {
                    Some(row) => {
                        let k = plugin_at(plugins, row.plugin);
                        if k < plugins.len() {
                            plugins[k].on_text(action_id, row, text::trimmed(buffer.text))
                        } else {
                            Answer::just(Outcome::Done)
                        }
                    },
                    None => Answer::just(Outcome::Done),
                },
            ),
            _ => None,
        }
    }

    /// The path whose being a folder decides how the form is taken.
    pub open spec fn form_wants(self, plugins: Seq<Box<dyn Plugin>>) -> Option<Seq<char>> {
        match (self.mode, self.chosen()) {
            (Screen::Form { action_id, fields, .. }, Some(row)) => {
                let k = plugin_at(plugins, row.plugin);
                if k < plugins.len() {
                    plugins[k].form_wants(action_id, form_given(fields))
                } else {
                    None
                }
            },
            _ => None,
        }
    }

    /// The answer to the form that was asked for.
    pub open spec fn form_answer(self, plugins: Seq<Box<dyn Plugin>>, folder: bool) -> Option<
        Answer,
    > {
        match self.mode {
            Screen::Form { action_id, fields, .. } => Some(
                match self.chosen() {
                    Some(row) => {
                        let k = plugin_at(plugins, row.plugin);
                        if k < plugins.len() {
                            plugins[k].on_form(action_id, row, form_given(fields), folder)
                        } else {
                            Answer::just(Outcome::Done)
                        }
                    },
                    None => Answer::just(Outcome::Done),
                },
            ),
            _ => None,
        }
    }
}

impl State {
    /// The state with the actions panel of the selected row open; as it is
    /// without a row.
    pub open spec fn panelled(self, plugins: Seq<Box<dyn Plugin>>) -> State {
        match self.chosen() {
            Some(row) => State {
                mode: Screen::Actions {
                    actions: offers_for(plugins, row, self.listing),
                    selected: 0,
                },
                ..self
            },
            None => self,
        }
    }

    /// The state with the highlight of the panel moved on by `by` actions.
    pub open spec fn panel_moved(self, by: int) -> State {
        match self.mode {
            Screen::Actions { actions, selected } => State {
                mode: Screen::Actions {
                    actions,
                    selected: stepped(selected, by, actions.len() as int),
                },
                ..self
            },
            _ => self,
        }
    }

    /// The state with the focus of the form moved on by `by` lines.
    pub open spec fn focus_moved(self, by: int) -> State {
        match self.mode {
            Screen::Form { title, action_id, fields, focused } => State {
                mode: Screen::Form {
                    title,
                    action_id,
                    fields,
                    focused: stepped(focused, by, fields.len() as int),
                },
                ..self
            },
            _ => self,
        }
    }

    /// The state as the window appears: the default list made anew, and any
    /// other left as it is.
    pub open spec fn appearing(self, plugins: Seq<Box<dyn Plugin>>, w: World) -> State {
        if self.query.text.len() == 0 {
            self.refreshed(plugins, w)
        } else {
            self
        }
    }

    /// The state scrolled back by `delta` tenths, as far as the list goes.
    pub open spec fn wheeled(self, delta: int) -> State {
        self.scrolled_to(self.scroll - delta)
    }

    /// The state with a row selected; as it is where there is no such row.
    pub open spec fn pointed_at(self, index: int) -> State {
        if 0 <= index < self.results.len() {
            State { selected: index, ..self }
        } else {
            self
        }
    }

    /// Height of the window's content: that of the list, or of a form that is
    /// taller.
    pub open spec fn height(self) -> int {
        let base = render::LIST_TOP + render::LIST_VIEWPORT_H + render::BAR_H;
        match self.mode {
            Screen::Form { fields, .. } => if base < render::form_window(fields.len() as int) {
                render::form_window(fields.len() as int)
            } else {
                base
            },
            _ => base,
        }
    }

    /// The state at first, with these keys hidden.
    pub open spec fn initial(hidden: Seq<Seq<char>>) -> State {
        State {
            mode: Screen::Search,
            query: blank_field(),
            results: Seq::empty(),
            selected: 0,
            sections: Seq::empty(),
            scroll: 0,
            hidden: told_apart(hidden),
            listing: Listing::Normal,
        }
    }
}

/// The theme that a configuration pins: dark or light.
pub open spec fn theme_of(settings: Seq<config::Setting>) -> Option<bool> {
    match config::lookup(settings, "appearance"@, "theme"@) {
        Some(t) => if text::same_ignoring_case(t, "dark"@) {
            Some(true)
        } else if text::same_ignoring_case(t, "light"@) {
            Some(false)
        } else {
            None
        },
        None => None,
    }
}

/// Whether the colours are dark: as pinned, or else as the system has them.
pub open spec fn darkness(forced_dark: Option<bool>, light: bool) -> bool {
    match forced_dark {
        Some(dark) => dark,
        None => !light,
    }
}

/// What an optional reply says.
pub open spec fn said(r: Option<Reply>) -> Option<Answer> {
    match r {
        Some(r) => Some(r@),
        None => None,
    }
}

/// What the window does after an action with the result `o`.
pub open spec fn shown_after(o: Outcome) -> UiOutcome {
    match o {
        Outcome::Close | Outcome::Dismiss => UiOutcome::Hide,
        Outcome::Shell(c) => match c {
            ShellCommand::ClearHistory
            | ShellCommand::ShowHidden
            | ShellCommand::ShowSources => UiOutcome::Stay,
            _ => UiOutcome::Shell(c),
        },
        _ => UiOutcome::Stay,
    }
}

/// The action every row of a listing has, whatever made it.
pub open spec fn shell_offer(listing: Listing) -> Offer {
    match listing {
        Listing::Hidden => Offer { id: ACTION_UNHIDE@, label: "Unhide"@ },
        Listing::Sources => Offer { id: ACTION_REMOVE_SOURCE@, label: "Remove Source Folder"@ },
        Listing::Normal => Offer { id: ACTION_HIDE@, label: "Hide from Apex"@ },
    }
}

/// The actions of a row: those of the plugin that made it, if any, and the one
/// every row has.
pub open spec fn offers_for(plugins: Seq<Box<dyn Plugin>>, row: Row, listing: Listing) -> Seq<
    Offer,
> {
    let k = plugin_at(plugins, row.plugin);
    (if k < plugins.len() {
        plugins[k].offered(row)
    } else {
        Seq::empty()
    }).push(shell_offer(listing))
}

/// `at` moved on by `by` places in a round of `n`.
pub open spec fn stepped(at: int, by: int, n: int) -> int {
    if n > 0 {
        (at + by) % n
    } else {
        at
    }
}

/// The characters an empty text field holds: none.
pub open spec fn blank_field() -> Field {
    Field { text: Seq::empty(), caret: 0, anchor: 0, pending: None }
}

// ---- the state ------------------------------------------------------------------------

/// The launcher.
pub struct App {
    pub mode: Mode,
    /// Whether the window shows what is behind it.
    pub translucent: bool,
    /// Whether the window fades in.
    pub animate: bool,
    /// A theme that is pinned: dark or light. Otherwise the system's holds.
    pub forced_dark: Option<bool>,
    pub dark: bool,
    pub query: TextField,
    pub caret_visible: bool,
    pub plugins: Vec<Box<dyn Plugin>>,
    pub results: Vec<ResultItem>,
    pub selected: usize,
    /// First row and heading of each section.
    pub sections: Vec<(usize, &'static str)>,
    /// How far the list is scrolled, in tenths of a DIP.
    pub scroll: i64,
    /// Keys of the entries the user has hidden.
    pub hidden: Vec<String>,
    pub listing: Listing,
}

impl App {
    /// The state, but for the plugins.
    pub open spec fn state(self) -> State {
        State {
            mode: self.mode@,
            query: self.query@,
            results: plugin::rows(self.results@),
            selected: self.selected as int,
            sections: render::headings(self.sections@),
            scroll: self.scroll as int,
            hidden: pieces::strings(self.hidden@),
            listing: self.listing,
        }
    }

    /// Nothing about the looks has changed.
    pub open spec fn looks_like(self, other: App) -> bool {
        &&& self.translucent == other.translucent
        &&& self.animate == other.animate
        &&& self.forced_dark == other.forced_dark
        &&& self.dark == other.dark
        &&& self.caret_visible == other.caret_visible
    }
}

// ---- making the list ----------------------------------------------------------------------

impl Keyed for ResultItem {
    open spec fn key(&self) -> Key {
        Key { number: -(self.score as int), text: self.title@ }
    }

    fn goes_before(&self, other: &ResultItem) -> bool {
        self.score > other.score || (self.score == other.score && order::comes_first(
            self.title.as_str(),
            other.title.as_str(),
        ))
    }
}

/// What an entry goes by, whatever plugin made it.
pub fn key(plugin: &str, payload: &str) -> (r: String)
    ensures
        r@ == key_of(plugin@, payload@),
{
    let left = pieces::concat(plugin, "/");
    pieces::concat(left.as_str(), payload)
}

/// The texts that are told apart: each where it first stands.
pub open spec fn told_apart(v: Seq<Seq<char>>) -> Seq<Seq<char>>
    decreases v.len(),
{
    if v.len() == 0 {
        v
    } else {
        let before = told_apart(v.drop_last());
        if before.contains(v.last()) {
            before
        } else {
            before.push(v.last())
        }
    }
}

fn tell_apart(v: Vec<String>) -> (out: Vec<String>)
    ensures
        pieces::strings(out@) == told_apart(pieces::strings(v@)),
{
    let ghost s = pieces::strings(v@);
    let mut out: Vec<String> = Vec::new();
    let mut i: usize = 0;
    assert(pieces::strings(out@) =~= told_apart(s.take(0)));
    while i < v.len()
        invariant
            i <= v@.len(),
            s == pieces::strings(v@),
            pieces::strings(out@) == told_apart(s.take(i as int)),
        decreases v@.len() - i,
    {
        proof {
            assert(s.take(i + 1).drop_last() =~= s.take(i as int));
            assert(s.take(i + 1).last() == v@[i as int]@);
        }
        let ghost before = pieces::strings(out@);
        if !holds_string(&out, v[i].as_str()) {
            let k = v[i].clone();
            out.push(k);
            assert(pieces::strings(out@) =~= before.push(k@));
        }
        i += 1;
    }
    assert(s.take(s.len() as int) =~= s);
    out
}

/// Where the plugin with an id stands; the number of plugins when there is
/// none.
fn find_plugin(plugins: &Vec<Box<dyn Plugin>>, id: &str) -> (k: usize)
    ensures
        k == plugin_at(plugins@, id@),
        k <= plugins@.len(),
        k < plugins@.len() ==> plugins@[k as int].name() == id@,
{
    let mut k: usize = 0;
    assert(plugins@.skip(0) =~= plugins@);
    while k < plugins.len() && !same(plugins[k].id(), id)
        invariant
            k <= plugins@.len(),
            plugin_at(plugins@, id@) == k + plugin_at(plugins@.skip(k as int), id@),
        decreases plugins@.len() - k,
    {
        assert(plugins@.skip(k as int).drop_first() =~= plugins@.skip(k + 1));
        k += 1;
    }
    k
}

/// The row a plugin makes of a payload, where there is such a plugin.
fn make_row(plugins: &Vec<Box<dyn Plugin>>, id: &str, payload: &str) -> (r: Option<ResultItem>)
    ensures
        plugin::maybe_row(r) == row_of(plugins@, id@, payload@),
{
    let k: usize = find_plugin(plugins, id);
    if k < plugins.len() {
        plugins[k].item_for(payload)
    } else {
        None
    }
}

/// Leaves the hidden rows out.
fn drop_hidden(list: &mut Vec<ResultItem>, hidden: &Vec<String>)
    ensures
        plugin::rows(final(list)@) == visible(plugin::rows(old(list)@), pieces::strings(hidden@)),
{
    let ghost s = plugin::rows(list@);
    let ghost h = pieces::strings(hidden@);
    let n: usize = list.len();
    let mut seen: usize = 0;
    let mut i: usize = 0;
    assert(plugin::rows(list@) =~= visible(s.take(0), h) + s.skip(0));
    while seen < n
        invariant
            i <= seen <= n == s.len(),
            h == pieces::strings(hidden@),
            visible(s.take(seen as int), h).len() == i,
            plugin::rows(list@) == visible(s.take(seen as int), h) + s.skip(seen as int),
        decreases n - seen,
    {
        let ghost done = visible(s.take(seen as int), h);
        proof {
            assert(plugin::rows(list@).len() == list@.len());
            assert(s.take(seen + 1).drop_last() =~= s.take(seen as int));
            assert(s.take(seen + 1).last() == s[seen as int]);
            assert(plugin::rows(list@)[i as int] == s[seen as int]);
            assert(plugin::rows(list@)[i as int] == list@[i as int]@);
        }
        let k = key(list[i].plugin, list[i].payload.as_str());
        if holds_string(hidden, k.as_str()) {
            let ghost before = list@;
            list.remove(i);
            assert(plugin::rows(list@) =~= plugin::rows(before).remove(i as int));
            assert(plugin::rows(list@) =~= done + s.skip(seen + 1));
        } else {
            assert(done + s.skip(seen as int) =~= done.push(s[seen as int]) + s.skip(seen + 1));
            i += 1;
        }
        seen += 1;
    }
    assert(s.take(n as int) =~= s);
    assert(plugin::rows(list@) =~= visible(s, h));
}

/// What past use adds to an entry's score.
fn bonus(standing: &Vec<Standing>, plugin: &str, payload: &str) -> (r: u8)
    ensures
        r == bonus_of(ranks(standing@), plugin@, payload@),
{
    let ghost s = ranks(standing@);
    let mut i: usize = 0;
    assert(s.skip(0) =~= s);
    while i < standing.len()
        invariant
            i <= standing@.len(),
            s == ranks(standing@),
            bonus_of(s, plugin@, payload@) == bonus_of(s.skip(i as int), plugin@, payload@),
        decreases standing@.len() - i,
    {
        proof {
            assert(s[i as int].plugin == standing@[i as int].plugin@);
            assert(s.skip(i as int)[0] == s[i as int]);
            assert(s.skip(i as int).drop_first() =~= s.skip(i + 1));
        }
        if same(standing[i].plugin.as_str(), plugin) && same(
            standing[i].payload.as_str(),
            payload,
        ) {
            return standing[i].bonus;
        }
        i += 1;
    }
    0
}

/// Adds to every score what past use is worth.
fn boost(list: &mut Vec<ResultItem>, standing: &Vec<Standing>)
    ensures
        plugin::rows(final(list)@) == all_boosted(plugin::rows(old(list)@), ranks(standing@)),
{
    let ghost s = plugin::rows(list@);
    let ghost want = all_boosted(s, ranks(standing@));
    let mut i: usize = 0;
    assert(plugin::rows(list@) =~= want.take(0) + s.skip(0));
    while i < list.len()
        invariant
            i <= list@.len() == s.len(),
            want == all_boosted(s, ranks(standing@)),
            plugin::rows(list@) == want.take(i as int) + s.skip(i as int),
        decreases list@.len() - i,
    {
        let ghost before = list@;
        assert(plugin::rows(list@)[i as int] == s[i as int]);
        assert(plugin::rows(list@)[i as int] == list@[i as int]@);
        let more: u8 = bonus(standing, list[i].plugin, list[i].payload.as_str());
        list[i].score = fuzzy::tell(list[i].score as i128 + more as i128);
        proof {
            assert(list@[i as int]@ == want[i as int]);
            assert(plugin::rows(list@) =~= plugin::rows(before).update(i as int, want[i as int]));
            assert(plugin::rows(list@) =~= want.take(i + 1) + s.skip(i + 1));
        }
        i += 1;
    }
    assert(plugin::rows(list@) =~= want);
}

/// The list for a typed query.
fn search(
    plugins: &Vec<Box<dyn Plugin>>,
    q: &str,
    hidden: &Vec<String>,
    standing: &Vec<Standing>,
) -> (out: Vec<ResultItem>)
    ensures
        plugin::rows(out@) == searched(plugins@, q@, pieces::strings(hidden@), ranks(standing@)),
{
    let mut out: Vec<ResultItem> = Vec::new();
    let mut i: usize = 0;
    assert(plugin::rows(out@) =~= all_found(plugins@.take(0), q@));
    while i < plugins.len()
        invariant
            i <= plugins@.len(),
            plugin::rows(out@) == all_found(plugins@.take(i as int), q@),
        decreases plugins@.len() - i,
    {
        assert(plugins@.take(i + 1).drop_last() =~= plugins@.take(i as int));
        assert(plugins@.take(i + 1).last() == plugins@[i as int]);
        plugins[i].query(q, &mut out);
        i += 1;
    }
    assert(plugins@.take(i as int) =~= plugins@);
    drop_hidden(&mut out, hidden);
    boost(&mut out, standing);
    proof {
        let f = |i: ResultItem| i@;
        assert(plugin::rows(out@) =~= out@.map_values(f));
        order::lemma_ranked_maps(out@, f, order::key_of::<ResultItem>(), by_score());
    }
    order::sort(&mut out);
    cap(&mut out);
    out
}

/// Keeps the first rows, at most [`MAX_RESULTS`] of them.
fn cap(list: &mut Vec<ResultItem>)
    ensures
        plugin::rows(final(list)@) == capped(plugin::rows(old(list)@)),
{
    let ghost s = list@;
    if list.len() > MAX_RESULTS {
        list.truncate(MAX_RESULTS);
        assert(plugin::rows(list@) =~= plugin::rows(s).take(MAX_RESULTS as int));
    }
}

/// The rows of the most used entries.
fn suggest(
    plugins: &Vec<Box<dyn Plugin>>,
    standing: &Vec<Standing>,
    hidden: &Vec<String>,
) -> (out: Vec<ResultItem>)
    ensures
        plugin::rows(out@) == suggested(
            plugins@,
            leading(ranks(standing@)),
            pieces::strings(hidden@),
        ),
        out@.len() <= MAX_SUGGESTIONS,
{
    let ghost s = leading(ranks(standing@));
    let ghost h = pieces::strings(hidden@);
    let n: usize = if standing.len() > MAX_RESULTS {
        MAX_RESULTS
    } else {
        standing.len()
    };
    let mut out: Vec<ResultItem> = Vec::new();
    let mut i: usize = 0;
    assert(plugin::rows(out@) =~= suggested(plugins@, s.take(0), h));
    while i < n
        invariant
            i <= n == s.len(),
            n <= standing@.len(),
            s == leading(ranks(standing@)),
            h == pieces::strings(hidden@),
            out@.len() <= MAX_SUGGESTIONS,
            plugin::rows(out@) == suggested(plugins@, s.take(i as int), h),
        decreases n - i,
    {
        proof {
            assert(s.take(i + 1).drop_last() =~= s.take(i as int));
            assert(s.take(i + 1).last() == s[i as int]);
            assert(s[i as int] == ranks(standing@)[i as int]);
            assert(plugin::rows(out@).len() == out@.len());
        }
        let entry = &standing[i];
        let k = key(entry.plugin.as_str(), entry.payload.as_str());
        if out.len() < MAX_SUGGESTIONS && !holds_string(hidden, k.as_str()) {
            match make_row(plugins, entry.plugin.as_str(), entry.payload.as_str()) {
                Some(item) => {
                    let ghost before = out@;
                    out.push(item);
                    assert(plugin::rows(out@) =~= plugin::rows(before).push(item@));
                },
                None => {},
            }
        }
        i += 1;
    }
    assert(s.take(n as int) =~= s);
    out
}

/// Appends what the plugins list by themselves.
fn pad(plugins: &Vec<Box<dyn Plugin>>, list: &mut Vec<ResultItem>)
    ensures
        plugin::rows(final(list)@) == padded(plugins@, plugin::rows(old(list)@)),
{
    let ghost first = plugin::rows(list@);
    let mut i: usize = 0;
    assert(plugin::rows(list@) =~= padded(plugins@.take(0), first));
    while i < plugins.len()
        invariant
            i <= plugins@.len(),
            plugin::rows(list@) == padded(plugins@.take(i as int), first),
        decreases plugins@.len() - i,
    {
        proof {
            assert(plugins@.take(i + 1).drop_last() =~= plugins@.take(i as int));
            assert(plugins@.take(i + 1).last() == plugins@[i as int]);
            assert(plugin::rows(list@).len() == list@.len());
        }
        if list.len() < MAX_RESULTS {
            let free: usize = MAX_RESULTS - list.len();
            plugins[i].browse(free, list);
        }
        i += 1;
    }
    assert(plugins@.take(i as int) =~= plugins@);
}

/// The list for an empty query, and its sections: suggestions from launch
/// history, then everything else.
fn fill_default(
    plugins: &Vec<Box<dyn Plugin>>,
    hidden: &Vec<String>,
    standing: &Vec<Standing>,
) -> (r: (Vec<ResultItem>, Vec<(usize, &'static str)>))
    ensures
        plugin::rows((r.0)@) == capped(
            default_rows(plugins@, pieces::strings(hidden@), ranks(standing@)),
        ),
        render::headings((r.1)@) == default_sections(
            plugins@,
            pieces::strings(hidden@),
            ranks(standing@),
        ),
{
    let mut sections: Vec<(usize, &'static str)> = Vec::new();
    assert(render::headings(sections@) =~= Seq::empty());
    let mut list = suggest(plugins, standing, hidden);
    let start: usize = list.len();
    let ghost first = plugin::rows(list@);
    assert(first.len() == start);
    if start > 0 {
        sections.push((0, SUGGESTIONS));
        assert(render::headings(sections@) =~= seq![(0int, SUGGESTIONS@)]);
    }
    pad(plugins, &mut list);
    drop_hidden(&mut list, hidden);
    assert(plugin::rows(list@).len() == list@.len());
    if list.len() > start {
        let ghost before = render::headings(sections@);
        sections.push((start, COMMANDS));
        assert(render::headings(sections@) =~= before.push((start as int, COMMANDS@)));
    }
    cap(&mut list);
    (list, sections)
}

/// The rows of the hidden entries, so they can be restored.
fn fill_hidden(plugins: &Vec<Box<dyn Plugin>>, hidden: &Vec<String>) -> (out: Vec<ResultItem>)
    ensures
        plugin::rows(out@) == hidden_rows(
            plugins@,
            order::ranked(pieces::strings(hidden@), order::by_text()),
        ),
{
    let keys = order::sorted(hidden);
    let ghost s = pieces::strings(keys@);
    let mut out: Vec<ResultItem> = Vec::new();
    let mut i: usize = 0;
    assert(plugin::rows(out@) =~= hidden_rows(plugins@, s.take(0)));
    while i < keys.len()
        invariant
            i <= keys@.len(),
            s == pieces::strings(keys@),
            plugin::rows(out@) == hidden_rows(plugins@, s.take(i as int)),
        decreases keys@.len() - i,
    {
        let chars = chars_of(keys[i].as_str());
        let slash: usize = pieces::find(chars.as_slice(), '/');
        proof {
            assert(s.take(i + 1).drop_last() =~= s.take(i as int));
            assert(s.take(i + 1).last() == keys@[i as int]@);
        }
        if slash < chars.len() {
            let id = string_of(slice_of(chars.as_slice(), 0, slash).as_slice());
            let payload = string_of(
                slice_of(chars.as_slice(), slash + 1, chars.len()).as_slice(),
            );
            proof {
                assert(id@ =~= chars@.take(slash as int));
                assert(payload@ =~= chars@.skip(slash + 1));
            }
            match make_row(plugins, id.as_str(), payload.as_str()) {
                Some(item) => {
                    let ghost before = out@;
                    out.push(item);
                    assert(plugin::rows(out@) =~= plugin::rows(before).push(item@));
                },
                None => {},
            }
        }
        i += 1;
    }
    assert(s.take(s.len() as int) =~= s);
    out
}

/// The rows of the source folders, so they can be removed. Nothing owns them,
/// and Enter does nothing on them.
fn fill_sources(sources: &Vec<Source>, icon: &Option<Arc<Icon>>) -> (out: Vec<ResultItem>)
    ensures
        plugin::rows(out@) == places(sources@).map_values(
            |p: Place| source_row(p, plugin::shown(*icon)),
        ),
{
    let ghost want = places(sources@).map_values(
        |p: Place| source_row(p, plugin::shown(*icon)),
    );
    let mut out: Vec<ResultItem> = Vec::new();
    let mut i: usize = 0;
    assert(plugin::rows(out@) =~= want.take(0));
    while i < sources.len()
        invariant
            i <= sources@.len(),
            want == places(sources@).map_values(
                |p: Place| source_row(p, plugin::shown(*icon)),
            ),
            plugin::rows(out@) == want.take(i as int),
        decreases sources@.len() - i,
    {
        let item = ResultItem {
            plugin: SHELL,
            title: sources[i].name.clone(),
            badge: None,
            category: String::new(),
            subtitle: "Source folder".to_owned(),
            payload: sources[i].path.clone(),
            score: 0,
            icon: share_icon(icon),
        };
        proof {
            reveal_strlit("");
            assert(places(sources@)[i as int] == (Place {
                path: sources@[i as int].path@,
                name: sources@[i as int].name@,
            }));
            assert(item@ =~= want[i as int]);
            assert(want.take(i + 1) =~= want.take(i as int).push(want[i as int]));
        }
        let ghost before = out@;
        out.push(item);
        assert(plugin::rows(out@) =~= plugin::rows(before).push(item@));
        i += 1;
    }
    assert(want.take(want.len() as int) =~= want);
    out
}

/// One heading over a list, or none over an empty one.
fn head(list: &Vec<ResultItem>, heading: &'static str) -> (r: Vec<(usize, &'static str)>)
    ensures
        render::headings(r@) == under(plugin::rows(list@), heading@),
{
    let mut r: Vec<(usize, &'static str)> = Vec::new();
    if list.len() > 0 {
        r.push((0, heading));
    }
    assert(render::headings(r@) =~= under(plugin::rows(list@), heading@));
    r
}

impl App {
    /// Makes the list anew, from the top.
    fn refresh_results(&mut self, outside: &Outside)
        ensures
            final(self).state() == old(self).state().refreshed(old(self).plugins@, outside@),
            final(self).plugins == old(self).plugins,
            final(self).looks_like(*old(self)),
    {
        self.refresh_with(&outside.standing, outside);
    }

    /// The same, with another launch history.
    fn refresh_with(&mut self, standing: &Vec<Standing>, outside: &Outside)
        ensures
            final(self).state() == old(self).state().refreshed(
                old(self).plugins@,
                World { standing: ranks(standing@), ..outside@ },
            ),
            final(self).plugins == old(self).plugins,
            final(self).looks_like(*old(self)),
    {
        self.selected = 0;
        self.scroll = 0;
        if !self.query.is_empty() {
            self.listing = Listing::Normal;
        }
        match self.listing {
            Listing::Hidden => {
                self.results = fill_hidden(&self.plugins, &self.hidden);
                self.sections = head(&self.results, "Hidden");
            },
            Listing::Sources => {
                self.results = fill_sources(&outside.sources, &outside.folder_icon);
                self.sections = head(&self.results, "Source folders");
            },
            Listing::Normal => {
                if self.query.is_empty() {
                    let (results, sections) = fill_default(
                        &self.plugins,
                        &self.hidden,
                        standing,
                    );
                    self.results = results;
                    self.sections = sections;
                } else {
                    self.results = search(
                        &self.plugins,
                        self.query.text(),
                        &self.hidden,
                        standing,
                    );
                    self.sections = Vec::new();
                }
            },
        }
        proof {
            let want = old(self).state().refreshed(
                old(self).plugins@,
                World { standing: ranks(standing@), ..outside@ },
            );
            assert(self.state().results =~= want.results);
            assert(self.state().sections =~= want.sections);
            assert(self.state() =~= want);
        }
    }
}

/// `at` moved on by `by` places in a round of `n`.
fn step(at: usize, by: i32, n: usize) -> (r: usize)
    ensures
        r == stepped(at as int, by as int, n as int),
        n > 0 ==> r < n,
{
    if n == 0 {
        return at;
    }
    assert(at <= 0xFFFF_FFFF_FFFF_FFFF && n <= 0xFFFF_FFFF_FFFF_FFFF);
    let len: i128 = n as i128;
    // Rust's remainder takes the sign of the left side.
    let first: i128 = at as i128 % len;
    let by: i128 = by as i128;
    let back: i128 = if by >= 0 {
        by % len
    } else {
        (len - 1) - ((-(by + 1)) % len)
    };
    proof {
        lemma_step(at as int, by as int, n as int);
    }
    ((first + back) % len) as usize
}

proof fn lemma_step(at: int, by: int, n: int)
    requires
        0 <= at,
        0 < n,
    ensures
        0 <= at % n < n,
        by >= 0 ==> 0 <= by % n < n && ((at % n) + (by % n)) % n == (at + by) % n,
        by < 0 ==> 0 <= (-(by + 1)) % n < n && ((at % n) + ((n - 1) - ((-(by + 1)) % n))) % n == (
        at + by) % n,
        0 <= (at + by) % n < n,
{
    vstd::arithmetic::div_mod::lemma_mod_bound(at, n);
    vstd::arithmetic::div_mod::lemma_mod_bound(by, n);
    vstd::arithmetic::div_mod::lemma_mod_bound(-(by + 1), n);
    vstd::arithmetic::div_mod::lemma_mod_bound(at + by, n);
    vstd::arithmetic::div_mod::lemma_add_mod_noop(at, by, n);
    if by < 0 {
        let m = -(by + 1);
        let back = (n - 1) - m % n;
        vstd::arithmetic::div_mod::lemma_fundamental_div_mod(m, n);
        let q = m / n;
        assert(back == n * (q + 1) + by) by (nonlinear_arith)
            requires
                m == n * q + m % n,
                back == (n - 1) - m % n,
                m == -(by + 1),
        ;
        vstd::arithmetic::div_mod::lemma_mod_multiples_vanish(q + 1, by, n);
        assert(back % n == by % n);
        vstd::arithmetic::div_mod::lemma_add_mod_noop(at, back, n);
        assert(back % n == back) by {
            vstd::arithmetic::div_mod::lemma_small_mod(back as nat, n as nat);
        }
    }
}

impl App {
    /// A launcher that shows nothing yet.
    pub fn new(plugins: Vec<Box<dyn Plugin>>, config: &Config) -> (a: App)
        ensures
            a.plugins == plugins,
            a.state() == State::initial(config::values_in(config@, HIDDEN@)),
            !a.translucent,
            a.dark,
            a.caret_visible,
            a.animate == config::flag_of(config@, "appearance"@, "animation"@, false),
            a.forced_dark == theme_of(config@),
    {
        let forced_dark = match config.get("appearance", "theme") {
            Some(t) => if eq_ignore_ascii_case(t, "dark") {
                Some(true)
            } else if eq_ignore_ascii_case(t, "light") {
                Some(false)
            } else {
                None
            },
            None => None,
        };
        let a = App {
            mode: Mode::Search,
            translucent: false,
            animate: config.flag("appearance", "animation", false),
            forced_dark,
            dark: true,
            query: TextField::default(),
            caret_visible: true,
            plugins,
            results: Vec::new(),
            selected: 0,
            sections: Vec::new(),
            scroll: 0,
            hidden: tell_apart(config.list_values(HIDDEN)),
            listing: Listing::Normal,
        };
        assert(a.state().results =~= Seq::empty());
        assert(a.state().sections =~= Seq::empty());
        a
    }

    /// Makes the default list anew just before the window appears. At startup
    /// the application index is still being loaded.
    pub fn refresh_on_show(&mut self, outside: &Outside)
        ensures
            final(self).state() == old(self).state().appearing(old(self).plugins@, outside@),
            final(self).plugins == old(self).plugins,
            final(self).looks_like(*old(self)),
    {
        if self.query.is_empty() {
            self.refresh_results(outside);
        }
    }

    /// Gets ready to be shown: the caret showing, the colours those that the
    /// configuration asks for, or else the system (`light`), and the default
    /// list made anew.
    pub fn summoned(&mut self, light: bool, outside: &Outside)
        ensures
            final(self).state() == old(self).state().appearing(old(self).plugins@, outside@),
            final(self).plugins == old(self).plugins,
            final(self).caret_visible,
            final(self).dark == darkness(old(self).forced_dark, light),
            final(self).forced_dark == old(self).forced_dark,
            final(self).translucent == old(self).translucent,
            final(self).animate == old(self).animate,
    {
        self.caret_visible = true;
        self.dark = match self.forced_dark {
            Some(dark) => dark,
            None => !light,
        };
        self.refresh_on_show(outside);
    }

    /// Applies an edit to the field the keyboard writes to. Returns whether
    /// its text changed; a changed query is looked up here.
    pub fn edit(&mut self, edit: Edit, outside: &Outside) -> (changed: bool)
        ensures
            (final(self).state(), changed) == old(self).state().edited(
                edit,
                old(self).plugins@,
                outside@,
            ),
            final(self).plugins == old(self).plugins,
            final(self).looks_like(*old(self)),
    {
        match &mut self.mode {
            Mode::Search => {
                let changed = self.query.apply(edit);
                if changed {
                    self.refresh_results(outside);
                }
                changed
            },
            Mode::TextInput { buffer, .. } => buffer.apply(edit),
            Mode::Form { fields, focused, .. } => {
                if *focused < fields.len() {
                    fields[*focused].value.apply(edit)
                } else {
                    false
                }
            },
            Mode::Actions { .. } => false,
        }
    }

    /// The text selected in the field the keyboard writes to.
    pub fn selected_text(&self) -> (r: Option<String>)
        ensures
            plugin::worded(r) == self.state().selection(),
    {
        let chosen = match &self.mode {
            Mode::Search => self.query.selected_text(),
            Mode::TextInput { buffer, .. } => buffer.selected_text(),
            Mode::Form { fields, focused, .. } => {
                if *focused < fields.len() {
                    fields[*focused].value.selected_text()
                } else {
                    None
                }
            },
            Mode::Actions { .. } => None,
        };
        match chosen {
            Some(t) => Some(t.to_owned()),
            None => None,
        }
    }

    /// Removes and returns that text.
    pub fn cut(&mut self, outside: &Outside) -> (r: Option<String>)
        ensures
            plugin::worded(r) == old(self).state().selection(),
            final(self).state() == old(self).state().cut(old(self).plugins@, outside@),
            final(self).plugins == old(self).plugins,
            final(self).looks_like(*old(self)),
    {
        match &mut self.mode {
            Mode::Search => {
                let r = self.query.cut();
                if r.is_some() {
                    self.refresh_results(outside);
                }
                r
            },
            Mode::TextInput { buffer, .. } => buffer.cut(),
            Mode::Form { fields, focused, .. } => {
                if *focused < fields.len() {
                    fields[*focused].value.cut()
                } else {
                    None
                }
            },
            Mode::Actions { .. } => None,
        }
    }

    /// Puts the caret of the query at a byte offset, as a click does.
    pub fn place_caret(&mut self, pos: usize, select: bool)
        ensures
            editor::placed_at(
                old(self).state().query,
                final(self).state().query,
                pos as int,
                select,
            ),
            final(self).state() == (State {
                query: final(self).state().query,
                ..old(self).state()
            }),
            final(self).plugins == old(self).plugins,
            final(self).looks_like(*old(self)),
    {
        self.query.set_caret(pos, select);
    }

    /// Back to searching, with nothing typed.
    pub fn clear_query(&mut self, outside: &Outside)
        ensures
            final(self).state() == (State {
                mode: Screen::Search,
                ..old(self).state()
            }).cleared(old(self).plugins@, outside@),
            final(self).plugins == old(self).plugins,
            final(self).looks_like(*old(self)),
    {
        self.mode = Mode::Search;
        self.query.clear();
        self.refresh_results(outside);
    }

    /// Opens the actions panel for the selected row; there is none without a
    /// row.
    pub fn open_actions(&mut self) -> (opened: bool)
        ensures
            opened == (old(self).state().chosen() is Some),
            final(self).state() == old(self).state().panelled(old(self).plugins@),
            final(self).plugins == old(self).plugins,
            final(self).looks_like(*old(self)),
    {
        if self.selected >= self.results.len() {
            return false;
        }
        let item = &self.results[self.selected];
        let k: usize = find_plugin(&self.plugins, item.plugin);
        let mut actions: Vec<Action> = if k < self.plugins.len() {
            self.plugins[k].actions(item)
        } else {
            Vec::new()
        };
        let ghost before = actions@;
        let more = match self.listing {
            Listing::Hidden => Action { id: ACTION_UNHIDE, label: "Unhide".to_owned() },
            Listing::Sources => Action {
                id: ACTION_REMOVE_SOURCE,
                label: "Remove Source Folder".to_owned(),
            },
            Listing::Normal => Action { id: ACTION_HIDE, label: "Hide from Apex".to_owned() },
        };
        actions.push(more);
        proof {
            assert(plugin::rows(self.results@)[self.selected as int] == item@);
            assert(plugin::offers(actions@) =~= plugin::offers(before).push(more@));
            if k == self.plugins@.len() {
                assert(plugin::offers(before) =~= Seq::empty());
            }
        }
        self.mode = Mode::Actions { actions, selected: 0 };
        true
    }

    /// Back to searching.
    pub fn close_panel(&mut self)
        ensures
            final(self).state() == (State { mode: Screen::Search, ..old(self).state() }),
            final(self).plugins == old(self).plugins,
            final(self).looks_like(*old(self)),
    {
        self.mode = Mode::Search;
    }

    /// Moves through the actions panel, round and round.
    pub fn panel_move(&mut self, delta: i32)
        ensures
            final(self).state() == old(self).state().panel_moved(delta as int),
            final(self).plugins == old(self).plugins,
            final(self).looks_like(*old(self)),
    {
        match &mut self.mode {
            Mode::Actions { actions, selected } => {
                *selected = step(*selected, delta, actions.len());
            },
            _ => {},
        }
    }

    /// Moves the focus through the lines of a form, round and round.
    pub fn form_move(&mut self, delta: i32)
        ensures
            final(self).state() == old(self).state().focus_moved(delta as int),
            final(self).plugins == old(self).plugins,
            final(self).looks_like(*old(self)),
    {
        match &mut self.mode {
            Mode::Form { fields, focused, .. } => {
                *focused = step(*focused, delta, fields.len());
            },
            _ => {},
        }
    }

    /// Lists the hidden entries.
    pub fn show_hidden(&mut self, outside: &Outside)
        ensures
            final(self).state() == (State {
                listing: Listing::Hidden,
                ..old(self).state()
            }).cleared(old(self).plugins@, outside@),
            final(self).plugins == old(self).plugins,
            final(self).looks_like(*old(self)),
    {
        self.listing = Listing::Hidden;
        self.query.clear();
        self.refresh_results(outside);
    }

    /// Lists the source folders.
    pub fn show_sources(&mut self, outside: &Outside)
        ensures
            final(self).state() == (State {
                listing: Listing::Sources,
                ..old(self).state()
            }).cleared(old(self).plugins@, outside@),
            final(self).plugins == old(self).plugins,
            final(self).looks_like(*old(self)),
    {
        self.listing = Listing::Sources;
        self.query.clear();
        self.refresh_results(outside);
    }

    /// Runs the query again, the selection staying where it can.
    fn requery(&mut self, outside: &Outside)
        ensures
            final(self).state() == old(self).state().requeried(old(self).plugins@, outside@),
            final(self).plugins == old(self).plugins,
            final(self).looks_like(*old(self)),
    {
        let keep: usize = self.selected;
        self.refresh_results(outside);
        assert(self.state().results.len() == self.results@.len());
        let last: usize = if self.results.len() > 0 {
            self.results.len() - 1
        } else {
            0
        };
        self.selected = if keep < last {
            keep
        } else {
            last
        };
    }

    // ---- scrolling and pointing -----------------------------------------------------------

    /// How far the list can be scrolled, in tenths.
    fn max_scroll(&self) -> (r: i64)
        ensures
            r == self.state().limit(),
            r >= 0,
    {
        let (rows, headers) = (self.results.len(), self.sections.len());
        assert(self.state().results.len() == rows && self.state().sections.len() == headers);
        assert(rows <= 0xFFFF_FFFF_FFFF_FFFF && headers <= 0xFFFF_FFFF_FFFF_FFFF);
        let over: i128 = render::list_content_height(rows, headers)
            - render::list_viewport_height(rows, headers);
        if over <= 0 {
            0
        } else if over * 10 < i64::MAX as i128 {
            (over * 10) as i64
        } else {
            i64::MAX
        }
    }

    /// Scrolls to `at` tenths, or as near to it as the list goes.
    fn scroll_to(&mut self, at: i128)
        ensures
            final(self).state() == old(self).state().scrolled_to(at as int),
            final(self).plugins == old(self).plugins,
            final(self).looks_like(*old(self)),
    {
        let limit: i64 = self.max_scroll();
        self.scroll = if at < 0 {
            0
        } else if at > limit as i128 {
            limit
        } else {
            at as i64
        };
    }

    /// Whether a section starts with the selected row.
    fn heads_section(&self) -> (r: bool)
        ensures
            r == self.state().starts_section(self.selected as int),
    {
        let mut k: usize = 0;
        while k < self.sections.len()
            invariant
                k <= self.sections@.len(),
                forall|j: int|
                    0 <= j < k ==> (#[trigger] self.state().sections[j]).0 != self.selected,
            decreases self.sections@.len() - k,
        {
            assert(self.state().sections[k as int].0 == self.sections@[k as int].0);
            if self.sections[k].0 == self.selected {
                return true;
            }
            k += 1;
        }
        false
    }

    /// Scrolls so that the selected row is all in sight.
    fn ensure_visible(&mut self)
        ensures
            final(self).state() == old(self).state().followed(),
            final(self).plugins == old(self).plugins,
            final(self).looks_like(*old(self)),
    {
        let view: i128 = render::list_viewport_height(self.results.len(), self.sections.len()) * 10;
        let row: i128 = render::row_offset(&self.sections, self.selected) * 10;
        let bottom: i128 = row + render::ROW_H * 10;
        let top: i128 = if self.heads_section() {
            row - render::HEADER_H * 10
        } else {
            row
        };
        let scroll: i128 = self.scroll as i128;
        if top < scroll {
            self.scroll_to(top);
        } else if bottom > scroll + view {
            self.scroll_to(bottom - view);
        } else {
            self.scroll_to(scroll);
        }
    }

    /// Moves the selection, round and round, scrolling along.
    pub fn move_selection(&mut self, delta: i32)
        ensures
            final(self).state() == old(self).state().moved(delta as int),
            final(self).plugins == old(self).plugins,
            final(self).looks_like(*old(self)),
    {
        assert(self.state().results.len() == self.results@.len());
        if self.results.len() == 0 {
            self.selected = 0;
            return;
        }
        self.selected = step(self.selected, delta, self.results.len());
        self.ensure_visible();
    }

    /// Scrolls back by `delta` tenths, as a wheel does. Returns whether
    /// anything moved.
    pub fn scroll_by(&mut self, delta: i64) -> (moved: bool)
        ensures
            final(self).state() == old(self).state().wheeled(delta as int),
            moved == (final(self).state().scroll != old(self).state().scroll),
            final(self).plugins == old(self).plugins,
            final(self).looks_like(*old(self)),
    {
        let before: i64 = self.scroll;
        self.scroll_to(before as i128 - delta as i128);
        self.scroll != before
    }

    /// The row under a point `y` pixels down the window, at `dpi` pixels to
    /// the inch.
    pub fn row_at(&self, y: i32, dpi: u32) -> (r: Option<usize>)
        ensures
            match r {
                Some(i) => self.state().lies_under(i as int, y as int, dpi as int),
                None => forall|i: int| !self.state().lies_under(i, y as int, dpi as int),
            },
    {
        let per: i128 = dpi as i128;
        let down: i128 = y as i128 * 960 - render::LIST_TOP * 10 * per;
        let view: i128 = render::list_viewport_height(self.results.len(), self.sections.len()) * 10
            * per;
        if down < 0 || down > view {
            return None;
        }
        assert(-0x1_0000_0000_0000_0000_0000_0000 <= self.scroll * per
            <= 0x1_0000_0000_0000_0000_0000_0000) by (nonlinear_arith)
            requires
                0 <= per <= 0xFFFF_FFFF,
                i64::MIN <= self.scroll <= i64::MAX,
        ;
        let at: i128 = down + self.scroll as i128 * per;
        let mut i: usize = 0;
        assert(self.state().results.len() == self.results@.len());
        while i < self.results.len()
            invariant
                i <= self.results@.len() == self.state().results.len(),
                per == dpi,
                down == y * 960 - render::LIST_TOP * 10 * per,
                at == down + self.scroll * per,
                0 <= down <= render::LIST_VIEWPORT_H * 10 * per,
                forall|j: int| 0 <= j < i ==> !self.state().lies_under(j, y as int, dpi as int),
            decreases self.results@.len() - i,
        {
            let offset: i128 = render::row_offset(&self.sections, i);
            assert(0 <= offset * 10 * per <= 0x2000_0000_0000_0000_0000 * 10 * 0xFFFF_FFFF)
                by (nonlinear_arith)
                requires
                    0 <= per <= 0xFFFF_FFFF,
                    0 <= offset <= 0x2000_0000_0000_0000_0000,
            ;
            assert(0 <= render::ROW_H * 10 * per <= 440 * 0xFFFF_FFFF) by (nonlinear_arith)
                requires
                    0 <= per <= 0xFFFF_FFFF,
                    render::ROW_H == 44,
            ;
            let top: i128 = offset * 10 * per;
            if top <= at && at < top + render::ROW_H * 10 * per {
                return Some(i);
            }
            i += 1;
        }
        None
    }

    /// Selects a row, as a hover does. Returns whether the selection moved.
    pub fn select(&mut self, index: usize) -> (moved: bool)
        ensures
            moved == (index < old(self).state().results.len() && index
                != old(self).state().selected),
            final(self).state() == old(self).state().pointed_at(index as int),
            final(self).plugins == old(self).plugins,
            final(self).looks_like(*old(self)),
    {
        assert(self.state().results.len() == self.results@.len());
        if index >= self.results.len() || index == self.selected {
            return false;
        }
        self.selected = index;
        true
    }

    /// Height of the window's content. The window grows for a form that is
    /// taller than the list.
    pub fn content_height(&self) -> (r: i128)
        ensures
            r == self.state().height(),
    {
        let base: i128 = render::content_height(self.results.len(), self.sections.len());
        match &self.mode {
            Mode::Form { fields, .. } => {
                assert(form_lines(fields@).len() == fields@.len());
                let form: i128 = render::form_window_height(fields.len());
                if base < form {
                    form
                } else {
                    base
                }
            },
            _ => base,
        }
    }

    // ---- actions --------------------------------------------------------------------------

    /// The Enter key on the selected row.
    pub fn activate_selected(&self) -> (r: Reply)
        ensures
            r@ == self.state().activation(self.plugins@),
    {
        assert(self.state().results.len() == self.results@.len());
        if self.selected >= self.results.len() {
            return Reply::just(ActionResult::Done);
        }
        let item = &self.results[self.selected];
        assert(self.state().results[self.selected as int] == item@);
        let k: usize = find_plugin(&self.plugins, item.plugin);
        if k < self.plugins.len() {
            self.plugins[k].activate(item)
        } else {
            Reply::just(ActionResult::Done)
        }
    }

    /// Hides the selected entry, or restores it. The reply has the change kept
    /// on disk.
    fn set_hidden(&mut self, hide: bool) -> (r: Option<Reply>)
        ensures
            match old(self).state().chosen() {
                Some(row) => {
                    let s = old(self).state().with_hidden(
                        key_of(row.plugin, row.payload),
                        hide,
                    );
                    &&& final(self).state() == s
                    &&& said(r) == Some(
                        Answer::after(
                            listing_change(HIDDEN@, order::ranked(s.hidden, order::by_text())),
                            Outcome::Done,
                        ),
                    )
                },
                None => final(self).state() == old(self).state() && r is None,
            },
            final(self).plugins == old(self).plugins,
            final(self).looks_like(*old(self)),
    {
        assert(self.state().results.len() == self.results@.len());
        if self.selected >= self.results.len() {
            return None;
        }
        let item = &self.results[self.selected];
        assert(self.state().results[self.selected as int] == item@);
        let k = key(item.plugin, item.payload.as_str());
        let ghost before = pieces::strings(self.hidden@);
        if hide {
            if !holds_string(&self.hidden, k.as_str()) {
                self.hidden.push(k);
                assert(pieces::strings(self.hidden@) =~= before.push(k@));
            }
        } else {
            self.hidden = all_but(&self.hidden, k.as_str());
        }
        let values = order::sorted(&self.hidden);
        Some(
            Reply::after(
                Effect::Rewrite(Change::SetList { section: HIDDEN.to_owned(), values }),
                ActionResult::Done,
            ),
        )
    }

    /// Stops looking into the selected source folder. The reply has the change
    /// kept on disk and everything reloaded, or the folder's entries would
    /// linger.
    fn remove_source(&self, outside: &Outside) -> (r: Option<Reply>)
        ensures
            said(r) == match self.state().chosen() {
                Some(row) => Some(
                    Answer {
                        reload: true,
                        ..Answer::after(
                            listing_change(SOURCES@, paths_without(outside@.sources, row.payload)),
                            Outcome::Done,
                        )
                    },
                ),
                None => None,
            },
    {
        assert(self.state().results.len() == self.results@.len());
        if self.selected >= self.results.len() {
            return None;
        }
        let item = &self.results[self.selected];
        assert(self.state().results[self.selected as int] == item@);
        let values = sources_but(&outside.sources, item.payload.as_str());
        Some(
            Reply {
                effect: Effect::Rewrite(
                    Change::SetList { section: SOURCES.to_owned(), values },
                ),
                result: ActionResult::Done,
                stay_on_failure: false,
                reload: true,
            },
        )
    }

    /// Runs the highlighted action of the panel; nothing happens when there is
    /// none.
    pub fn run_panel_action(&mut self, outside: &Outside) -> (r: Option<Reply>)
        ensures
            said(r) == old(self).state().action(old(self).plugins@, outside@),
            final(self).state() == old(self).state().acted(),
            final(self).looks_like(*old(self)),
            match (old(self).state().highlighted(), old(self).state().chosen()) {
                (Some(id), Some(row)) => if is_shell_action(id) {
                    final(self).plugins == old(self).plugins
                } else {
                    dealt_with(
                        final(self).plugins@,
                        old(self).plugins@,
                        row,
                        old(self).plugins@[plugin_at(old(self).plugins@, row.plugin)].acted(id, row),
                    )
                },
                _ => final(self).plugins == old(self).plugins,
            },
    {
        let id: &'static str = match &self.mode {
            Mode::Actions { actions, selected } => {
                assert(plugin::offers(actions@).len() == actions@.len());
                if *selected < actions.len() {
                    assert(plugin::offers(actions@)[*selected as int] == actions@[*selected as int]@);
                    actions[*selected].id
                } else {
                    return None;
                }
            },
            _ => {
                return None;
            },
        };
        assert(self.state().highlighted() == Some(id@));
        if same(id, ACTION_HIDE) {
            return self.set_hidden(true);
        }
        if same(id, ACTION_UNHIDE) {
            proof {
                reveal_strlit("__hide");
                reveal_strlit("__unhide");
                assert(ACTION_HIDE@.len() != ACTION_UNHIDE@.len());
            }
            return self.set_hidden(false);
        }
        if same(id, ACTION_REMOVE_SOURCE) {
            return self.remove_source(outside);
        }
        assert(self.state().results.len() == self.results@.len());
        if self.selected >= self.results.len() {
            return Some(Reply::just(ActionResult::Done));
        }
        let item = &self.results[self.selected];
        assert(self.state().results[self.selected as int] == item@);
        let k: usize = find_plugin(&self.plugins, item.plugin);
        if k < self.plugins.len() {
            Some(self.plugins[k].run_action(id, item))
        } else {
            Some(Reply::just(ActionResult::Done))
        }
    }

    /// Hands the text that was asked for to the action that wants it.
    pub fn submit_text_input(&mut self) -> (r: Option<Reply>)
        ensures
            said(r) == old(self).state().text_answer(old(self).plugins@),
            final(self).state() == old(self).state(),
            final(self).looks_like(*old(self)),
            match (old(self).state().mode, old(self).state().chosen()) {
                (Screen::TextInput { action_id, buffer, .. }, Some(row)) => dealt_with(
                    final(self).plugins@,
                    old(self).plugins@,
                    row,
                    old(self).plugins@[plugin_at(old(self).plugins@, row.plugin)].told(
                        action_id,
                        row,
                        text::trimmed(buffer.text),
                    ),
                ),
                _ => final(self).plugins == old(self).plugins,
            },
    {
        let (id, given): (&'static str, String) = match &self.mode {
            Mode::TextInput { action_id, buffer, .. } => (*action_id, trim_str(buffer.text())),
            _ => {
                return None;
            },
        };
        assert(self.state().results.len() == self.results@.len());
        if self.selected >= self.results.len() {
            return Some(Reply::just(ActionResult::Done));
        }
        let item = &self.results[self.selected];
        assert(self.state().results[self.selected as int] == item@);
        let k: usize = find_plugin(&self.plugins, item.plugin);
        if k < self.plugins.len() {
            Some(self.plugins[k].submit_text(id, item, given.as_str()))
        } else {
            Some(Reply::just(ActionResult::Done))
        }
    }

    /// The path whose being a folder decides how the form is taken.
    pub fn form_path(&self) -> (r: Option<String>)
        ensures
            plugin::worded(r) == self.state().form_wants(self.plugins@),
    {
        match &self.mode {
            Mode::Form { action_id, fields, .. } => {
                let given = hand_in(fields);
                assert(self.state().results.len() == self.results@.len());
                if self.selected >= self.results.len() {
                    return None;
                }
                let item = &self.results[self.selected];
                assert(self.state().results[self.selected as int] == item@);
                let k: usize = find_plugin(&self.plugins, item.plugin);
                if k < self.plugins.len() {
                    self.plugins[k].form_path(action_id, &given)
                } else {
                    None
                }
            },
            _ => None,
        }
    }

    /// Hands the form that was asked for to the action that wants it; `folder`
    /// says whether the path it names is a folder.
    pub fn submit_form(&mut self, folder: bool) -> (r: Option<Reply>)
        ensures
            said(r) == old(self).state().form_answer(old(self).plugins@, folder),
            final(self).state() == old(self).state(),
            final(self).looks_like(*old(self)),
            match (old(self).state().mode, old(self).state().chosen()) {
                (Screen::Form { action_id, fields, .. }, Some(row)) => dealt_with(
                    final(self).plugins@,
                    old(self).plugins@,
                    row,
                    old(self).plugins@[plugin_at(old(self).plugins@, row.plugin)].formed(
                        action_id,
                        row,
                        form_given(fields),
                        folder,
                    ),
                ),
                _ => final(self).plugins == old(self).plugins,
            },
    {
        let (id, given): (&'static str, Vec<FormField>) = match &self.mode {
            Mode::Form { action_id, fields, .. } => (*action_id, hand_in(fields)),
            _ => {
                return None;
            },
        };
        assert(self.state().results.len() == self.results@.len());
        if self.selected >= self.results.len() {
            return Some(Reply::just(ActionResult::Done));
        }
        let item = &self.results[self.selected];
        assert(self.state().results[self.selected as int] == item@);
        let k: usize = find_plugin(&self.plugins, item.plugin);
        if k < self.plugins.len() {
            Some(self.plugins[k].submit_form(id, item, &given, folder))
        } else {
            Some(Reply::just(ActionResult::Done))
        }
    }
}

/// The texts but `k`.
fn all_but(v: &Vec<String>, k: &str) -> (out: Vec<String>)
    ensures
        pieces::strings(out@) == without_text(pieces::strings(v@), k@),
{
    let ghost s = pieces::strings(v@);
    let mut out: Vec<String> = Vec::new();
    let mut i: usize = 0;
    assert(pieces::strings(out@) =~= without_text(s.take(0), k@));
    while i < v.len()
        invariant
            i <= v@.len(),
            s == pieces::strings(v@),
            pieces::strings(out@) == without_text(s.take(i as int), k@),
        decreases v@.len() - i,
    {
        proof {
            assert(s.take(i + 1).drop_last() =~= s.take(i as int));
            assert(s.take(i + 1).last() == v@[i as int]@);
        }
        if !same(v[i].as_str(), k) {
            let ghost before = pieces::strings(out@);
            let t = v[i].clone();
            out.push(t);
            assert(pieces::strings(out@) =~= before.push(t@));
        }
        i += 1;
    }
    assert(s.take(s.len() as int) =~= s);
    out
}

/// The paths but those that are `path`, ASCII case aside.
fn sources_but(v: &Vec<Source>, path: &str) -> (out: Vec<String>)
    ensures
        pieces::strings(out@) == paths_without(places(v@), path@),
{
    let ghost s = places(v@);
    let mut out: Vec<String> = Vec::new();
    let mut i: usize = 0;
    assert(pieces::strings(out@) =~= paths_without(s.take(0), path@));
    while i < v.len()
        invariant
            i <= v@.len(),
            s == places(v@),
            pieces::strings(out@) == paths_without(s.take(i as int), path@),
        decreases v@.len() - i,
    {
        proof {
            assert(s.take(i + 1).drop_last() =~= s.take(i as int));
            assert(s.take(i + 1).last().path == v@[i as int].path@);
        }
        if !eq_ignore_ascii_case(v[i].path.as_str(), path) {
            let ghost before = pieces::strings(out@);
            let t = v[i].path.clone();
            out.push(t);
            assert(pieces::strings(out@) =~= before.push(t@));
        }
        i += 1;
    }
    assert(s.take(s.len() as int) =~= s);
    out
}

/// A form as it is handed in: every value trimmed.
fn hand_in(fields: &Vec<FormEntry>) -> (out: Vec<FormField>)
    ensures
        plugin::filled(out@) == form_given(form_lines(fields@)),
{
    let ghost want = form_given(form_lines(fields@));
    let mut out: Vec<FormField> = Vec::new();
    let mut i: usize = 0;
    assert(plugin::filled(out@) =~= want.take(0));
    while i < fields.len()
        invariant
            i <= fields@.len(),
            want == form_given(form_lines(fields@)),
            plugin::filled(out@) == want.take(i as int),
        decreases fields@.len() - i,
    {
        let value = trim_str(fields[i].value.text());
        let f = FormField::new(fields[i].label.as_str(), value.as_str());
        proof {
            assert(form_lines(fields@)[i as int].label == fields@[i as int].label@);
            assert(want[i as int] == f@);
            assert(want.take(i + 1) =~= want.take(i as int).push(want[i as int]));
        }
        let ghost before = out@;
        out.push(f);
        assert(plugin::filled(out@) =~= plugin::filled(before).push(f@));
        i += 1;
    }
    assert(want.take(want.len() as int) =~= want);
    out
}

/// An entry that was launched.
pub struct Launched {
    pub plugin: &'static str,
    pub payload: String,
}

/// What is left to be done after an action.
pub struct Settled {
    /// What the window does.
    pub outcome: UiOutcome,
    /// What to remember as launched.
    pub launched: Option<Launched>,
    /// Whether the launch history is to be cleared.
    pub forget: bool,
}

/// What an entry that was launched goes by.
pub open spec fn launch_of(l: Option<Launched>) -> Option<(Seq<char>, Seq<char>)> {
    match l {
        Some(l) => Some((l.plugin@, l.payload@)),
        None => None,
    }
}

/// What there is to remember after an action with the result `o`: only what
/// was launched is.
pub open spec fn remembered(o: Outcome, chosen: Option<Row>) -> Option<(Seq<char>, Seq<char>)> {
    match (o, chosen) {
        (Outcome::Close, Some(row)) => Some((row.plugin, row.payload)),
        _ => None,
    }
}

/// Whether an action with the result `o` ends in the launch history being
/// cleared.
pub open spec fn forgets(o: Outcome) -> bool {
    o == Outcome::Shell(ShellCommand::ClearHistory)
}

/// Whether every plugin is reloaded from disk after an answer, its effect done
/// or failed.
pub open spec fn reloads(a: Answer, ok: bool) -> bool {
    a.reload || a.outcome(ok) is Refresh
}

/// A form as it opens.
fn open_form(fields: Vec<FormField>) -> (out: Vec<FormEntry>)
    ensures
        form_lines(out@) == form_from(plugin::filled(fields@)),
{
    let ghost want = form_from(plugin::filled(fields@));
    let mut out: Vec<FormEntry> = Vec::new();
    let mut i: usize = 0;
    assert(form_lines(out@) =~= want.take(0));
    while i < fields.len()
        invariant
            i <= fields@.len(),
            want == form_from(plugin::filled(fields@)),
            form_lines(out@) == want.take(i as int),
        decreases fields@.len() - i,
    {
        let entry = FormEntry {
            label: fields[i].label.clone(),
            value: TextField::new(fields[i].value.as_str()),
        };
        proof {
            assert(plugin::filled(fields@)[i as int] == fields@[i as int]@);
            assert(want.take(i + 1) =~= want.take(i as int).push(want[i as int]));
        }
        let ghost before = out@;
        out.push(entry);
        assert(form_lines(out@) =~= form_lines(before).push(
            FormLine { label: entry.label@, value: entry.value@ },
        ));
        i += 1;
    }
    assert(want.take(want.len() as int) =~= want);
    out
}

impl App {
    /// Carries on after an action, its effect done or failed (`ok`), with the
    /// outside as it now is.
    pub fn apply(&mut self, reply: Reply, ok: bool, outside: &Outside) -> (r: Settled)
        ensures
            ({
                let o = reply@.outcome(ok);
                &&& final(self).state() == old(self).state().after(
                    o,
                    final(self).plugins@,
                    outside@,
                    config::values_in(outside.disk.config@, HIDDEN@),
                )
                &&& r.outcome == shown_after(o)
                &&& launch_of(r.launched) == remembered(o, old(self).state().chosen())
                &&& r.forget == forgets(o)
                &&& if reloads(reply@, ok) {
                    all_reloaded(final(self).plugins@, old(self).plugins@, outside.disk)
                } else {
                    final(self).plugins == old(self).plugins
                }
            }),
            final(self).looks_like(*old(self)),
    {
        let ghost o = reply@.outcome(ok);
        let again = reply.reload;
        let result = reply.outcome(ok);
        if again || matches!(result, ActionResult::Refresh) {
            self.reload_plugins(&outside.disk);
        }
        let mut launched: Option<Launched> = None;
        let mut forget = false;
        let outcome = match result {
            ActionResult::Done => {
                self.mode = Mode::Search;
                self.requery(outside);
                UiOutcome::Stay
            },
            ActionResult::Close => {
                self.mode = Mode::Search;
                assert(self.state().results.len() == self.results@.len());
                if self.selected < self.results.len() {
                    let item = &self.results[self.selected];
                    assert(self.state().results[self.selected as int] == item@);
                    launched =
                    Some(Launched { plugin: item.plugin, payload: item.payload.clone() });
                }
                UiOutcome::Hide
            },
            ActionResult::Dismiss => {
                self.mode = Mode::Search;
                UiOutcome::Hide
            },
            ActionResult::Shell(c) => {
                self.mode = Mode::Search;
                match c {
                    ShellCommand::ClearHistory => {
                        forget = true;
                        self.forget_history(outside);
                        UiOutcome::Stay
                    },
                    ShellCommand::ShowHidden => {
                        self.show_hidden(outside);
                        UiOutcome::Stay
                    },
                    ShellCommand::ShowSources => {
                        self.show_sources(outside);
                        UiOutcome::Stay
                    },
                    _ => UiOutcome::Shell(c),
                }
            },
            ActionResult::Refresh => {
                self.mode = Mode::Search;
                self.hidden = tell_apart(outside.disk.config.list_values(HIDDEN));
                self.listing = Listing::Normal;
                self.query.clear();
                self.refresh_results(outside);
                UiOutcome::Stay
            },
            ActionResult::RequestText { prompt, action_id } => {
                self.mode = Mode::TextInput { prompt, action_id, buffer: TextField::default() };
                UiOutcome::Stay
            },
            ActionResult::RequestForm { title, action_id, fields } => {
                self.mode = Mode::Form { title, action_id, fields: open_form(fields), focused: 0 };
                UiOutcome::Stay
            },
        };
        Settled { outcome, launched, forget }
    }

    /// Shows the list as it is without a launch history.
    fn forget_history(&mut self, outside: &Outside)
        ensures
            final(self).state() == old(self).state().cleared(
                old(self).plugins@,
                World { standing: Seq::empty(), ..outside@ },
            ),
            final(self).plugins == old(self).plugins,
            final(self).looks_like(*old(self)),
    {
        let none: Vec<Standing> = Vec::new();
        assert(ranks(none@) =~= Seq::empty());
        self.query.clear();
        self.refresh_with(&none, outside);
    }

    /// Reloads every plugin from disk.
    pub fn reload_plugins(&mut self, disk: &Disk)
        ensures
            all_reloaded(final(self).plugins@, old(self).plugins@, *disk),
            final(self).state() == old(self).state(),
            final(self).looks_like(*old(self)),
    {
        let ghost before = *self;
        let mut i: usize = 0;
        while i < self.plugins.len()
            invariant
                i <= self.plugins@.len(),
                same_names(self.plugins@, before.plugins@),
                forall|k: int|
                    0 <= k < i ==> (#[trigger] self.plugins@[k]).memory()
                        == before.plugins@[k].reloaded(*disk),
                forall|k: int|
                    i <= k < self.plugins@.len() ==> #[trigger] self.plugins@[k]
                        == before.plugins@[k],
                self.state() == before.state(),
                self.looks_like(before),
            decreases self.plugins@.len() - i,
        {
            self.plugins[i].refresh(disk);
            i += 1;
        }
    }

    /// Hands a new application index to every plugin.
    pub fn index_arrived(&mut self, index: &AppIndex)
        ensures
            all_indexed(final(self).plugins@, old(self).plugins@, index@),
            final(self).state() == old(self).state(),
            final(self).looks_like(*old(self)),
    {
        let ghost before = *self;
        let mut i: usize = 0;
        while i < self.plugins.len()
            invariant
                i <= self.plugins@.len(),
                same_names(self.plugins@, before.plugins@),
                forall|k: int|
                    0 <= k < i ==> (#[trigger] self.plugins@[k]).memory()
                        == before.plugins@[k].indexed(index@),
                forall|k: int|
                    i <= k < self.plugins@.len() ==> #[trigger] self.plugins@[k]
                        == before.plugins@[k],
                self.state() == before.state(),
                self.looks_like(before),
            decreases self.plugins@.len() - i,
        {
            self.plugins[i].index_arrived(index);
            i += 1;
        }
    }
}

} // verus!
