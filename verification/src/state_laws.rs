//! What becomes of the launcher's state: after an action, an edit, a move, and
//! what the window is told of it.
use vstd::prelude::*;
use vstd::string::*;

use crate::app::{
    self, App, FormLine, Listing, Place, Screen, Source, Standing, State, UiOutcome, World,
};
use crate::appindex::Catalogue;
use crate::app_laws;
use crate::config::{self, Setting};
use crate::editor::{Edit, Field};
use crate::order;
use crate::plugin::{
    Answer, Deed, Disk, Filled, Memory, Offer, Outcome, Plugin, Row, ShellCommand,
};
use crate::render;
use crate::rewrite::Rewriting;
use crate::text;

verus! {

// ---- which plugin answers -----------------------------------------------------------------------

/// The plugin at `k` is the one that made a row: the first of that name.
pub open spec fn owned_by(plugins: Seq<Box<dyn Plugin>>, k: int, row: Row) -> bool {
    &&& 0 <= k < plugins.len()
    &&& plugins[k].name() == row.plugin
    &&& forall|j: int| 0 <= j < k ==> (#[trigger] plugins[j]).name() != row.plugin
}

/// No plugin made the row.
pub open spec fn owned_by_none(plugins: Seq<Box<dyn Plugin>>, row: Row) -> bool {
    forall|j: int| 0 <= j < plugins.len() ==> (#[trigger] plugins[j]).name() != row.plugin
}

proof fn lemma_owner(plugins: Seq<Box<dyn Plugin>>, k: int, row: Row)
    ensures
        owned_by(plugins, k, row) ==> app::plugin_at(plugins, row.plugin) == k,
        owned_by_none(plugins, row) ==> app::plugin_at(plugins, row.plugin) == plugins.len(),
{
    app_laws::lemma_plugin_at(plugins, row.plugin);
    let at = app::plugin_at(plugins, row.plugin);
    if owned_by(plugins, k, row) {
        if at < k {
            assert(plugins[at].name() == row.plugin);
        } else if k < at {
            assert(plugins[k].name() != row.plugin);
        }
    }
}

/// The row is the selected one.
pub open spec fn selects(s: State, row: Row) -> bool {
    0 <= s.selected < s.results.len() && s.results[s.selected] == row
}

/// The plugin that made the selected row answers Enter; where no plugin made
/// it, or nothing is selected, nothing happens.
pub proof fn law_the_owner_answers_enter(
    s: State,
    plugins: Seq<Box<dyn Plugin>>,
    k: int,
    row: Row,
)
    ensures
        selects(s, row) && owned_by(plugins, k, row) ==> s.activation(plugins)
            == plugins[k].on_activate(row),
        selects(s, row) && owned_by_none(plugins, row) ==> s.activation(plugins) == Answer::just(
            Outcome::Done,
        ),
        !(0 <= s.selected < s.results.len()) ==> s.activation(plugins) == Answer::just(
            Outcome::Done,
        ),
{
    lemma_owner(plugins, k, row);
}

/// The text that was asked for goes, trimmed, to the plugin that made the
/// selected row, with the action it was asked for. It counts only while it is
/// being asked for.
pub proof fn law_the_owner_gets_the_text(
    s: State,
    plugins: Seq<Box<dyn Plugin>>,
    k: int,
    row: Row,
    id: Seq<char>,
    typed: Field,
    prompt: Seq<char>,
)
    ensures
        s.mode == (Screen::TextInput { prompt, action_id: id, buffer: typed }) && selects(s, row)
            && owned_by(plugins, k, row) ==> s.text_answer(plugins) == Some(
            plugins[k].on_text(id, row, text::trimmed(typed.text)),
        ),
        s.mode is TextInput && selects(s, row) && owned_by_none(plugins, row) ==> s.text_answer(
            plugins,
        ) == Some(Answer::just(Outcome::Done)),
        s.text_answer(plugins) is Some <==> s.mode is TextInput,
{
    lemma_owner(plugins, k, row);
}

/// The lines of a form as they are handed in: every label with its value, in
/// order and trimmed.
pub open spec fn handed_in(fields: Seq<FormLine>, given: Seq<Filled>) -> bool {
    &&& given.len() == fields.len()
    &&& forall|i: int|
        0 <= i < fields.len() ==> (#[trigger] given[i]).label == fields[i].label && given[i].value
            == text::trimmed(fields[i].value.text)
}

/// The form goes, line by line and trimmed, to the plugin that made the
/// selected row, with the action it was asked for.
pub proof fn law_the_owner_gets_the_form(
    s: State,
    plugins: Seq<Box<dyn Plugin>>,
    k: int,
    row: Row,
    folder: bool,
    title: Seq<char>,
    id: Seq<char>,
    fields: Seq<FormLine>,
    focused: int,
    given: Seq<Filled>,
)
    requires
        handed_in(fields, given),
    ensures
        s.mode == (Screen::Form { title, action_id: id, fields, focused }) && selects(s, row)
            && owned_by(plugins, k, row) ==> s.form_answer(plugins, folder) == Some(
            plugins[k].on_form(id, row, given, folder),
        ) && s.form_wants(plugins) == plugins[k].form_wants(id, given),
        s.mode is Form && selects(s, row) && owned_by_none(plugins, row) ==> s.form_answer(
            plugins,
            folder,
        ) == Some(Answer::just(Outcome::Done)) && s.form_wants(plugins) is None,
        s.form_answer(plugins, folder) is Some <==> s.mode is Form,
{
    lemma_owner(plugins, k, row);
    assert(app::form_given(fields) =~= given);
}

// ---- the actions panel -----------------------------------------------------------------------

/// The panel of a row shows the actions its plugin offers, in order, and last
/// the one of the listing: hiding in the ordinary list, restoring in the list
/// of hidden entries, removing in the list of source folders.
pub proof fn law_the_panel_of_a_row(
    plugins: Seq<Box<dyn Plugin>>,
    k: int,
    row: Row,
    listing: Listing,
)
    ensures
        owned_by(plugins, k, row) ==> app::offers_for(plugins, row, listing).drop_last()
            == plugins[k].offered(row),
        owned_by_none(plugins, row) ==> app::offers_for(plugins, row, listing).len() == 1,
        app::offers_for(plugins, row, listing).len() > 0,
        listing is Normal ==> app::offers_for(plugins, row, listing).last() == (Offer {
            id: "__hide"@,
            label: "Hide from Apex"@,
        }),
        listing is Hidden ==> app::offers_for(plugins, row, listing).last() == (Offer {
            id: "__unhide"@,
            label: "Unhide"@,
        }),
        listing is Sources ==> app::offers_for(plugins, row, listing).last() == (Offer {
            id: "__remove_source"@,
            label: "Remove Source Folder"@,
        }),
{
    lemma_owner(plugins, k, row);
    if owned_by(plugins, k, row) {
        assert(app::offers_for(plugins, row, listing).drop_last() =~= plugins[k].offered(row));
    }
}

/// An action of the panel is highlighted.
pub open spec fn highlights(s: State, id: Seq<char>) -> bool {
    match s.mode {
        Screen::Actions { actions, selected } => 0 <= selected < actions.len()
            && actions[selected].id == id,
        _ => false,
    }
}

proof fn lemma_ids()
    ensures
        "__hide"@.len() == 6,
        "__unhide"@.len() == 8,
        "__remove_source"@.len() == 15,
{
    reveal_strlit("__hide");
    reveal_strlit("__unhide");
    reveal_strlit("__remove_source");
}

/// An action that is not one of the listing goes to the plugin that made the
/// selected row, and leaves what is hidden alone.
pub proof fn law_the_owner_runs_the_action(
    s: State,
    plugins: Seq<Box<dyn Plugin>>,
    w: World,
    k: int,
    row: Row,
    id: Seq<char>,
)
    requires
        highlights(s, id),
        selects(s, row),
        id != "__hide"@ && id != "__unhide"@ && id != "__remove_source"@,
    ensures
        owned_by(plugins, k, row) ==> s.action(plugins, w) == Some(plugins[k].on_action(id, row)),
        owned_by_none(plugins, row) ==> s.action(plugins, w) == Some(Answer::just(Outcome::Done)),
        s.acted() == s,
{
    lemma_owner(plugins, k, row);
}

/// The key the user's hidden entries are kept by.
pub open spec fn entry_key(row: Row) -> Seq<char> {
    row.plugin.push('/') + row.payload
}

proof fn lemma_entry_key(row: Row)
    ensures
        app::key_of(row.plugin, row.payload) == entry_key(row),
{
    reveal_strlit("/");
    assert(app::key_of(row.plugin, row.payload) =~= entry_key(row));
}

proof fn lemma_without_text(v: Seq<Seq<char>>, k: Seq<char>)
    ensures
        app::without_text(v, k) == v.filter(|x: Seq<char>| x != k),
    decreases v.len(),
{
    reveal(Seq::filter);
    if v.len() > 0 {
        lemma_without_text(v.drop_last(), k);
    }
}

/// Hiding puts the selected row's own key among the hidden ones, restoring
/// takes it out, and neither touches any other key or anything else. The
/// configuration is asked to hold exactly the keys that are hidden then, in
/// the order of the dictionary. Both come back to the list.
pub proof fn law_hiding_and_restoring(
    s: State,
    plugins: Seq<Box<dyn Plugin>>,
    w: World,
    row: Row,
    id: Seq<char>,
    k: Seq<char>,
)
    requires
        selects(s, row),
        highlights(s, id),
        id == "__hide"@ || id == "__unhide"@,
    ensures
        s.acted().hidden.contains(k) <==> (if k == entry_key(row) {
            id == "__hide"@
        } else {
            s.hidden.contains(k)
        }),
        s.acted() == (State { hidden: s.acted().hidden, ..s }),
        match s.action(plugins, w) {
            Some(a) => {
                &&& a.result == Outcome::Done
                &&& !a.reload
                &&& match a.effect {
                    Deed::Rewrite(Rewriting::SetList { section, values }) => {
                        &&& section == "hidden"@
                        &&& values.to_multiset() == s.acted().hidden.to_multiset()
                        &&& values.contains(k) <==> s.acted().hidden.contains(k)
                        &&& forall|i: int, j: int|
                            0 <= i < j < values.len() ==> !order::precedes(
                                #[trigger] values[j],
                                #[trigger] values[i],
                            )
                    },
                    _ => false,
                }
            },
            None => false,
        },
{
    broadcast use vstd::seq_lib::group_to_multiset_ensures;

    lemma_ids();
    lemma_entry_key(row);
    let key = entry_key(row);
    let now = s.acted().hidden;
    if id == "__hide"@ {
        if !s.hidden.contains(key) {
            assert(now == s.hidden.push(key));
            assert(now[now.len() - 1] == key);
            if s.hidden.contains(k) {
                let i = choose|i: int| 0 <= i < s.hidden.len() && s.hidden[i] == k;
                assert(now[i] == k);
            }
            if now.contains(k) {
                let i = choose|i: int| 0 <= i < now.len() && now[i] == k;
                if i < s.hidden.len() {
                    assert(s.hidden[i] == k);
                }
            }
        }
    } else {
        lemma_without_text(s.hidden, key);
        crate::rewrite_laws::lemma_filter_has(s.hidden, |x: Seq<char>| x != key, k);
    }
    let values = order::ranked(now, order::by_text());
    order::law_ranking_orders(now, order::by_text());
    let key_of = order::by_text();
    assert forall|i: int, j: int| 0 <= i < j < values.len() implies !order::precedes(
        #[trigger] values[j],
        #[trigger] values[i],
    ) by {
        assert(!order::before(key_of(values[j]), key_of(values[i])));
    }
    assert(values.to_multiset().count(k) == now.to_multiset().count(k));
}

proof fn lemma_paths_without(v: Seq<Place>, path: Seq<char>)
    ensures
        app::paths_without(v, path) == v.map_values(|p: Place| p.path).filter(
            |x: Seq<char>| !text::same_ignoring_case(x, path),
        ),
    decreases v.len(),
{
    reveal(Seq::filter);
    let f = |p: Place| p.path;
    let all = v.map_values(f);
    if v.len() > 0 {
        lemma_paths_without(v.drop_last(), path);
        assert(all.drop_last() =~= v.drop_last().map_values(f));
        assert(all.last() == v.last().path);
    } else {
        assert(all =~= Seq::empty());
    }
}

/// Removing a source folder asks for the sources without it, the others in
/// order, and for everything to be reloaded; it hides nothing.
pub proof fn law_removing_a_source_folder(
    s: State,
    plugins: Seq<Box<dyn Plugin>>,
    w: World,
    row: Row,
)
    requires
        selects(s, row),
        highlights(s, "__remove_source"@),
    ensures
        s.acted() == s,
        match s.action(plugins, w) {
            Some(a) => a.reload && a.result == Outcome::Done && a.effect == Deed::Rewrite(
                Rewriting::SetList {
                    section: "sources"@,
                    values: w.sources.map_values(|p: Place| p.path).filter(
                        |x: Seq<char>| !text::same_ignoring_case(x, row.payload),
                    ),
                },
            ),
            None => false,
        },
{
    lemma_ids();
    lemma_paths_without(w.sources, row.payload);
}

/// Without a highlighted action there is nothing to run.
pub proof fn law_no_panel_no_action(s: State, plugins: Seq<Box<dyn Plugin>>, w: World)
    requires
        !(s.mode is Actions),
    ensures
        s.action(plugins, w) is None,
        s.acted() == s,
{
}

// ---- after an action --------------------------------------------------------------------------

/// The state lists what its query and its catalogue ask for.
pub open spec fn lists_its_query(s: State, plugins: Seq<Box<dyn Plugin>>, w: World) -> bool {
    &&& s.results == s.rows_now(plugins, w)
    &&& s.sections == s.sections_now(plugins, w)
    &&& s.scroll == 0
}

/// Closing and dismissing leave everything as it is, back at the list.
pub proof fn law_after_closing(
    s: State,
    plugins: Seq<Box<dyn Plugin>>,
    w: World,
    stored: Seq<Seq<char>>,
    o: Outcome,
)
    requires
        o is Close || o is Dismiss || o == Outcome::Shell(ShellCommand::Quit) || o
            == Outcome::Shell(ShellCommand::Restart) || o == Outcome::Shell(
            ShellCommand::ToggleTray,
        ),
    ensures
        s.after(o, plugins, w, stored) == (State { mode: Screen::Search, ..s }),
{
}

/// After an ordinary action the same query is listed again, with the selection
/// where it was, or on the last row where there are fewer.
pub proof fn law_after_an_ordinary_action(
    s: State,
    plugins: Seq<Box<dyn Plugin>>,
    w: World,
    stored: Seq<Seq<char>>,
)
    requires
        0 <= s.selected,
    ensures
        ({
            let t = s.after(Outcome::Done, plugins, w, stored);
            &&& t.mode is Search
            &&& t.query == s.query
            &&& t.hidden == s.hidden
            &&& lists_its_query(t, plugins, w)
            &&& s.query.text.len() == 0 ==> t.listing == s.listing
            &&& s.selected < t.results.len() ==> t.selected == s.selected
            &&& s.selected >= t.results.len() > 0 ==> t.selected == t.results.len() - 1
            &&& t.results.len() == 0 ==> t.selected == 0
        }),
{
}

/// Reloading goes back to the default list, with what is hidden on disk.
pub proof fn law_after_a_reload(
    s: State,
    plugins: Seq<Box<dyn Plugin>>,
    w: World,
    stored: Seq<Seq<char>>,
    k: Seq<char>,
)
    ensures
        ({
            let t = s.after(Outcome::Refresh, plugins, w, stored);
            &&& t.mode is Search
            &&& t.query.text.len() == 0
            &&& t.listing is Normal
            &&& t.hidden.contains(k) <==> stored.contains(k)
            &&& lists_its_query(t, plugins, w)
            &&& t.selected == 0
        }),
{
    app_laws::lemma_told_apart(stored, k);
}

/// The two lists that are there to be reviewed come up from the top, with an
/// empty query; clearing the launch history lists as if there had never been
/// any.
pub proof fn law_after_a_command_for_the_list(
    s: State,
    plugins: Seq<Box<dyn Plugin>>,
    w: World,
    stored: Seq<Seq<char>>,
    c: ShellCommand,
)
    requires
        c is ShowHidden || c is ShowSources || c is ClearHistory,
    ensures
        ({
            let t = s.after(Outcome::Shell(c), plugins, w, stored);
            let blank = World { standing: Seq::empty(), ..w };
            &&& t.mode is Search
            &&& t.query.text.len() == 0
            &&& t.hidden == s.hidden
            &&& t.selected == 0
            &&& c is ShowHidden ==> t.listing is Hidden && lists_its_query(t, plugins, w)
            &&& c is ShowSources ==> t.listing is Sources && lists_its_query(t, plugins, w)
            &&& c is ClearHistory ==> t.listing == s.listing && lists_its_query(t, plugins, blank)
        }),
{
}

/// A prompt starts empty, and a form starts with the values it was given, the
/// caret at the end of each and the first line in focus. The list under it
/// stays as it is.
pub proof fn law_after_a_question(
    s: State,
    plugins: Seq<Box<dyn Plugin>>,
    w: World,
    stored: Seq<Seq<char>>,
    words: Seq<char>,
    id: Seq<char>,
    lines: Seq<Filled>,
)
    ensures
        ({
            let t = s.after(
                Outcome::RequestText { prompt: words, action_id: id },
                plugins,
                w,
                stored,
            );
            &&& t == (State { mode: t.mode, ..s })
            &&& match t.mode {
                Screen::TextInput { prompt, action_id, buffer } => prompt == words && action_id
                    == id && buffer.text.len() == 0 && buffer.caret == 0 && buffer.anchor == 0
                    && buffer.pending is None,
                _ => false,
            }
        }),
        ({
            let t = s.after(
                Outcome::RequestForm { title: words, action_id: id, fields: lines },
                plugins,
                w,
                stored,
            );
            &&& t == (State { mode: t.mode, ..s })
            &&& match t.mode {
                Screen::Form { title, action_id, fields, focused } => {
                    &&& title == words
                    &&& action_id == id
                    &&& focused == 0
                    &&& fields.len() == lines.len()
                    &&& forall|i: int|
                        0 <= i < lines.len() ==> (#[trigger] fields[i]).label == lines[i].label
                            && fields[i].value.text == lines[i].value && fields[i].value.caret
                            == lines[i].value.len() && fields[i].value.anchor
                            == fields[i].value.caret
                },
                _ => false,
            }
        }),
{
}

/// The window hides after a launch and when it was told to go away, and only
/// then; it is asked to quit, to restart or to flip its tray icon for these
/// commands alone; and else it stays. Of all results a launch alone is
/// remembered: the selected row, by its plugin and payload.
pub proof fn law_what_the_window_is_told(o: Outcome, row: Row)
    ensures
        app::shown_after(o) == UiOutcome::Hide <==> o is Close || o is Dismiss,
        app::shown_after(o) == UiOutcome::Shell(ShellCommand::Quit) <==> o == Outcome::Shell(
            ShellCommand::Quit,
        ),
        app::shown_after(o) == UiOutcome::Shell(ShellCommand::Restart) <==> o == Outcome::Shell(
            ShellCommand::Restart,
        ),
        app::shown_after(o) == UiOutcome::Shell(ShellCommand::ToggleTray) <==> o == Outcome::Shell(
            ShellCommand::ToggleTray,
        ),
        o is Done || o is Refresh || o is RequestText || o is RequestForm ==> app::shown_after(o)
            == UiOutcome::Stay,
        app::remembered(o, Some(row)) == if o is Close {
            Some((row.plugin, row.payload))
        } else {
            None
        },
        app::remembered(o, None) is None,
{
}

// ---- editing and moving -----------------------------------------------------------------------

/// What is typed goes to one field: to the query, which is then looked up, from
/// the top; to the prompt; or to the line of the form that has the focus. While
/// the panel is open it goes nowhere. Nothing else changes.
pub proof fn law_edits_go_to_one_field(
    s: State,
    edit: Edit,
    plugins: Seq<Box<dyn Plugin>>,
    w: World,
)
    ensures
        ({
            let (t, changed) = s.edited(edit, plugins, w);
            &&& s.mode is Actions ==> t == s && !changed
            &&& s.mode is Search ==> t.query == s.query.edited(edit).0 && changed == s.query.edited(
                edit,
            ).1
            &&& s.mode is Search && changed ==> lists_its_query(t, plugins, w) && t.selected == 0
                && t.hidden == s.hidden && t.mode == s.mode
            &&& s.mode is Search && !changed ==> t == (State { query: t.query, ..s })
            &&& s.mode is TextInput || s.mode is Form ==> t == (State { mode: t.mode, ..s })
            &&& s.mode matches Screen::TextInput { prompt, action_id, buffer } ==> t.mode == (
            Screen::TextInput { prompt, action_id, buffer: buffer.edited(edit).0 }) && changed
                == buffer.edited(edit).1
        }),
        s.mode matches Screen::Form { title, action_id, fields, focused } ==> (0 <= focused
            < fields.len() ==> match s.edited(edit, plugins, w).0.mode {
            Screen::Form { title: u, action_id: b, fields: g, focused: f } => {
                &&& u == title && b == action_id && f == focused
                &&& g.len() == fields.len()
                &&& g[focused].value == fields[focused].value.edited(edit).0
                &&& forall|i: int|
                    0 <= i < g.len() ==> (#[trigger] g[i]).label == fields[i].label
                &&& forall|i: int|
                    0 <= i < g.len() && i != focused ==> #[trigger] g[i] == fields[i]
            },
            _ => false,
        }),
{
}

/// Cutting takes the selected text out of the field that has it, and lists
/// again, from the top, where that is the query; without a selection nothing
/// changes.
pub proof fn law_cutting(s: State, plugins: Seq<Box<dyn Plugin>>, w: World)
    ensures
        s.selection() is None ==> s.cut(plugins, w) == s,
        s.mode is Actions ==> s.selection() is None,
        s.mode is Search && s.query.has_selection() ==> s.selection() == Some(
            s.query.selected(),
        ) && s.cut(plugins, w).query == s.query.unselected() && lists_its_query(
            s.cut(plugins, w),
            plugins,
            w,
        ) && s.cut(plugins, w).selected == 0 && s.cut(plugins, w).mode is Search && s.cut(
            plugins,
            w,
        ).hidden == s.hidden,
        s.mode matches Screen::Form { title, action_id, fields, focused } ==> (0 <= focused
            < fields.len() ==> {
            let f = fields[focused].value;
            &&& !f.has_selection() ==> s.selection() is None
            &&& f.has_selection() ==> s.selection() == Some(f.selected()) && s.cut(plugins, w) == (
            State {
                mode: Screen::Form {
                    title,
                    action_id,
                    fields: fields.update(
                        focused,
                        FormLine { label: fields[focused].label, value: f.unselected() },
                    ),
                    focused,
                },
                ..s
            })
        }),
        s.mode matches Screen::TextInput { prompt, action_id, buffer } ==> (buffer.has_selection()
            ==> s.selection() == Some(buffer.selected()) && s.cut(plugins, w) == (State {
            mode: Screen::TextInput { prompt, action_id, buffer: buffer.unselected() },
            ..s
        })),
{
}

/// One step on is the next row, and from the last the first; one step back is
/// the row before, and from the first the last.
pub proof fn law_steps_go_round(at: int, n: int)
    requires
        0 <= at < n,
    ensures
        app::stepped(at, 1, n) == if at + 1 < n {
            at + 1
        } else {
            0
        },
        app::stepped(at, -1, n) == if at > 0 {
            at - 1
        } else {
            n - 1
        },
        app::stepped(at, 0, n) == at,
{
    vstd::arithmetic::div_mod::lemma_small_mod(at as nat, n as nat);
    if at + 1 < n {
        vstd::arithmetic::div_mod::lemma_small_mod((at + 1) as nat, n as nat);
    } else {
        vstd::arithmetic::div_mod::lemma_mod_self_0(n);
    }
    if at > 0 {
        vstd::arithmetic::div_mod::lemma_small_mod((at - 1) as nat, n as nat);
    } else {
        vstd::arithmetic::div_mod::lemma_mod_multiples_vanish(1, -1, n);
        vstd::arithmetic::div_mod::lemma_small_mod((n - 1) as nat, n as nat);
        assert(n * 1 + -1 == n - 1);
    }
}

/// Moving the selection changes nothing but the selection and how far the list
/// is scrolled, and scrolls only as far as it must: not at all where the row
/// is in sight, to the row's top where it is above, and to its bottom where it
/// is below.
pub proof fn law_moving_scrolls_as_little_as_it_must(s: State, by: int)
    requires
        s.results.len() > 0,
        0 <= s.scroll <= s.limit(),
    ensures
        ({
            let t = s.moved(by);
            let at = State { selected: t.selected, ..s };
            &&& t == (State { selected: t.selected, scroll: t.scroll, ..s })
            &&& t.selected == app::stepped(s.selected, by, s.results.len() as int)
            &&& at.chosen_top() >= s.scroll && at.chosen_bottom() <= s.scroll + 3640 ==> t.scroll
                == s.scroll
            &&& at.chosen_top() < s.scroll && 0 <= at.chosen_top() ==> t.scroll == at.chosen_top()
            &&& at.chosen_top() >= s.scroll && at.chosen_bottom() > s.scroll + 3640
                && at.chosen_bottom() - 3640 <= s.limit() ==> t.scroll == at.chosen_bottom() - 3640
        }),
{
}

/// Scrolling goes where it is asked to, as far as the list goes.
pub proof fn law_scrolling_goes_where_asked(s: State, at: int)
    requires
        0 <= s.limit(),
    ensures
        s.scrolled_to(at) == (State { scroll: s.scrolled_to(at).scroll, ..s }),
        0 <= at <= s.limit() ==> s.scrolled_to(at).scroll == at,
        at < 0 ==> s.scrolled_to(at).scroll == 0,
        at > s.limit() ==> s.scrolled_to(at).scroll == s.limit(),
{
}

/// A row lies under a point exactly if the point is within the list, and
/// within the forty-four units of the row as they are scrolled, the list
/// starting fifty-nine units down and showing three hundred and sixty-four.
pub proof fn law_the_row_under_a_point(s: State, i: int, y: int)
    requires
        0 <= i < s.results.len(),
    ensures
        s.lies_under(i, y, 96) <==> {
            let top = 59 + render::offset_of_row(s.sections, i);
            &&& 59 <= y <= 59 + 364
            &&& top * 10 <= y * 10 + s.scroll < (top + 44) * 10
        },
{
}

// ---- the panel, the form, and the window coming up -------------------------------------------

/// The panel of the selected row opens on its first action and over an
/// unchanged list; without a row nothing opens.
pub proof fn law_opening_the_panel(s: State, plugins: Seq<Box<dyn Plugin>>, row: Row)
    ensures
        selects(s, row) ==> match s.panelled(plugins).mode {
            Screen::Actions { actions, selected } => selected == 0 && actions == app::offers_for(
                plugins,
                row,
                s.listing,
            ),
            _ => false,
        },
        s.panelled(plugins) == (State { mode: s.panelled(plugins).mode, ..s }),
        !(0 <= s.selected < s.results.len()) ==> s.panelled(plugins) == s,
{
}

/// Moving through the panel or through a form moves the highlight or the focus
/// one on or one back, round and round, and changes nothing else.
pub proof fn law_moving_through_the_panel_and_the_form(s: State, by: int)
    ensures
        s.panel_moved(by) == (State { mode: s.panel_moved(by).mode, ..s }),
        s.focus_moved(by) == (State { mode: s.focus_moved(by).mode, ..s }),
        s.mode matches Screen::Actions { actions: a, selected: i } ==> match s.panel_moved(by).mode {
            Screen::Actions { actions, selected } => actions == a && selected == app::stepped(
                i,
                by,
                a.len() as int,
            ),
            _ => false,
        },
        s.mode matches Screen::Form { title: t, action_id: d, fields: f, focused: i }
            ==> match s.focus_moved(by).mode {
            Screen::Form { title, action_id, fields, focused } => title == t && action_id == d
                && fields == f && focused == app::stepped(i, by, f.len() as int),
            _ => false,
        },
        !(s.mode is Actions) ==> s.panel_moved(by) == s,
        !(s.mode is Form) ==> s.focus_moved(by) == s,
{
}

/// As the window appears, an empty query is listed anew and a typed one is left
/// as it was.
pub proof fn law_the_window_appears(s: State, plugins: Seq<Box<dyn Plugin>>, w: World)
    ensures
        s.query.text.len() > 0 ==> s.appearing(plugins, w) == s,
        s.query.text.len() == 0 ==> lists_its_query(s.appearing(plugins, w), plugins, w)
            && s.appearing(plugins, w).query == s.query && s.appearing(plugins, w).mode == s.mode
            && s.appearing(plugins, w).hidden == s.hidden && s.appearing(plugins, w).listing
            == s.listing && s.appearing(plugins, w).selected == 0,
{
}

/// The launcher starts with nothing typed and nothing listed, in the ordinary
/// catalogue, and hides what the configuration says.
pub proof fn law_the_launcher_starts_empty(stored: Seq<Seq<char>>, k: Seq<char>)
    ensures
        ({
            let s = State::initial(stored);
            &&& s.mode is Search
            &&& s.query.text.len() == 0
            &&& s.results.len() == 0
            &&& s.sections.len() == 0
            &&& s.listing is Normal
            &&& s.hidden.contains(k) <==> stored.contains(k)
        }),
{
    app_laws::lemma_told_apart(stored, k);
}

/// A theme of the configuration wins over the system's; without one the system
/// decides. Only "dark" and "light" are themes, in any case.
pub proof fn law_themes(settings: Seq<Setting>, light: bool)
    ensures
        app::theme_of(settings) == Some(true) <==> (config::lookup(
            settings,
            "appearance"@,
            "theme"@,
        ) matches Some(t) && text::same_ignoring_case(t, "dark"@)),
        app::theme_of(settings) == Some(false) <==> (config::lookup(
            settings,
            "appearance"@,
            "theme"@,
        ) matches Some(t) && text::same_ignoring_case(t, "light"@)),
        app::darkness(Some(true), light),
        !app::darkness(Some(false), light),
        app::darkness(None, light) == !light,
{
    reveal_strlit("dark");
    reveal_strlit("light");
    assert("dark"@.len() != "light"@.len());
}

/// The wheel scrolls back by what it was turned, and on by what it was turned
/// the other way, as far as the list goes; nothing else changes.
pub proof fn law_the_wheel_scrolls_back(s: State, delta: int)
    requires
        0 <= s.scroll <= s.limit(),
    ensures
        s.wheeled(delta) == (State { scroll: s.wheeled(delta).scroll, ..s }),
        0 <= s.scroll - delta <= s.limit() ==> s.wheeled(delta).scroll == s.scroll - delta,
        delta >= 0 ==> s.wheeled(delta).scroll <= s.scroll,
        delta <= 0 ==> s.wheeled(delta).scroll >= s.scroll,
        delta > s.scroll ==> s.wheeled(delta).scroll == 0,
{
}

/// The pointer selects the row it points at, and nothing where there is none.
pub proof fn law_the_pointer_selects(s: State, index: int)
    ensures
        0 <= index < s.results.len() ==> s.pointed_at(index).selected == index && s.pointed_at(
            index,
        ) == (State { selected: index, ..s }),
        index >= s.results.len() ==> s.pointed_at(index) == s,
{
}

/// The window is 457 units tall, and taller for a form that needs more: fifty
/// for every line, and 149 around them.
pub proof fn law_the_window_grows_for_a_form(s: State)
    ensures
        !(s.mode is Form) ==> s.height() == 457,
        s.mode matches Screen::Form { fields, .. } ==> s.height() == if 149 + 50 * fields.len()
            > 457 {
            149 + 50 * fields.len()
        } else {
            457
        },
{
}

/// The launch history is cleared when it was asked for, and only then.
pub proof fn law_history_is_cleared_when_asked(o: Outcome)
    ensures
        app::forgets(o) <==> o == Outcome::Shell(ShellCommand::ClearHistory),
        app::forgets(o) ==> app::remembered(o, None) is None && app::shown_after(o)
            == UiOutcome::Stay,
{
}

/// After its effect an answer ends as it says, whether that went well or not,
/// unless it asked to stay with the list where it did not.
pub proof fn law_how_an_answer_ends(a: Answer, ok: bool)
    ensures
        a.outcome(true) == a.result,
        !a.stay_on_failure ==> a.outcome(ok) == a.result,
        a.stay_on_failure ==> a.outcome(false) == Outcome::Done,
{
}

// ---- the plugins -------------------------------------------------------------------------------

/// Everything is reloaded when an answer asks for it, and when it ends in a
/// reload; else nothing is.
pub proof fn law_when_everything_is_reloaded(a: Answer, ok: bool)
    ensures
        a.reload ==> app::reloads(a, ok),
        !a.reload ==> (app::reloads(a, ok) <==> a.outcome(ok) == Outcome::Refresh),
{
}

/// A reload reaches every plugin, and so does a new application index; each
/// keeps its name.
pub proof fn law_every_plugin_is_reached(
    a: Seq<Box<dyn Plugin>>,
    b: Seq<Box<dyn Plugin>>,
    disk: Disk,
    index: Catalogue,
    i: int,
)
    requires
        0 <= i < b.len(),
    ensures
        app::all_reloaded(a, b, disk) ==> a.len() == b.len() && a[i].memory() == b[i].reloaded(disk)
            && a[i].name() == b[i].name(),
        app::all_indexed(a, b, index) ==> a.len() == b.len() && a[i].memory() == b[i].indexed(index)
            && a[i].name() == b[i].name(),
{
}

/// An action changes the plugin that made the row, to what it then keeps in
/// mind, and no other.
pub proof fn law_an_action_changes_one_plugin(
    a: Seq<Box<dyn Plugin>>,
    b: Seq<Box<dyn Plugin>>,
    row: Row,
    m: Memory,
    k: int,
    i: int,
)
    requires
        app::dealt_with(a, b, row, m),
        0 <= i < b.len(),
    ensures
        a.len() == b.len(),
        a[i].name() == b[i].name(),
        owned_by(b, k, row) && i == k ==> a[i].memory() == m,
        owned_by(b, k, row) && i != k ==> a[i] == b[i],
        owned_by_none(b, row) ==> a[i] == b[i],
{
    lemma_owner(b, k, row);
}

/// Hiding, restoring and removing a source folder are the launcher's own
/// actions, and nothing else is.
pub proof fn law_the_launcher_s_own_actions(id: Seq<char>)
    ensures
        app::is_shell_action(id) <==> id == "__hide"@ || id == "__unhide"@ || id
            == "__remove_source"@,
{
}

/// What is known of the outside is handed on item by item.
pub proof fn law_the_outside_is_handed_on(v: Seq<Standing>, u: Seq<Source>, i: int)
    ensures
        0 <= i < v.len() ==> app::ranks(v).len() == v.len() && app::ranks(v)[i].plugin
            == v[i].plugin@ && app::ranks(v)[i].payload == v[i].payload@ && app::ranks(v)[i].bonus
            == v[i].bonus,
        0 <= i < u.len() ==> app::places(u).len() == u.len() && app::places(u)[i].path
            == u[i].path@ && app::places(u)[i].name == u[i].name@,
{
}

/// Where nothing is selected there is no one to hand a text or a form to, and
/// nothing happens.
pub proof fn law_without_a_row_nothing_is_handed_on(
    s: State,
    plugins: Seq<Box<dyn Plugin>>,
    folder: bool,
)
    requires
        !(0 <= s.selected < s.results.len()),
    ensures
        s.mode is TextInput ==> s.text_answer(plugins) == Some(Answer::just(Outcome::Done)),
        s.mode is Form ==> s.form_answer(plugins, folder) == Some(Answer::just(Outcome::Done)),
        s.form_wants(plugins) is None,
        s.acted() == s,
{
}

/// A row lies under a point at any number of dots to the inch as it does at
/// ninety-six, the point moved to scale.
pub proof fn law_points_are_taken_to_scale(s: State, i: int, y: int, dpi: int)
    requires
        0 <= i < s.results.len(),
    ensures
        s.lies_under(i, y, dpi) <==> {
            let top = 59 + render::offset_of_row(s.sections, i);
            &&& 590 * dpi <= 960 * y <= 4230 * dpi
            &&& top * 10 * dpi <= 960 * y + s.scroll * dpi < (top * 10 + 440) * dpi
        },
{
    let row = render::offset_of_row(s.sections, i) as int;
    let top = 59 + row;
    assert(render::LIST_TOP * 10 * dpi == 590 * dpi);
    assert(render::LIST_VIEWPORT_H * 10 * dpi == 3640 * dpi);
    assert(render::ROW_H * 10 * dpi == 440 * dpi);
    assert(top * 10 * dpi == 590 * dpi + row * 10 * dpi) by (nonlinear_arith)
        requires
            top == 59 + row,
    ;
    assert((top * 10 + 440) * dpi == top * 10 * dpi + 440 * dpi) by (nonlinear_arith);
}

/// A row ends forty-four units below where it starts, and starts at its
/// heading, twenty-six units above it, where it is the first of a section.
pub proof fn law_where_the_selected_row_starts_and_ends(s: State, k: int)
    ensures
        s.chosen_bottom() == render::offset_of_row(s.sections, s.selected) * 10 + 440,
        0 <= k < s.sections.len() && s.sections[k].0 == s.selected ==> s.chosen_top()
            == render::offset_of_row(s.sections, s.selected) * 10 - 260,
        (forall|j: int|
            0 <= j < s.sections.len() ==> (#[trigger] s.sections[j]).0 != s.selected)
            ==> s.chosen_top() == render::offset_of_row(s.sections, s.selected) * 10,
{
}

/// Moving the selection ends with the list scrolled within its limits, wherever
/// it was; and an empty list has its selection at the top.
pub proof fn law_moving_ends_within_the_list(s: State, by: int)
    requires
        0 <= s.limit(),
    ensures
        s.results.len() > 0 ==> 0 <= s.moved(by).scroll <= s.limit(),
        s.results.len() == 0 ==> s.moved(by) == (State { selected: 0, ..s }),
{
}

/// Hiding what is hidden, and restoring what is not, change nothing.
pub proof fn law_hiding_twice_is_hiding_once(s: State, k: Seq<char>)
    ensures
        s.hidden.contains(k) ==> s.with_hidden(k, true) == s,
        s.with_hidden(k, true).with_hidden(k, true) == s.with_hidden(k, true),
        !s.hidden.contains(k) ==> s.with_hidden(k, false) == s,
{
    if !s.hidden.contains(k) {
        let t = s.with_hidden(k, true);
        assert(t.hidden[t.hidden.len() - 1] == k);
        lemma_without_text(s.hidden, k);
        lemma_nothing_filtered(s.hidden, k);
    }
}

proof fn lemma_nothing_filtered(v: Seq<Seq<char>>, k: Seq<char>)
    requires
        !v.contains(k),
    ensures
        v.filter(|x: Seq<char>| x != k) == v,
    decreases v.len(),
{
    reveal(Seq::filter);
    if v.len() > 0 {
        assert(v[v.len() - 1] != k);
        assert forall|i: int| 0 <= i < v.drop_last().len() implies v.drop_last()[i] != k by {
            assert(v[i] != k);
        }
        lemma_nothing_filtered(v.drop_last(), k);
        assert(v.drop_last().push(v.last()) =~= v);
    }
}

/// What looks like the launcher has its colours, its backdrop, its fading in and
/// its caret, and whatever has these looks like it.
pub proof fn law_what_the_launcher_looks_like(a: App, b: App)
    ensures
        a.looks_like(b) <==> a.translucent == b.translucent && a.animate == b.animate
            && a.forced_dark == b.forced_dark && a.dark == b.dark && a.caret_visible
            == b.caret_visible,
{
}

} // verus!
