//! The application index: every launchable application with its icon.
//!
//! A helper process builds the index and writes it to a file; the launcher
//! only reads the file.
use std::sync::Arc;
use vstd::prelude::*;
use vstd::string::*;

use crate::order::{self, Key, Keyed};
use crate::plugin::{self, share_icon, Bitmap, Icon};
use crate::text::{self, chars_of, eq_ignore_ascii_case, same};

verus! {

/// One launchable application.
pub struct IndexedApp {
    /// Display name, or the file stem for an entry of a source folder.
    pub name: String,
    /// Parsing name within the applications folder, or the full path of a
    /// source-folder file.
    pub app_id: String,
    pub icon: Option<Arc<Icon>>,
}

pub struct AppIndex {
    pub apps: Vec<IndexedApp>,
    /// The generic application icon, for entries without their own.
    pub fallback: Option<Arc<Icon>>,
    /// The folder icon, for the source-folder listing.
    pub folder: Option<Arc<Icon>>,
}

/// What an indexed application is.
#[verifier::ext_equal]
pub struct Application {
    pub name: Seq<char>,
    pub app_id: Seq<char>,
    pub icon: Option<Bitmap>,
}

/// What an index holds.
#[verifier::ext_equal]
pub struct Catalogue {
    pub apps: Seq<Application>,
    pub fallback: Option<Bitmap>,
    pub folder: Option<Bitmap>,
}

impl View for IndexedApp {
    type V = Application;

    open spec fn view(&self) -> Application {
        Application {
            name: self.name@,
            app_id: self.app_id@,
            icon: plugin::shown(self.icon),
        }
    }
}

impl View for AppIndex {
    type V = Catalogue;

    open spec fn view(&self) -> Catalogue {
        Catalogue {
            apps: self.apps@.map_values(|a: IndexedApp| a@),
            fallback: plugin::shown(self.fallback),
            folder: plugin::shown(self.folder),
        }
    }
}

impl Default for AppIndex {
    fn default() -> (r: AppIndex)
        ensures
            r@ == (Catalogue { apps: Seq::empty(), fallback: None, folder: None }),
    {
        AppIndex { apps: Vec::new(), fallback: None, folder: None }
    }
}

// ---- building -------------------------------------------------------------------

/// File name extensions that count as launchable in a source folder.
pub open spec fn is_launchable(extension: Seq<char>) -> bool {
    ||| text::same_ignoring_case(extension, "exe"@)
    ||| text::same_ignoring_case(extension, "lnk"@)
    ||| text::same_ignoring_case(extension, "bat"@)
    ||| text::same_ignoring_case(extension, "cmd"@)
    ||| text::same_ignoring_case(extension, "ps1"@)
}

/// Whether a file of a source folder is launchable, by its extension.
pub fn launchable(extension: Option<&str>) -> (r: bool)
    ensures
        r == (extension matches Some(e) && is_launchable(e@)),
{
    match extension {
        Some(e) => eq_ignore_ascii_case(e, "exe") || eq_ignore_ascii_case(e, "lnk")
            || eq_ignore_ascii_case(e, "bat") || eq_ignore_ascii_case(e, "cmd")
            || eq_ignore_ascii_case(e, "ps1"),
        None => false,
    }
}

/// A file of a source folder. Names that are no text are left out.
pub struct FolderFile {
    pub extension: Option<String>,
    /// The name without the extension.
    pub stem: Option<String>,
    pub path: Option<String>,
    pub is_file: bool,
}

/// A file of a source folder, seen as texts.
#[verifier::ext_equal]
pub struct Listed {
    pub extension: Option<Seq<char>>,
    pub stem: Option<Seq<char>>,
    pub path: Option<Seq<char>>,
    pub is_file: bool,
}

impl View for FolderFile {
    type V = Listed;

    open spec fn view(&self) -> Listed {
        Listed {
            extension: plugin::worded(self.extension),
            stem: plugin::worded(self.stem),
            path: plugin::worded(self.path),
            is_file: self.is_file,
        }
    }
}

impl Listed {
    /// A launchable file whose names are texts.
    pub open spec fn wanted(self) -> bool {
        &&& self.extension matches Some(e) && is_launchable(e)
        &&& self.is_file
        &&& self.stem is Some
        &&& self.path is Some
    }
}

/// Name and path of every file of a folder that is indexed, in order.
pub open spec fn wanted_of(files: Seq<Listed>) -> Seq<(Seq<char>, Seq<char>)>
    decreases files.len(),
{
    if files.len() == 0 {
        Seq::empty()
    } else {
        let before = wanted_of(files.drop_last());
        let f = files.last();
        if f.wanted() {
            before.push((f.stem->0, f.path->0))
        } else {
            before
        }
    }
}

/// A list of files, seen as texts.
pub open spec fn listing(v: Seq<FolderFile>) -> Seq<Listed> {
    v.map_values(|f: FolderFile| f@)
}

/// A list of names and paths, seen as texts.
pub open spec fn named(v: Seq<(String, String)>) -> Seq<(Seq<char>, Seq<char>)> {
    v.map_values(|p: (String, String)| (p.0@, p.1@))
}

/// Name and path of every file directly in a source folder that is indexed.
pub fn scan_source(files: &Vec<FolderFile>) -> (out: Vec<(String, String)>)
    ensures
        named(out@) == wanted_of(listing(files@)),
{
    let ghost all = listing(files@);
    let mut out: Vec<(String, String)> = Vec::new();
    let mut i: usize = 0;
    assert(named(out@) =~= wanted_of(all.take(0)));
    while i < files.len()
        invariant
            i <= files@.len(),
            all == listing(files@),
            named(out@) == wanted_of(all.take(i as int)),
        decreases files@.len() - i,
    {
        let f = &files[i];
        proof {
            assert(all.take(i + 1).drop_last() =~= all.take(i as int));
            assert(all.take(i + 1).last() == f@);
        }
        let extension = match &f.extension {
            Some(e) => Some(e.as_str()),
            None => None,
        };
        if launchable(extension) && f.is_file {
            match (&f.stem, &f.path) {
                (Some(name), Some(path)) => {
                    let ghost before = named(out@);
                    out.push((name.clone(), path.clone()));
                    assert(named(out@) =~= before.push((name@, path@)));
                },
                _ => {},
            }
        }
        i += 1;
    }
    assert(all.take(all.len() as int) =~= all);
    out
}

/// The entry of something found, with the generic icon where it has none of
/// its own.
pub open spec fn entry_of(
    name: Seq<char>,
    app_id: Seq<char>,
    icon: Option<Bitmap>,
    fallback: Option<Bitmap>,
) -> Option<Application> {
    if name.len() == 0 || app_id.len() == 0 {
        None
    } else {
        Some(
            Application {
                name,
                app_id,
                icon: match icon {
                    Some(i) => Some(i),
                    None => fallback,
                },
            },
        )
    }
}

/// An index entry for something found, with the generic icon where it has
/// none of its own. Something without a name or an id is left out.
pub fn entry(name: &str, app_id: &str, icon: Option<Icon>, fallback: &Option<Arc<Icon>>) -> (r:
    Option<IndexedApp>)
    ensures
        ({
            let want = entry_of(
                name@,
                app_id@,
                match icon {
                    Some(i) => Some(i@),
                    None => None,
                },
                plugin::shown(*fallback),
            );
            match r {
                Some(app) => want == Some(app@),
                None => want is None,
            }
        }),
{
    let n = chars_of(name);
    let a = chars_of(app_id);
    if n.len() == 0 || a.len() == 0 {
        return None;
    }
    let icon = match icon {
        Some(i) => Some(Arc::new(i)),
        None => share_icon(fallback),
    };
    Some(IndexedApp { name: name.to_owned(), app_id: app_id.to_owned(), icon })
}

impl Keyed for IndexedApp {
    open spec fn key(&self) -> Key {
        Key { number: 0, text: self.name@ }
    }

    fn goes_before(&self, other: &Self) -> (r: bool) {
        order::comes_first(self.name.as_str(), other.name.as_str())
    }
}

/// Applications go by their names.
pub open spec fn by_name() -> spec_fn(Application) -> Key {
    |a: Application| Key { number: 0, text: a.name }
}

pub open spec fn same_entry(a: Application, b: Application) -> bool {
    a.name == b.name && a.app_id == b.app_id
}

/// `s` without the entries that repeat the one before them.
pub open spec fn deduped(s: Seq<Application>) -> Seq<Application>
    decreases s.len(),
{
    if s.len() == 0 {
        s
    } else {
        let d = deduped(s.drop_last());
        if d.len() > 0 && same_entry(d.last(), s.last()) {
            d
        } else {
            d.push(s.last())
        }
    }
}

/// The applications a list of entries holds.
pub open spec fn applications(v: Seq<IndexedApp>) -> Seq<Application> {
    v.map_values(|a: IndexedApp| a@)
}

/// The index of what was found: by name, repeats left out.
pub open spec fn indexed(
    found: Seq<Application>,
    fallback: Option<Bitmap>,
    folder: Option<Bitmap>,
) -> Catalogue {
    Catalogue { apps: deduped(order::ranked(found, by_name())), fallback, folder }
}

/// The index of what was found: by name, repeats left out.
pub fn build(
    found: Vec<IndexedApp>,
    fallback: Option<Arc<Icon>>,
    folder: Option<Arc<Icon>>,
) -> (index: AppIndex)
    ensures
        index@ == indexed(
            applications(found@),
            plugin::shown(fallback),
            plugin::shown(folder),
        ),
{
    let mut v = found;
    order::sort(&mut v);
    proof {
        order::lemma_ranked_maps(
            found@,
            |a: IndexedApp| a@,
            order::key_of::<IndexedApp>(),
            by_name(),
        );
    }
    let ghost s = applications(v@);
    let mut i: usize = 0;
    let ghost mut seen: int = 0;
    assert(applications(v@) =~= deduped(s.take(0)) + s.skip(0));
    while i < v.len()
        invariant
            i <= v@.len(),
            0 <= seen <= s.len(),
            s.len() - seen == v@.len() - i,
            deduped(s.take(seen)).len() == i,
            applications(v@) == deduped(s.take(seen)) + s.skip(seen),
        decreases v@.len() - i,
    {
        let ghost d = deduped(s.take(seen));
        proof {
            assert(s.take(seen + 1).drop_last() =~= s.take(seen));
            assert(s.take(seen + 1).last() == s[seen]);
            assert(applications(v@)[i as int] == s[seen]);
            if i > 0 {
                assert(applications(v@)[i - 1] == d.last());
            }
        }
        let repeat = i > 0 && same(v[i - 1].name.as_str(), v[i].name.as_str()) && same(
            v[i - 1].app_id.as_str(),
            v[i].app_id.as_str(),
        );
        if repeat {
            let ghost all = applications(v@);
            v.remove(i);
            assert(applications(v@) =~= all.remove(i as int));
            assert(applications(v@) =~= d + s.skip(seen + 1));
        } else {
            assert(applications(v@) =~= d.push(s[seen]) + s.skip(seen + 1));
            i += 1;
        }
        proof {
            seen = seen + 1;
        }
    }
    proof {
        assert(s.take(s.len() as int) =~= s);
        assert(applications(v@) =~= deduped(s));
    }
    AppIndex { apps: v, fallback, folder }
}

/// `apps` has an entry with the name and id of `a`.
pub open spec fn lists(apps: Seq<Application>, a: Application) -> bool {
    exists|j: int| 0 <= j < apps.len() && same_entry(#[trigger] apps[j], a)
}

proof fn lemma_deduped_is_part(s: Seq<Application>)
    ensures
        forall|i: int| 0 <= i < deduped(s).len() ==> s.contains(#[trigger] deduped(s)[i]),
    decreases s.len(),
{
    if s.len() > 0 {
        let t = s.drop_last();
        lemma_deduped_is_part(t);
        let d = deduped(t);
        let r = deduped(s);
        assert forall|i: int| 0 <= i < r.len() implies s.contains(#[trigger] r[i]) by {
            if i < d.len() {
                assert(r[i] == d[i]);
                assert(t.contains(d[i]));
                let k = choose|k: int| 0 <= k < t.len() && t[k] == d[i];
                assert(s[k] == r[i]);
            } else {
                assert(s[s.len() - 1] == r[i]);
            }
        }
    }
}

proof fn lemma_deduped_lists_all(s: Seq<Application>)
    ensures
        forall|i: int| 0 <= i < s.len() ==> lists(deduped(s), #[trigger] s[i]),
    decreases s.len(),
{
    if s.len() > 0 {
        let t = s.drop_last();
        lemma_deduped_lists_all(t);
        let d = deduped(t);
        let r = deduped(s);
        assert forall|i: int| 0 <= i < s.len() implies lists(r, #[trigger] s[i]) by {
            if i < t.len() {
                assert(lists(d, t[i]));
                let j = choose|j: int| 0 <= j < d.len() && same_entry(#[trigger] d[j], t[i]);
                assert(same_entry(r[j], s[i]));
            } else {
                assert(same_entry(r[r.len() - 1], s[i]));
            }
        }
    }
}

proof fn lemma_deduped_in_order(s: Seq<Application>)
    requires
        order::in_order(s, by_name()),
    ensures
        order::in_order(deduped(s), by_name()),
        forall|j: int|
            0 < j < deduped(s).len() ==> !same_entry(deduped(s)[j - 1], #[trigger] deduped(s)[j]),
    decreases s.len(),
{
    if s.len() > 0 {
        let t = s.drop_last();
        let key = by_name();
        assert(order::in_order(t, key)) by {
            assert forall|i: int, j: int| 0 <= i < j < t.len() implies !order::before(
                #[trigger] key(t[j]),
                #[trigger] key(t[i]),
            ) by {
                assert(t[i] == s[i] && t[j] == s[j]);
            }
        }
        lemma_deduped_in_order(t);
        lemma_deduped_is_part(t);
        let d = deduped(t);
        let r = deduped(s);
        assert forall|i: int, j: int| 0 <= i < j < r.len() implies !order::before(
            #[trigger] key(r[j]),
            #[trigger] key(r[i]),
        ) by {
            assert(r[i] == d[i]);
            if j < d.len() {
                assert(r[j] == d[j]);
            } else {
                assert(t.contains(d[i]));
                let k = choose|k: int| 0 <= k < t.len() && t[k] == d[i];
                assert(s[k] == d[i]);
                assert(!order::before(key(s[s.len() - 1]), key(s[k])));
            }
        }
        assert forall|j: int| 0 < j < r.len() implies !same_entry(r[j - 1], #[trigger] r[j]) by {
            if j < d.len() {
                assert(r[j] == d[j] && r[j - 1] == d[j - 1]);
            }
        }
    }
}

/// The index lists everything that was found, and nothing else, by name, with
/// no entry that repeats the one before it.
pub proof fn law_index_lists_what_was_found(found: Seq<Application>)
    ensures
        ({
            let apps = deduped(order::ranked(found, by_name()));
            &&& order::in_order(apps, by_name())
            &&& forall|i: int| 0 <= i < apps.len() ==> found.contains(#[trigger] apps[i])
            &&& forall|i: int| 0 <= i < found.len() ==> lists(apps, #[trigger] found[i])
            &&& forall|j: int| 0 < j < apps.len() ==> !same_entry(apps[j - 1], #[trigger] apps[j])
        }),
{
    broadcast use vstd::seq_lib::group_to_multiset_ensures;

    let r = order::ranked(found, by_name());
    order::law_ranking_orders(found, by_name());
    lemma_deduped_is_part(r);
    lemma_deduped_lists_all(r);
    lemma_deduped_in_order(r);
    let apps = deduped(r);
    assert forall|i: int| 0 <= i < apps.len() implies found.contains(#[trigger] apps[i]) by {
        assert(r.contains(apps[i]));
        assert(r.to_multiset().count(apps[i]) > 0);
        assert(found.to_multiset().count(apps[i]) > 0);
    }
    assert forall|i: int| 0 <= i < found.len() implies lists(apps, #[trigger] found[i]) by {
        assert(found.contains(found[i]));
        assert(found.to_multiset().count(found[i]) > 0);
        assert(r.contains(found[i]));
        let k = choose|k: int| 0 <= k < r.len() && r[k] == found[i];
        assert(lists(apps, r[k]));
    }
}

// ---- waiting for the helper -------------------------------------------------------

/// How long the launcher waits for the helper, in milliseconds.
pub const HELPER_TIMEOUT: u64 = 60_000;

/// What is known of the helper process.
#[derive(Clone, Copy, PartialEq, Eq, Structural)]
pub enum HelperStatus {
    Exited { success: bool },
    Running,
    /// The process could not be asked.
    Unknown,
}

/// What to do about the helper next.
#[derive(Clone, Copy, PartialEq, Eq, Structural)]
pub enum HelperStep {
    /// Stop waiting; the index file is good when `success`.
    Finish { success: bool },
    /// Ask again in a moment.
    Wait,
    /// End the process and stop waiting, without success.
    Kill,
}

/// What to do about the helper `elapsed` milliseconds after it started.
pub open spec fn next_step(status: HelperStatus, elapsed: u64) -> HelperStep {
    match status {
        HelperStatus::Exited { success } => HelperStep::Finish { success },
        HelperStatus::Running => if elapsed < HELPER_TIMEOUT {
            HelperStep::Wait
        } else {
            HelperStep::Kill
        },
        HelperStatus::Unknown => HelperStep::Finish { success: false },
    }
}

/// One round of waiting for the helper, `elapsed` milliseconds after it
/// started.
pub fn helper_step(status: HelperStatus, elapsed: u64) -> (r: HelperStep)
    ensures
        r == next_step(status, elapsed),
{
    match status {
        HelperStatus::Exited { success } => HelperStep::Finish { success },
        HelperStatus::Running => if elapsed < HELPER_TIMEOUT {
            HelperStep::Wait
        } else {
            HelperStep::Kill
        },
        HelperStatus::Unknown => HelperStep::Finish { success: false },
    }
}

} // verus!
