//! What the system is asked to do, and what the application index is made of.
use vstd::prelude::*;
use vstd::string::*;

use crate::appindex::{self, Application, HelperStatus, HelperStep, Listed};
use crate::launch;
use crate::order;
use crate::plugin::Bitmap;
use crate::plugins::search_laws;
use crate::setup;
use crate::text;

verus! {

// ---- opening -----------------------------------------------------------------------------------

/// A target is opened by itself, or by Explorer where the launcher is
/// elevated, which gets it between quotes. A program that is named is run, and
/// gets the target as it is.
pub proof fn law_how_a_target_is_opened(target: Seq<char>, program: Seq<char>, elevated: bool)
    ensures
        launch::plan(target, None, false) == (target, None::<Seq<char>>),
        launch::plan(target, None, true) == (
            "explorer.exe"@,
            Some(seq!['"'] + target + seq!['"']),
        ),
        launch::plan(target, Some(program), elevated) == (program, Some(target)),
{
    reveal_strlit("\"");
    assert("\""@ =~= seq!['"']);
}

// ---- starting at login -------------------------------------------------------------------------

/// The task scheduler is asked for a task exactly if the launcher is to start
/// at login, and to remove one exactly if it is not and there is one. The task
/// runs this very program, between quotes, at logon and with the highest
/// rights; it takes the place of the one there was. Both go by one name.
pub proof fn law_the_logon_task(enabled: bool, exe: Seq<char>, exists: bool)
    ensures
        ({
            let r = setup::task_change(enabled, exe, exists);
            &&& r is None <==> !enabled && !exists
            &&& enabled ==> (r matches Some(a) && a.len() == 10 && a[0] == "/create"@ && a[1]
                == "/tn"@ && a[2] == "Apex Elevated Logon"@ && a[3] == "/tr"@ && a[4] == seq!['"']
                + exe + seq!['"'] && a[5] == "/sc"@ && a[6] == "onlogon"@ && a[7] == "/rl"@ && a[8]
                == "highest"@ && a[9] == "/f"@)
            &&& !enabled && exists ==> (r matches Some(a) && a.len() == 4 && a[0] == "/delete"@
                && a[1] == "/tn"@ && a[2] == "Apex Elevated Logon"@ && a[3] == "/f"@)
        }),
{
    reveal_strlit("\"");
    assert("\""@ =~= seq!['"']);
}

// ---- source folders ----------------------------------------------------------------------------

/// Programs, shortcuts, batch files and scripts can be launched, whatever the
/// case of their extensions, and nothing else.
pub proof fn law_what_can_be_launched(e: Seq<char>, f: Seq<char>)
    ensures
        appindex::is_launchable("exe"@) && appindex::is_launchable("lnk"@)
            && appindex::is_launchable("bat"@) && appindex::is_launchable("cmd"@)
            && appindex::is_launchable("ps1"@),
        text::same_ignoring_case(e, f) ==> (appindex::is_launchable(e) <==> appindex::is_launchable(
            f,
        )),
        appindex::is_launchable(e) ==> text::same_ignoring_case(e, "exe"@)
            || text::same_ignoring_case(e, "lnk"@) || text::same_ignoring_case(e, "bat"@)
            || text::same_ignoring_case(e, "cmd"@) || text::same_ignoring_case(e, "ps1"@),
{
    crate::text_laws::law_case_aside(e, f, "exe"@);
    crate::text_laws::law_case_aside(f, e, "exe"@);
    crate::text_laws::law_case_aside(e, f, "lnk"@);
    crate::text_laws::law_case_aside(f, e, "lnk"@);
    crate::text_laws::law_case_aside(e, f, "bat"@);
    crate::text_laws::law_case_aside(f, e, "bat"@);
    crate::text_laws::law_case_aside(e, f, "cmd"@);
    crate::text_laws::law_case_aside(f, e, "cmd"@);
    crate::text_laws::law_case_aside(e, f, "ps1"@);
    crate::text_laws::law_case_aside(f, e, "ps1"@);
}

/// A source folder gives every file that can be launched, in order, by its name
/// without the extension and its path; folders, files of other kinds and names
/// that are no text are left out.
pub proof fn law_what_a_source_folder_gives(files: Seq<Listed>) -> (at: Seq<int>)
    ensures
        at.len() == appindex::wanted_of(files).len(),
        search_laws::ascending(at, files.len() as int),
        forall|i: int|
            0 <= i < at.len() ==> files[at[i]].stem == Some(
                (#[trigger] appindex::wanted_of(files)[i]).0,
            ) && files[at[i]].path == Some(appindex::wanted_of(files)[i].1),
        forall|k: int|
            0 <= k < files.len() ==> (#[trigger] at.contains(k) <==> files[k].is_file
                && files[k].stem is Some && files[k].path is Some && (files[k].extension matches Some(
                e,
            ) && appindex::is_launchable(e))),
    decreases files.len(),
{
    let all = appindex::wanted_of(files);
    if files.len() == 0 {
        Seq::empty()
    } else {
        let t = files.drop_last();
        let n = t.len() as int;
        let before = appindex::wanted_of(t);
        let so_far = law_what_a_source_folder_gives(t);
        if files[n].wanted() {
            let at = so_far.push(n);
            assert forall|i: int| 0 <= i < at.len() implies files[at[i]].stem == Some(
                (#[trigger] all[i]).0,
            ) && files[at[i]].path == Some(all[i].1) by {
                if i < before.len() {
                    assert(all[i] == before[i]);
                    assert(files[at[i]] == t[so_far[i]]);
                }
            }
            assert forall|k: int| 0 <= k < files.len() implies (#[trigger] at.contains(k)
                <==> files[k].wanted()) by {
                if k < n {
                    assert(files[k] == t[k]);
                    if so_far.contains(k) {
                        let i = choose|i: int| 0 <= i < so_far.len() && so_far[i] == k;
                        assert(at[i] == k);
                    }
                    if at.contains(k) {
                        let i = choose|i: int| 0 <= i < at.len() && at[i] == k;
                        assert(so_far[i] == k);
                        assert(so_far.contains(k));
                    }
                } else {
                    assert(at[so_far.len() as int] == k);
                }
            }
            at
        } else {
            assert forall|i: int| 0 <= i < so_far.len() implies files[so_far[i]].stem == Some(
                (#[trigger] all[i]).0,
            ) && files[so_far[i]].path == Some(all[i].1) by {
                assert(all[i] == before[i]);
                assert(files[so_far[i]] == t[so_far[i]]);
            }
            assert forall|k: int| 0 <= k < files.len() implies (#[trigger] so_far.contains(k)
                <==> files[k].wanted()) by {
                if k < n {
                    assert(files[k] == t[k]);
                } else if so_far.contains(k) {
                    let i = choose|i: int| 0 <= i < so_far.len() && so_far[i] == k;
                    assert(so_far[i] < n);
                }
            }
            so_far
        }
    }
}

// ---- the index ---------------------------------------------------------------------------------

/// Something found is indexed exactly if it has a name and an id, under both,
/// with its own icon, or with the generic one where it has none.
pub proof fn law_what_is_indexed(
    name: Seq<char>,
    app_id: Seq<char>,
    icon: Option<Bitmap>,
    fallback: Option<Bitmap>,
)
    ensures
        appindex::entry_of(name, app_id, icon, fallback) is Some <==> name.len() > 0 && app_id.len()
            > 0,
        appindex::entry_of(name, app_id, icon, fallback) matches Some(a) ==> a.name == name
            && a.app_id == app_id && (icon is Some ==> a.icon == icon) && (icon is None ==> a.icon
            == fallback),
{
}

/// The index stands by name and has everything that was found, once where it
/// was found twice in a row, and nothing else; the two icons are handed on.
pub proof fn law_the_index_is_in_order(
    found: Seq<Application>,
    fallback: Option<Bitmap>,
    folder: Option<Bitmap>,
    a: Application,
)
    ensures
        ({
            let index = appindex::indexed(found, fallback, folder);
            &&& index.fallback == fallback
            &&& index.folder == folder
            &&& forall|i: int, j: int|
                0 <= i < j < index.apps.len() ==> !order::precedes(
                    (#[trigger] index.apps[j]).name,
                    (#[trigger] index.apps[i]).name,
                )
            &&& forall|i: int| 0 <= i < index.apps.len() ==> found.contains(#[trigger] index.apps[i])
            &&& found.contains(a) ==> exists|i: int|
                0 <= i < index.apps.len() && (#[trigger] index.apps[i]).name == a.name
                    && index.apps[i].app_id == a.app_id
            &&& forall|i: int|
                0 < i < index.apps.len() ==> !(index.apps[i - 1].name == (
                #[trigger] index.apps[i]).name && index.apps[i - 1].app_id == index.apps[i].app_id)
        }),
{
    appindex::law_index_lists_what_was_found(found);
    let apps = appindex::indexed(found, fallback, folder).apps;
    let key = appindex::by_name();
    assert forall|i: int, j: int| 0 <= i < j < apps.len() implies !order::precedes(
        (#[trigger] apps[j]).name,
        (#[trigger] apps[i]).name,
    ) by {
        assert(!order::before(key(apps[j]), key(apps[i])));
    }
    if found.contains(a) {
        let k = choose|k: int| 0 <= k < found.len() && found[k] == a;
        assert(appindex::lists(apps, found[k]));
        let j = choose|j: int| 0 <= j < apps.len() && appindex::same_entry(#[trigger] apps[j], a);
        assert(apps[j].name == a.name);
    }
    assert forall|i: int| 0 < i < apps.len() implies !(apps[i - 1].name == (
    #[trigger] apps[i]).name && apps[i - 1].app_id == apps[i].app_id) by {
        assert(!appindex::same_entry(apps[i - 1], apps[i]));
    }
}

/// The helper is waited for while it runs, for a minute, and then ended. Its
/// index is good exactly if it exited by itself and well.
pub proof fn law_waiting_for_the_helper(status: HelperStatus, elapsed: u64)
    ensures
        appindex::next_step(status, elapsed) == HelperStep::Wait <==> status is Running && elapsed
            < 60_000,
        appindex::next_step(status, elapsed) == HelperStep::Kill <==> status is Running && elapsed
            >= 60_000,
        appindex::next_step(status, elapsed) == (HelperStep::Finish { success: true }) <==> status
            == (HelperStatus::Exited { success: true }),
{
}

/// Of two of the same name and id in a row the first is kept, with its icon, and
/// what differs in either is kept beside it.
pub proof fn law_the_first_of_twins_is_kept(s: Seq<Application>, a: Application)
    ensures
        ({
            let before = appindex::deduped(s);
            appindex::deduped(s.push(a)) == if before.len() > 0 && before.last().name == a.name
                && before.last().app_id == a.app_id {
                before
            } else {
                before.push(a)
            }
        }),
        appindex::deduped(Seq::empty()).len() == 0,
{
    assert(s.push(a).drop_last() =~= s);
}

} // verus!
