//! What becomes of the list of tabs, and what is written of it.

use vstd::prelude::*;

use crate::app::{all_saved, candidate_views, cleared_fits, closed_fits, file_views, saved, Closed};
use crate::config::{
    shown_name, Candidate, CandidateView, Config, NamedFile, NamedFileView, TabConfig,
    TabConfigView,
};
use crate::model::{
    children_of, config_of, first_tab_with_path, has_path, running_of, tabs_before, AppView,
    TabView,
};
use crate::text::is_batch_path;

verus! {

/// An open path is the path of some tab.
pub proof fn open_paths_are_those_of_tabs<C>(tabs: Seq<TabView<C>>, path: Seq<char>)
    ensures
        has_path(tabs, path) <==> exists|i: int|
            0 <= i < tabs.len() && (#[trigger] tabs[i]).path == path,
{
}

/// The program starts without tabs, with nothing selected, asked or typed.
pub proof fn program_starts_empty<C>()
    ensures
        ({
            let app = AppView::<C>::empty();
            &&& app.tabs.len() == 0 && app.flags.len() == 0
            &&& app.active_tab is None && app.confirm_delete is None
            &&& app.edit_buffers == Map::<usize, Seq<char>>::empty()
            &&& app.wf()
        }),
{
}

/// A tab is opened behind all others, which stay as they are. It has the given path and name,
/// an empty console and no command, has not run, and no line and no end of an earlier run is
/// meant for it.
pub proof fn opened_tab_is_last_and_fresh<C>(app: AppView<C>, path: Seq<char>, name: Seq<char>)
    ensures
        ({
            let after = app.open_tab(path, name);
            let n = app.tabs.len() as int;
            let tab = after.tabs[n];
            &&& after.tabs.len() == n + 1
            &&& forall|i: int| 0 <= i < n ==> #[trigger] after.tabs[i] == app.tabs[i]
            &&& tab.path == path && tab.custom_name == name
            &&& tab.output.len() == 0 && !tab.running && !tab.done && tab.child is None
            &&& tab.id >= app.flags.len() && tab.done_flag >= app.flags.len()
            &&& app.wf() ==> after.wf()
            &&& after.flags.len() == app.flags.len() + 1
            &&& forall|f: int| 0 <= f < app.flags.len() ==> #[trigger] after.flags[f] == app.flags[f]
            &&& !after.flags[tab.done_flag as int]
            &&& after == (AppView { tabs: after.tabs, flags: after.flags, ..app })
        }),
{
}

/// Loading or importing one configured tab opens it if its file exists; an import opens only
/// what is not open yet. The tab has its custom name or, if that is empty, its file name.
pub proof fn one_candidate<C>(app: AppView<C>, c: CandidateView)
    ensures
        ({
            let name = if c.config.custom_name.len() > 0 {
                c.config.custom_name
            } else {
                c.name
            };
            let is_open = exists|i: int|
                0 <= i < app.tabs.len() && (#[trigger] app.tabs[i]).path == c.config.path;
            &&& app.load(seq![c]) == if c.exists {
                app.open_tab(c.config.path, name)
            } else {
                app
            }
            &&& app.import(seq![c]) == if c.exists && !is_open {
                app.open_tab(c.config.path, name)
            } else {
                app
            }
        }),
{
    assert(seq![c].drop_last() =~= Seq::empty());
    reveal_with_fuel(AppView::load, 2);
    reveal_with_fuel(AppView::import, 2);
}

/// Two lists one behind the other are loaded, imported and added as if one after the other.
pub proof fn lists_are_taken_in_order<C>(
    app: AppView<C>,
    a: Seq<CandidateView>,
    b: Seq<CandidateView>,
    f: Seq<NamedFileView>,
    g: Seq<NamedFileView>,
)
    ensures
        app.load(a + b) == app.load(a).load(b),
        app.import(a + b) == app.import(a).import(b),
        app.add_files(f + g) == app.add_files(f).add_files(g),
        app.load(Seq::empty()) == app,
        app.import(Seq::empty()) == app,
        app.add_files(Seq::empty()) == app,
{
    lemma_load_concat(app, a, b);
    lemma_import_concat(app, a, b);
    lemma_add_concat(app, f, g);
}

proof fn lemma_load_concat<C>(app: AppView<C>, a: Seq<CandidateView>, b: Seq<CandidateView>)
    ensures
        app.load(a + b) == app.load(a).load(b),
    decreases b.len(),
{
    if b.len() == 0 {
        assert(a + b =~= a);
    } else {
        lemma_load_concat(app, a, b.drop_last());
        assert((a + b).drop_last() =~= a + b.drop_last());
    }
}

proof fn lemma_import_concat<C>(app: AppView<C>, a: Seq<CandidateView>, b: Seq<CandidateView>)
    ensures
        app.import(a + b) == app.import(a).import(b),
    decreases b.len(),
{
    if b.len() == 0 {
        assert(a + b =~= a);
    } else {
        lemma_import_concat(app, a, b.drop_last());
        assert((a + b).drop_last() =~= a + b.drop_last());
    }
}

proof fn lemma_add_concat<C>(app: AppView<C>, f: Seq<NamedFileView>, g: Seq<NamedFileView>)
    ensures
        app.add_files(f + g) == app.add_files(f).add_files(g),
    decreases g.len(),
{
    if g.len() == 0 {
        assert(f + g =~= f);
    } else {
        lemma_add_concat(app, f, g.drop_last());
        assert((f + g).drop_last() =~= f + g.drop_last());
    }
}

/// After an import, what was not open before stands behind what was, each file once, in the
/// order of the configuration: the sources of the tabs before a new one come before its own.
pub proof fn import_opens_in_order<C>(app: AppView<C>, candidates: Seq<CandidateView>)
    ensures
        ({
            let after = app.import(candidates);
            let n = app.tabs.len() as int;
            &&& forall|k: int, l: int|
                #![trigger after.tabs[k], after.tabs[l]]
                0 <= k < l < after.tabs.len() && n <= l ==> after.tabs[k].path
                    != after.tabs[l].path
            &&& forall|k: int, l: int, j: int|
                #![trigger after.tabs[k], after.tabs[l], candidates[j]]
                n <= k < l < after.tabs.len() && 0 <= j < candidates.len() && candidates[j].exists
                    && candidates[j].config.path == after.tabs[l].path ==> exists|i: int|
                    0 <= i < j && (#[trigger] candidates[i]).exists && candidates[i].config.path
                        == after.tabs[k].path
        }),
    decreases candidates.len(),
{
    if candidates.len() > 0 {
        let most = candidates.drop_last();
        let middle = app.import(most);
        let after = app.import(candidates);
        let n = app.tabs.len() as int;
        let last = candidates.last();
        import_opens_in_order(app, most);
        super::import_keeps_tabs(app, most);
        super::import_opens_what_exists(app, most);
        assert forall|k: int, l: int, j: int|
            #![trigger after.tabs[k], after.tabs[l], candidates[j]]
            n <= k < l < after.tabs.len() && 0 <= j < candidates.len() && candidates[j].exists
                && candidates[j].config.path == after.tabs[l].path implies exists|i: int|
            0 <= i < j && (#[trigger] candidates[i]).exists && candidates[i].config.path
                == after.tabs[k].path by {
            assert(after.tabs[k] == middle.tabs[k]);
            if j < most.len() && l < middle.tabs.len() {
                assert(most[j] == candidates[j]);
                assert(after.tabs[l] == middle.tabs[l]);
                let i = choose|i: int|
                    0 <= i < j && (#[trigger] most[i]).exists && most[i].config.path
                        == middle.tabs[k].path;
                assert(candidates[i] == most[i]);
            } else {
                if j < most.len() {
                    assert(most[j].exists);
                    assert(has_path(middle.tabs, most[j].config.path));
                    assert(false);
                }
                let i = choose|i: int|
                    0 <= i < most.len() && (#[trigger] most[i]).exists
                        && (#[trigger] middle.tabs[k]).path == most[i].config.path
                        && middle.tabs[k].custom_name == most[i].shown_name();
                assert(candidates[i] == most[i]);
            }
        }
    }
}

/// What adding one file does. What is no batch file changes nothing. A file that is open is
/// selected, at its first tab, and nothing else changes. Any other is opened behind the others
/// under its name, and selected.
pub proof fn add_file_opens_or_selects<C>(app: AppView<C>, file: NamedFileView)
    requires
        app.tabs.len() < usize::MAX,
    ensures
        ({
            let after = app.add_file(file);
            let n = app.tabs.len() as int;
            &&& !is_batch_path(file.path) ==> after == app
            &&& forall|i: int|
                0 <= i < n && is_batch_path(file.path) && (#[trigger] app.tabs[i]).path == file.path
                    && (forall|j: int| 0 <= j < i ==> (#[trigger] app.tabs[j]).path != file.path)
                    ==> after == (AppView { active_tab: Some(i as usize), ..app })
            &&& is_batch_path(file.path) && (forall|i: int|
                0 <= i < n ==> (#[trigger] app.tabs[i]).path != file.path) ==> {
                &&& after.active_tab == Some(n as usize)
                &&& after == (AppView {
                    active_tab: after.active_tab,
                    ..app.open_tab(file.path, file.name)
                })
            }
        }),
{
    first_tab_with_path(app.tabs, file.path);
    let t = tabs_before(app.tabs, file.path);
    assert forall|i: int|
        0 <= i < app.tabs.len() && (#[trigger] app.tabs[i]).path == file.path && (forall|j: int|
            0 <= j < i ==> (#[trigger] app.tabs[j]).path != file.path) implies t == i by {
        assert(has_path(app.tabs, file.path));
        if t < i {
            assert(app.tabs[t as int].path == file.path);
        }
    }
}

/// After files were added together each batch file among them is open; the tabs there were stay
/// as they are, and each other tab is one of the files, under its name, and has not run.
pub proof fn added_files_are_open<C>(app: AppView<C>, files: Seq<NamedFileView>)
    ensures
        ({
            let after = app.add_files(files);
            let n = app.tabs.len() as int;
            &&& n <= after.tabs.len()
            &&& forall|i: int| 0 <= i < n ==> #[trigger] after.tabs[i] == app.tabs[i]
            &&& forall|i: int|
                0 <= i < files.len() && is_batch_path((#[trigger] files[i]).path) ==> exists|k: int|
                    0 <= k < after.tabs.len() && (#[trigger] after.tabs[k]).path == files[i].path
            &&& forall|k: int|
                n <= k < after.tabs.len() ==> {
                    let tab = #[trigger] after.tabs[k];
                    &&& tab.output.len() == 0 && !tab.running && !tab.done && tab.child is None
                    &&& exists|i: int|
                        0 <= i < files.len() && is_batch_path((#[trigger] files[i]).path)
                            && files[i].path == tab.path && files[i].name == tab.custom_name
                }
            &&& after == (AppView {
                tabs: after.tabs,
                active_tab: after.active_tab,
                flags: after.flags,
                ..app
            })
        }),
    decreases files.len(),
{
    if files.len() > 0 {
        let most = files.drop_last();
        let last = files.last();
        let middle = app.add_files(most);
        let after = app.add_files(files);
        let n = app.tabs.len() as int;
        added_files_are_open(app, most);
        assert(files[files.len() - 1] == last);
        assert forall|i: int|
            0 <= i < files.len() && is_batch_path((#[trigger] files[i]).path) implies exists|k: int|
            0 <= k < after.tabs.len() && (#[trigger] after.tabs[k]).path == files[i].path by {
            if i < most.len() {
                assert(most[i] == files[i]);
                let k = choose|k: int|
                    0 <= k < middle.tabs.len() && (#[trigger] middle.tabs[k]).path == files[i].path;
                assert(after.tabs[k] == middle.tabs[k]);
            } else if has_path(middle.tabs, last.path) {
                let k = choose|k: int|
                    0 <= k < middle.tabs.len() && (#[trigger] middle.tabs[k]).path == last.path;
                assert(after.tabs[k] == middle.tabs[k]);
            } else {
                assert(after.tabs[middle.tabs.len() as int].path == last.path);
            }
        }
        assert forall|k: int| n <= k < after.tabs.len() implies ({
            let tab = #[trigger] after.tabs[k];
            &&& tab.output.len() == 0 && !tab.running && !tab.done && tab.child is None
            &&& exists|i: int|
                0 <= i < files.len() && is_batch_path((#[trigger] files[i]).path) && files[i].path
                    == tab.path && files[i].name == tab.custom_name
        }) by {
            if k < middle.tabs.len() {
                assert(after.tabs[k] == middle.tabs[k]);
                let tab = middle.tabs[k];
                let i = choose|i: int|
                    0 <= i < most.len() && is_batch_path((#[trigger] most[i]).path) && most[i].path
                        == tab.path && most[i].name == tab.custom_name;
                assert(files[i] == most[i]);
            }
        }
    }
}

/// Files that are added together are opened each once and in their order: a new tab has a path
/// that no tab before it has, and the sources of the new tabs before it come before its own.
pub proof fn added_files_keep_their_order<C>(app: AppView<C>, files: Seq<NamedFileView>)
    ensures
        ({
            let after = app.add_files(files);
            let n = app.tabs.len() as int;
            &&& forall|k: int, l: int|
                #![trigger after.tabs[k], after.tabs[l]]
                0 <= k < l < after.tabs.len() && n <= l ==> after.tabs[k].path
                    != after.tabs[l].path
            &&& forall|k: int, l: int, j: int|
                #![trigger after.tabs[k], after.tabs[l], files[j]]
                n <= k < l < after.tabs.len() && 0 <= j < files.len() && files[j].path
                    == after.tabs[l].path ==> exists|i: int|
                    0 <= i < j && (#[trigger] files[i]).path == after.tabs[k].path
        }),
{
    let after = app.add_files(files);
    let n = app.tabs.len() as int;
    assert forall|k: int, l: int|
        #![trigger after.tabs[k], after.tabs[l]]
        0 <= k < l < after.tabs.len() && n <= l implies after.tabs[k].path
        != after.tabs[l].path by {
        lemma_added_once(app, files, k, l);
    }
    assert forall|k: int, l: int, j: int|
        #![trigger after.tabs[k], after.tabs[l], files[j]]
        n <= k < l < after.tabs.len() && 0 <= j < files.len() && files[j].path
            == after.tabs[l].path implies exists|i: int|
        0 <= i < j && (#[trigger] files[i]).path == after.tabs[k].path by {
        lemma_added_in_order(app, files, k, l, j);
    }
}

proof fn lemma_added_once<C>(app: AppView<C>, files: Seq<NamedFileView>, k: int, l: int)
    requires
        0 <= k < l < app.add_files(files).tabs.len(),
        app.tabs.len() <= l,
    ensures
        app.add_files(files).tabs[k].path != app.add_files(files).tabs[l].path,
    decreases files.len(),
{
    if files.len() > 0 {
        let most = files.drop_last();
        let middle = app.add_files(most);
        if l < middle.tabs.len() {
            lemma_added_once(app, most, k, l);
        } else {
            assert(app.add_files(files).tabs[k] == middle.tabs[k]);
        }
    }
}

proof fn lemma_added_in_order<C>(
    app: AppView<C>,
    files: Seq<NamedFileView>,
    k: int,
    l: int,
    j: int,
)
    requires
        app.tabs.len() <= k < l < app.add_files(files).tabs.len(),
        0 <= j < files.len(),
        files[j].path == app.add_files(files).tabs[l].path,
    ensures
        exists|i: int|
            0 <= i < j && (#[trigger] files[i]).path == app.add_files(files).tabs[k].path,
    decreases files.len(),
{
    let most = files.drop_last();
    let middle = app.add_files(most);
    let after = app.add_files(files);
    assert(after.tabs[k] == middle.tabs[k]);
    if l < middle.tabs.len() && j < most.len() {
        lemma_added_in_order(app, most, k, l, j);
        let i = choose|i: int| 0 <= i < j && (#[trigger] most[i]).path == middle.tabs[k].path;
        assert(files[i] == most[i]);
    } else {
        added_files_are_open(app, most);
        if j < most.len() {
            assert(most[j].path == after.tabs[l].path);
            assert(is_batch_path(most[j].path));
            assert(has_path(middle.tabs, most[j].path));
            assert(false);
        }
        let tab = middle.tabs[k];
        let i = choose|i: int|
            0 <= i < most.len() && is_batch_path((#[trigger] most[i]).path) && most[i].path
                == tab.path && most[i].name == tab.custom_name;
        assert(files[i] == most[i]);
    }
}

/// Of files that are added together the last batch file ends up selected, at its first tab.
/// Without a batch file nothing changes.
pub proof fn last_added_file_is_selected<C>(app: AppView<C>, files: Seq<NamedFileView>, last: int)
    requires
        app.tabs.len() + files.len() <= usize::MAX,
        -1 <= last < files.len(),
        last >= 0 ==> is_batch_path(files[last].path),
        forall|j: int| last < j < files.len() ==> !is_batch_path((#[trigger] files[j]).path),
    ensures
        ({
            let after = app.add_files(files);
            if last < 0 {
                after == app
            } else {
                after.active_tab matches Some(a) && a < after.tabs.len() && after.tabs[a as int].path
                    == files[last].path && forall|j: int|
                    0 <= j < a ==> (#[trigger] after.tabs[j]).path != files[last].path
            }
        }),
    decreases files.len(),
{
    if files.len() > 0 {
        let most = files.drop_last();
        assert(files[files.len() - 1] == files.last());
        lemma_add_files_len(app, most);
        if last == files.len() - 1 {
            super::added_file_is_selected(app.add_files(most), files.last());
        } else {
            assert forall|j: int| last < j < most.len() implies !is_batch_path(
                (#[trigger] most[j]).path,
            ) by {
                assert(most[j] == files[j]);
            }
            last_added_file_is_selected(app, most, last);
        }
    }
}

proof fn lemma_add_files_len<C>(app: AppView<C>, files: Seq<NamedFileView>)
    ensures
        app.tabs.len() <= app.add_files(files).tabs.len() <= app.tabs.len() + files.len(),
    decreases files.len(),
{
    if files.len() > 0 {
        lemma_add_files_len(app, files.drop_last());
    }
}

/// While files are added the configuration is written once after each tab that is opened, and
/// each time it lists the tabs up to that one.
pub proof fn each_added_tab_is_saved<C>(app: AppView<C>, files: Seq<NamedFileView>)
    ensures
        ({
            let saves = app.add_saves(files);
            let tabs = app.add_files(files).tabs;
            let n = app.tabs.len() as int;
            &&& saves.len() == tabs.len() - n
            &&& forall|s: int|
                0 <= s < saves.len() ==> (#[trigger] saves[s]).len() == n + s + 1
            &&& forall|s: int, i: int|
                0 <= s < saves.len() && 0 <= i <= n + s ==> {
                    let entry = #[trigger] saves[s][i];
                    entry.path == tabs[i].path && entry.custom_name == tabs[i].custom_name
                }
        }),
    decreases files.len(),
{
    if files.len() > 0 {
        let most = files.drop_last();
        each_added_tab_is_saved(app, most);
        lemma_add_files_len(app, most);
        let before = app.add_saves(most);
        let saves = app.add_saves(files);
        let middle = app.add_files(most).tabs;
        let tabs = app.add_files(files).tabs;
        let n = app.tabs.len() as int;
        assert forall|s: int, i: int| 0 <= s < saves.len() && 0 <= i <= n + s implies ({
            let entry = #[trigger] saves[s][i];
            entry.path == tabs[i].path && entry.custom_name == tabs[i].custom_name
        }) by {
            if s < before.len() {
                assert(saves[s] == before[s]);
                assert(before[s][i].path == middle[i].path);
                assert(tabs[i] == middle[i]);
            }
        }
    }
}

/// The configuration has one entry for each tab, in their order, with its path and its name.
pub proof fn configuration_lists_the_tabs<C>(tabs: Seq<TabView<C>>)
    ensures
        config_of(tabs).len() == tabs.len(),
        forall|i: int|
            0 <= i < tabs.len() ==> (#[trigger] config_of(tabs)[i]).path == tabs[i].path
                && config_of(tabs)[i].custom_name == tabs[i].custom_name,
{
}

/// A configured tab is shown under its custom name, or under its file name if that is empty.
pub proof fn custom_name_goes_first(custom_name: Seq<char>, name: Seq<char>, c: CandidateView)
    ensures
        custom_name.len() > 0 ==> shown_name(custom_name, name) == custom_name,
        custom_name.len() == 0 ==> shown_name(custom_name, name) == name,
        c.shown_name() == shown_name(c.config.custom_name, c.name),
{
}

/// The values of files, candidates and configurations are theirs, one by one and in their order.
pub proof fn values_are_taken_one_by_one(
    tab: TabConfig,
    config: Config,
    file: NamedFile,
    candidate: Candidate,
    files: Seq<NamedFile>,
    candidates: Seq<Candidate>,
    saves: Seq<Config>,
    save: Option<Config>,
)
    ensures
        tab@ == (TabConfigView { path: tab.path@, custom_name: tab.custom_name@ }),
        config@.len() == config.tabs@.len(),
        forall|i: int| 0 <= i < config.tabs@.len() ==> #[trigger] config@[i] == config.tabs@[i]@,
        file@ == (NamedFileView { path: file.path@, name: file.name@ }),
        candidate@ == (CandidateView {
            config: candidate.config@,
            name: candidate.name@,
            exists: candidate.exists,
        }),
        file_views(files).len() == files.len(),
        forall|i: int| 0 <= i < files.len() ==> #[trigger] file_views(files)[i] == files[i]@,
        candidate_views(candidates).len() == candidates.len(),
        forall|i: int|
            0 <= i < candidates.len() ==> #[trigger] candidate_views(candidates)[i]
                == candidates[i]@,
        all_saved(saves).len() == saves.len(),
        forall|i: int| 0 <= i < saves.len() ==> #[trigger] all_saved(saves)[i] == saves[i]@,
        save is None ==> saved(save) is None,
        save matches Some(c) ==> saved(save) == Some(c@),
{
}

/// Closing a tab removes that tab and no other, whatever is selected: the tabs before it stay
/// where they are and those behind it move up by one, unchanged. The name fields, the pending
/// question and the flags stay. Without such a tab nothing changes.
pub proof fn close_removes_one_tab<C>(app: AppView<C>, idx: usize)
    ensures
        ({
            let after = app.close(idx);
            let n = app.tabs.len() as int;
            &&& idx >= n ==> after == app
            &&& idx < n ==> after.tabs.len() == n - 1
            &&& idx < n ==> forall|i: int|
                0 <= i < idx ==> #[trigger] after.tabs[i] == app.tabs[i]
            &&& idx < n ==> forall|i: int|
                idx <= i < n - 1 ==> #[trigger] after.tabs[i] == app.tabs[i + 1]
            &&& after == (AppView { tabs: after.tabs, active_tab: after.active_tab, ..app })
        }),
{
}

/// What is selected after a tab was closed: nothing if nothing was or if no tab is left; the
/// same place if that is before the closed tab; one place up if it is behind; and if the closed
/// tab was selected, the one that took its place, or else the last.
pub proof fn selection_after_close<C>(app: AppView<C>, idx: usize)
    requires
        idx < app.tabs.len() <= usize::MAX,
    ensures
        ({
            let after = app.close(idx);
            let n = app.tabs.len() as int;
            &&& n == 1 || app.active_tab is None ==> after.active_tab is None
            &&& app.active_tab is Some && n > 1 ==> {
                let a = app.active_tab->0;
                &&& after.active_tab is Some
                &&& a < idx ==> after.active_tab->0 == a
                &&& a > idx ==> after.active_tab->0 == a - 1
                &&& a == idx && idx < n - 1 ==> after.active_tab->0 == idx
                &&& a == idx && idx == n - 1 ==> after.active_tab->0 == idx - 1
            }
        }),
{
}

/// Closing a tab asks for its own command to be killed and for the other tabs to be saved, in
/// their order. Without such a tab it asks for nothing.
pub proof fn closing_kills_and_saves<C>(closed: Closed<C>, app: AppView<C>, idx: usize)
    requires
        closed_fits(closed, app, idx),
    ensures
        ({
            let n = app.tabs.len() as int;
            &&& idx >= n ==> closed.kill is None && closed.save is None
            &&& idx < n ==> {
                &&& closed.kill == app.tabs[idx as int].child
                &&& closed.save matches Some(config) && config@.len() == n - 1 && (forall|i: int|
                    0 <= i < n - 1 ==> {
                        let from = if i < idx {
                            i
                        } else {
                            i + 1
                        };
                        (#[trigger] config@[i]).path == app.tabs[from].path
                            && config@[i].custom_name == app.tabs[from].custom_name
                    })
            }
        }),
{
}

/// Closing every tab leaves none, and nothing selected if there was one to close; all else
/// stays. It does what closing the last tab does, as often as there are tabs.
pub proof fn clear_closes_from_the_end<C>(app: AppView<C>)
    requires
        app.tabs.len() <= usize::MAX,
    ensures
        app.clear().tabs.len() == 0,
        app.tabs.len() == 0 ==> app.clear() == app,
        app.tabs.len() > 0 ==> app.clear().active_tab is None && app.clear() == app.close(
            (app.tabs.len() - 1) as usize,
        ).clear(),
        app.clear() == (AppView {
            tabs: app.clear().tabs,
            active_tab: app.clear().active_tab,
            ..app
        }),
{
    assert(app.tabs.len() == 0 ==> app.clear() =~= app);
    if app.tabs.len() > 0 {
        let after = app.close((app.tabs.len() - 1) as usize);
        assert(app.clear() =~= after.clear());
    }
}

/// Closing every tab asks for each command to be killed, from the last tab to the first, and
/// for the tabs that are left to be saved after each.
pub proof fn clearing_kills_and_saves<C>(closed: Seq<Closed<C>>, app: AppView<C>)
    requires
        cleared_fits(closed, app),
    ensures
        closed.len() == app.tabs.len(),
        forall|i: int|
            0 <= i < app.tabs.len() ==> closed[app.tabs.len() - 1 - i].kill == (
            #[trigger] app.tabs[i]).child,
        forall|i: int|
            0 <= i < app.tabs.len() ==> {
                let tab = #[trigger] app.tabs[i];
                closed[app.tabs.len() - 1 - i].save matches Some(config) && config@.len() == i && (
                forall|j: int|
                    0 <= j < i ==> (#[trigger] config@[j]).path == app.tabs[j].path
                        && config@[j].custom_name == app.tabs[j].custom_name)
            },
{
    assert forall|i: int| 0 <= i < app.tabs.len() implies ({
        let tab = #[trigger] app.tabs[i];
        let c = closed[app.tabs.len() - 1 - i];
        &&& c.kill == tab.child
        &&& c.save matches Some(config) && config@.len() == i && (forall|j: int|
            0 <= j < i ==> (#[trigger] config@[j]).path == app.tabs[j].path && config@[j].custom_name
                == app.tabs[j].custom_name)
    }) by {
        let c = closed[app.tabs.len() - 1 - i];
        let kept = app.tabs.take(i);
        assert(saved(c.save) == Some(config_of(kept)));
        configuration_lists_the_tabs(kept);
    }
}

/// Renaming gives the tab the name and changes nothing else of it, and no other tab. An empty
/// name, or no such tab, changes nothing.
pub proof fn rename_changes_one_name<C>(app: AppView<C>, idx: int, name: Seq<char>)
    ensures
        ({
            let after = app.rename(idx, name);
            let is_done = name.len() > 0 && 0 <= idx < app.tabs.len();
            &&& !is_done ==> after == app
            &&& after.tabs.len() == app.tabs.len()
            &&& forall|i: int|
                0 <= i < app.tabs.len() ==> {
                    let tab = #[trigger] after.tabs[i];
                    if is_done && i == idx {
                        tab.custom_name == name && tab == (TabView {
                            custom_name: tab.custom_name,
                            ..app.tabs[i]
                        })
                    } else {
                        tab == app.tabs[i]
                    }
                }
            &&& after == (AppView { tabs: after.tabs, ..app })
        }),
{
}

/// The commands that tabs hold are found one by one: those of a list are those of its first
/// tabs, then that of the next, if it holds one.
pub proof fn commands_are_counted_one_by_one<C>(tabs: Seq<TabView<C>>, i: int)
    requires
        0 <= i < tabs.len(),
    ensures
        children_of(tabs.take(0)).len() == 0,
        children_of(tabs.take(tabs.len() as int)) == children_of(tabs),
        children_of(tabs.take(i + 1)) == children_of(tabs.take(i)) + match tabs[i].child {
            Some(c) => seq![c],
            None => seq![],
        },
{
    assert(tabs.take(0) =~= Seq::<TabView<C>>::empty());
    assert(tabs.take(tabs.len() as int) =~= tabs);
    let up_to = tabs.take(i + 1);
    assert(up_to.drop_last() =~= tabs.take(i));
    assert(up_to.last() == tabs[i]);
    assert(children_of(up_to) =~= children_of(tabs.take(i)) + match tabs[i].child {
        Some(c) => seq![c],
        None => seq![],
    });
}

/// The commands that tabs hold are each handed out: the command of a tab stands behind those of
/// the tabs before it, and nothing else is handed out.
pub proof fn every_command_is_handed_out<C>(tabs: Seq<TabView<C>>)
    ensures
        forall|i: int|
            0 <= i < tabs.len() && (#[trigger] tabs[i]).child is Some ==> {
                let before = children_of(tabs.take(i)).len() as int;
                before < children_of(tabs).len() && children_of(tabs)[before] == tabs[i].child->0
                    && children_of(tabs).contains(tabs[i].child->0)
            },
        forall|k: int|
            0 <= k < children_of(tabs).len() ==> exists|i: int|
                0 <= i < tabs.len() && (#[trigger] tabs[i]).child == Some(
                    #[trigger] children_of(tabs)[k],
                ),
{
    assert forall|i: int| 0 <= i < tabs.len() && (#[trigger] tabs[i]).child is Some implies ({
        let before = children_of(tabs.take(i)).len() as int;
        before < children_of(tabs).len() && children_of(tabs)[before] == tabs[i].child->0
            && children_of(tabs).contains(tabs[i].child->0)
    }) by {
        lemma_command_stands_behind(tabs, i);
    }
    assert forall|k: int| 0 <= k < children_of(tabs).len() implies exists|i: int|
        0 <= i < tabs.len() && (#[trigger] tabs[i]).child == Some(
            #[trigger] children_of(tabs)[k],
        ) by {
        let i = lemma_command_is_held(tabs, k);
        assert(tabs[i].child == Some(children_of(tabs)[k]));
    }
}

proof fn lemma_command_stands_behind<C>(tabs: Seq<TabView<C>>, i: int)
    requires
        0 <= i < tabs.len(),
        tabs[i].child is Some,
    ensures
        children_of(tabs.take(i)).len() < children_of(tabs).len(),
        children_of(tabs)[children_of(tabs.take(i)).len() as int] == tabs[i].child->0,
    decreases tabs.len(),
{
    let n = tabs.len() - 1;
    commands_are_counted_one_by_one(tabs, n);
    if i < n {
        let most = tabs.take(n);
        lemma_command_stands_behind(most, i);
        assert(most.take(i) =~= tabs.take(i));
    }
}

proof fn lemma_command_is_held<C>(tabs: Seq<TabView<C>>, k: int) -> (i: int)
    requires
        0 <= k < children_of(tabs).len(),
    ensures
        0 <= i < tabs.len(),
        tabs[i].child == Some(children_of(tabs)[k]),
    decreases tabs.len(),
{
    if tabs.len() == 0 {
        assert(false);
        0
    } else {
        let n = tabs.len() - 1;
        commands_are_counted_one_by_one(tabs, n);
        if k < children_of(tabs.take(n)).len() {
            lemma_command_is_held(tabs.take(n), k)
        } else {
            n
        }
    }
}

/// The running tabs are counted one by one.
pub proof fn running_tabs_are_counted<C>(tabs: Seq<TabView<C>>, i: int)
    requires
        0 <= i < tabs.len(),
    ensures
        running_of(tabs.take(0)).len() == 0,
        running_of(tabs.take(tabs.len() as int)) == running_of(tabs),
        running_of(tabs.take(i + 1)).len() == running_of(tabs.take(i)).len() + if tabs[i].running {
            1int
        } else {
            0
        },
{
    reveal(Seq::filter);
    assert(tabs.take(0) =~= Seq::<TabView<C>>::empty());
    assert(tabs.take(tabs.len() as int) =~= tabs);
    let up_to = tabs.take(i + 1);
    assert(up_to.drop_last() =~= tabs.take(i));
    assert(up_to.last() == tabs[i]);
}

} // verus!
