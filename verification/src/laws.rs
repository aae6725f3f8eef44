//! What holds of the program as a whole.

pub mod frames;
pub mod lists;
pub mod runs;
pub mod shown;

use vstd::prelude::*;

use crate::app::frame::{after_card_event, after_step, CardEvent, FrameRequestsView};
use crate::app::reader::{after_read, after_reads, ReadEventView, Reader, Stream};
use crate::app::{cleared_fits, saved, Closed};
use crate::config::{shown_name, CandidateView, NamedFileView, TabConfigView};
use crate::model::{
    children_of, config_of, first_tab_with_path, has_path, running_of, tabs_before, AppView,
    TabView,
};
use crate::output::{
    byte_len, footer, header, lemma_encode_concat, lemma_encode_not_empty, trimmed,
    trimmed_is_bounded_suffix, trims_cleanly, OUTPUT_KEEP, OUTPUT_LIMIT,
};
use crate::text::is_batch_path;

verus! {

/// No two tabs have the same path.
pub open spec fn distinct_paths<C>(tabs: Seq<TabView<C>>) -> bool {
    forall|i: int, j: int|
        #![trigger tabs[i], tabs[j]]
        0 <= i < j < tabs.len() ==> tabs[i].path != tabs[j].path
}

/// A tab is selected only if it is there.
pub open spec fn active_in_range<C>(app: AppView<C>) -> bool {
    app.active_tab matches Some(a) ==> a < app.tabs.len()
}

/// What a configuration with candidates opens: those whose file exists, in their order, each
/// under its custom name or, where that is empty, its file name.
pub open spec fn opened(candidates: Seq<CandidateView>) -> Seq<TabConfigView> {
    candidates.filter(|c: CandidateView| c.exists).map_values(
        |c: CandidateView| TabConfigView { path: c.config.path, custom_name: c.shown_name() },
    )
}

/// Loading opens exactly the configured files that exist, in their order, and starts none.
pub proof fn load_opens_what_exists<C>(candidates: Seq<CandidateView>)
    ensures
        ({
            let app = AppView::<C>::empty().load(candidates);
            &&& config_of(app.tabs) == opened(candidates)
            &&& app.active_tab is None
            &&& app.confirm_delete is None
            &&& forall|i: int|
                0 <= i < app.tabs.len() ==> {
                    let tab = #[trigger] app.tabs[i];
                    !tab.running && !tab.done && tab.child is None && tab.output.len() == 0
                }
        }),
    decreases candidates.len(),
{
    reveal(Seq::filter);
    let app = AppView::<C>::empty().load(candidates);
    if candidates.len() == 0 {
        assert(config_of(app.tabs) =~= opened(candidates));
    } else {
        let before = AppView::<C>::empty().load(candidates.drop_last());
        let last = candidates.last();
        load_opens_what_exists::<C>(candidates.drop_last());
        if last.exists {
            let entry = TabConfigView { path: last.config.path, custom_name: last.shown_name() };
            assert(opened(candidates) =~= opened(candidates.drop_last()).push(entry));
            assert(config_of(app.tabs) =~= config_of(before.tabs).push(entry));
        } else {
            assert(opened(candidates) =~= opened(candidates.drop_last()));
        }
    }
}

/// What was saved comes back: if every file still exists, loading the saved configuration opens
/// the same tabs in the same order under the same names. A name that was empty comes back as the
/// file name.
pub proof fn saved_tabs_come_back<C>(app: AppView<C>, candidates: Seq<CandidateView>)
    requires
        candidates.len() == app.tabs.len(),
        forall|i: int|
            0 <= i < candidates.len() ==> {
                let c = #[trigger] candidates[i];
                c.exists && c.config == config_of(app.tabs)[i]
            },
    ensures
        ({
            let again = AppView::<C>::empty().load(candidates);
            &&& again.tabs.len() == app.tabs.len()
            &&& forall|i: int|
                #![trigger again.tabs[i]]
                0 <= i < app.tabs.len() ==> again.tabs[i].path == app.tabs[i].path
                    && again.tabs[i].custom_name == shown_name(
                    app.tabs[i].custom_name,
                    candidates[i].name,
                )
            &&& (forall|i: int|
                0 <= i < app.tabs.len() ==> (#[trigger] app.tabs[i]).custom_name.len() > 0)
                ==> config_of(again.tabs) == config_of(app.tabs)
        }),
{
    let again = AppView::<C>::empty().load(candidates);
    load_opens_what_exists::<C>(candidates);
    lemma_filter_all(candidates, |c: CandidateView| c.exists);
    assert(again.tabs.len() == config_of(again.tabs).len());
    assert forall|i: int| #![trigger again.tabs[i]] 0 <= i < app.tabs.len() implies again.tabs[i].path
        == app.tabs[i].path && again.tabs[i].custom_name == shown_name(
        app.tabs[i].custom_name,
        candidates[i].name,
    ) by {
        assert(config_of(again.tabs)[i] == again.tabs[i].config());
        assert(candidates[i].config == app.tabs[i].config());
    }
    if forall|i: int| 0 <= i < app.tabs.len() ==> (#[trigger] app.tabs[i]).custom_name.len() > 0 {
        assert forall|i: int| 0 <= i < app.tabs.len() implies #[trigger] config_of(again.tabs)[i]
            == config_of(app.tabs)[i] by {
            assert(again.tabs[i].path == app.tabs[i].path);
            assert(app.tabs[i].custom_name.len() > 0);
        }
        assert(config_of(again.tabs) =~= config_of(app.tabs));
    }
}

/// A filter that every element passes keeps the whole sequence.
proof fn lemma_filter_all<A>(s: Seq<A>, pred: spec_fn(A) -> bool)
    requires
        forall|i: int| 0 <= i < s.len() ==> pred(#[trigger] s[i]),
    ensures
        s.filter(pred) == s,
    decreases s.len(),
{
    reveal(Seq::filter);
    if s.len() > 0 {
        lemma_filter_all(s.drop_last(), pred);
        assert(pred(s[s.len() - 1]));
        assert(s.drop_last().push(s.last()) =~= s);
    }
}

/// Importing leaves the tabs that are open where they are, as they are, and the selection too.
pub proof fn import_keeps_tabs<C>(app: AppView<C>, candidates: Seq<CandidateView>)
    ensures
        ({
            let after = app.import(candidates);
            &&& app.tabs.is_prefix_of(after.tabs)
            &&& app.flags.is_prefix_of(after.flags)
            &&& after == (AppView { tabs: after.tabs, flags: after.flags, ..app })
        }),
    decreases candidates.len(),
{
    if candidates.len() > 0 {
        import_keeps_tabs(app, candidates.drop_last());
    }
}

/// After an import every configured file that exists is open, and every tab that was not open
/// before is one of them.
pub proof fn import_opens_what_exists<C>(app: AppView<C>, candidates: Seq<CandidateView>)
    ensures
        ({
            let after = app.import(candidates);
            &&& forall|i: int|
                0 <= i < candidates.len() && (#[trigger] candidates[i]).exists ==> has_path(
                    after.tabs,
                    candidates[i].config.path,
                )
            &&& forall|k: int|
                app.tabs.len() <= k < after.tabs.len() ==> exists|i: int|
                    0 <= i < candidates.len() && (#[trigger] candidates[i]).exists
                        && (#[trigger] after.tabs[k]).path == candidates[i].config.path
                        && after.tabs[k].custom_name == candidates[i].shown_name()
        }),
    decreases candidates.len(),
{
    if candidates.len() > 0 {
        let most = candidates.drop_last();
        let middle = app.import(most);
        let after = app.import(candidates);
        let last = candidates.last();
        import_opens_what_exists(app, most);
        import_keeps_tabs(app, most);
        assert forall|i: int| 0 <= i < candidates.len() && (#[trigger] candidates[i]).exists implies has_path(
            after.tabs,
            candidates[i].config.path,
        ) by {
            if i < most.len() {
                assert(most[i].exists);
                let k = choose|k: int|
                    0 <= k < middle.tabs.len() && (#[trigger] middle.tabs[k]).path
                        == candidates[i].config.path;
                assert(after.tabs[k] == middle.tabs[k]);
            } else if !has_path(middle.tabs, last.config.path) {
                assert(after.tabs[middle.tabs.len() as int].path == last.config.path);
            }
        }
        assert forall|k: int| app.tabs.len() <= k < after.tabs.len() implies exists|i: int|
            0 <= i < candidates.len() && (#[trigger] candidates[i]).exists
                && (#[trigger] after.tabs[k]).path == candidates[i].config.path
                && after.tabs[k].custom_name == candidates[i].shown_name() by {
            if k < middle.tabs.len() {
                assert(after.tabs[k] == middle.tabs[k]);
                let i = choose|i: int|
                    0 <= i < most.len() && (#[trigger] most[i]).exists
                        && (#[trigger] middle.tabs[k]).path == most[i].config.path
                        && middle.tabs[k].custom_name == most[i].shown_name();
                assert(candidates[i] == most[i]);
            } else {
                assert(candidates[candidates.len() - 1] == last);
            }
        }
    }
}

/// Importing the same configuration a second time changes nothing.
pub proof fn import_twice<C>(app: AppView<C>, candidates: Seq<CandidateView>)
    ensures
        app.import(candidates).import(candidates) == app.import(candidates),
{
    import_opens_what_exists(app, candidates);
    lemma_import_nothing_new(app.import(candidates), candidates);
}

/// What is open already is not imported.
proof fn lemma_import_nothing_new<C>(app: AppView<C>, candidates: Seq<CandidateView>)
    requires
        forall|i: int|
            0 <= i < candidates.len() && (#[trigger] candidates[i]).exists ==> has_path(
                app.tabs,
                candidates[i].config.path,
            ),
    ensures
        app.import(candidates) == app,
    decreases candidates.len(),
{
    if candidates.len() > 0 {
        let most = candidates.drop_last();
        assert forall|i: int| 0 <= i < most.len() && (#[trigger] most[i]).exists implies has_path(
            app.tabs,
            most[i].config.path,
        ) by {
            assert(most[i] == candidates[i]);
        }
        lemma_import_nothing_new(app, most);
        assert(candidates[candidates.len() - 1] == candidates.last());
    }
}

/// Importing into an empty list does what loading does, if the paths are different: a
/// configuration that was exported opens the same tabs elsewhere.
pub proof fn import_into_empty_is_load<C>(candidates: Seq<CandidateView>)
    requires
        forall|i: int, j: int|
            #![trigger candidates[i], candidates[j]]
            0 <= i < j < candidates.len() ==> candidates[i].config.path
                != candidates[j].config.path,
    ensures
        AppView::<C>::empty().import(candidates) == AppView::<C>::empty().load(candidates),
    decreases candidates.len(),
{
    if candidates.len() > 0 {
        let most = candidates.drop_last();
        let last = candidates.last();
        assert forall|i: int, j: int|
            #![trigger most[i], most[j]]
            0 <= i < j < most.len() implies most[i].config.path != most[j].config.path by {
            assert(most[i] == candidates[i] && most[j] == candidates[j]);
        }
        import_into_empty_is_load::<C>(most);
        lemma_load_paths::<C>(most);
        let tabs = AppView::<C>::empty().load(most).tabs;
        if has_path(tabs, last.config.path) {
            let k = choose|k: int|
                0 <= k < tabs.len() && (#[trigger] tabs[k]).path == last.config.path;
            let i = choose|i: int|
                0 <= i < most.len() && (#[trigger] most[i]).config.path == (
                #[trigger] tabs[k]).path;
            assert(candidates[i] == most[i]);
            assert(candidates[candidates.len() - 1] == last);
        }
    }
}

/// Adding a batch file selects a tab with its path, the first there is; the tabs that were open
/// stay as they are, and at most one is opened.
pub proof fn added_file_is_selected<C>(app: AppView<C>, file: NamedFileView)
    requires
        is_batch_path(file.path),
        app.tabs.len() < usize::MAX,
    ensures
        ({
            let after = app.add_file(file);
            &&& after.active_tab matches Some(a) && a < after.tabs.len() && after.tabs[a as int].path
                == file.path && forall|j: int|
                0 <= j < a ==> (#[trigger] after.tabs[j]).path != file.path
            &&& app.tabs.is_prefix_of(after.tabs)
            &&& after.tabs.len() <= app.tabs.len() + 1
        }),
{
    first_tab_with_path(app.tabs, file.path);
    let after = app.add_file(file);
    if !has_path(app.tabs, file.path) {
        assert forall|j: int| 0 <= j < app.tabs.len() implies (#[trigger] after.tabs[j]).path
            != file.path by {
            assert(after.tabs[j] == app.tabs[j]);
        }
    }
}

/// Adding a file a second time changes nothing.
pub proof fn add_file_twice<C>(app: AppView<C>, file: NamedFileView)
    requires
        app.tabs.len() < usize::MAX,
    ensures
        app.add_file(file).add_file(file) == app.add_file(file),
{
    if is_batch_path(file.path) {
        let after = app.add_file(file);
        added_file_is_selected(app, file);
        first_tab_with_path(app.tabs, file.path);
        first_tab_with_path(after.tabs, file.path);
        let a = after.active_tab->0;
        assert(after.tabs[a as int].path == file.path);
        assert(has_path(after.tabs, file.path));
        assert(tabs_before(after.tabs, file.path) == a);
        assert(after.add_file(file) =~= after);
    }
}

/// Closing the tab that was just opened leaves the tabs there were.
pub proof fn close_undoes_add<C>(app: AppView<C>, file: NamedFileView)
    requires
        app.opens(file),
        app.tabs.len() < usize::MAX,
    ensures
        app.add_file(file).close(app.tabs.len() as usize).tabs == app.tabs,
{
    assert(app.add_file(file).close(app.tabs.len() as usize).tabs =~= app.tabs);
}

/// Tabs with different paths stay so, whatever is done.
pub proof fn paths_stay_distinct<C>(
    app: AppView<C>,
    file: NamedFileView,
    c: CandidateView,
    idx: usize,
    name: Seq<char>,
    id: nat,
    line: Seq<char>,
    flag: int,
    child: C,
)
    requires
        distinct_paths(app.tabs),
    ensures
        distinct_paths(app.add_file(file).tabs),
        distinct_paths(app.import_one(c).tabs),
        distinct_paths(app.close(idx).tabs),
        distinct_paths(app.clear().tabs),
        distinct_paths(app.run(idx as int).tabs),
        distinct_paths(app.stop(idx as int).tabs),
        distinct_paths(app.stop_all().tabs),
        distinct_paths(app.poll().tabs),
        distinct_paths(app.rename(idx as int, name).tabs),
        distinct_paths(app.stdout_line(id, line).tabs),
        distinct_paths(app.stderr_line(id, line).tabs),
        distinct_paths(app.finished(flag).tabs),
        idx < app.tabs.len() ==> distinct_paths(app.launched(idx as int, child).tabs),
        idx < app.tabs.len() ==> distinct_paths(app.launch_failed(idx as int, line).tabs),
{
}

/// Importing a whole configuration keeps different paths different.
pub proof fn import_keeps_paths_distinct<C>(app: AppView<C>, candidates: Seq<CandidateView>)
    requires
        distinct_paths(app.tabs),
    ensures
        distinct_paths(app.import(candidates).tabs),
    decreases candidates.len(),
{
    if candidates.len() > 0 {
        import_keeps_paths_distinct(app, candidates.drop_last());
    }
}

/// A configuration with different paths opens tabs with different paths.
pub proof fn load_keeps_paths_distinct<C>(candidates: Seq<CandidateView>)
    requires
        forall|i: int, j: int|
            #![trigger candidates[i], candidates[j]]
            0 <= i < j < candidates.len() ==> candidates[i].config.path
                != candidates[j].config.path,
    ensures
        distinct_paths(AppView::<C>::empty().load(candidates).tabs),
{
    lemma_load_paths::<C>(candidates);
}

/// The paths of loaded tabs are different, and each is one of those configured.
proof fn lemma_load_paths<C>(candidates: Seq<CandidateView>)
    requires
        forall|i: int, j: int|
            #![trigger candidates[i], candidates[j]]
            0 <= i < j < candidates.len() ==> candidates[i].config.path
                != candidates[j].config.path,
    ensures
        ({
            let tabs = AppView::<C>::empty().load(candidates).tabs;
            &&& distinct_paths(tabs)
            &&& forall|k: int|
                0 <= k < tabs.len() ==> exists|i: int|
                    0 <= i < candidates.len() && (#[trigger] candidates[i]).config.path
                        == (#[trigger] tabs[k]).path
        }),
    decreases candidates.len(),
{
    if candidates.len() > 0 {
        let most = candidates.drop_last();
        let last = candidates.last();
        assert forall|i: int, j: int|
            #![trigger most[i], most[j]]
            0 <= i < j < most.len() implies most[i].config.path != most[j].config.path by {
            assert(most[i] == candidates[i] && most[j] == candidates[j]);
        }
        lemma_load_paths::<C>(most);
        let before = AppView::<C>::empty().load(most).tabs;
        let tabs = AppView::<C>::empty().load(candidates).tabs;
        assert forall|k: int| 0 <= k < before.len() implies (#[trigger] before[k]).path
            != last.config.path by {
            let i = choose|i: int|
                0 <= i < most.len() && (#[trigger] most[i]).config.path == (
                #[trigger] before[k]).path;
            assert(candidates[i] == most[i]);
            assert(candidates[candidates.len() - 1] == last);
        }
        assert forall|k: int| 0 <= k < tabs.len() implies exists|i: int|
            0 <= i < candidates.len() && (#[trigger] candidates[i]).config.path == (
            #[trigger] tabs[k]).path by {
            if k < before.len() {
                assert(tabs[k] == before[k]);
                let i = choose|i: int|
                    0 <= i < most.len() && (#[trigger] most[i]).config.path == (
                    #[trigger] before[k]).path;
                assert(candidates[i] == most[i]);
            } else {
                assert(candidates[candidates.len() - 1] == last);
            }
        }
    }
}

/// The selection stays among the tabs, whatever is done.
pub proof fn selection_stays_in_range<C>(
    app: AppView<C>,
    file: NamedFileView,
    c: CandidateView,
    idx: usize,
    name: Seq<char>,
    id: nat,
    line: Seq<char>,
    flag: int,
    child: C,
)
    requires
        active_in_range(app),
        app.tabs.len() < usize::MAX,
    ensures
        active_in_range(app.add_file(file)),
        active_in_range(app.import_one(c)),
        active_in_range(app.close(idx)),
        active_in_range(app.clear()),
        active_in_range(app.run(idx as int)),
        active_in_range(app.stop(idx as int)),
        active_in_range(app.stop_all()),
        active_in_range(app.poll()),
        active_in_range(app.rename(idx as int, name)),
        active_in_range(app.stdout_line(id, line)),
        active_in_range(app.stderr_line(id, line)),
        active_in_range(app.finished(flag)),
        idx < app.tabs.len() ==> active_in_range(app.launched(idx as int, child)),
        idx < app.tabs.len() ==> active_in_range(app.launch_failed(idx as int, line)),
{
    first_tab_with_path(app.tabs, file.path);
}

/// Doing what was clicked keeps the selection among the tabs, if the tab to run is there.
pub proof fn steps_keep_selection_in_range<C>(app: AppView<C>, requests: FrameRequestsView)
    requires
        active_in_range(app),
        requests.close is None && requests.run is Some ==> requests.run->0 < app.tabs.len(),
    ensures
        active_in_range(after_step(app, requests).0),
{
}

/// Closing another tab than the selected one keeps that one selected, wherever it now stands.
pub proof fn close_keeps_selected_tab<C>(app: AppView<C>, idx: usize)
    requires
        active_in_range(app),
        app.active_tab is Some,
        app.active_tab != Some(idx),
        idx < app.tabs.len(),
    ensures
        app.close(idx).active_tab matches Some(a) && a < app.close(idx).tabs.len()
            && app.close(idx).tabs[a as int] == app.tabs[app.active_tab->0 as int],
{
}

/// Closing the selected tab selects the one behind it, or else the one before; after the last
/// tab nothing is selected.
pub proof fn close_selected_tab<C>(app: AppView<C>, idx: usize)
    requires
        idx < app.tabs.len(),
        app.active_tab == Some(idx),
    ensures
        ({
            let after = app.close(idx);
            if app.tabs.len() == 1 {
                after.active_tab is None
            } else {
                after.active_tab matches Some(a) && a < after.tabs.len() && after.tabs[a as int]
                    == if idx + 1 < app.tabs.len() {
                    app.tabs[idx + 1]
                } else {
                    app.tabs[idx - 1]
                }
            }
        }),
{
}

/// Tabs run independently: what is done to one leaves every other as it is.
pub proof fn other_tabs_are_left_alone<C>(
    app: AppView<C>,
    idx: int,
    i: int,
    child: C,
    text: Seq<char>,
)
    requires
        0 <= idx < app.tabs.len(),
        0 <= i < app.tabs.len(),
        i != idx,
    ensures
        app.run(idx).tabs[i] == app.tabs[i],
        app.launched(idx, child).tabs[i] == app.tabs[i],
        app.launch_failed(idx, text).tabs[i] == app.tabs[i],
        app.stop(idx).tabs[i] == app.tabs[i],
        app.rename(idx, text).tabs[i] == app.tabs[i],
{
}

/// A run whose end was noted is done at the next poll; its console is closed once and its
/// command is let go.
pub proof fn own_end_completes_run<C>(app: AppView<C>, idx: int)
    requires
        app.wf(),
        0 <= idx < app.tabs.len(),
    ensures
        ({
            let run = app.run(idx);
            let flag = run.tabs[idx].done_flag;
            let tab = run.finished(flag as int).poll().tabs[idx];
            &&& run.tabs[idx].running
            &&& !tab.running && tab.done && tab.child is None
            &&& tab.output == header(app.tabs[idx].custom_name, app.tabs[idx].path) + footer()
        }),
{
}

/// The end of one run says nothing of another: at a poll, a tab is as if a flag that is not its
/// own had not been set.
pub proof fn other_end_is_ignored<C>(app: AppView<C>, flag: int, i: int)
    requires
        app.wf(),
        0 <= i < app.tabs.len(),
        flag != app.tabs[i].done_flag,
    ensures
        app.finished(flag).poll().tabs[i] == app.poll().tabs[i],
{
}

/// The end of an earlier run does not end the present one.
pub proof fn earlier_end_is_ignored<C>(app: AppView<C>, idx: int, flag: int)
    requires
        app.wf(),
        0 <= idx < app.tabs.len(),
        0 <= flag < app.flags.len(),
    ensures
        app.run(idx).finished(flag).poll().tabs[idx] == app.run(idx).tabs[idx],
        app.run(idx).tabs[idx].running,
{
}

/// A poll right after a poll changes nothing.
pub proof fn poll_twice<C>(app: AppView<C>)
    ensures
        app.poll().poll() == app.poll(),
{
    assert(app.poll().poll() =~= app.poll());
}

/// A stopped tab holds no command, does not run, and no end of a run completes it.
pub proof fn stopped_tab_stays_stopped<C>(app: AppView<C>, idx: int, flag: int)
    requires
        0 <= idx < app.tabs.len(),
    ensures
        ({
            let stopped = app.stop(idx);
            &&& !stopped.tabs[idx].running && stopped.tabs[idx].child is None
            &&& stopped.tabs[idx].output == app.tabs[idx].output
            &&& stopped.finished(flag).poll().tabs[idx] == stopped.tabs[idx]
            &&& stopped.stop(idx) == stopped
        }),
{
    assert(app.stop(idx).stop(idx) =~= app.stop(idx));
}

/// After all tabs were stopped none runs and none holds a command.
pub proof fn stop_all_stops_all<C>(app: AppView<C>)
    ensures
        running_of(app.stop_all().tabs).len() == 0,
        children_of(app.stop_all().tabs).len() == 0,
        config_of(app.stop_all().tabs) == config_of(app.tabs),
{
    lemma_none_run(app.stop_all().tabs);
    assert(config_of(app.stop_all().tabs) =~= config_of(app.tabs));
}

/// Tabs of which none runs or holds a command.
proof fn lemma_none_run<C>(tabs: Seq<TabView<C>>)
    requires
        forall|i: int|
            0 <= i < tabs.len() ==> !(#[trigger] tabs[i]).running && tabs[i].child is None,
    ensures
        running_of(tabs).len() == 0,
        children_of(tabs).len() == 0,
    decreases tabs.len(),
{
    reveal(Seq::filter);
    if tabs.len() > 0 {
        let last = tabs[tabs.len() - 1];
        assert(!last.running && last.child is None);
        lemma_none_run(tabs.drop_last());
    }
}

/// A line goes to its tab alone and changes nothing of it but the console.
pub proof fn lines_go_to_one_tab<C>(app: AppView<C>, id: nat, line: Seq<char>, i: int)
    requires
        0 <= i < app.tabs.len(),
    ensures
        ({
            let tab = app.tabs[i];
            &&& app.stdout_line(id, line).tabs[i] == if tab.id == id {
                TabView { output: trimmed(tab.output + line + "\r\n"@), ..tab }
            } else {
                tab
            }
            &&& app.stderr_line(id, line).tabs[i] == if tab.id == id {
                TabView { output: tab.output + line + "\r\n"@, ..tab }
            } else {
                tab
            }
        }),
{
}

/// After a line from the standard output the console is within its limit, and a line that fits
/// into what is kept stands whole at its end.
pub proof fn console_keeps_newest_line<C>(app: AppView<C>, id: nat, line: Seq<char>, i: int)
    requires
        0 <= i < app.tabs.len(),
        app.tabs[i].id == id,
        trims_cleanly(app.tabs[i].output + line + "\r\n"@),
    ensures
        ({
            let output = app.stdout_line(id, line).tabs[i].output;
            &&& byte_len(output) <= OUTPUT_LIMIT
            &&& byte_len(line + "\r\n"@) <= OUTPUT_KEEP ==> (line + "\r\n"@).is_suffix_of(output)
        }),
{
    let whole = app.tabs[i].output + line + "\r\n"@;
    let newest = line + "\r\n"@;
    let output = trimmed(whole);
    trimmed_is_bounded_suffix(whole);
    assert(whole =~= app.tabs[i].output + newest);
    if byte_len(newest) <= OUTPUT_KEEP {
        if output.len() < newest.len() {
            let front = newest.take(newest.len() - output.len());
            assert(newest =~= front + output);
            lemma_encode_concat(front, output);
            lemma_encode_not_empty(front);
        }
        assert(newest.is_suffix_of(output));
    }
}

/// The lines of a tab that was closed go nowhere.
pub proof fn closed_tab_takes_no_lines<C>(app: AppView<C>, idx: usize, line: Seq<char>)
    requires
        app.wf(),
        idx < app.tabs.len(),
    ensures
        app.close(idx).stdout_line(app.tabs[idx as int].id, line) == app.close(idx),
        app.close(idx).stderr_line(app.tabs[idx as int].id, line) == app.close(idx),
{
    let after = app.close(idx);
    let id = app.tabs[idx as int].id;
    assert forall|i: int| 0 <= i < after.tabs.len() implies (#[trigger] after.tabs[i]).id != id by {
        let from = if i < idx { i } else { i + 1 };
        assert(after.tabs[i] == app.tabs[from]);
        assert(app.tabs[idx as int].id == id);
    }
    assert(after.stdout_line(id, line) =~= after);
    assert(after.stderr_line(id, line) =~= after);
}

/// Whether the end of a stream is among the reads.
pub open spec fn has_ended(events: Seq<(Stream, ReadEventView)>, stream: Stream) -> bool {
    exists|i: int|
        0 <= i < events.len() && (#[trigger] events[i]).0 == stream && events[i].1 is End
}

/// The lines that were read from streams that had not ended, in the order in which they came,
/// each with its line end.
pub open spec fn written(events: Seq<(Stream, ReadEventView)>) -> Seq<char>
    decreases events.len(),
{
    if events.len() == 0 {
        Seq::empty()
    } else {
        let before = written(events.drop_last());
        let (stream, event) = events.last();
        match event {
            ReadEventView::Line(line) => if has_ended(events.drop_last(), stream) {
                before
            } else {
                before + line + "\r\n"@
            },
            _ => before,
        }
    }
}

/// Whether nothing had to be cut: behind `head`, the text was within its limit after each line
/// of the standard output.
pub open spec fn uncut(head: Seq<char>, events: Seq<(Stream, ReadEventView)>) -> bool
    decreases events.len(),
{
    events.len() > 0 ==> {
        &&& uncut(head, events.drop_last())
        &&& events.last().0 == Stream::Stdout && events.last().1 is Line && !has_ended(
            events.drop_last(),
            Stream::Stdout,
        ) ==> byte_len(head + written(events)) <= OUTPUT_LIMIT
    }
}

/// A run shows what its command wrote, in the order in which it came: the heading and the lines
/// of both streams, as long as nothing had to be cut. It goes on until both streams have ended;
/// then the closing lines follow and the tab is done.
pub proof fn run_shows_what_was_written<C>(
    app: AppView<C>,
    idx: int,
    child: C,
    events: Seq<(Stream, ReadEventView)>,
)
    requires
        app.wf(),
        0 <= idx < app.tabs.len(),
        app.flags.len() < usize::MAX,
        uncut(header(app.tabs[idx].custom_name, app.tabs[idx].path), events),
    ensures
        ({
            let tab = app.tabs[idx];
            let reader = Reader {
                id: tab.id as usize,
                done_flag: app.flags.len() as usize,
                stdout_open: true,
                stderr_open: true,
            };
            let run = app.run(idx).launched(idx, child);
            let shown = after_reads(run, reader, events).0.poll().tabs[idx];
            let text = header(tab.custom_name, tab.path) + written(events);
            if has_ended(events, Stream::Stdout) && has_ended(events, Stream::Stderr) {
                &&& shown.output == text + footer()
                &&& shown.done && !shown.running && shown.child is None
            } else {
                &&& shown.output == text
                &&& shown.running && !shown.done && shown.child == Some(child)
            }
        }),
{
    let tab = app.tabs[idx];
    let reader = Reader {
        id: tab.id as usize,
        done_flag: app.flags.len() as usize,
        stdout_open: true,
        stderr_open: true,
    };
    let run = app.run(idx).launched(idx, child);
    lemma_reads(run, reader, idx, events);
}

/// What reads make of a run that was just started.
proof fn lemma_reads<C>(
    run: AppView<C>,
    reader: Reader,
    idx: int,
    events: Seq<(Stream, ReadEventView)>,
)
    requires
        0 <= idx < run.tabs.len(),
        run.tabs[idx].id == reader.id,
        run.tabs[idx].done_flag == reader.done_flag,
        reader.done_flag < run.flags.len(),
        !run.flags[reader.done_flag as int],
        reader.stdout_open && reader.stderr_open,
        uncut(run.tabs[idx].output, events),
    ensures
        ({
            let (after, r) = after_reads(run, reader, events);
            &&& r.id == reader.id && r.done_flag == reader.done_flag
            &&& r.stdout_open == !has_ended(events, Stream::Stdout)
            &&& r.stderr_open == !has_ended(events, Stream::Stderr)
            &&& after.tabs.len() == run.tabs.len()
            &&& after.flags.len() == run.flags.len()
            &&& after.flags[reader.done_flag as int] == r.ended()
            &&& after.tabs[idx] == (TabView {
                output: run.tabs[idx].output + written(events),
                ..run.tabs[idx]
            })
        }),
    decreases events.len(),
{
    let head = run.tabs[idx].output;
    if events.len() == 0 {
        assert(head + written(events) =~= head);
    } else {
        let most = events.drop_last();
        let (stream, event) = events.last();
        lemma_reads(run, reader, idx, most);
        assert forall|s: Stream| #[trigger] has_ended(events, s) == (has_ended(most, s) || (s
            == stream && event is End)) by {
            if has_ended(most, s) {
                let i = choose|i: int|
                    0 <= i < most.len() && (#[trigger] most[i]).0 == s && most[i].1 is End;
                assert(events[i] == most[i]);
            }
            if has_ended(events, s) {
                let i = choose|i: int|
                    0 <= i < events.len() && (#[trigger] events[i]).0 == s && events[i].1 is End;
                if i < most.len() {
                    assert(most[i] == events[i]);
                }
            }
            assert(events[events.len() - 1] == events.last());
        }
        if let ReadEventView::Line(line) = event {
            assert(head + (written(most) + line + "\r\n"@) =~= head + written(most) + line
                + "\r\n"@);
        }
    }
}

/// What is written to the standard error is shown at once: its line stands at the end of the
/// console, whatever the standard output does, and the tab goes on running.
pub proof fn errors_are_shown_at_once<C>(
    app: AppView<C>,
    reader: Reader,
    line: Seq<char>,
    i: int,
)
    requires
        0 <= i < app.tabs.len(),
        app.tabs[i].id == reader.id,
        app.tabs[i].running,
        !app.flags[app.tabs[i].done_flag as int],
        reader.stderr_open,
    ensures
        ({
            let (after, r) = after_read(app, reader, Stream::Stderr, ReadEventView::Line(line));
            &&& after.tabs[i] == (TabView {
                output: app.tabs[i].output + line + "\r\n"@,
                ..app.tabs[i]
            })
            &&& after.poll().tabs[i] == after.tabs[i]
            &&& r == reader
        }),
{
}

/// The end of one stream while the other is open ends no run.
pub proof fn one_stream_ends_no_run<C>(
    app: AppView<C>,
    reader: Reader,
    stream: Stream,
    event: ReadEventView,
)
    requires
        !reader.closed(stream).ended(),
    ensures
        after_read(app, reader, stream, event).0.flags == app.flags,
{
}

/// Renaming changes one name in the configuration and nothing else.
pub proof fn rename_is_saved<C>(app: AppView<C>, idx: int, name: Seq<char>)
    requires
        0 <= idx < app.tabs.len(),
        name.len() > 0,
    ensures
        config_of(app.rename(idx, name).tabs) == config_of(app.tabs).update(
            idx,
            (TabConfigView { path: app.tabs[idx].path, custom_name: name }),
        ),
{
    assert(config_of(app.rename(idx, name).tabs) =~= config_of(app.tabs).update(
        idx,
        (TabConfigView { path: app.tabs[idx].path, custom_name: name }),
    ));
}

/// What is done without writing the configuration leaves it as it is. (The rest, opening,
/// closing, importing and renaming, hands out the configuration to write.)
pub proof fn unsaved_changes_keep_config<C>(
    app: AppView<C>,
    file: NamedFileView,
    idx: usize,
    id: nat,
    line: Seq<char>,
    flag: int,
    child: C,
)
    ensures
        !app.opens(file) ==> config_of(app.add_file(file).tabs) == config_of(app.tabs),
        idx >= app.tabs.len() ==> config_of(app.close(idx).tabs) == config_of(app.tabs),
        config_of(app.rename(idx as int, Seq::empty()).tabs) == config_of(app.tabs),
        config_of(app.select(idx).tabs) == config_of(app.tabs),
        config_of(app.run(idx as int).tabs) == config_of(app.tabs),
        config_of(app.stop(idx as int).tabs) == config_of(app.tabs),
        config_of(app.poll().tabs) == config_of(app.tabs),
        config_of(app.finished(flag).tabs) == config_of(app.tabs),
        config_of(app.stdout_line(id, line).tabs) == config_of(app.tabs),
        config_of(app.stderr_line(id, line).tabs) == config_of(app.tabs),
        idx < app.tabs.len() ==> config_of(app.launched(idx as int, child).tabs) == config_of(
            app.tabs,
        ),
        idx < app.tabs.len() ==> config_of(app.launch_failed(idx as int, line).tabs) == config_of(
            app.tabs,
        ),
{
    assert(config_of(app.run(idx as int).tabs) =~= config_of(app.tabs));
    assert(config_of(app.stop(idx as int).tabs) =~= config_of(app.tabs));
    assert(config_of(app.poll().tabs) =~= config_of(app.tabs));
    assert(config_of(app.stdout_line(id, line).tabs) =~= config_of(app.tabs));
    assert(config_of(app.stderr_line(id, line).tabs) =~= config_of(app.tabs));
    if idx < app.tabs.len() {
        assert(config_of(app.launched(idx as int, child).tabs) =~= config_of(app.tabs));
        assert(config_of(app.launch_failed(idx as int, line).tabs) =~= config_of(app.tabs));
    }
}

/// After every tab was closed there is none, nothing is selected, and the configuration that is
/// written last is empty.
pub proof fn cleared_configuration_is_empty<C>(app: AppView<C>, closed: Seq<Closed<C>>)
    requires
        app.tabs.len() > 0,
        cleared_fits(closed, app),
    ensures
        app.clear().tabs.len() == 0,
        app.clear().active_tab is None,
        saved(closed.last().save) == Some(Seq::<TabConfigView>::empty()),
{
    assert(closed[closed.len() - 1] == closed.last());
    assert(config_of(app.tabs.take(0)) =~= Seq::<TabConfigView>::empty());
}

/// No click on a card closes a tab: the button on it only asks, and the tabs stay as they are.
pub proof fn cards_close_nothing<C>(
    app: AppView<C>,
    requests: FrameRequestsView,
    i: usize,
    event: CardEvent,
)
    ensures
        after_card_event(app, requests, i, event).0.tabs == app.tabs,
        after_card_event(app, requests, i, event).1.close == requests.close,
        event is Close ==> after_card_event(app, requests, i, event).0.confirm_delete == Some(i),
{
}

/// What happens to a card that is there keeps the selection among the tabs.
pub proof fn card_events_keep_selection_in_range<C>(
    app: AppView<C>,
    requests: FrameRequestsView,
    i: usize,
    event: CardEvent,
)
    requires
        active_in_range(app),
        i < app.tabs.len(),
    ensures
        active_in_range(after_card_event(app, requests, i, event).0),
{
}

/// How much is left to do of what was clicked.
pub open spec fn requests_left(requests: FrameRequestsView) -> int {
    (if requests.close is Some { 1int } else { 0 }) + (if requests.run is Some { 1int } else { 0 })
        + (if requests.stop is Some { 1int } else { 0 }) + (if requests.rename is Some {
        1int
    } else {
        0
    })
}

/// Each step does one of the things that were clicked, until none is left.
pub proof fn each_step_does_one_request<C>(app: AppView<C>, requests: FrameRequestsView)
    ensures
        0 <= requests_left(requests) <= 4,
        requests_left(requests) > 0 ==> requests_left(after_step(app, requests).1)
            == requests_left(requests) - 1,
        requests_left(requests) == 0 ==> after_step(app, requests) == (app, requests),
{
}

} // verus!
