//! What becomes of what is clicked and typed in a frame.

use vstd::prelude::*;

use super::{has_ended, uncut, written};
use crate::app::frame::{
    after_card_event, after_step, pane_fits, step_fits, CardEvent, FrameRequests,
    FrameRequestsView, FrameStep, Pane,
};
use crate::app::reader::{after_reads, ReadEventView, Reader, Stream};
use crate::app::run::Launch;
use crate::model::{AppView, TabView};
use crate::output::{footer, header, rule};

verus! {

/// The values of what was clicked are its own.
pub proof fn request_values(requests: FrameRequests)
    ensures
        requests@.close == requests.close,
        requests@.run == requests.run,
        requests@.stop == requests.stop,
        requests.rename is None ==> requests@.rename is None,
        requests.rename matches Some((i, name)) ==> requests@.rename == Some((i, name@)),
{
}

/// A text typed into the name field of a card stands in that field and asks for the tab of that
/// card to be renamed to it. Nothing else changes and nothing else is asked for.
pub proof fn typed_name_is_for_its_tab<C>(
    app: AppView<C>,
    requests: FrameRequestsView,
    i: usize,
    event: CardEvent,
)
    requires
        event is NameChanged,
    ensures
        ({
            let text = event->NameChanged_0@;
            let (after, asked) = after_card_event(app, requests, i, event);
            &&& asked.rename == Some((i, text))
            &&& asked == (FrameRequestsView { rename: asked.rename, ..requests })
            &&& after.edit_text(i) == text
            &&& forall|j: usize| j != i ==> #[trigger] after.edit_text(j) == app.edit_text(j)
            &&& after.edit_buffers == app.edit_buffers.insert(i, text)
            &&& after == (AppView { edit_buffers: after.edit_buffers, ..app })
        }),
{
}

/// The button of a card asks for its tab to be stopped if it runs, else for it to be run.
/// Nothing changes yet and nothing else is asked for.
pub proof fn button_runs_or_stops<C>(
    app: AppView<C>,
    requests: FrameRequestsView,
    i: usize,
    event: CardEvent,
)
    requires
        i < app.tabs.len(),
        event is RunStop,
    ensures
        ({
            let (after, asked) = after_card_event(app, requests, i, event);
            &&& after == app
            &&& app.tabs[i as int].running ==> asked.stop == Some(i) && asked == (
            FrameRequestsView { stop: asked.stop, ..requests })
            &&& !app.tabs[i as int].running ==> asked.run == Some(i) && asked == (
            FrameRequestsView { run: asked.run, ..requests })
        }),
{
}

/// The other clicks on a card: its cross puts the question for that tab, the card itself selects
/// its tab. Nothing else changes and nothing is asked for.
pub proof fn clicks_ask_or_select<C>(
    app: AppView<C>,
    requests: FrameRequestsView,
    i: usize,
    event: CardEvent,
)
    requires
        event is Close || event is Select,
    ensures
        ({
            let (after, asked) = after_card_event(app, requests, i, event);
            &&& asked == requests
            &&& event is Close ==> after.confirm_delete == Some(i) && after == (AppView {
                confirm_delete: after.confirm_delete,
                ..app
            })
            &&& event is Close && i < app.tabs.len() ==> after.asks()
            &&& event is Select ==> after.active_tab == Some(i) && after == (AppView {
                active_tab: after.active_tab,
                ..app
            })
        }),
{
}

/// The question is put exactly while the tab that it is about is there.
pub proof fn question_is_about_a_tab<C>(app: AppView<C>)
    ensures
        app.confirm_delete is None ==> !app.asks(),
        app.confirm_delete matches Some(i) ==> app.asks() == (i < app.tabs.len()),
{
}

/// The name field of a card shows what was last put into it, or else the name of the tab; what
/// is put into one field changes no other and nothing else.
pub proof fn name_fields_are_separate<C>(app: AppView<C>, i: usize, j: usize, text: Seq<char>)
    ensures
        !app.edit_buffers.contains_key(i) ==> app.edit_text(i) == app.tabs[i as int].custom_name,
        app.edit_buffers.contains_key(i) ==> app.edit_text(i) == app.edit_buffers[i],
        ({
            let after = app.set_edit_text(i, text);
            &&& after.edit_text(i) == text
            &&& after.edit_buffers.contains_key(i)
            &&& j != i ==> after.edit_text(j) == app.edit_text(j)
                && after.edit_buffers.contains_key(j) == app.edit_buffers.contains_key(j)
            &&& after == (AppView { edit_buffers: after.edit_buffers, ..app })
        }),
{
}

/// Selecting a tab changes the selection and nothing else.
pub proof fn select_changes_the_selection<C>(app: AppView<C>, i: usize)
    ensures
        app.select(i).active_tab == Some(i),
        app.select(i) == (AppView { active_tab: app.select(i).active_tab, ..app }),
{
}

/// A request to close is done first: the tab is closed, and the other requests are left.
pub proof fn close_request_closes<C>(
    app: AppView<C>,
    requests: FrameRequestsView,
    step: FrameStep<C>,
)
    requires
        requests.close is Some,
        step_fits(step, app, requests),
    ensures
        ({
            let idx = requests.close->0;
            let n = app.tabs.len() as int;
            let (after, left) = after_step(app, requests);
            &&& after == app.close(idx)
            &&& idx < n ==> after.tabs.len() == n - 1
            &&& idx < n ==> forall|i: int|
                0 <= i < n - 1 ==> #[trigger] after.tabs[i] == app.tabs[if i < idx {
                    i
                } else {
                    i + 1
                }]
            &&& left.close is None && left == (FrameRequestsView { close: left.close, ..requests })
            &&& step matches FrameStep::Close(closed) && (idx < n ==> closed.kill
                == app.tabs[idx as int].child && closed.save is Some) && (idx >= n
                ==> closed.kill is None && closed.save is None)
        }),
{
}

/// A request to run starts a run of its own tab: the tab is selected, runs, is not done, and
/// shows the heading alone. The flag of the run is not set, so that a poll before anything was
/// read leaves the tab as it is. Other tabs, earlier flags and the other requests stay.
pub proof fn run_request_starts_a_run<C>(
    app: AppView<C>,
    requests: FrameRequestsView,
    step: FrameStep<C>,
)
    requires
        requests.close is None,
        requests.run is Some,
        step_fits(step, app, requests),
    ensures
        ({
            let idx = requests.run->0;
            let (after, left) = after_step(app, requests);
            &&& after.active_tab == Some(idx)
            &&& after.tabs.len() == app.tabs.len()
            &&& forall|i: int|
                0 <= i < app.tabs.len() && i != idx ==> #[trigger] after.tabs[i] == app.tabs[i]
            &&& forall|f: int|
                0 <= f < app.flags.len() ==> #[trigger] after.flags[f] == app.flags[f]
            &&& idx >= app.tabs.len() ==> after.flags == app.flags && step == FrameStep::Run(
                None::<Launch<C>>,
            )
            &&& idx < app.tabs.len() ==> {
                let old_tab = app.tabs[idx as int];
                let tab = after.tabs[idx as int];
                &&& tab.running && !tab.done && tab.child is None
                &&& tab.output == "> 运行: "@ + old_tab.custom_name + "\r\n"@ + "> 路径: "@
                    + old_tab.path + "\r\n"@ + rule() + "\r\n"@
                &&& tab.path == old_tab.path && tab.custom_name == old_tab.custom_name && tab.id
                    == old_tab.id
                &&& after.flags.len() == app.flags.len() + 1
                &&& tab.done_flag == app.flags.len() && !after.flags[tab.done_flag as int]
                &&& after.poll().tabs[idx as int] == tab
                &&& step matches FrameStep::Run(launch) && launch matches Some(l) && l.kill
                    == old_tab.child && l.idx == idx && l.id == tab.id && l.done_flag
                    == tab.done_flag
            }
            &&& after == (AppView {
                tabs: after.tabs,
                active_tab: after.active_tab,
                flags: after.flags,
                ..app
            })
            &&& left.run is None && left == (FrameRequestsView { run: left.run, ..requests })
        }),
{
}

/// The command of a run that was started by a request stays with its tab, whatever polls come,
/// as long as nothing was read: the tab runs and holds it, so that it can be stopped.
pub proof fn requested_run_keeps_its_command<C>(
    app: AppView<C>,
    requests: FrameRequestsView,
    child: C,
)
    requires
        requests.close is None,
        requests.run is Some,
        requests.run->0 < app.tabs.len(),
    ensures
        ({
            let idx = requests.run->0 as int;
            let held = after_step(app, requests).0.launched(idx, child);
            &&& held.tabs[idx].running && !held.tabs[idx].done
            &&& held.tabs[idx].child == Some(child)
            &&& held.poll().tabs[idx] == held.tabs[idx]
            &&& held.poll().poll().tabs[idx] == held.tabs[idx]
        }),
{
}

/// A run that was started by a request shows what its command writes, as it comes, and goes on
/// until both streams have ended, as long as nothing had to be cut.
pub proof fn requested_run_shows_what_was_written<C>(
    app: AppView<C>,
    requests: FrameRequestsView,
    child: C,
    events: Seq<(Stream, ReadEventView)>,
)
    requires
        app.wf(),
        requests.close is None,
        requests.run is Some,
        requests.run->0 < app.tabs.len(),
        app.flags.len() < usize::MAX,
        uncut(
            header(
                app.tabs[requests.run->0 as int].custom_name,
                app.tabs[requests.run->0 as int].path,
            ),
            events,
        ),
    ensures
        ({
            let idx = requests.run->0 as int;
            let tab = app.tabs[idx];
            let reader = Reader {
                id: tab.id as usize,
                done_flag: app.flags.len() as usize,
                stdout_open: true,
                stderr_open: true,
            };
            let run = after_step(app, requests).0.launched(idx, child);
            let shown = after_reads(run, reader, events).0.poll().tabs[idx];
            let text = header(tab.custom_name, tab.path) + written(events);
            if has_ended(events, Stream::Stdout) && has_ended(events, Stream::Stderr) {
                &&& shown.output == text + footer()
                &&& shown.done && !shown.running && shown.child is None
            } else {
                &&& shown.output == text
                &&& shown.running && !shown.done && shown.child == Some(child)
            }
        }),
{
    let idx = requests.run->0;
    super::run_shows_what_was_written(app.select(idx), idx as int, child, events);
}

/// A request to stop stops its own tab and hands out its command.
pub proof fn stop_request_stops<C>(
    app: AppView<C>,
    requests: FrameRequestsView,
    step: FrameStep<C>,
)
    requires
        requests.close is None,
        requests.run is None,
        requests.stop is Some,
        step_fits(step, app, requests),
    ensures
        ({
            let idx = requests.stop->0;
            let (after, left) = after_step(app, requests);
            &&& after == app.stop(idx as int)
            &&& forall|i: int|
                0 <= i < app.tabs.len() && i != idx ==> #[trigger] after.tabs[i] == app.tabs[i]
            &&& idx < app.tabs.len() ==> {
                let tab = after.tabs[idx as int];
                &&& !tab.running && tab.child is None
                &&& tab.output == app.tabs[idx as int].output
                &&& step matches FrameStep::Stop(kill) && kill == app.tabs[idx as int].child
            }
            &&& idx >= app.tabs.len() ==> step == FrameStep::Stop(None::<C>)
            &&& left.stop is None && left == (FrameRequestsView { stop: left.stop, ..requests })
        }),
{
}

/// A request to rename gives its own tab the name, and the configuration that is written has it.
/// An empty name, or no such tab, changes nothing and writes nothing.
pub proof fn rename_request_renames<C>(
    app: AppView<C>,
    requests: FrameRequestsView,
    step: FrameStep<C>,
)
    requires
        requests.close is None,
        requests.run is None,
        requests.stop is None,
        requests.rename is Some,
        step_fits(step, app, requests),
    ensures
        ({
            let (idx, name) = requests.rename->0;
            let n = app.tabs.len() as int;
            let (after, left) = after_step(app, requests);
            &&& after == app.rename(idx as int, name)
            &&& forall|i: int|
                0 <= i < n && i != idx ==> #[trigger] after.tabs[i] == app.tabs[i]
            &&& name.len() == 0 || idx >= n ==> after == app && step == FrameStep::Rename::<C>(
                None,
            )
            &&& name.len() > 0 && idx < n ==> {
                &&& after.tabs[idx as int] == (TabView { custom_name: name, ..app.tabs[idx as int] })
                &&& step matches FrameStep::Rename(save) && save matches Some(config)
                    && config@.len() == n && (forall|i: int|
                    0 <= i < n ==> (#[trigger] config@[i]).path == app.tabs[i].path
                        && config@[i].custom_name == if i == idx {
                        name
                    } else {
                        app.tabs[i].custom_name
                    })
            }
            &&& left.rename is None && left == (FrameRequestsView { rename: left.rename, ..requests })
        }),
{
    let (idx, name) = requests.rename->0;
    if name.len() > 0 && idx < app.tabs.len() {
        let after = app.rename(idx as int, name);
        super::lists::configuration_lists_the_tabs(after.tabs);
    }
}

/// With nothing left to do, the frame is over.
pub proof fn nothing_left<C>(app: AppView<C>, requests: FrameRequestsView, step: FrameStep<C>)
    requires
        requests.close is None,
        requests.run is None,
        requests.stop is None,
        requests.rename is None,
    ensures
        after_step(app, requests) == (app, requests),
        step_fits(step, app, requests) <==> step is Over,
{
}

/// Of all that was clicked in one frame, closing comes first, then running, which selects, then
/// stopping, then renaming. Each is told by its place in the list as the one before left it.
pub proof fn requests_are_done_in_order<C>(app: AppView<C>, requests: FrameRequestsView)
    requires
        requests.close is Some,
        requests.run is Some,
        requests.stop is Some,
        requests.rename is Some,
    ensures
        ({
            let (a1, r1) = after_step(app, requests);
            let (a2, r2) = after_step(a1, r1);
            let (a3, r3) = after_step(a2, r2);
            let (a4, r4) = after_step(a3, r3);
            let run = requests.run->0;
            let (idx, name) = requests.rename->0;
            &&& a4 == app.close(requests.close->0).select(run).run(run as int).stop(
                requests.stop->0 as int,
            ).rename(idx as int, name)
            &&& r4.close is None && r4.run is None && r4.stop is None && r4.rename is None
        }),
{
}

/// What a click on the button of a card comes to, if it is all that was clicked: a tab that does
/// not run is run and selected; one that runs is stopped.
pub proof fn clicked_button_takes_effect<C>(app: AppView<C>, i: usize, event: CardEvent)
    requires
        i < app.tabs.len(),
        event is RunStop,
    ensures
        ({
            let none = FrameRequestsView { close: None, run: None, stop: None, rename: None };
            let (seen, asked) = after_card_event(app, none, i, event);
            let after = after_step(seen, asked).0;
            let tab = after.tabs[i as int];
            &&& tab.running == !app.tabs[i as int].running
            &&& tab.running ==> !tab.done && after.active_tab == Some(i) && after.poll().tabs[i as int]
                == tab
            &&& !tab.running ==> tab.child is None && after.active_tab == app.active_tab
            &&& after.tabs.len() == app.tabs.len()
            &&& forall|j: int|
                0 <= j < app.tabs.len() && j != i ==> #[trigger] after.tabs[j] == app.tabs[j]
        }),
{
}

/// What typing a name into a card comes to, if it is all that happened: the tab of that card has
/// the name, unless it is empty, and no other tab changes.
pub proof fn typed_name_takes_effect<C>(app: AppView<C>, i: usize, event: CardEvent)
    requires
        i < app.tabs.len(),
        event is NameChanged,
    ensures
        ({
            let none = FrameRequestsView { close: None, run: None, stop: None, rename: None };
            let text = event->NameChanged_0@;
            let (seen, asked) = after_card_event(app, none, i, event);
            let after = after_step(seen, asked).0;
            &&& after.tabs.len() == app.tabs.len()
            &&& after.tabs[i as int].custom_name == if text.len() > 0 {
                text
            } else {
                app.tabs[i as int].custom_name
            }
            &&& after.tabs[i as int] == (TabView {
                custom_name: after.tabs[i as int].custom_name,
                ..app.tabs[i as int]
            })
            &&& forall|j: int|
                0 <= j < app.tabs.len() && j != i ==> #[trigger] after.tabs[j] == app.tabs[j]
            &&& after.active_tab == app.active_tab
        }),
{
}

/// Below the cards stands the selected tab: its name and what it is doing, its path and its
/// console. Nothing stands there if the tab is gone, and the program names itself if none is
/// selected.
pub proof fn pane_shows_the_selected_tab<C>(pane: Pane, app: AppView<C>)
    requires
        pane_fits(pane, app),
    ensures
        app.active_tab is None ==> pane is Welcome,
        app.active_tab matches Some(a) ==> (a >= app.tabs.len() ==> pane is Blank),
        app.active_tab matches Some(a) ==> (a < app.tabs.len() ==> {
            let tab = app.tabs[a as int];
            pane matches Pane::Console { title, path, output } && path@ == tab.path && output@
                == tab.output && title@ == if tab.running {
                "▶ "@ + tab.custom_name + " - 运行中..."@
            } else if tab.done {
                "✅ "@ + tab.custom_name + " - 完成"@
            } else {
                "📄 "@ + tab.custom_name + " - 就绪"@
            }
        }),
{
}

} // verus!
