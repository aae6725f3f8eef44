//! One frame of the window: what it shows, what is clicked, and what is done about it.

use vstd::prelude::*;
use vstd::string::*;

use super::run::{launch_fits, Launch};
use super::{all_saved, closed_fits, file_views, saved, App, Closed};
use crate::cards::{status, status_spec, Status};
use crate::config::{Config, NamedFile};
use crate::model::{config_of, running_of, AppView, TabView};
use crate::paths::{file_name, is_file_name};
use crate::text::{decimal, decimal_text};
use crate::theme::{card_border, card_border_spec, card_fill, card_fill_spec, Rgb};
use crate::tray::WindowSlot;

verus! {

broadcast use vstd::std_specs::hash::group_hash_axioms;

/// What the start of a frame asks for.
pub struct FrameStart {
    /// The configurations to write, in this order.
    pub saves: Vec<Config>,
    /// The window to hide.
    pub hide: Option<isize>,
    /// Whether to look for the main window.
    pub search: bool,
    /// Whether the frame is drawn.
    pub draw: bool,
}

/// What was clicked in a frame, to be done when it is drawn.
pub struct FrameRequests {
    pub close: Option<usize>,
    pub run: Option<usize>,
    pub stop: Option<usize>,
    pub rename: Option<(usize, String)>,
}

/// The values of `FrameRequests`.
#[verifier::ext_equal]
pub struct FrameRequestsView {
    pub close: Option<usize>,
    pub run: Option<usize>,
    pub stop: Option<usize>,
    pub rename: Option<(usize, Seq<char>)>,
}

impl View for FrameRequests {
    type V = FrameRequestsView;

    open spec fn view(&self) -> FrameRequestsView {
        FrameRequestsView {
            close: self.close,
            run: self.run,
            stop: self.stop,
            rename: match self.rename {
                Some((i, name)) => Some((i, name@)),
                None => None,
            },
        }
    }
}

impl FrameRequests {
    /// Nothing was clicked.
    pub fn none() -> (requests: FrameRequests)
        ensures
            requests@ == (FrameRequestsView { close: None, run: None, stop: None, rename: None }),
    {
        FrameRequests { close: None, run: None, stop: None, rename: None }
    }
}

/// What can happen to a card.
pub enum CardEvent {
    /// The text in its name field was changed to this.
    NameChanged(String),
    /// The button that runs it, or stops it while it runs, was clicked.
    RunStop,
    /// The button that closes it was clicked.
    Close,
    /// The card itself was clicked.
    Select,
}

/// What a card looks like.
pub struct Card {
    pub fill: Rgb,
    pub border: Rgb,
    /// Whether its button stops it.
    pub stops: bool,
    pub status: Status,
    /// The file name of its path.
    pub file_name: String,
}

/// What stands below the cards.
pub enum Pane {
    /// No tab is selected: the program names itself.
    Welcome,
    /// The selected tab is gone: nothing.
    Blank,
    /// The console of the selected tab.
    Console { title: String, path: String, output: String },
}

/// Whether `pane` shows the selected tab of `app`.
pub open spec fn pane_fits<C>(pane: Pane, app: AppView<C>) -> bool {
    match app.active_tab {
        None => pane is Welcome,
        Some(idx) => if idx < app.tabs.len() {
            let tab = app.tabs[idx as int];
            pane matches Pane::Console { title, path, output } && title@ == status_spec(
                tab.running,
                tab.done,
            ).title_spec(tab.custom_name) && path@ == tab.path && output@ == tab.output
        } else {
            pane is Blank
        },
    }
}

/// What to do next about what was clicked.
pub enum FrameStep<C> {
    /// A tab was closed.
    Close(Closed<C>),
    /// A run was started, if the tab is there. The outcome is due before the next step.
    Run(Option<Launch<C>>),
    /// A tab was stopped; its command is to be killed.
    Stop(Option<C>),
    /// A tab was renamed; the configuration is to be written.
    Rename(Option<Config>),
    /// Nothing is left to do.
    Over,
}

/// The state and what is left to do after one step: closing goes first, then running, which
/// selects the tab, then stopping, then renaming.
pub open spec fn after_step<C>(app: AppView<C>, requests: FrameRequestsView) -> (
    AppView<C>,
    FrameRequestsView,
) {
    if requests.close is Some {
        (app.close(requests.close->0), FrameRequestsView { close: None, ..requests })
    } else if requests.run is Some {
        (
            app.select(requests.run->0).run(requests.run->0 as int),
            FrameRequestsView { run: None, ..requests },
        )
    } else if requests.stop is Some {
        (app.stop(requests.stop->0 as int), FrameRequestsView { stop: None, ..requests })
    } else if requests.rename is Some {
        let (idx, name) = requests.rename->0;
        (
            app.rename(idx as int, name),
            FrameRequestsView { rename: None, ..requests },
        )
    } else {
        (app, requests)
    }
}

/// Whether `step` is what the first request that is left asks for.
pub open spec fn step_fits<C>(
    step: FrameStep<C>,
    app: AppView<C>,
    requests: FrameRequestsView,
) -> bool {
    if requests.close is Some {
        step matches FrameStep::Close(closed) && closed_fits(closed, app, requests.close->0)
    } else if requests.run is Some {
        step matches FrameStep::Run(launch) && launch_fits(launch, app, requests.run->0)
    } else if requests.stop is Some {
        let idx = requests.stop->0;
        step matches FrameStep::Stop(kill) && kill == if idx < app.tabs.len() {
            app.tabs[idx as int].child
        } else {
            None
        }
    } else if requests.rename is Some {
        let (idx, name) = requests.rename->0;
        step matches FrameStep::Rename(save) && saved(save) == if name.len() > 0 && idx
            < app.tabs.len() {
            Some(config_of(app.rename(idx as int, name).tabs))
        } else {
            None
        }
    } else {
        step is Over
    }
}

/// The state and what is left to do after something happened to card `i`.
pub open spec fn after_card_event<C>(
    app: AppView<C>,
    requests: FrameRequestsView,
    i: usize,
    event: CardEvent,
) -> (AppView<C>, FrameRequestsView) {
    match event {
        CardEvent::NameChanged(text) => (
            app.set_edit_text(i, text@),
            FrameRequestsView { rename: Some((i, text@)), ..requests },
        ),
        CardEvent::RunStop => (
            app,
            if app.tabs[i as int].running {
                FrameRequestsView { stop: Some(i), ..requests }
            } else {
                FrameRequestsView { run: Some(i), ..requests }
            },
        ),
        CardEvent::Close => (AppView { confirm_delete: Some(i), ..app }, requests),
        CardEvent::Select => (app.select(i), requests),
    }
}

impl<C> App<C> {
    /// Starts a frame. Files that were dropped on the window are added. If the window is to be
    /// closed it is hidden and the frame ends there; else the ends of runs are noticed and the
    /// frame is drawn.
    pub fn begin_frame(
        &mut self,
        dropped: Vec<NamedFile>,
        close_requested: bool,
        window: &WindowSlot,
    ) -> (start: FrameStart)
        requires
            old(self).wf(),
        ensures
            final(self).wf(),
            final(self)@ == if close_requested {
                old(self)@.add_files(file_views(dropped@))
            } else {
                old(self)@.add_files(file_views(dropped@)).poll()
            },
            all_saved(start.saves@) == old(self)@.add_saves(file_views(dropped@)),
            start.hide == if close_requested {
                window.handle_spec()
            } else {
                None
            },
            start.search == (!close_requested && !window.ready && window.hwnd == 0),
            start.draw == !close_requested,
    {
        let saves = self.add_named_files(dropped);
        if close_requested {
            FrameStart { saves, hide: window.handle(), search: false, draw: false }
        } else {
            self.poll_all();
            FrameStart { saves, hide: None, search: window.wants_search(), draw: true }
        }
    }

    /// How many tabs there are.
    pub fn tab_count(&self) -> (n: usize)
        ensures
            n == self@.tabs.len(),
    {
        self.tabs.len()
    }

    /// How many tabs run.
    pub fn running_count(&self) -> (count: usize)
        ensures
            count == running_of(self@.tabs).len(),
    {
        let ghost pred = |t: TabView<C>| t.running;
        let mut count: usize = 0;
        let mut i: usize = 0;
        proof {
            assert(self@.tabs.take(0) =~= Seq::<TabView<C>>::empty());
            reveal(Seq::filter);
        }
        while i < self.tabs.len()
            invariant
                i <= self.tabs.len(),
                count <= i,
                pred == (|t: TabView<C>| t.running),
                count == self@.tabs.take(i as int).filter(pred).len(),
            decreases self.tabs.len() - i,
        {
            proof {
                reveal(Seq::filter);
                assert(self@.tabs.take(i + 1).drop_last() =~= self@.tabs.take(i as int));
                assert(self@.tabs.take(i + 1).last() == self.tabs[i as int]@);
            }
            if self.tabs[i].running {
                count = count + 1;
            }
            i = i + 1;
        }
        proof {
            assert(self@.tabs.take(i as int) =~= self@.tabs);
        }
        count
    }

    /// What the bottom line says of the running tabs; nothing if there are none.
    pub fn running_label(&self) -> (label: Option<String>)
        ensures
            ({
                let count = running_of(self@.tabs).len();
                match label {
                    Some(text) => count > 0 && text@ == decimal_text(count) + " 个运行中"@,
                    None => count == 0,
                }
            }),
    {
        let count: usize = self.running_count();
        if count > 0 {
            Some(decimal(count).concat(" 个运行中"))
        } else {
            None
        }
    }

    /// What card `i` looks like.
    pub fn card(&self, i: usize) -> (card: Card)
        requires
            i < self@.tabs.len(),
        ensures
            ({
                let tab = self@.tabs[i as int];
                let is_active = self@.active_tab == Some(i);
                &&& card.fill == card_fill_spec(is_active)
                &&& card.border == card_border_spec(tab.running, is_active)
                &&& card.stops == tab.running
                &&& card.status == status_spec(tab.running, tab.done)
                &&& is_file_name(tab.path, card.file_name@)
            }),
    {
        proof {
            assert(self@.tabs.len() == self.tabs.len());
            assert(self@.tabs[i as int] == self.tabs[i as int]@);
        }
        let tab = &self.tabs[i];
        let is_active = match self.active_tab {
            Some(a) => a == i,
            None => false,
        };
        Card {
            fill: card_fill(is_active),
            border: card_border(tab.running, is_active),
            stops: tab.running,
            status: status(tab.running, tab.done),
            file_name: file_name(tab.path.as_str()),
        }
    }

    /// The text to put into the name field of card `i`, which is kept from then on.
    pub fn edit_text(&mut self, i: usize) -> (text: String)
        requires
            old(self).wf(),
            i < old(self)@.tabs.len(),
        ensures
            final(self).wf(),
            text@ == old(self)@.edit_text(i),
            final(self)@ == old(self)@.set_edit_text(i, text@),
    {
        let ghost before = self@;
        proof {
            assert(self@.tabs.len() == self.tabs.len());
            assert(self@.tabs[i as int] == self.tabs[i as int]@);
        }
        let known = match self.edit_buffers.get(&i) {
            Some(text) => Some(text.clone()),
            None => None,
        };
        match known {
            Some(text) => {
                proof {
                    assert(self@ =~= before.set_edit_text(i, text@));
                }
                text
            },
            None => {
                let text = self.tabs[i].custom_name.clone();
                self.edit_buffers.insert(i, text.clone());
                proof {
                    assert(self@ =~= before.set_edit_text(i, text@));
                }
                text
            },
        }
    }

    /// Takes note of what happened to card `i`.
    pub fn card_event(&mut self, requests: &mut FrameRequests, i: usize, event: CardEvent)
        requires
            old(self).wf(),
            i < old(self)@.tabs.len(),
        ensures
            final(self).wf(),
            (final(self)@, final(requests)@) == after_card_event(
                old(self)@,
                old(requests)@,
                i,
                event,
            ),
    {
        let ghost before = self@;
        proof {
            assert(self@.tabs.len() == self.tabs.len());
            assert(self@.tabs[i as int] == self.tabs[i as int]@);
        }
        match event {
            CardEvent::NameChanged(text) => {
                self.edit_buffers.insert(i, text.clone());
                requests.rename = Some((i, text));
                proof {
                    assert(self@ =~= before.set_edit_text(i, text@));
                }
            },
            CardEvent::RunStop => {
                if self.tabs[i].running {
                    requests.stop = Some(i);
                } else {
                    requests.run = Some(i);
                }
            },
            CardEvent::Close => {
                self.confirm_delete = Some(i);
            },
            CardEvent::Select => {
                self.active_tab = Some(i);
            },
        }
    }

    /// What stands below the cards.
    pub fn pane(&self) -> (pane: Pane)
        ensures
            pane_fits(pane, self@),
    {
        match self.active_tab {
            None => Pane::Welcome,
            Some(idx) => {
                if idx < self.tabs.len() {
                    proof {
                        assert(self@.tabs[idx as int] == self.tabs[idx as int]@);
                    }
                    let tab = &self.tabs[idx];
                    Pane::Console {
                        title: status(tab.running, tab.done).title(tab.custom_name.as_str()),
                        path: tab.path.clone(),
                        output: tab.output.clone(),
                    }
                } else {
                    Pane::Blank
                }
            },
        }
    }

    /// The question before a tab is removed, if there is one to ask.
    pub fn delete_question(&self) -> (question: Option<String>)
        ensures
            match question {
                Some(text) => self@.asks() && text@ == "确定要删除标签「"@
                    + self@.tabs[self@.confirm_delete->0 as int].custom_name + "」吗？"@,
                None => !self@.asks(),
            },
    {
        match self.confirm_delete {
            Some(idx) if idx < self.tabs.len() => {
                proof {
                    assert(self@.tabs[idx as int] == self.tabs[idx as int]@);
                }
                Some(
                    "确定要删除标签「".to_owned().concat(
                        self.tabs[idx].custom_name.as_str(),
                    ).concat("」吗？"),
                )
            },
            _ => None,
        }
    }

    /// Takes the answer to the question: either button ends it, the second one asks for the
    /// tab to be closed. Without a question nothing happens.
    pub fn answer_delete(&mut self, requests: &mut FrameRequests, cancel: bool, delete: bool)
        requires
            old(self).wf(),
        ensures
            final(self).wf(),
            final(self)@ == if old(self)@.asks() && (cancel || delete) {
                AppView { confirm_delete: None, ..old(self)@ }
            } else {
                old(self)@
            },
            final(requests)@ == if old(self)@.asks() && delete {
                FrameRequestsView { close: old(self)@.confirm_delete, ..old(requests)@ }
            } else {
                old(requests)@
            },
    {
        if let Some(idx) = self.confirm_delete {
            if idx < self.tabs.len() {
                if cancel {
                    self.confirm_delete = None;
                }
                if delete {
                    requests.close = Some(idx);
                    self.confirm_delete = None;
                }
            }
        }
    }

    /// Does the first thing that is left of what was clicked.
    pub fn next_step(&mut self, requests: &mut FrameRequests) -> (step: FrameStep<C>)
        requires
            old(self).wf(),
        ensures
            final(self).wf(),
            (final(self)@, final(requests)@) == after_step(old(self)@, old(requests)@),
            step_fits(step, old(self)@, old(requests)@),
    {
        if let Some(i) = requests.close.take() {
            return FrameStep::Close(self.close_tab(i));
        }
        if let Some(i) = requests.run.take() {
            self.active_tab = Some(i);
            return FrameStep::Run(self.run_tab(i));
        }
        if let Some(i) = requests.stop.take() {
            return FrameStep::Stop(self.stop_tab(i));
        }
        if let Some((idx, name)) = requests.rename.take() {
            return FrameStep::Rename(self.rename_tab(idx, name));
        }
        FrameStep::Over
    }
}

} // verus!
