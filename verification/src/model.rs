//! The state of the program as mathematics: what a tab is, what the list of tabs is, and what
//! each operation makes of it.

use vstd::prelude::*;

use crate::config::{CandidateView, NamedFileView, TabConfigView};
use crate::output::{error_line, footer, header, trimmed};
use crate::text::is_batch_path;

verus! {

/// A tab. `C` is the handle of a started command.
#[verifier::ext_equal]
pub struct TabView<C> {
    pub path: Seq<char>,
    pub custom_name: Seq<char>,
    /// The console text.
    pub output: Seq<char>,
    pub running: bool,
    /// Whether the last run came to its end or could not be started.
    pub done: bool,
    pub child: Option<C>,
    /// What the tab is known by as long as it is open, wherever it stands in the list.
    pub id: nat,
    /// Where the end of its latest run is noted in `AppView::flags`.
    pub done_flag: nat,
}

impl<C> TabView<C> {
    /// A tab that was just opened. Its number is where its first flag stands.
    pub open spec fn fresh(path: Seq<char>, name: Seq<char>, flag: nat) -> TabView<C> {
        TabView {
            path,
            custom_name: name,
            output: Seq::empty(),
            running: false,
            done: false,
            child: None,
            id: flag,
            done_flag: flag,
        }
    }

    /// What every tab keeps: its flag exists, it is not at once running and done, and it holds
    /// a command only while it runs.
    pub open spec fn wf(self, flags: Seq<bool>) -> bool {
        &&& self.id <= self.done_flag < flags.len()
        &&& self.running ==> !self.done
        &&& self.child is Some ==> self.running
    }

    /// The tab after it was stopped.
    pub open spec fn stopped(self) -> TabView<C> {
        TabView { running: false, child: None, ..self }
    }

    /// The tab when a run starts.
    pub open spec fn started(self, flag: nat) -> TabView<C> {
        TabView {
            output: header(self.custom_name, self.path),
            running: true,
            done: false,
            child: None,
            done_flag: flag,
            ..self
        }
    }

    /// The tab after the end of its run was noticed.
    pub open spec fn polled(self, flags: Seq<bool>) -> TabView<C> {
        if self.running && flags[self.done_flag as int] {
            TabView {
                running: false,
                done: true,
                child: None,
                output: self.output + footer(),
                ..self
            }
        } else {
            self
        }
    }

    /// What is kept of the tab in the configuration.
    pub open spec fn config(self) -> TabConfigView {
        TabConfigView { path: self.path, custom_name: self.custom_name }
    }
}

/// What the configuration keeps of a list of tabs.
pub open spec fn config_of<C>(tabs: Seq<TabView<C>>) -> Seq<TabConfigView> {
    tabs.map_values(|t: TabView<C>| t.config())
}

/// How many tabs stand before the first one with this path; all, if none has it.
pub open spec fn tabs_before<C>(tabs: Seq<TabView<C>>, path: Seq<char>) -> nat
    decreases tabs.len(),
{
    if tabs.len() == 0 || tabs[0].path == path {
        0
    } else {
        1 + tabs_before(tabs.drop_first(), path)
    }
}

/// Whether some tab has this path.
pub open spec fn has_path<C>(tabs: Seq<TabView<C>>, path: Seq<char>) -> bool {
    exists|i: int| 0 <= i < tabs.len() && (#[trigger] tabs[i]).path == path
}

/// Behind `tabs_before` stands the first tab with the path, if there is one.
pub proof fn first_tab_with_path<C>(tabs: Seq<TabView<C>>, path: Seq<char>)
    ensures
        tabs_before(tabs, path) <= tabs.len(),
        has_path(tabs, path) <==> tabs_before(tabs, path) < tabs.len(),
        has_path(tabs, path) ==> tabs[tabs_before(tabs, path) as int].path == path,
        forall|j: int| 0 <= j < tabs_before(tabs, path) ==> (#[trigger] tabs[j]).path != path,
    decreases tabs.len(),
{
    if tabs.len() > 0 && tabs[0].path != path {
        let rest = tabs.drop_first();
        first_tab_with_path(rest, path);
        assert forall|j: int| 0 <= j < tabs_before(tabs, path) implies (#[trigger] tabs[j]).path
            != path by {
            if j > 0 {
                assert(rest[j - 1] == tabs[j]);
            }
        }
        if has_path(tabs, path) {
            let i = choose|i: int| 0 <= i < tabs.len() && (#[trigger] tabs[i]).path == path;
            assert(rest[i - 1].path == path);
        }
        if has_path(rest, path) {
            let i = choose|i: int| 0 <= i < rest.len() && (#[trigger] rest[i]).path == path;
            assert(tabs[i + 1].path == path);
        }
    } else if tabs.len() > 0 {
        assert(tabs[0].path == path);
    }
}

/// The commands that a list of tabs holds, in its order.
pub open spec fn children_of<C>(tabs: Seq<TabView<C>>) -> Seq<C> {
    tabs.filter_map(|t: TabView<C>| t.child)
}

/// The running ones of a list of tabs.
pub open spec fn running_of<C>(tabs: Seq<TabView<C>>) -> Seq<TabView<C>> {
    tabs.filter(|t: TabView<C>| t.running)
}

/// The tab to show after tab `idx` was closed and `left` tabs are left: none if there are none;
/// the next one, or else the last, if it was the closed one; else the one shown before.
pub open spec fn active_after_close(active: Option<usize>, idx: usize, left: nat) -> Option<usize> {
    if left == 0 {
        None
    } else if active == Some(idx) {
        Some(if idx < left { idx } else { (left - 1) as usize })
    } else {
        match active {
            Some(a) if a > idx => Some((a - 1) as usize),
            _ => active,
        }
    }
}

/// The state of the program.
#[verifier::ext_equal]
pub struct AppView<C> {
    pub tabs: Seq<TabView<C>>,
    pub active_tab: Option<usize>,
    /// The text of the name field of each card that was drawn.
    pub edit_buffers: Map<usize, Seq<char>>,
    /// The card whose removal waits to be confirmed.
    pub confirm_delete: Option<usize>,
    /// One flag for each tab that was opened and for each run that was started, set when the
    /// run has ended.
    pub flags: Seq<bool>,
}

impl<C> AppView<C> {
    /// No tabs, nothing selected.
    pub open spec fn empty() -> AppView<C> {
        AppView {
            tabs: Seq::empty(),
            active_tab: None,
            edit_buffers: Map::empty(),
            confirm_delete: None,
            flags: Seq::empty(),
        }
    }

    /// What holds in every state: each tab is well-formed, and no two share their number or
    /// their flag.
    pub open spec fn wf(self) -> bool {
        &&& forall|i: int| 0 <= i < self.tabs.len() ==> (#[trigger] self.tabs[i]).wf(self.flags)
        &&& forall|i: int, j: int|
            #![trigger self.tabs[i], self.tabs[j]]
            0 <= i < j < self.tabs.len() ==> self.tabs[i].id != self.tabs[j].id
                && self.tabs[i].done_flag != self.tabs[j].done_flag
    }

    /// Opens a tab behind the others.
    pub open spec fn open_tab(self, path: Seq<char>, name: Seq<char>) -> AppView<C> {
        AppView {
            tabs: self.tabs.push(TabView::fresh(path, name, self.flags.len())),
            flags: self.flags.push(false),
            ..self
        }
    }

    /// Opens a configured tab if its file exists.
    pub open spec fn load_one(self, c: CandidateView) -> AppView<C> {
        if c.exists {
            self.open_tab(c.config.path, c.shown_name())
        } else {
            self
        }
    }

    /// Opens configured tabs one after the other.
    pub open spec fn load(self, candidates: Seq<CandidateView>) -> AppView<C>
        decreases candidates.len(),
    {
        if candidates.len() == 0 {
            self
        } else {
            self.load(candidates.drop_last()).load_one(candidates.last())
        }
    }

    /// Opens a configured tab if its file exists and is not open yet.
    pub open spec fn import_one(self, c: CandidateView) -> AppView<C> {
        if c.exists && !has_path(self.tabs, c.config.path) {
            self.open_tab(c.config.path, c.shown_name())
        } else {
            self
        }
    }

    /// Imports configured tabs one after the other.
    pub open spec fn import(self, candidates: Seq<CandidateView>) -> AppView<C>
        decreases candidates.len(),
    {
        if candidates.len() == 0 {
            self
        } else {
            self.import(candidates.drop_last()).import_one(candidates.last())
        }
    }

    /// Adds a file: nothing if it is no batch file; the first tab that has its path is selected
    /// if there is one; else a tab is opened and selected.
    pub open spec fn add_file(self, file: NamedFileView) -> AppView<C> {
        if !is_batch_path(file.path) {
            self
        } else if has_path(self.tabs, file.path) {
            AppView { active_tab: Some(tabs_before(self.tabs, file.path) as usize), ..self }
        } else {
            AppView {
                active_tab: Some(self.tabs.len() as usize),
                ..self.open_tab(file.path, file.name)
            }
        }
    }

    /// Adds files one after the other.
    pub open spec fn add_files(self, files: Seq<NamedFileView>) -> AppView<C>
        decreases files.len(),
    {
        if files.len() == 0 {
            self
        } else {
            self.add_files(files.drop_last()).add_file(files.last())
        }
    }

    /// Whether adding a file opens a tab.
    pub open spec fn opens(self, file: NamedFileView) -> bool {
        is_batch_path(file.path) && !has_path(self.tabs, file.path)
    }

    /// The configurations that are written while files are added: one after each tab that is
    /// opened.
    pub open spec fn add_saves(self, files: Seq<NamedFileView>) -> Seq<Seq<TabConfigView>>
        decreases files.len(),
    {
        if files.len() == 0 {
            Seq::empty()
        } else if self.add_files(files.drop_last()).opens(files.last()) {
            self.add_saves(files.drop_last()).push(config_of(self.add_files(files).tabs))
        } else {
            self.add_saves(files.drop_last())
        }
    }

    /// Stops a tab.
    pub open spec fn stop(self, idx: int) -> AppView<C> {
        if 0 <= idx < self.tabs.len() {
            AppView { tabs: self.tabs.update(idx, self.tabs[idx].stopped()), ..self }
        } else {
            self
        }
    }

    /// Stops every tab.
    pub open spec fn stop_all(self) -> AppView<C> {
        AppView { tabs: self.tabs.map_values(|t: TabView<C>| t.stopped()), ..self }
    }

    /// Closes a tab.
    pub open spec fn close(self, idx: usize) -> AppView<C> {
        if idx < self.tabs.len() {
            AppView {
                tabs: self.tabs.remove(idx as int),
                active_tab: active_after_close(
                    self.active_tab,
                    idx,
                    (self.tabs.len() - 1) as nat,
                ),
                ..self
            }
        } else {
            self
        }
    }

    /// Closes every tab.
    pub open spec fn clear(self) -> AppView<C> {
        AppView {
            tabs: Seq::empty(),
            active_tab: if self.tabs.len() == 0 { self.active_tab } else { None },
            ..self
        }
    }

    /// Starts a run in a tab.
    pub open spec fn run(self, idx: int) -> AppView<C> {
        if 0 <= idx < self.tabs.len() {
            AppView {
                tabs: self.tabs.update(idx, self.tabs[idx].started(self.flags.len())),
                flags: self.flags.push(false),
                ..self
            }
        } else {
            self
        }
    }

    /// Selects a tab.
    pub open spec fn select(self, idx: usize) -> AppView<C> {
        AppView { active_tab: Some(idx), ..self }
    }

    /// The command of a run was started.
    pub open spec fn launched(self, idx: int, child: C) -> AppView<C> {
        AppView {
            tabs: self.tabs.update(idx, TabView { child: Some(child), ..self.tabs[idx] }),
            ..self
        }
    }

    /// The command of a run could not be started.
    pub open spec fn launch_failed(self, idx: int, error: Seq<char>) -> AppView<C> {
        AppView {
            tabs: self.tabs.update(
                idx,
                TabView {
                    output: self.tabs[idx].output + error_line(error),
                    running: false,
                    done: true,
                    ..self.tabs[idx]
                },
            ),
            ..self
        }
    }

    /// Changes the console text of the tab with this number, if it is still open.
    pub open spec fn write(self, id: nat, f: spec_fn(Seq<char>) -> Seq<char>) -> AppView<C> {
        AppView {
            tabs: self.tabs.map_values(
                |t: TabView<C>|
                    if t.id == id {
                        TabView { output: f(t.output), ..t }
                    } else {
                        t
                    },
            ),
            ..self
        }
    }

    /// A line came from the standard output of a command of this tab.
    pub open spec fn stdout_line(self, id: nat, line: Seq<char>) -> AppView<C> {
        self.write(id, |out: Seq<char>| trimmed(out + line + "\r\n"@))
    }

    /// A line came from the standard error of a command of this tab.
    pub open spec fn stderr_line(self, id: nat, line: Seq<char>) -> AppView<C> {
        self.write(id, |out: Seq<char>| out + line + "\r\n"@)
    }

    /// The run with this flag came to its end.
    pub open spec fn finished(self, flag: int) -> AppView<C> {
        if 0 <= flag < self.flags.len() {
            AppView { flags: self.flags.update(flag, true), ..self }
        } else {
            self
        }
    }

    /// Notices which runs have ended.
    pub open spec fn poll(self) -> AppView<C> {
        AppView { tabs: self.tabs.map_values(|t: TabView<C>| t.polled(self.flags)), ..self }
    }

    /// Renames a tab; an empty name changes nothing.
    pub open spec fn rename(self, idx: int, name: Seq<char>) -> AppView<C> {
        if name.len() > 0 && 0 <= idx < self.tabs.len() {
            AppView {
                tabs: self.tabs.update(idx, TabView { custom_name: name, ..self.tabs[idx] }),
                ..self
            }
        } else {
            self
        }
    }

    /// The text in the name field of a card: what was typed there, or else the tab's name.
    pub open spec fn edit_text(self, i: usize) -> Seq<char> {
        if self.edit_buffers.contains_key(i) {
            self.edit_buffers[i]
        } else {
            self.tabs[i as int].custom_name
        }
    }

    /// Puts a text into the name field of a card.
    pub open spec fn set_edit_text(self, i: usize, text: Seq<char>) -> AppView<C> {
        AppView { edit_buffers: self.edit_buffers.insert(i, text), ..self }
    }

    /// Whether the question before a removal is shown.
    pub open spec fn asks(self) -> bool {
        self.confirm_delete is Some && self.confirm_delete->0 < self.tabs.len()
    }
}

} // verus!
