//! The tabs and what can be done with them.

pub mod frame;
pub mod reader;
pub mod run;

use std::collections::HashMap;

use vstd::prelude::*;

use crate::config::{
    Candidate, CandidateView, Config, NamedFile, NamedFileView, TabConfig, TabConfigView,
};
use crate::model::{
    children_of, config_of, first_tab_with_path, has_path, tabs_before, AppView, TabView,
};
use crate::paths::is_file_name;
use crate::text::{is_batch_file, is_batch_path};

verus! {

broadcast use vstd::std_specs::hash::group_hash_axioms;

/// A batch file that is open. `C` is the handle of a started command.
pub struct BatTab<C> {
    path: String,
    custom_name: String,
    output: String,
    running: bool,
    done: bool,
    child: Option<C>,
    id: usize,
    done_flag: usize,
}

impl<C> View for BatTab<C> {
    type V = TabView<C>;

    closed spec fn view(&self) -> TabView<C> {
        TabView {
            path: self.path@,
            custom_name: self.custom_name@,
            output: self.output@,
            running: self.running,
            done: self.done,
            child: self.child,
            id: self.id as nat,
            done_flag: self.done_flag as nat,
        }
    }
}

/// The state of the program.
pub struct App<C> {
    tabs: Vec<BatTab<C>>,
    active_tab: Option<usize>,
    edit_buffers: HashMap<usize, String>,
    confirm_delete: Option<usize>,
    flags: Vec<bool>,
}

impl<C> View for App<C> {
    type V = AppView<C>;

    closed spec fn view(&self) -> AppView<C> {
        AppView {
            tabs: self.tabs@.map_values(|t: BatTab<C>| t@),
            active_tab: self.active_tab,
            edit_buffers: self.edit_buffers@.map_values(|s: String| s@),
            confirm_delete: self.confirm_delete,
            flags: self.flags@,
        }
    }
}

/// What closing a tab asks for.
pub struct Closed<C> {
    /// The command to kill.
    pub kill: Option<C>,
    /// The configuration to write.
    pub save: Option<Config>,
}

/// Whether `closed` is what closing tab `idx` asks for: its command is killed and the tabs that
/// are left are saved; nothing if there is no such tab.
pub open spec fn closed_fits<C>(closed: Closed<C>, app: AppView<C>, idx: usize) -> bool {
    if idx < app.tabs.len() {
        closed.kill == app.tabs[idx as int].child && saved(closed.save) == Some(
            config_of(app.close(idx).tabs),
        )
    } else {
        closed.kill is None && closed.save is None
    }
}

/// Whether `closed` is what closing every tab from the last to the first asks for, one after the
/// other: the command of each is killed and the tabs that are left are saved.
pub open spec fn cleared_fits<C>(closed: Seq<Closed<C>>, app: AppView<C>) -> bool {
    &&& closed.len() == app.tabs.len()
    &&& forall|k: int|
        0 <= k < closed.len() ==> {
            let idx = app.tabs.len() - 1 - k;
            (#[trigger] closed[k]).kill == app.tabs[idx].child && saved(closed[k].save) == Some(
                config_of(app.tabs.take(idx)),
            )
        }
}

/// The texts of a list of files.
pub open spec fn file_views(files: Seq<NamedFile>) -> Seq<NamedFileView> {
    files.map_values(|f: NamedFile| f@)
}

/// The values of a list of candidates.
pub open spec fn candidate_views(candidates: Seq<Candidate>) -> Seq<CandidateView> {
    candidates.map_values(|c: Candidate| c@)
}

/// What a configuration to write, if any, holds.
pub open spec fn saved(save: Option<Config>) -> Option<Seq<TabConfigView>> {
    match save {
        Some(c) => Some(c@),
        None => None,
    }
}

/// What the configurations to write hold.
pub open spec fn all_saved(saves: Seq<Config>) -> Seq<Seq<TabConfigView>> {
    saves.map_values(|c: Config| c@)
}

impl<C> App<C> {
    /// What holds in every state.
    pub open spec fn wf(&self) -> bool {
        self@.wf()
    }

    /// No tabs.
    fn empty() -> (app: App<C>)
        ensures
            app@ == AppView::<C>::empty(),
    {
        let app = App {
            tabs: Vec::new(),
            active_tab: None,
            edit_buffers: HashMap::new(),
            confirm_delete: None,
            flags: Vec::new(),
        };
        proof {
            assert(app@ =~= AppView::<C>::empty());
        }
        app
    }

    /// Opens a tab behind the others.
    fn open_tab(&mut self, file: NamedFile)
        requires
            old(self).wf(),
        ensures
            final(self).wf(),
            final(self)@ == old(self)@.open_tab(file@.path, file@.name),
    {
        let ghost before = self@;
        let flag: usize = self.flags.len();
        self.flags.push(false);
        self.tabs.push(
            BatTab {
                path: file.path,
                custom_name: file.name,
                output: String::new(),
                running: false,
                done: false,
                child: None,
                id: flag,
                done_flag: flag,
            },
        );
        proof {
            assert(self@ =~= before.open_tab(file@.path, file@.name));
        }
    }

    /// The tab list at the start of the program: one tab for each configured file that exists.
    pub fn new(candidates: Vec<Candidate>) -> (app: App<C>)
        ensures
            app.wf(),
            app@ == AppView::<C>::empty().load(candidate_views(candidates@)),
    {
        let mut app = App::<C>::empty();
        let ghost views = candidate_views(candidates@);
        proof {
            assert(views.take(0) =~= Seq::<CandidateView>::empty());
        }
        for c in it: candidates
            invariant
                it.seq() == candidates@,
                views == candidate_views(candidates@),
                app.wf(),
                app@ == AppView::<C>::empty().load(views.take(it.index() as int)),
        {
            proof {
                let i = it.index() as int;
                assert(views.take(i + 1).drop_last() =~= views.take(i));
                assert(views.take(i + 1).last() == c@);
            }
            if c.exists {
                app.open_tab(c.into_named());
            }
        }
        proof {
            assert(views.take(views.len() as int) =~= views);
        }
        app
    }

    /// The configuration that keeps the tabs.
    pub fn save_config(&self) -> (config: Config)
        ensures
            config@ == config_of(self@.tabs),
    {
        let mut tabs: Vec<TabConfig> = Vec::new();
        let mut i: usize = 0;
        while i < self.tabs.len()
            invariant
                i <= self.tabs.len(),
                tabs.len() == i,
                forall|j: int| 0 <= j < i ==> (#[trigger] tabs[j])@ == self.tabs[j]@.config(),
            decreases self.tabs.len() - i,
        {
            let tab = &self.tabs[i];
            tabs.push(
                TabConfig { path: tab.path.clone(), custom_name: tab.custom_name.clone() },
            );
            i = i + 1;
        }
        let config = Config { tabs };
        proof {
            assert(config@ =~= config_of(self@.tabs));
        }
        config
    }

    /// Where the first tab with this path stands.
    fn find_path(&self, path: &String) -> (found: Option<usize>)
        ensures
            match found {
                Some(i) => has_path(self@.tabs, path@) && i == tabs_before(self@.tabs, path@)
                    && i < self@.tabs.len(),
                None => !has_path(self@.tabs, path@),
            },
    {
        let mut i: usize = 0;
        while i < self.tabs.len()
            invariant
                i <= self.tabs.len(),
                forall|j: int| 0 <= j < i ==> (#[trigger] self@.tabs[j]).path != path@,
            decreases self.tabs.len() - i,
        {
            if self.tabs[i].path == *path {
                proof {
                    assert(self@.tabs[i as int].path == path@);
                    first_tab_with_path(self@.tabs, path@);
                }
                return Some(i);
            }
            i = i + 1;
        }
        None
    }

    /// Adds a file under a given name. Returns the configuration to write, which is due only
    /// if a tab was opened.
    pub fn add_named_file(&mut self, file: NamedFile) -> (save: Option<Config>)
        requires
            old(self).wf(),
        ensures
            final(self).wf(),
            final(self)@ == old(self)@.add_file(file@),
            saved(save) == if old(self)@.opens(file@) {
                Some(config_of(final(self)@.tabs))
            } else {
                None
            },
    {
        if !is_batch_file(file.path.as_str()) {
            return None;
        }
        let ghost before = self@;
        match self.find_path(&file.path) {
            Some(i) => {
                self.active_tab = Some(i);
                proof {
                    assert(self@ =~= before.add_file(file@));
                }
                None
            },
            None => {
                let idx: usize = self.tabs.len();
                self.open_tab(file);
                self.active_tab = Some(idx);
                proof {
                    assert(self@ =~= before.add_file(file@));
                }
                Some(self.save_config())
            },
        }
    }

    /// Adds a file, which is shown under the last component of its path.
    pub fn add_file(&mut self, path: String) -> (save: Option<Config>)
        requires
            old(self).wf(),
        ensures
            final(self).wf(),
            exists|name: Seq<char>|
                #![trigger is_file_name(path@, name)]
                is_file_name(path@, name) && final(self)@ == old(self)@.add_file(
                    (NamedFileView { path: path@, name }),
                ),
            saved(save) == if is_batch_path(path@) && !has_path(old(self)@.tabs, path@) {
                Some(config_of(final(self)@.tabs))
            } else {
                None
            },
    {
        let file = NamedFile::from_path(path);
        proof {
            assert(file@ == NamedFileView { path: path@, name: file@.name });
        }
        self.add_named_file(file)
    }

    /// Stops a tab. Returns the command to kill.
    pub fn stop_tab(&mut self, idx: usize) -> (kill: Option<C>)
        requires
            old(self).wf(),
        ensures
            final(self).wf(),
            final(self)@ == old(self)@.stop(idx as int),
            kill == if idx < old(self)@.tabs.len() {
                old(self)@.tabs[idx as int].child
            } else {
                None
            },
    {
        if idx >= self.tabs.len() {
            return None;
        }
        let ghost before = self@;
        let kill = self.tabs[idx].child.take();
        self.tabs[idx].running = false;
        proof {
            assert(self@ =~= before.stop(idx as int));
        }
        kill
    }

    /// Closes a tab. Returns the command to kill and the configuration to write; there is
    /// neither if there is no such tab.
    pub fn close_tab(&mut self, idx: usize) -> (closed: Closed<C>)
        requires
            old(self).wf(),
        ensures
            final(self).wf(),
            final(self)@ == old(self)@.close(idx),
            closed_fits(closed, old(self)@, idx),
    {
        if idx >= self.tabs.len() {
            return Closed { kill: None, save: None };
        }
        let ghost before = self@;
        let kill = self.stop_tab(idx);
        let ghost stopped = self@;
        proof {
            assert(self@.tabs.len() == self.tabs.len());
        }
        let _tab = self.tabs.remove(idx);
        proof {
            assert(self@.tabs =~= stopped.tabs.remove(idx as int));
        }
        if self.tabs.len() == 0 {
            self.active_tab = None;
        } else if self.active_tab == Some(idx) {
            let last: usize = self.tabs.len() - 1;
            self.active_tab = Some(if idx < last { idx } else { last });
        } else if let Some(a) = self.active_tab {
            if a > idx {
                self.active_tab = Some(a - 1);
            }
        }
        proof {
            assert(self@.tabs =~= before.tabs.remove(idx as int));
            assert(self@ =~= before.close(idx));
        }
        Closed { kill, save: Some(self.save_config()) }
    }

    /// Adds files one after the other. Returns the configurations to write, one after each tab
    /// that was opened.
    pub fn add_named_files(&mut self, files: Vec<NamedFile>) -> (saves: Vec<Config>)
        requires
            old(self).wf(),
        ensures
            final(self).wf(),
            final(self)@ == old(self)@.add_files(file_views(files@)),
            all_saved(saves@) == old(self)@.add_saves(file_views(files@)),
    {
        let ghost before = self@;
        let ghost views = file_views(files@);
        let mut saves: Vec<Config> = Vec::new();
        proof {
            assert(views.take(0) =~= Seq::<NamedFileView>::empty());
            assert(all_saved(saves@) =~= Seq::<Seq<TabConfigView>>::empty());
        }
        for file in it: files
            invariant
                it.seq() == files@,
                views == file_views(files@),
                self.wf(),
                self@ == before.add_files(views.take(it.index() as int)),
                all_saved(saves@) == before.add_saves(views.take(it.index() as int)),
        {
            let ghost written = saves@;
            proof {
                let i = it.index() as int;
                assert(views.take(i + 1).drop_last() =~= views.take(i));
                assert(views.take(i + 1).last() == file@);
            }
            if let Some(config) = self.add_named_file(file) {
                saves.push(config);
                proof {
                    assert(all_saved(saves@) =~= all_saved(written).push(config@));
                }
            }
        }
        proof {
            assert(views.take(views.len() as int) =~= views);
        }
        saves
    }

    /// Opens a tab for each configured file that exists and is not open yet. Returns the
    /// configuration to write.
    pub fn import_config(&mut self, candidates: Vec<Candidate>) -> (config: Config)
        requires
            old(self).wf(),
        ensures
            final(self).wf(),
            final(self)@ == old(self)@.import(candidate_views(candidates@)),
            config@ == config_of(final(self)@.tabs),
    {
        let ghost before = self@;
        let ghost views = candidate_views(candidates@);
        proof {
            assert(views.take(0) =~= Seq::<CandidateView>::empty());
        }
        for c in it: candidates
            invariant
                it.seq() == candidates@,
                views == candidate_views(candidates@),
                self.wf(),
                self@ == before.import(views.take(it.index() as int)),
        {
            proof {
                let i = it.index() as int;
                assert(views.take(i + 1).drop_last() =~= views.take(i));
                assert(views.take(i + 1).last() == c@);
            }
            if c.exists && self.find_path(&c.config.path).is_none() {
                self.open_tab(c.into_named());
            }
        }
        proof {
            assert(views.take(views.len() as int) =~= views);
        }
        self.save_config()
    }

    /// Stops every tab. Returns the commands to kill.
    pub fn stop_all(&mut self) -> (kill: Vec<C>)
        requires
            old(self).wf(),
        ensures
            final(self).wf(),
            final(self)@ == old(self)@.stop_all(),
            kill@ == children_of(old(self)@.tabs),
    {
        let ghost before = self@;
        let ghost child = |t: TabView<C>| t.child;
        let mut kill: Vec<C> = Vec::new();
        let n: usize = self.tabs.len();
        let mut i: usize = 0;
        while i < n
            invariant
                i <= n,
                n == before.tabs.len(),
                child == (|t: TabView<C>| t.child),
                self.wf(),
                self@ == (AppView { tabs: self@.tabs, ..before }),
                self@.tabs.len() == n,
                forall|j: int|
                    0 <= j < n ==> #[trigger] self@.tabs[j] == if j < i {
                        before.tabs[j].stopped()
                    } else {
                        before.tabs[j]
                    },
                kill@ == before.tabs.take(i as int).filter_map(child),
            decreases n - i,
        {
            proof {
                assert(before.tabs.take(i + 1).drop_last() =~= before.tabs.take(i as int));
                assert(self@.tabs[i as int] == before.tabs[i as int]);
            }
            if let Some(c) = self.stop_tab(i) {
                kill.push(c);
            }
            i = i + 1;
        }
        proof {
            assert(before.tabs.take(n as int) =~= before.tabs);
            assert(self@ =~= before.stop_all());
        }
        kill
    }

    /// Closes every tab, from the last to the first. Returns what each asks for, in that order.
    pub fn clear_all(&mut self) -> (cleared: Vec<Closed<C>>)
        requires
            old(self).wf(),
        ensures
            final(self).wf(),
            final(self)@ == old(self)@.clear(),
            cleared_fits(cleared@, old(self)@),
    {
        let ghost before = self@;
        let mut cleared: Vec<Closed<C>> = Vec::new();
        let n: usize = self.tabs.len();
        let mut i: usize = n;
        proof {
            assert(before.tabs.take(n as int) =~= before.tabs);
        }
        while i > 0
            invariant
                i <= n,
                n == before.tabs.len(),
                self.wf(),
                self@ == (AppView { tabs: self@.tabs, active_tab: self@.active_tab, ..before }),
                self@.tabs == before.tabs.take(i as int),
                i == n ==> self@.active_tab == before.active_tab,
                i < n && i == 0 ==> self@.active_tab is None,
                cleared@.len() == n - i,
                forall|k: int|
                    0 <= k < n - i ==> (#[trigger] cleared@[k]).kill == before.tabs[n - 1 - k].child
                        && saved(cleared@[k].save) == Some(
                        config_of(before.tabs.take(n - 1 - k)),
                    ),
            decreases i,
        {
            i = i - 1;
            proof {
                assert(self@.tabs.remove(i as int) =~= before.tabs.take(i as int));
            }
            cleared.push(self.close_tab(i));
        }
        proof {
            assert(self@.tabs =~= Seq::<TabView<C>>::empty());
        }
        cleared
    }

    /// Renames a tab; an empty name changes nothing. Returns the configuration to write, which
    /// is due only if the tab was renamed.
    pub fn rename_tab(&mut self, idx: usize, name: String) -> (save: Option<Config>)
        requires
            old(self).wf(),
        ensures
            final(self).wf(),
            final(self)@ == old(self)@.rename(idx as int, name@),
            saved(save) == if name@.len() > 0 && idx < old(self)@.tabs.len() {
                Some(config_of(final(self)@.tabs))
            } else {
                None
            },
    {
        let ghost before = self@;
        if name.as_str().is_empty() || idx >= self.tabs.len() {
            return None;
        }
        self.tabs[idx].custom_name = name;
        proof {
            assert(self@ =~= before.rename(idx as int, name@));
        }
        Some(self.save_config())
    }
}

} // verus!
