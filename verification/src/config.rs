//! What is kept of the tabs between two starts of the program.

use vstd::prelude::*;

use crate::paths::{
    file_name, has_no_parent, has_parent, is_directory, is_file_name, or_current, path_parent,
};

verus! {

/// One tab as it is written to the configuration file.
pub struct TabConfig {
    pub path: String,
    pub custom_name: String,
}

/// The texts of a `TabConfig`.
#[verifier::ext_equal]
pub struct TabConfigView {
    pub path: Seq<char>,
    pub custom_name: Seq<char>,
}

impl View for TabConfig {
    type V = TabConfigView;

    open spec fn view(&self) -> TabConfigView {
        TabConfigView { path: self.path@, custom_name: self.custom_name@ }
    }
}

/// The configuration file.
pub struct Config {
    pub tabs: Vec<TabConfig>,
}

impl View for Config {
    type V = Seq<TabConfigView>;

    open spec fn view(&self) -> Seq<TabConfigView> {
        self.tabs@.map_values(|t: TabConfig| t@)
    }
}

impl Default for Config {
    /// No tabs.
    fn default() -> (config: Self)
        ensures
            config@ == Seq::<TabConfigView>::empty(),
    {
        let config = Config { tabs: Vec::new() };
        assert(config@ =~= Seq::<TabConfigView>::empty());
        config
    }
}

impl Config {
    /// The configuration to start with, from what the file held. `None` stands for a file that
    /// could not be read or that is no configuration: the program then starts without tabs.
    pub fn load(parsed: Option<Config>) -> (config: Config)
        ensures
            match parsed {
                Some(c) => config == c,
                None => config@ == Seq::<TabConfigView>::empty(),
            },
    {
        match parsed {
            Some(config) => config,
            None => Config::default(),
        }
    }
}

/// Whether `dir` is the directory of the configuration file for a program at `exe`: the directory
/// the program is in, or the current directory where its path has none. Where the path of the
/// program is not known, it is the empty text.
pub open spec fn is_config_dir(exe: Option<&str>, dir: Seq<char>) -> bool {
    match exe {
        None => dir.len() == 0,
        Some(path) => {
            &&& dir == "."@ || is_directory(path@, dir) && dir.len() < path@.len()
            &&& has_no_parent(path@) ==> dir == "."@
            &&& has_parent(path@) ==> is_directory(path@, dir) && dir.len() < path@.len()
        },
    }
}

/// The directory of the configuration file, from the path of the program.
pub fn config_dir(exe: Option<&str>) -> (dir: String)
    ensures
        is_config_dir(exe, dir@),
{
    match exe {
        Some(path) => or_current(path_parent(path)),
        None => String::new(),
    }
}

/// The configuration file, from the path of the program: its directory, and its name there.
pub fn config_file(exe: Option<&str>) -> (at: (String, String))
    ensures
        is_config_dir(exe, at.0@),
        at.1@ == "cmdrunner.toml"@,
{
    (config_dir(exe), "cmdrunner.toml".to_owned())
}

/// A file to open a tab for, with the name it is shown under.
pub struct NamedFile {
    pub path: String,
    pub name: String,
}

/// The texts of a `NamedFile`.
#[verifier::ext_equal]
pub struct NamedFileView {
    pub path: Seq<char>,
    pub name: Seq<char>,
}

impl View for NamedFile {
    type V = NamedFileView;

    open spec fn view(&self) -> NamedFileView {
        NamedFileView { path: self.path@, name: self.name@ }
    }
}

impl NamedFile {
    /// Names a file by the last component of its path.
    pub fn from_path(path: String) -> (file: NamedFile)
        ensures
            file@.path == path@,
            is_file_name(path@, file@.name),
    {
        let name = file_name(path.as_str());
        NamedFile { path, name }
    }
}

/// The name of a tab read from a configuration: the custom name, or the file name where that is
/// empty.
pub open spec fn shown_name(custom_name: Seq<char>, name: Seq<char>) -> Seq<char> {
    if custom_name.len() == 0 {
        name
    } else {
        custom_name
    }
}

/// A configured tab that may be opened.
pub struct Candidate {
    pub config: TabConfig,
    /// The file name of its path.
    pub name: String,
    /// Whether its path exists.
    pub exists: bool,
}

/// The values of a `Candidate`.
#[verifier::ext_equal]
pub struct CandidateView {
    pub config: TabConfigView,
    pub name: Seq<char>,
    pub exists: bool,
}

impl View for Candidate {
    type V = CandidateView;

    open spec fn view(&self) -> CandidateView {
        CandidateView { config: self.config@, name: self.name@, exists: self.exists }
    }
}

impl CandidateView {
    /// The name of the tab that is opened for it.
    pub open spec fn shown_name(self) -> Seq<char> {
        shown_name(self.config.custom_name, self.name)
    }
}

impl Candidate {
    /// A configured tab with the file name of its path.
    pub fn new(config: TabConfig, exists: bool) -> (candidate: Candidate)
        ensures
            candidate@.config == config@,
            candidate@.exists == exists,
            is_file_name(config@.path, candidate@.name),
    {
        let name = file_name(config.path.as_str());
        Candidate { config, name, exists }
    }

    /// Takes the candidate apart into the path and the name of its tab.
    pub fn into_named(self) -> (file: NamedFile)
        ensures
            file@.path == self@.config.path,
            file@.name == self@.shown_name(),
    {
        let TabConfig { path, custom_name } = self.config;
        let name = if custom_name.as_str().is_empty() {
            self.name
        } else {
            custom_name
        };
        NamedFile { path, name }
    }
}

} // verus!
