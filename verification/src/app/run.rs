//! Running the command of a tab, from its start to the moment its end is noticed.

use vstd::prelude::*;

use super::App;
use crate::model::AppView;
use crate::output::{
    end_run, line_trims_cleanly, push_error, push_line, push_trimmed_line, start_run, trims_cleanly,
};
use crate::paths::{directory, is_directory};

verus! {

/// The process flag that keeps the command from opening a console window of its own.
pub const CREATE_NO_WINDOW: u32 = 0x08000000;

/// A command line with the directory it is to be run in.
pub struct CommandLine {
    pub program: String,
    pub args: Vec<String>,
    pub dir: String,
    pub creation_flags: u32,
}

/// The values of a `CommandLine`.
#[verifier::ext_equal]
pub struct CommandLineView {
    pub program: Seq<char>,
    pub args: Seq<Seq<char>>,
    pub dir: Seq<char>,
    pub creation_flags: u32,
}

impl View for CommandLine {
    type V = CommandLineView;

    open spec fn view(&self) -> CommandLineView {
        CommandLineView {
            program: self.program@,
            args: self.args@.map_values(|a: String| a@),
            dir: self.dir@,
            creation_flags: self.creation_flags,
        }
    }
}

/// The command that runs a batch file: the command interpreter, told to carry it out and end.
pub open spec fn command_view(path: Seq<char>, dir: Seq<char>) -> CommandLineView {
    CommandLineView {
        program: "cmd.exe"@,
        args: seq!["/C"@, path],
        dir,
        creation_flags: CREATE_NO_WINDOW,
    }
}

/// Builds the command that runs a batch file in a directory.
pub fn command_for(path: &str, dir: String) -> (command: CommandLine)
    ensures
        command@ == command_view(path@, dir@),
{
    let mut args: Vec<String> = Vec::new();
    args.push("/C".to_owned());
    args.push(path.to_owned());
    let command = CommandLine {
        program: "cmd.exe".to_owned(),
        args,
        dir,
        creation_flags: CREATE_NO_WINDOW,
    };
    proof {
        assert(command@ =~= command_view(path@, dir@));
    }
    command
}

/// What the start of a run asks for.
pub struct Launch<C> {
    /// The command to kill first.
    pub kill: Option<C>,
    /// The tab.
    pub idx: usize,
    /// The number that the lines of the command go to.
    pub id: usize,
    /// The flag to set when the command has ended.
    pub done_flag: usize,
    /// The command to start.
    pub command: CommandLine,
}

/// Whether `launch` is what starting a run in tab `idx` asks for: nothing if there is no such
/// tab; else its command is killed and its batch file is run in the directory of that file, with
/// the lines going to its number and the end to the next flag.
pub open spec fn launch_fits<C>(launch: Option<Launch<C>>, app: AppView<C>, idx: usize) -> bool {
    &&& launch is Some <==> idx < app.tabs.len()
    &&& launch matches Some(l) ==> {
        let tab = app.tabs[idx as int];
        &&& l.kill == tab.child
        &&& l.idx == idx
        &&& l.id == tab.id
        &&& l.done_flag == app.flags.len()
        &&& is_directory(tab.path, l.command@.dir)
        &&& l.command@ == command_view(tab.path, l.command@.dir)
    }
}

impl<C> App<C> {
    /// Starts a run in a tab: what still runs there is to be killed, the console is cleared
    /// and headed, and the command is to be started. Does nothing if there is no such tab.
    pub fn run_tab(&mut self, idx: usize) -> (launch: Option<Launch<C>>)
        requires
            old(self).wf(),
        ensures
            final(self).wf(),
            final(self)@ == old(self)@.run(idx as int),
            launch_fits(launch, old(self)@, idx),
    {
        if idx >= self.tabs.len() {
            return None;
        }
        let ghost before = self@;
        let kill = self.stop_tab(idx);
        let ghost stopped = self@;
        proof {
            assert(self@.tabs.len() == self.tabs.len());
            assert(self.tabs[idx as int]@ == stopped.tabs[idx as int]);
        }
        let path = self.tabs[idx].path.clone();
        let name = self.tabs[idx].custom_name.clone();
        let command = command_for(path.as_str(), directory(path.as_str()));
        let flag: usize = self.flags.len();
        self.flags.push(false);
        start_run(&mut self.tabs[idx].output, name.as_str(), path.as_str());
        self.tabs[idx].running = true;
        self.tabs[idx].done = false;
        self.tabs[idx].done_flag = flag;
        let id: usize = self.tabs[idx].id;
        proof {
            assert(self@.tabs =~= stopped.tabs.update(
                idx as int,
                before.tabs[idx as int].started(flag as nat),
            ));
            assert(self@ =~= before.run(idx as int));
        }
        Some(Launch { kill, idx, id, done_flag: flag, command })
    }

    /// Takes over the command that was started for a run.
    pub fn launched(&mut self, idx: usize, child: C)
        requires
            old(self).wf(),
            idx < old(self)@.tabs.len(),
            old(self)@.tabs[idx as int].running,
        ensures
            final(self).wf(),
            final(self)@ == old(self)@.launched(idx as int, child),
    {
        let ghost before = self@;
        proof {
            assert(self@.tabs.len() == self.tabs.len());
            assert(self.tabs[idx as int]@ == self@.tabs[idx as int]);
        }
        self.tabs[idx].child = Some(child);
        proof {
            assert(self@ =~= before.launched(idx as int, child));
        }
    }

    /// Notes that the command of a run could not be started.
    pub fn launch_failed(&mut self, idx: usize, error: &str)
        requires
            old(self).wf(),
            idx < old(self)@.tabs.len(),
            old(self)@.tabs[idx as int].child is None,
        ensures
            final(self).wf(),
            final(self)@ == old(self)@.launch_failed(idx as int, error@),
    {
        let ghost before = self@;
        proof {
            assert(self@.tabs.len() == self.tabs.len());
            assert(self.tabs[idx as int]@ == self@.tabs[idx as int]);
        }
        push_error(&mut self.tabs[idx].output, error);
        self.tabs[idx].running = false;
        self.tabs[idx].done = true;
        proof {
            assert(self@ =~= before.launch_failed(idx as int, error@));
        }
    }

    /// Where the tab with this number stands.
    fn find_id(&self, id: usize) -> (found: Option<usize>)
        ensures
            match found {
                Some(i) => i < self@.tabs.len() && self@.tabs[i as int].id == id,
                None => forall|j: int| 0 <= j < self@.tabs.len() ==> (#[trigger] self@.tabs[j]).id
                    != id,
            },
    {
        let mut i: usize = 0;
        while i < self.tabs.len()
            invariant
                i <= self.tabs.len(),
                forall|j: int| 0 <= j < i ==> (#[trigger] self@.tabs[j]).id != id,
            decreases self.tabs.len() - i,
        {
            if self.tabs[i].id == id {
                proof {
                    assert(self@.tabs[i as int] == self.tabs[i as int]@);
                }
                return Some(i);
            }
            i = i + 1;
        }
        None
    }

    /// Whether a line from the standard output can be written to the tab with this number.
    pub open spec fn takes_line(&self, id: nat, line: Seq<char>) -> bool {
        forall|i: int|
            0 <= i < self@.tabs.len() && (#[trigger] self@.tabs[i]).id == id ==> trims_cleanly(
                self@.tabs[i].output + line + "\r\n"@,
            )
    }

    /// Decides `takes_line`.
    pub fn can_take_line(&self, id: usize, line: &str) -> (can: bool)
        requires
            self.wf(),
        ensures
            can == self.takes_line(id as nat, line@),
    {
        match self.find_id(id) {
            Some(i) => {
                proof {
                    assert(self@.tabs.len() == self.tabs.len());
                    assert(self@.tabs[i as int] == self.tabs[i as int]@);
                }
                line_trims_cleanly(self.tabs[i].output.as_str(), line)
            },
            None => true,
        }
    }

    /// Writes a line from the standard output of a command to its tab. The text is cut when it
    /// grows too long. A tab that was closed takes nothing.
    pub fn stdout_line(&mut self, id: usize, line: &str)
        requires
            old(self).wf(),
            old(self).takes_line(id as nat, line@),
        ensures
            final(self).wf(),
            final(self)@ == old(self)@.stdout_line(id as nat, line@),
    {
        let ghost before = self@;
        if let Some(i) = self.find_id(id) {
            proof {
                assert(self@.tabs.len() == self.tabs.len());
                assert(self@.tabs[i as int] == self.tabs[i as int]@);
            }
            push_trimmed_line(&mut self.tabs[i].output, line);
            proof {
                assert(self@ =~= before.stdout_line(id as nat, line@));
            }
        } else {
            proof {
                assert(self@ =~= before.stdout_line(id as nat, line@));
            }
        }
    }

    /// Writes a line from the standard error of a command to its tab. Nothing is cut. A tab
    /// that was closed takes nothing.
    pub fn stderr_line(&mut self, id: usize, line: &str)
        requires
            old(self).wf(),
        ensures
            final(self).wf(),
            final(self)@ == old(self)@.stderr_line(id as nat, line@),
    {
        let ghost before = self@;
        if let Some(i) = self.find_id(id) {
            proof {
                assert(self@.tabs.len() == self.tabs.len());
                assert(self@.tabs[i as int] == self.tabs[i as int]@);
            }
            push_line(&mut self.tabs[i].output, line);
            proof {
                assert(self@ =~= before.stderr_line(id as nat, line@));
            }
        } else {
            proof {
                assert(self@ =~= before.stderr_line(id as nat, line@));
            }
        }
    }

    /// Notes that the run with this flag has ended.
    pub fn finished(&mut self, flag: usize)
        requires
            old(self).wf(),
        ensures
            final(self).wf(),
            final(self)@ == old(self)@.finished(flag as int),
    {
        let ghost before = self@;
        if flag < self.flags.len() {
            self.flags.set(flag, true);
        }
        proof {
            assert(self@ =~= before.finished(flag as int));
        }
    }

    /// Notices which runs have ended: their tabs are done and their console is closed.
    pub fn poll_all(&mut self)
        requires
            old(self).wf(),
        ensures
            final(self).wf(),
            final(self)@ == old(self)@.poll(),
    {
        let ghost before = self@;
        let n: usize = self.tabs.len();
        let mut i: usize = 0;
        while i < n
            invariant
                i <= n,
                n == self.tabs.len(),
                n == before.tabs.len(),
                before.wf(),
                self@.flags == before.flags,
                self@.active_tab == before.active_tab,
                self@.edit_buffers == before.edit_buffers,
                self@.confirm_delete == before.confirm_delete,
                forall|j: int|
                    0 <= j < n ==> (#[trigger] self.tabs[j])@ == if j < i {
                        before.tabs[j].polled(before.flags)
                    } else {
                        before.tabs[j]
                    },
            decreases n - i,
        {
            proof {
                assert(self.tabs[i as int]@ == before.tabs[i as int]);
                assert(before.tabs[i as int].wf(before.flags));
            }
            if self.tabs[i].running && self.flags[self.tabs[i].done_flag] {
                self.tabs[i].running = false;
                self.tabs[i].done = true;
                end_run(&mut self.tabs[i].output);
                self.tabs[i].child = None;
            }
            i = i + 1;
        }
        proof {
            assert(self@ =~= before.poll());
        }
    }
}

} // verus!
