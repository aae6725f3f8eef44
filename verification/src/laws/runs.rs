//! What becomes of a tab while its command runs.

use vstd::prelude::*;
use vstd::utf8::*;

use crate::app::reader::{after_read, after_reads, ReadEvent, ReadEventView, Reader, Stream};
use crate::app::run::{command_view, launch_fits, CommandLine, Launch};
use crate::app::App;
use crate::model::{AppView, TabView};
use crate::output::{
    byte_len, error_line, footer, header, lemma_encode_concat, rule, trimmed,
    trimmed_is_bounded_suffix, trims_cleanly,
};
use crate::paths::is_directory;

verus! {

/// In every state the tabs can be told apart by their numbers and by their flags, each flag is
/// there, and a tab that holds a command runs and is not done.
pub proof fn tabs_are_told_apart<C>(app: AppView<C>)
    requires
        app.wf(),
    ensures
        forall|i: int, j: int|
            #![trigger app.tabs[i], app.tabs[j]]
            0 <= i < app.tabs.len() && 0 <= j < app.tabs.len() && i != j ==> app.tabs[i].id
                != app.tabs[j].id && app.tabs[i].done_flag != app.tabs[j].done_flag,
        forall|i: int|
            0 <= i < app.tabs.len() ==> (#[trigger] app.tabs[i]).id < app.flags.len()
                && app.tabs[i].done_flag < app.flags.len(),
        forall|i: int|
            0 <= i < app.tabs.len() && (#[trigger] app.tabs[i]).child is Some ==> app.tabs[i].running,
        forall|i: int|
            0 <= i < app.tabs.len() && (#[trigger] app.tabs[i]).running ==> !app.tabs[i].done,
{
}

/// A run starts afresh: the console holds the heading alone, the tab runs and is not done, holds
/// no command yet, and waits for the end that is noted at a flag of its own, which is not set.
/// Path, name and number of the tab stay, and so does all else. Without such a tab nothing
/// changes.
pub proof fn run_starts_afresh<C>(app: AppView<C>, idx: int)
    ensures
        ({
            let after = app.run(idx);
            let is_there = 0 <= idx < app.tabs.len();
            &&& !is_there ==> after == app
            &&& after.tabs.len() == app.tabs.len()
            &&& forall|i: int|
                0 <= i < app.tabs.len() && i != idx ==> #[trigger] after.tabs[i] == app.tabs[i]
            &&& is_there ==> {
                let old_tab = app.tabs[idx];
                let tab = after.tabs[idx];
                &&& tab.running && !tab.done && tab.child is None
                &&& tab.output == "> 运行: "@ + old_tab.custom_name + "\r\n"@ + "> 路径: "@
                    + old_tab.path + "\r\n"@ + rule() + "\r\n"@
                &&& tab.path == old_tab.path && tab.custom_name == old_tab.custom_name && tab.id
                    == old_tab.id
                &&& tab.done_flag == app.flags.len()
                &&& after.flags.len() == app.flags.len() + 1
                &&& forall|f: int|
                    0 <= f < app.flags.len() ==> #[trigger] after.flags[f] == app.flags[f]
                &&& !after.flags[tab.done_flag as int]
                &&& after.poll().tabs[idx] == tab
            }
            &&& after == (AppView { tabs: after.tabs, flags: after.flags, ..app })
        }),
{
}

/// The start of a run asks for the command that the tab still holds to be killed, and for the
/// command interpreter to carry out its file, in the directory of that file and without a
/// window. What the command writes and its end are meant for this run of this tab.
pub proof fn launch_is_for_this_run<C>(launch: Option<Launch<C>>, app: AppView<C>, idx: usize)
    requires
        launch_fits(launch, app, idx),
    ensures
        idx >= app.tabs.len() ==> launch is None,
        idx < app.tabs.len() ==> {
            let tab = app.tabs[idx as int];
            let run = app.run(idx as int).tabs[idx as int];
            &&& launch matches Some(l) && l.kill == tab.child && l.idx == idx && l.id == run.id
                && l.done_flag == run.done_flag && l.command.program@ == "cmd.exe"@
                && l.command.args@.len() == 2 && l.command.args@[0]@ == "/C"@
                && l.command.args@[1]@ == tab.path && is_directory(tab.path, l.command.dir@)
                && l.command.creation_flags == 0x08000000
        },
{
    if let Some(l) = launch {
        let tab = app.tabs[idx as int];
        let view = command_view(tab.path, l.command@.dir);
        assert(l.command@ == view);
        assert(l.command@.args.len() == l.command.args@.len());
        assert(l.command@.args[0] == l.command.args@[0]@);
        assert(l.command@.args[1] == l.command.args@[1]@);
    }
}

/// The values of a command line are its own.
pub proof fn command_line_values(command: CommandLine)
    ensures
        command@.program == command.program@,
        command@.args.len() == command.args@.len(),
        forall|i: int|
            0 <= i < command.args@.len() ==> #[trigger] command@.args[i] == command.args@[i]@,
        command@.dir == command.dir@,
        command@.creation_flags == command.creation_flags,
{
}

/// A command that was started is held by its tab, and nothing else changes.
pub proof fn started_command_is_held<C>(app: AppView<C>, idx: int, child: C)
    requires
        0 <= idx < app.tabs.len(),
    ensures
        ({
            let after = app.launched(idx, child);
            &&& after.tabs.len() == app.tabs.len()
            &&& forall|i: int|
                0 <= i < app.tabs.len() && i != idx ==> #[trigger] after.tabs[i] == app.tabs[i]
            &&& after.tabs[idx].child == Some(child)
            &&& after.tabs[idx] == (TabView { child: after.tabs[idx].child, ..app.tabs[idx] })
            &&& after == (AppView { tabs: after.tabs, ..app })
        }),
{
}

/// A command that could not be started is told of in the console of its tab, which is done and
/// stays as it is whatever end of a run is noted. Nothing else changes.
pub proof fn failed_start_is_told<C>(app: AppView<C>, idx: int, error: Seq<char>, flag: int)
    requires
        0 <= idx < app.tabs.len(),
    ensures
        ({
            let after = app.launch_failed(idx, error);
            let tab = after.tabs[idx];
            &&& after.tabs.len() == app.tabs.len()
            &&& forall|i: int|
                0 <= i < app.tabs.len() && i != idx ==> #[trigger] after.tabs[i] == app.tabs[i]
            &&& tab.output == app.tabs[idx].output + ("[ERROR] "@ + error + "\r\n"@)
            &&& !tab.running && tab.done
            &&& tab == (TabView {
                output: tab.output,
                running: tab.running,
                done: tab.done,
                ..app.tabs[idx]
            })
            &&& after.finished(flag).poll().tabs[idx] == tab
            &&& after == (AppView { tabs: after.tabs, ..app })
        }),
{
}

/// Noting the end of a run sets its flag and changes nothing else.
pub proof fn end_sets_one_flag<C>(app: AppView<C>, flag: int)
    ensures
        ({
            let after = app.finished(flag);
            &&& after.flags.len() == app.flags.len()
            &&& forall|f: int|
                0 <= f < app.flags.len() ==> #[trigger] after.flags[f] == (app.flags[f] || f
                    == flag)
            &&& after == (AppView { flags: after.flags, ..app })
        }),
{
}

/// A poll completes exactly the tabs that run and whose end was noted: they are done, let go of
/// their command, and their console is closed. All else stays.
pub proof fn poll_completes_ended_runs<C>(app: AppView<C>)
    requires
        app.wf(),
    ensures
        ({
            let after = app.poll();
            &&& after.tabs.len() == app.tabs.len()
            &&& forall|i: int|
                #![trigger after.tabs[i]]
                0 <= i < app.tabs.len() ==> {
                    let old_tab = app.tabs[i];
                    let tab = after.tabs[i];
                    if old_tab.running && app.flags[old_tab.done_flag as int] {
                        &&& !tab.running && tab.done && tab.child is None
                        &&& tab.output == old_tab.output + (rule() + "\r\n"@
                            + "> ✅ 执行完毕\r\n"@)
                        &&& tab == (TabView {
                            running: tab.running,
                            done: tab.done,
                            child: tab.child,
                            output: tab.output,
                            ..old_tab
                        })
                    } else {
                        tab == old_tab
                    }
                }
            &&& after == (AppView { tabs: after.tabs, ..app })
        }),
{
}

/// Stopping a tab lets go of its command and ends its run; its console, its name and all else
/// stay, and it is done only if it was. Without such a tab nothing changes.
pub proof fn stop_changes_one_tab<C>(app: AppView<C>, idx: int)
    ensures
        ({
            let after = app.stop(idx);
            &&& !(0 <= idx < app.tabs.len()) ==> after == app
            &&& after.tabs.len() == app.tabs.len()
            &&& forall|i: int|
                0 <= i < app.tabs.len() && i != idx ==> #[trigger] after.tabs[i] == app.tabs[i]
            &&& 0 <= idx < app.tabs.len() ==> {
                let tab = after.tabs[idx];
                &&& !tab.running && tab.child is None
                &&& tab == (TabView { running: tab.running, child: tab.child, ..app.tabs[idx] })
            }
            &&& after == (AppView { tabs: after.tabs, ..app })
        }),
{
}

/// Stopping all does to each tab what stopping that one does, and changes nothing else.
pub proof fn stop_all_stops_each<C>(app: AppView<C>)
    ensures
        ({
            let after = app.stop_all();
            &&& after.tabs.len() == app.tabs.len()
            &&& forall|i: int|
                #![trigger after.tabs[i]]
                0 <= i < app.tabs.len() ==> {
                    let tab = after.tabs[i];
                    &&& !tab.running && tab.child is None
                    &&& tab == (TabView { running: tab.running, child: tab.child, ..app.tabs[i] })
                    &&& tab == app.stop(i).tabs[i]
                }
            &&& after == (AppView { tabs: after.tabs, ..app })
        }),
{
}

/// A line reaches the tab with its number and no other, wherever that tab stands and whether it
/// runs or not. A line of the standard error is put behind what is there; one of the standard
/// output too, as long as the whole is within two hundred thousand bytes.
pub proof fn line_is_put_behind<C>(app: AppView<C>, id: nat, line: Seq<char>)
    ensures
        ({
            let out = app.stdout_line(id, line);
            let err = app.stderr_line(id, line);
            &&& out.tabs.len() == app.tabs.len() && err.tabs.len() == app.tabs.len()
            &&& forall|i: int|
                #![trigger app.tabs[i]]
                0 <= i < app.tabs.len() ==> {
                    let tab = app.tabs[i];
                    let whole = tab.output + line + "\r\n"@;
                    &&& tab.id != id ==> out.tabs[i] == tab && err.tabs[i] == tab
                    &&& tab.id == id ==> err.tabs[i] == (TabView { output: whole, ..tab })
                    &&& tab.id == id && byte_len(whole) <= 200000 ==> out.tabs[i] == (TabView {
                        output: whole,
                        ..tab
                    })
                    &&& tab.id == id ==> out.tabs[i] == (TabView {
                        output: out.tabs[i].output,
                        ..tab
                    })
                    &&& tab.id == id && trims_cleanly(whole) && byte_len(whole) > 200000 ==> {
                        &&& out.tabs[i].output.is_suffix_of(whole)
                        &&& byte_len(out.tabs[i].output) == 160000
                    }
                }
            &&& out == (AppView { tabs: out.tabs, ..app })
            &&& err == (AppView { tabs: err.tabs, ..app })
        }),
{
    assert forall|i: int|
        #![trigger app.tabs[i]]
        0 <= i < app.tabs.len() && trims_cleanly(app.tabs[i].output + line + "\r\n"@) implies ({
        let whole = app.tabs[i].output + line + "\r\n"@;
        &&& trimmed(whole).is_suffix_of(whole)
        &&& byte_len(whole) > 200000 ==> byte_len(trimmed(whole)) == 160000
    }) by {
        trimmed_is_bounded_suffix(app.tabs[i].output + line + "\r\n"@);
    }
}

/// Closing another tab does not keep the lines of a command from its tab, which then stands one
/// place up if the closed one stood before it.
pub proof fn lines_follow_their_tab<C>(app: AppView<C>, closed: usize, i: int, line: Seq<char>)
    requires
        closed < app.tabs.len(),
        0 <= i < app.tabs.len(),
        i != closed,
    ensures
        ({
            let id = app.tabs[i].id;
            let place = if i < closed {
                i
            } else {
                i - 1
            };
            &&& app.close(closed).stdout_line(id, line).tabs[place] == app.stdout_line(
                id,
                line,
            ).tabs[i]
            &&& app.close(closed).stderr_line(id, line).tabs[place] == app.stderr_line(
                id,
                line,
            ).tabs[i]
        }),
{
    let place = if i < closed {
        i
    } else {
        i - 1
    };
    assert(app.close(closed).tabs[place] == app.tabs[i]);
}

/// What each read does. A line of a stream that has not ended goes to the tab, one that could
/// not be read nowhere. The end of a stream closes that stream, and when the other has ended
/// too the end of the run is noted at its flag. A stream that has ended gives nothing more.
pub proof fn each_read<C>(
    app: AppView<C>,
    reader: Reader,
    stream: Stream,
    event: ReadEventView,
)
    ensures
        ({
            let (after, r) = after_read(app, reader, stream, event);
            let is_open = if stream == Stream::Stdout {
                reader.stdout_open
            } else {
                reader.stderr_open
            };
            let other_open = if stream == Stream::Stdout {
                reader.stderr_open
            } else {
                reader.stdout_open
            };
            &&& r.id == reader.id && r.done_flag == reader.done_flag
            &&& !is_open || event is BadLine ==> after == app && r == reader
            &&& event is Line ==> r == reader && after.flags == app.flags
            &&& event matches ReadEventView::Line(line) ==> (is_open ==> after == if stream
                == Stream::Stdout {
                app.stdout_line(reader.id as nat, line)
            } else {
                app.stderr_line(reader.id as nat, line)
            })
            &&& event is End ==> after.tabs == app.tabs
            &&& event is End && is_open && stream == Stream::Stdout ==> !r.stdout_open
                && r.stderr_open == reader.stderr_open
            &&& event is End && is_open && stream == Stream::Stderr ==> !r.stderr_open
                && r.stdout_open == reader.stdout_open
            &&& event is End && is_open && other_open ==> after == app
            &&& event is End && is_open && !other_open ==> after == app.finished(
                reader.done_flag as int,
            )
        }),
{
}

/// Reads one behind the other are taken as if one after the other.
pub proof fn reads_are_taken_in_order<C>(
    app: AppView<C>,
    reader: Reader,
    a: Seq<(Stream, ReadEventView)>,
    b: Seq<(Stream, ReadEventView)>,
    stream: Stream,
    event: ReadEventView,
)
    ensures
        after_reads(app, reader, Seq::empty()) == (app, reader),
        after_reads(app, reader, seq![(stream, event)]) == after_read(app, reader, stream, event),
        after_reads(app, reader, a + b) == ({
            let (middle, r) = after_reads(app, reader, a);
            after_reads(middle, r, b)
        }),
    decreases b.len(),
{
    reveal_with_fuel(after_reads, 2);
    assert(seq![(stream, event)].drop_last() =~= Seq::empty());
    if b.len() == 0 {
        assert(a + b =~= a);
    } else {
        reads_are_taken_in_order(app, reader, a, b.drop_last(), stream, event);
        assert((a + b).drop_last() =~= a + b.drop_last());
        assert((a + b).last() == b.last());
    }
}

/// Runs do not meet: what is read of one command changes nothing of a tab with another number
/// and no flag but its own, and neither the selection nor the question nor the name fields.
pub proof fn reads_touch_one_run<C>(
    app: AppView<C>,
    reader: Reader,
    events: Seq<(Stream, ReadEventView)>,
)
    ensures
        ({
            let (after, r) = after_reads(app, reader, events);
            &&& r.id == reader.id && r.done_flag == reader.done_flag
            &&& after.tabs.len() == app.tabs.len() && after.flags.len() == app.flags.len()
            &&& forall|i: int|
                0 <= i < app.tabs.len() && (#[trigger] app.tabs[i]).id != reader.id ==> after.tabs[i]
                    == app.tabs[i]
            &&& forall|i: int|
                0 <= i < app.tabs.len() ==> (#[trigger] after.tabs[i]) == (TabView {
                    output: after.tabs[i].output,
                    ..app.tabs[i]
                })
            &&& forall|f: int|
                0 <= f < app.flags.len() && f != reader.done_flag ==> #[trigger] after.flags[f]
                    == app.flags[f]
            &&& after == (AppView { tabs: after.tabs, flags: after.flags, ..app })
        }),
    decreases events.len(),
{
    if events.len() > 0 {
        reads_touch_one_run(app, reader, events.drop_last());
        let (middle, r) = after_reads(app, reader, events.drop_last());
        let (after, _) = after_reads(app, reader, events);
        assert forall|i: int| 0 <= i < app.tabs.len() implies (#[trigger] after.tabs[i]) == (
        TabView { output: after.tabs[i].output, ..app.tabs[i] }) by {
            assert(middle.tabs[i] == (TabView { output: middle.tabs[i].output, ..app.tabs[i] }));
        }
        assert forall|i: int|
            0 <= i < app.tabs.len() && (#[trigger] app.tabs[i]).id
                != reader.id implies after.tabs[i] == app.tabs[i] by {
            assert(middle.tabs[i] == app.tabs[i]);
        }
    }
}

/// The value of a read is what was read.
pub proof fn read_values(event: ReadEvent)
    ensures
        event matches ReadEvent::Line(text) ==> event@ == ReadEventView::Line(text@),
        event is BadLine ==> event@ is BadLine,
        event is End ==> event@ is End,
{
}

/// Every read can be taken but a line of the standard output that would have a text cut inside
/// a character.
pub proof fn what_can_be_taken<C>(
    app: App<C>,
    reader: Reader,
    stream: Stream,
    event: ReadEventView,
)
    ensures
        stream == Stream::Stderr || !(event is Line) || !reader.stdout_open ==> app.takes(
            reader,
            stream,
            event,
        ),
        event matches ReadEventView::Line(line) ==> ((forall|i: int|
            0 <= i < app@.tabs.len() && (#[trigger] app@.tabs[i]).id == reader.id ==> byte_len(
                app@.tabs[i].output + line + "\r\n"@,
            ) <= 200000) ==> app.takes(reader, stream, event)),
        event matches ReadEventView::Line(line) ==> (stream == Stream::Stdout && reader.stdout_open
            ==> (app.takes(reader, stream, event) <==> forall|i: int|
            0 <= i < app@.tabs.len() && (#[trigger] app@.tabs[i]).id == reader.id ==> trims_cleanly(
                app@.tabs[i].output + line + "\r\n"@,
            ))),
{
}

/// The heading names the tab and its file, each on a line of its own, and is set off by a rule
/// of fifty dashes; so are the closing lines; an error is told on one line.
pub proof fn console_frames(name: Seq<char>, path: Seq<char>, error: Seq<char>)
    ensures
        rule().len() == 50,
        forall|i: int| 0 <= i < 50 ==> #[trigger] rule()[i] == '─',
        header(name, path) == ("> 运行: "@ + name + "\r\n"@) + ("> 路径: "@ + path + "\r\n"@) + (
        rule() + "\r\n"@),
        footer() == (rule() + "\r\n"@) + "> ✅ 执行完毕\r\n"@,
        error_line(error) == "[ERROR] "@ + error + "\r\n"@,
{
    assert(header(name, path) =~= ("> 运行: "@ + name + "\r\n"@) + ("> 路径: "@ + path
        + "\r\n"@) + (rule() + "\r\n"@));
}

/// The cut is clean where a character starts: a text over the limit whose end has a hundred and
/// sixty thousand bytes can be cut, and that end is what is left.
pub proof fn clean_cut_keeps_the_end(front: Seq<char>, end: Seq<char>)
    requires
        byte_len(front + end) > 200000,
        byte_len(end) == 160000,
    ensures
        trims_cleanly(front + end),
        trimmed(front + end) == end,
{
    lemma_encode_concat(front, end);
    lemma_boundary(front, end);
    let bytes = encode_utf8(front + end);
    let cut = byte_len(front + end) - 160000;
    assert(bytes.skip(cut) =~= encode_utf8(end));
    encode_utf8_decode_utf8(end);
}

proof fn lemma_boundary(a: Seq<char>, b: Seq<char>)
    ensures
        is_char_boundary(encode_utf8(a + b), byte_len(a) as int),
    decreases a.len(),
{
    encode_utf8_valid_utf8(a + b);
    if a.len() > 0 {
        lemma_boundary(a.drop_first(), b);
        assert((a + b).drop_first() =~= a.drop_first() + b);
        encode_utf8_first_scalar(a + b);
        let first = encode_scalar(a[0] as u32);
        let rest = encode_utf8(a.drop_first() + b);
        assert(encode_utf8(a + b) == first + rest);
        assert(byte_len(a) == first.len() + byte_len(a.drop_first()));
        lemma_encode_concat(a, b);
        assert(pop_first_scalar(encode_utf8(a + b)) =~= rest);
    }
}

/// A text that cannot be cut is over the limit and has no such end.
pub proof fn refused_cut_has_no_clean_end(s: Seq<char>)
    ensures
        byte_len(s) <= 200000 ==> trims_cleanly(s),
        !trims_cleanly(s) ==> forall|k: int|
            0 <= k <= s.len() ==> byte_len(#[trigger] s.skip(k)) != 160000,
{
    if !trims_cleanly(s) {
        assert forall|k: int| 0 <= k <= s.len() implies byte_len(#[trigger] s.skip(k))
            != 160000 by {
            if byte_len(s.skip(k)) == 160000 {
                assert(s.take(k) + s.skip(k) =~= s);
                clean_cut_keeps_the_end(s.take(k), s.skip(k));
            }
        }
    }
}

/// The length of a text is that of its bytes.
pub proof fn length_is_in_bytes(s: Seq<char>)
    ensures
        byte_len(s) == encode_utf8(s).len(),
{
}

} // verus!
