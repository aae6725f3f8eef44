use cmdrunner::app::frame::{CardEvent, FrameRequests, FrameStep, Pane};
use cmdrunner::app::reader::{ReadEvent, Reader, Stream};
use cmdrunner::app::run::CREATE_NO_WINDOW;
use cmdrunner::app::App;
use cmdrunner::cards::Status;
use cmdrunner::config::{Candidate, Config, NamedFile, TabConfig};
use cmdrunner::tray::WindowSlot;

fn file(path: &str) -> NamedFile {
    NamedFile::from_path(path.to_string())
}

fn candidate(path: &str, custom_name: &str, exists: bool) -> Candidate {
    Candidate::new(
        TabConfig { path: path.to_string(), custom_name: custom_name.to_string() },
        exists,
    )
}

fn entries(config: &Config) -> Vec<(String, String)> {
    config.tabs.iter().map(|t| (t.path.clone(), t.custom_name.clone())).collect()
}

fn pair(path: &str, name: &str) -> (String, String) {
    (path.to_string(), name.to_string())
}

fn line(text: &str) -> ReadEvent {
    ReadEvent::Line(text.to_string())
}

/// Hands a read to the app as a program does: only after it was asked.
fn take(app: &mut App<u32>, reader: &mut Reader, stream: Stream, event: ReadEvent) {
    assert!(app.can_take(reader, stream, &event));
    app.take_read(reader, stream, event);
}

/// An app with tabs a.bat, b.bat and c.bat; the last one is selected.
fn three() -> App<u32> {
    let mut app: App<u32> = App::new(Vec::new());
    app.add_file("s/a.bat".to_string());
    app.add_file("s/b.bat".to_string());
    app.add_file("s/c.bat".to_string());
    app
}

fn console(app: &App<u32>) -> (String, String, String) {
    match app.pane() {
        Pane::Console { title, path, output } => (title, path, output),
        Pane::Welcome => panic!("welcome"),
        Pane::Blank => panic!("blank"),
    }
}

fn select(app: &mut App<u32>, i: usize) {
    let mut requests = FrameRequests::none();
    app.card_event(&mut requests, i, CardEvent::Select);
}

const HEAD_A: &str = "> 运行: a.bat\r\n> 路径: s/a.bat\r\n──────────────────────────────────────────────────\r\n";
const FOOT: &str = "──────────────────────────────────────────────────\r\n> ✅ 执行完毕\r\n";

#[test]
fn add_file_opens_selects_and_saves() {
    let mut app: App<u32> = App::new(Vec::new());
    assert!(matches!(app.pane(), Pane::Welcome));
    let saved = app.add_file("scripts/build.bat".to_string()).unwrap();
    assert_eq!(entries(&saved), vec![pair("scripts/build.bat", "build.bat")]);
    assert_eq!(app.tab_count(), 1);
    let (title, path, output) = console(&app);
    assert_eq!(title, "📄 build.bat - 就绪");
    assert_eq!(path, "scripts/build.bat");
    assert_eq!(output, "");
}

#[test]
fn add_file_ignores_other_files() {
    let mut app: App<u32> = App::new(Vec::new());
    assert!(app.add_file("notes.txt".to_string()).is_none());
    assert!(app.add_file("bat".to_string()).is_none());
    assert!(app.add_file("x.bat.bak".to_string()).is_none());
    assert_eq!(app.tab_count(), 0);
    assert!(matches!(app.pane(), Pane::Welcome));
}

#[test]
fn add_file_takes_any_letter_case() {
    let mut app: App<u32> = App::new(Vec::new());
    assert!(app.add_file("A.BAT".to_string()).is_some());
    assert!(app.add_file("b.Cmd".to_string()).is_some());
    assert!(app.add_file("构建.BaT".to_string()).is_some());
    assert_eq!(app.tab_count(), 3);
}

#[test]
fn add_same_file_selects_its_tab() {
    let mut app = three();
    assert_eq!(console(&app).1, "s/c.bat");
    assert!(app.add_file("s/a.bat".to_string()).is_none());
    assert_eq!(app.tab_count(), 3);
    assert_eq!(console(&app).1, "s/a.bat");
    assert!(app.add_file("s/a.bat".to_string()).is_none());
    assert_eq!(console(&app).1, "s/a.bat");
}

#[test]
fn add_named_files_saves_after_each_new_tab() {
    let mut app: App<u32> = App::new(Vec::new());
    let saves =
        app.add_named_files(vec![file("a.bat"), file("a.txt"), file("b.cmd"), file("a.bat")]);
    assert_eq!(saves.len(), 2);
    assert_eq!(entries(&saves[0]), vec![pair("a.bat", "a.bat")]);
    assert_eq!(entries(&saves[1]), vec![pair("a.bat", "a.bat"), pair("b.cmd", "b.cmd")]);
    assert_eq!(console(&app).1, "a.bat");
}

#[test]
fn new_opens_existing_files_with_their_names() {
    let app: App<u32> = App::new(vec![
        candidate("d/a.bat", "Build", true),
        candidate("d/b.bat", "", true),
        candidate("d/c.bat", "Gone", false),
        candidate("d/a.bat", "Twice", true),
    ]);
    assert_eq!(
        entries(&app.save_config()),
        vec![pair("d/a.bat", "Build"), pair("d/b.bat", "b.bat"), pair("d/a.bat", "Twice")]
    );
    assert!(matches!(app.pane(), Pane::Welcome));
}

#[test]
fn saved_tabs_come_back() {
    let mut app = three();
    app.rename_tab(1, "部署上线".to_string());
    let config = app.save_config();
    let wanted = entries(&config);
    let again: App<u32> =
        App::new(config.tabs.into_iter().map(|t| Candidate::new(t, true)).collect());
    assert_eq!(entries(&again.save_config()), wanted);
    assert_eq!(wanted[1], pair("s/b.bat", "部署上线"));
}

#[test]
fn config_load_falls_back_to_no_tabs() {
    assert_eq!(Config::load(None).tabs.len(), 0);
    let config = Config {
        tabs: vec![TabConfig { path: "p".to_string(), custom_name: "n".to_string() }],
    };
    assert_eq!(entries(&Config::load(Some(config))), vec![pair("p", "n")]);
}

#[test]
fn import_skips_missing_and_open_files() {
    let mut app = three();
    let list = || {
        vec![
            candidate("s/b.bat", "other", true),
            candidate("s/d.bat", "D", true),
            candidate("s/e.bat", "E", false),
            candidate("s/d.bat", "D again", true),
            candidate("s/f.bat", "", true),
        ]
    };
    let wanted = vec![
        pair("s/a.bat", "a.bat"),
        pair("s/b.bat", "b.bat"),
        pair("s/c.bat", "c.bat"),
        pair("s/d.bat", "D"),
        pair("s/f.bat", "f.bat"),
    ];
    assert_eq!(entries(&app.import_config(list())), wanted);
    assert_eq!(console(&app).1, "s/c.bat");
    assert_eq!(entries(&app.import_config(list())), wanted);
}

#[test]
fn close_moves_the_selection() {
    // Another tab before the selected one.
    let mut app = three();
    let closed = app.close_tab(0);
    assert!(closed.kill.is_none());
    assert_eq!(
        entries(&closed.save.unwrap()),
        vec![pair("s/b.bat", "b.bat"), pair("s/c.bat", "c.bat")]
    );
    assert_eq!(console(&app).1, "s/c.bat");
    // The selected one, last in the list.
    app.close_tab(1);
    assert_eq!(console(&app).1, "s/b.bat");
    // The last one that is left.
    app.close_tab(0);
    assert!(matches!(app.pane(), Pane::Welcome));
    // The selected one, not the last.
    let mut app = three();
    select(&mut app, 0);
    app.close_tab(0);
    assert_eq!(console(&app).1, "s/b.bat");
    // One behind the selected one.
    let mut app = three();
    select(&mut app, 0);
    app.close_tab(2);
    assert_eq!(console(&app).1, "s/a.bat");
}

#[test]
fn close_of_no_tab_does_nothing() {
    let mut app = three();
    let closed = app.close_tab(3);
    assert!(closed.kill.is_none());
    assert!(closed.save.is_none());
    assert_eq!(app.tab_count(), 3);
}

#[test]
fn close_undoes_add() {
    let mut app = three();
    let before = entries(&app.save_config());
    app.add_file("s/d.bat".to_string());
    app.close_tab(3);
    assert_eq!(entries(&app.save_config()), before);
}

#[test]
fn run_starts_the_command_interpreter() {
    let mut app = three();
    select(&mut app, 0);
    let launch = app.run_tab(0).unwrap();
    assert!(launch.kill.is_none());
    assert_eq!(launch.idx, 0);
    assert_eq!(launch.command.program, "cmd.exe");
    assert_eq!(launch.command.args, vec!["/C".to_string(), "s/a.bat".to_string()]);
    assert_eq!(launch.command.dir, "s");
    assert_eq!(launch.command.creation_flags, 0x08000000);
    assert_eq!(CREATE_NO_WINDOW, 0x08000000);
    let (title, _, output) = console(&app);
    assert_eq!(title, "▶ a.bat - 运行中...");
    assert_eq!(output, HEAD_A);
    assert_eq!(app.running_count(), 1);
    assert!(app.run_tab(3).is_none());
}

#[test]
fn run_shows_what_was_written() {
    let mut app = three();
    select(&mut app, 0);
    let launch = app.run_tab(0).unwrap();
    app.launched(0, 7);
    let mut reader = launch.reader();
    assert!(reader.stdout_open && reader.stderr_open);
    for (stream, event) in [
        (Stream::Stdout, line("one")),
        (Stream::Stdout, ReadEvent::BadLine),
        (Stream::Stderr, line("oops")),
        (Stream::Stdout, line("二")),
        (Stream::Stdout, ReadEvent::End),
        (Stream::Stderr, line("late")),
        (Stream::Stderr, ReadEvent::End),
    ] {
        take(&mut app, &mut reader, stream, event);
    }
    assert!(!reader.stdout_open && !reader.stderr_open);
    // The end is shown only after it was noticed.
    assert_eq!(app.card(0).status, Status::Running);
    app.poll_all();
    assert_eq!(app.card(0).status, Status::Done);
    let (title, _, output) = console(&app);
    assert_eq!(title, "✅ a.bat - 完成");
    assert_eq!(output, format!("{}one\r\noops\r\n二\r\nlate\r\n{}", HEAD_A, FOOT));
    // Once is enough.
    app.poll_all();
    assert_eq!(console(&app).2, output);
    assert!(app.stop_tab(0).is_none());
    assert_eq!(app.card(0).status, Status::Done);
}

#[test]
fn errors_are_shown_at_once() {
    let mut app = three();
    select(&mut app, 0);
    let launch = app.run_tab(0).unwrap();
    app.launched(0, 7);
    let mut reader = launch.reader();
    take(&mut app, &mut reader, Stream::Stderr, line("m"));
    assert!(reader.stdout_open && reader.stderr_open);
    app.poll_all();
    assert_eq!(console(&app).2, format!("{}m\r\n", HEAD_A));
    assert_eq!(app.card(0).status, Status::Running);
    take(&mut app, &mut reader, Stream::Stdout, line("out"));
    take(&mut app, &mut reader, Stream::Stderr, line("n"));
    assert_eq!(console(&app).2, format!("{}m\r\nout\r\nn\r\n", HEAD_A));
}

#[test]
fn run_ends_with_its_second_stream() {
    for (first, second) in [(Stream::Stdout, Stream::Stderr), (Stream::Stderr, Stream::Stdout)] {
        let mut app = three();
        select(&mut app, 0);
        let launch = app.run_tab(0).unwrap();
        app.launched(0, 7);
        let mut reader = launch.reader();
        take(&mut app, &mut reader, first, ReadEvent::End);
        app.poll_all();
        assert_eq!(app.card(0).status, Status::Running);
        assert_eq!(console(&app).2, HEAD_A);
        // Nothing more comes from a stream that has ended.
        take(&mut app, &mut reader, first, line("gone"));
        take(&mut app, &mut reader, first, ReadEvent::End);
        app.poll_all();
        assert_eq!(app.card(0).status, Status::Running);
        assert_eq!(console(&app).2, HEAD_A);
        take(&mut app, &mut reader, second, line("more"));
        take(&mut app, &mut reader, second, ReadEvent::End);
        app.poll_all();
        assert_eq!(app.card(0).status, Status::Done);
        assert_eq!(console(&app).2, format!("{}more\r\n{}", HEAD_A, FOOT));
    }
}

#[test]
fn run_again_kills_and_clears() {
    let mut app = three();
    select(&mut app, 0);
    let first = app.run_tab(0).unwrap();
    app.launched(0, 7);
    app.stdout_line(first.id, "old");
    let second = app.run_tab(0).unwrap();
    assert_eq!(second.kill, Some(7));
    assert_eq!(second.id, first.id);
    assert_ne!(second.done_flag, first.done_flag);
    assert_eq!(console(&app).2, HEAD_A);
    app.launched(0, 8);
    // The end of the first run does not end the second.
    app.finished(first.done_flag);
    app.poll_all();
    assert_eq!(app.card(0).status, Status::Running);
    app.finished(second.done_flag);
    app.poll_all();
    assert_eq!(app.card(0).status, Status::Done);
}

#[test]
fn launch_failure_is_written() {
    let mut app = three();
    select(&mut app, 0);
    app.run_tab(0).unwrap();
    app.launch_failed(0, "not found");
    assert_eq!(app.card(0).status, Status::Done);
    assert_eq!(console(&app).2, format!("{}[ERROR] not found\r\n", HEAD_A));
    assert_eq!(app.running_count(), 0);
}

#[test]
fn stopped_tab_stays_stopped() {
    let mut app = three();
    let launch = app.run_tab(1).unwrap();
    app.launched(1, 9);
    assert_eq!(app.stop_tab(1), Some(9));
    assert_eq!(app.stop_tab(1), None);
    assert_eq!(app.stop_tab(5), None);
    assert_eq!(app.card(1).status, Status::Ready);
    app.finished(launch.done_flag);
    app.finished(1000);
    app.poll_all();
    assert_eq!(app.card(1).status, Status::Ready);
}

#[test]
fn stop_all_stops_all() {
    let mut app = three();
    app.run_tab(0).unwrap();
    app.launched(0, 1);
    app.run_tab(2).unwrap();
    app.launched(2, 3);
    assert_eq!(app.running_label(), Some("2 个运行中".to_string()));
    assert_eq!(app.stop_all(), vec![1, 3]);
    assert_eq!(app.running_label(), None);
    assert_eq!(app.tab_count(), 3);
}

#[test]
fn clear_all_closes_from_the_last() {
    let mut app = three();
    app.run_tab(0).unwrap();
    app.launched(0, 1);
    app.run_tab(2).unwrap();
    app.launched(2, 3);
    let cleared = app.clear_all();
    let kills: Vec<Option<u32>> = cleared.iter().map(|c| c.kill).collect();
    assert_eq!(kills, vec![Some(3), None, Some(1)]);
    let saves: Vec<Vec<(String, String)>> =
        cleared.iter().map(|c| entries(c.save.as_ref().unwrap())).collect();
    assert_eq!(saves[0], vec![pair("s/a.bat", "a.bat"), pair("s/b.bat", "b.bat")]);
    assert_eq!(saves[1], vec![pair("s/a.bat", "a.bat")]);
    assert_eq!(saves[2], Vec::<(String, String)>::new());
    assert_eq!(app.tab_count(), 0);
    assert!(matches!(app.pane(), Pane::Welcome));
    assert_eq!(app.clear_all().len(), 0);
}

#[test]
fn lines_go_to_their_tab() {
    let mut app = three();
    let a = app.run_tab(0).unwrap();
    let c = app.run_tab(2).unwrap();
    app.stderr_line(a.id, "for a");
    // The tab is found by its number, also after it moved.
    app.close_tab(0);
    app.stdout_line(c.id, "for c");
    app.stdout_line(a.id, "lost");
    app.stderr_line(a.id, "lost");
    assert!(console(&app).2.ends_with("for c\r\n"));
    select(&mut app, 0);
    assert_eq!(console(&app).2, "");
}

#[test]
fn console_is_cut_at_the_limit() {
    let mut app = three();
    select(&mut app, 0);
    let launch = app.run_tab(0).unwrap();
    let head: usize = HEAD_A.len();
    let fill = "x".repeat(200000 - head - 2);
    app.stdout_line(launch.id, &fill);
    assert_eq!(console(&app).2.len(), 200000);
    app.stdout_line(launch.id, "last");
    let output = console(&app).2;
    assert_eq!(output.len(), 160000);
    assert!(output.ends_with("x\r\nlast\r\n"));
    // A line longer than what is kept loses its beginning.
    app.stdout_line(launch.id, &format!("!{}", "y".repeat(200000)));
    let output = console(&app).2;
    assert_eq!(output, format!("{}\r\n", "y".repeat(159998)));
    // Lines of the standard error are not cut.
    app.stderr_line(launch.id, &"e".repeat(50000));
    assert_eq!(console(&app).2.len(), 210002);
}

#[test]
fn cut_inside_a_character_is_refused() {
    let mut app = three();
    let launch = app.run_tab(0).unwrap();
    // Characters of three bytes: some lengths of the line put the cut inside one.
    let wide = "字".repeat(70000);
    let mut refused = 0;
    for pad in ["", "x", "xx"] {
        let line = format!("{}{}", wide, pad);
        if !app.can_take_line(launch.id, &line) {
            refused += 1;
        }
    }
    assert_eq!(refused, 2);
    assert!(app.can_take_line(launch.id, "short"));
    assert!(app.can_take_line(999, &wide));
    let reader = launch.reader();
    let wide_events: Vec<bool> = ["", "x", "xx"]
        .iter()
        .map(|pad| app.can_take(&reader, Stream::Stdout, &line(&format!("{}{}", wide, pad))))
        .collect();
    assert_eq!(wide_events.iter().filter(|ok| **ok).count(), 1);
    assert!(["", "x", "xx"]
        .iter()
        .all(|pad| app.can_take(&reader, Stream::Stderr, &line(&format!("{}{}", wide, pad)))));
}

#[test]
fn rename_changes_one_name() {
    let mut app = three();
    assert!(app.rename_tab(0, String::new()).is_none());
    assert!(app.rename_tab(3, "x".to_string()).is_none());
    let saved = app.rename_tab(0, "构建项目".to_string()).unwrap();
    assert_eq!(
        entries(&saved),
        vec![pair("s/a.bat", "构建项目"), pair("s/b.bat", "b.bat"), pair("s/c.bat", "c.bat")]
    );
}

#[test]
fn name_field_keeps_what_was_typed() {
    let mut app = three();
    assert_eq!(app.edit_text(0), "a.bat");
    let mut requests = FrameRequests::none();
    app.card_event(&mut requests, 0, CardEvent::NameChanged(String::new()));
    assert_eq!(app.edit_text(0), "");
    assert!(matches!(app.next_step(&mut requests), FrameStep::Rename(None)));
    assert_eq!(entries(&app.save_config())[0], pair("s/a.bat", "a.bat"));
    // The field goes with the place of the card, not with the tab.
    app.close_tab(0);
    assert_eq!(app.edit_text(0), "");
    assert_eq!(app.edit_text(1), "c.bat");
}

#[test]
fn button_runs_or_stops() {
    let mut app = three();
    let mut requests = FrameRequests::none();
    app.card_event(&mut requests, 1, CardEvent::RunStop);
    assert_eq!(requests.run, Some(1));
    assert_eq!(requests.stop, None);
    match app.next_step(&mut requests) {
        FrameStep::Run(Some(launch)) => assert_eq!(launch.idx, 1),
        _ => panic!("no run"),
    }
    app.launched(1, 5);
    assert_eq!(console(&app).1, "s/b.bat");
    assert!(app.card(1).stops);
    app.card_event(&mut requests, 1, CardEvent::RunStop);
    assert_eq!(requests.stop, Some(1));
    match app.next_step(&mut requests) {
        FrameStep::Stop(kill) => assert_eq!(kill, Some(5)),
        _ => panic!("no stop"),
    }
    assert!(matches!(app.next_step(&mut requests), FrameStep::Over));
}

#[test]
fn closing_asks_first() {
    let mut app = three();
    let mut requests = FrameRequests::none();
    assert_eq!(app.delete_question(), None);
    app.answer_delete(&mut requests, true, true);
    assert_eq!(requests.close, None);
    app.card_event(&mut requests, 1, CardEvent::Close);
    assert_eq!(app.tab_count(), 3);
    assert_eq!(requests.close, None);
    assert_eq!(app.delete_question(), Some("确定要删除标签「b.bat」吗？".to_string()));
    app.answer_delete(&mut requests, true, false);
    assert_eq!(requests.close, None);
    assert_eq!(app.delete_question(), None);
    app.card_event(&mut requests, 1, CardEvent::Close);
    app.answer_delete(&mut requests, false, false);
    assert!(app.delete_question().is_some());
    app.answer_delete(&mut requests, false, true);
    assert_eq!(app.delete_question(), None);
    assert_eq!(requests.close, Some(1));
    match app.next_step(&mut requests) {
        FrameStep::Close(closed) => assert!(closed.save.is_some()),
        _ => panic!("not closed"),
    }
    assert_eq!(app.tab_count(), 2);
}

#[test]
fn steps_come_in_order() {
    let mut app = three();
    let mut requests = FrameRequests {
        close: Some(0),
        run: Some(2),
        stop: Some(0),
        rename: Some((1, "n".to_string())),
    };
    assert!(matches!(app.next_step(&mut requests), FrameStep::Close(_)));
    // The tab to run was counted before the first one was closed: it is gone.
    assert!(matches!(app.next_step(&mut requests), FrameStep::Run(None)));
    assert!(matches!(app.pane(), Pane::Blank));
    assert!(matches!(app.next_step(&mut requests), FrameStep::Stop(None)));
    match app.next_step(&mut requests) {
        FrameStep::Rename(Some(config)) => {
            assert_eq!(entries(&config)[1], pair("s/c.bat", "n"))
        }
        _ => panic!("not renamed"),
    }
    assert!(matches!(app.next_step(&mut requests), FrameStep::Over));
}

#[test]
fn frame_starts_with_dropped_files() {
    let mut app: App<u32> = App::new(Vec::new());
    let unknown = WindowSlot::unknown();
    let start = app.begin_frame(vec![file("a.bat"), file("b.txt")], false, &unknown);
    assert_eq!(start.saves.len(), 1);
    assert_eq!(start.hide, None);
    assert!(start.search);
    assert!(start.draw);
    let launch = app.run_tab(0).unwrap();
    app.finished(launch.done_flag);
    let known = WindowSlot { hwnd: 42, ready: true };
    // Closing the window hides it; nothing is polled.
    let start = app.begin_frame(vec![file("c.cmd")], true, &known);
    assert_eq!(start.saves.len(), 1);
    assert_eq!(start.hide, Some(42));
    assert!(!start.search);
    assert!(!start.draw);
    assert_eq!(app.card(0).status, Status::Running);
    let start = app.begin_frame(Vec::new(), false, &known);
    assert!(!start.search);
    assert_eq!(app.card(0).status, Status::Done);
    let start = app.begin_frame(Vec::new(), true, &unknown);
    assert_eq!(start.hide, None);
}

#[test]
fn paths_stay_distinct() {
    let mut app = three();
    app.add_file("s/b.bat".to_string());
    app.import_config(vec![candidate("s/c.bat", "x", true), candidate("s/d.bat", "y", true)]);
    app.close_tab(1);
    app.add_file("s/b.bat".to_string());
    let mut paths: Vec<String> = app.save_config().tabs.into_iter().map(|t| t.path).collect();
    let n = paths.len();
    paths.sort();
    paths.dedup();
    assert_eq!(n, 4);
    assert_eq!(paths.len(), 4);
}

#[test]
fn exported_tabs_come_back_elsewhere() {
    let mut app = three();
    app.rename_tab(2, "C".to_string());
    let list = || -> Vec<Candidate> {
        app.save_config().tabs.into_iter().map(|t| Candidate::new(t, true)).collect()
    };
    let loaded: App<u32> = App::new(list());
    let mut imported: App<u32> = App::new(Vec::new());
    imported.import_config(list());
    assert_eq!(entries(&imported.save_config()), entries(&loaded.save_config()));
    assert_eq!(entries(&imported.save_config()), entries(&app.save_config()));
}

#[test]
fn tabs_run_independently() {
    let mut app = three();
    let a = app.run_tab(0).unwrap();
    app.launched(0, 1);
    let b = app.run_tab(1).unwrap();
    app.launched(1, 2);
    assert_ne!(a.id, b.id);
    assert_ne!(a.done_flag, b.done_flag);
    app.finished(b.done_flag);
    app.poll_all();
    assert_eq!(app.card(0).status, Status::Running);
    assert_eq!(app.card(1).status, Status::Done);
    assert_eq!(app.card(2).status, Status::Ready);
    assert_eq!(app.stop_tab(0), Some(1));
    assert_eq!(app.card(1).status, Status::Done);
}

#[test]
fn running_and_stopping_leave_the_configuration() {
    let mut app = three();
    let before = entries(&app.save_config());
    let launch = app.run_tab(0).unwrap();
    app.launched(0, 1);
    app.stdout_line(launch.id, "x");
    app.stderr_line(launch.id, "y");
    app.finished(launch.done_flag);
    app.poll_all();
    app.run_tab(1).unwrap();
    app.launch_failed(1, "z");
    app.stop_tab(0);
    select(&mut app, 1);
    assert_eq!(entries(&app.save_config()), before);
}
