use cmdrunner::app::App;
use cmdrunner::cards::{card_rows, row_count, status, Status};
use cmdrunner::config::{config_dir, config_file};
use cmdrunner::output::{
    end_run, line_trims_cleanly, push_error, push_line, push_trimmed_line, start_run,
};
use cmdrunner::paths::{directory, file_name, or_current, or_empty};
use cmdrunner::text::{decimal, ends_with, has_batch_ending, is_batch_file, same_text};
use cmdrunner::theme::{card_border, card_fill, dark_theme, rgb};
use cmdrunner::tray::{
    tray_action, tray_icon_rgba, TrayAction, TrayStep, TrayWait, WindowSlot, ICON_SIZE,
};

#[test]
fn batch_files_by_their_ending() {
    assert!(is_batch_file("C:\\scripts\\build.bat"));
    assert!(is_batch_file("C:\\scripts\\DEPLOY.CMD"));
    assert!(is_batch_file(".bat"));
    assert!(is_batch_file("名.Bat"));
    assert!(!is_batch_file("build.bat "));
    assert!(!is_batch_file("build.exe"));
    assert!(!is_batch_file("bat"));
    assert!(!is_batch_file("BAT"));
    assert!(!is_batch_file("a.b"));
    assert!(!is_batch_file(""));
    assert!(has_batch_ending("x.cmd"));
    assert!(!has_batch_ending("x.CMD"));
}

#[test]
fn ends_with_compares_characters() {
    assert!(ends_with("运行中", "行中"));
    assert!(ends_with("abc", ""));
    assert!(ends_with("", ""));
    assert!(!ends_with("c", "bc"));
    assert!(!ends_with("abd", "bc"));
    assert!(same_text("行", "行"));
    assert!(!same_text("行", "中"));
}

#[test]
fn decimal_numbers() {
    assert_eq!(decimal(0), "0");
    assert_eq!(decimal(9), "9");
    assert_eq!(decimal(10), "10");
    assert_eq!(decimal(1234567890), "1234567890");
    assert_eq!(decimal(usize::MAX), format!("{}", usize::MAX));
}

#[test]
fn path_parts() {
    assert_eq!(file_name("a/b/run.bat"), "run.bat");
    assert_eq!(file_name("run.bat"), "run.bat");
    assert_eq!(file_name("/run.bat"), "run.bat");
    assert_eq!(file_name(".."), "");
    assert_eq!(file_name(""), "");
    // The backslash separates on Windows only.
    let windows = "C:\\scripts\\build.bat";
    let taken = (file_name(windows), directory(windows));
    assert!(
        taken == ("build.bat".to_string(), "C:\\scripts".to_string())
            || taken == (windows.to_string(), String::new())
    );
    assert_eq!(file_name("C:/s/a.bat"), "a.bat");
    assert_eq!(directory("C:/s/a.bat"), "C:/s");
    // The root of a drive is known on Windows only.
    assert!(["C:", "C:/"].contains(&directory("C:/a.bat").as_str()));
    assert!(["a.bat", "s\\a.bat"].contains(&file_name("r/s\\a.bat").as_str()));
    assert!(["r/s", "r"].contains(&directory("r/s\\a.bat").as_str()));
    assert_eq!(directory("/a.bat"), "/");
    assert_eq!(directory("./a.bat"), ".");
    assert_eq!(directory("a/b/run.bat"), "a/b");
    assert_eq!(directory("run.bat"), "");
    assert_eq!(directory("../a.bat"), "..");
    assert_eq!(directory("a./b.bat"), "a.");
    assert_eq!(directory(""), "");
    assert_eq!(or_empty(None), "");
    assert_eq!(or_empty(Some("x".to_string())), "x");
}

#[test]
fn configuration_stands_beside_the_program() {
    assert_eq!(config_dir(Some("opt/tools/cmdrunner")), "opt/tools");
    assert_eq!(config_dir(Some("cmdrunner")), "");
    assert_eq!(config_dir(Some("/")), ".");
    assert_eq!(config_dir(Some("")), ".");
    assert_eq!(config_dir(Some("..")), "");
    assert_eq!(config_dir(None), "");
    assert_eq!(
        config_file(Some("opt/tools/cmdrunner")),
        ("opt/tools".to_string(), "cmdrunner.toml".to_string())
    );
    assert_eq!(config_file(Some("/")).0, ".");
    assert_eq!(config_file(None), (String::new(), "cmdrunner.toml".to_string()));
    assert_eq!(or_current(None), ".");
    assert_eq!(or_current(Some("x".to_string())), "x");
}

#[test]
fn console_texts() {
    let mut out = "old".to_string();
    start_run(&mut out, "名", "p.bat");
    let head = format!("> 运行: 名\r\n> 路径: p.bat\r\n{}\r\n", "─".repeat(50));
    assert_eq!(out, head);
    push_line(&mut out, "l");
    push_error(&mut out, "e");
    end_run(&mut out);
    assert_eq!(
        out,
        format!("{}l\r\n[ERROR] e\r\n{}\r\n> ✅ 执行完毕\r\n", head, "─".repeat(50))
    );
}

#[test]
fn trimmed_is_a_bounded_suffix() {
    let mut out = "a".repeat(199990);
    assert!(line_trims_cleanly(&out, "12345678"));
    push_trimmed_line(&mut out, "12345678");
    assert_eq!(out.len(), 200000);
    assert!(line_trims_cleanly(&out, ""));
    push_trimmed_line(&mut out, "");
    assert_eq!(out.len(), 160000);
    assert!(out.ends_with("a12345678\r\n\r\n"));
    // A character of two bytes across the cut.
    let wide = "é".repeat(100001);
    assert!(line_trims_cleanly(&wide, ""));
    assert!(!line_trims_cleanly(&wide, "x"));
}

#[test]
fn rows_of_four() {
    assert_eq!(row_count(0), 0);
    assert_eq!(row_count(1), 1);
    assert_eq!(row_count(4), 1);
    assert_eq!(row_count(5), 2);
    assert_eq!(row_count(usize::MAX), usize::MAX / 4 + 1);
    assert_eq!(card_rows(0), Vec::<Vec<usize>>::new());
    assert_eq!(card_rows(4), vec![vec![0, 1, 2, 3]]);
    assert_eq!(card_rows(6), vec![vec![0, 1, 2, 3], vec![4, 5]]);
}

#[test]
fn each_tab_on_one_card() {
    for n in 0..30 {
        let rows = card_rows(n);
        assert_eq!(rows.len(), row_count(n));
        let all: Vec<usize> = rows.into_iter().flatten().collect();
        assert_eq!(all, (0..n).collect::<Vec<usize>>());
    }
}

#[test]
fn status_texts() {
    assert_eq!(status(true, false), Status::Running);
    assert_eq!(status(true, true), Status::Running);
    assert_eq!(status(false, true), Status::Done);
    assert_eq!(status(false, false), Status::Ready);
    assert_eq!(Status::Running.label(), "● 运行中");
    assert_eq!(Status::Done.label(), "● 完成");
    assert_eq!(Status::Ready.label(), "○ 就绪");
    assert_eq!(Status::Running.color(), Some(rgb(72, 180, 100)));
    assert_eq!(Status::Done.color(), Some(rgb(100, 160, 220)));
    assert_eq!(Status::Ready.color(), None);
    assert_eq!(Status::Ready.title("n"), "📄 n - 就绪");
}

#[test]
fn card_colours() {
    let mut app: App<u32> = App::new(Vec::new());
    app.add_file("d/a.bat".to_string());
    app.add_file("d/b.bat".to_string());
    let idle = app.card(0);
    assert_eq!(idle.fill, rgb(30, 35, 45));
    assert_eq!(idle.border, rgb(60, 65, 75));
    assert_eq!(idle.file_name, "a.bat");
    assert!(!idle.stops);
    let active = app.card(1);
    assert_eq!(active.fill, rgb(45, 55, 72));
    assert_eq!(active.border, rgb(100, 140, 200));
    assert_eq!(card_border(true, true), rgb(72, 180, 100));
    assert_eq!(card_fill(false), idle.fill);
    assert_eq!(dark_theme().selection, rgb(50, 80, 120));
    assert_eq!(dark_theme().text, rgb(220, 220, 220));
}

#[test]
fn walk_finds_first_window_of_our_process() {
    let mut slot = WindowSlot::unknown();
    assert!(slot.wants_search());
    assert_eq!(slot.handle(), None);
    assert_eq!(slot.visit(1, 10, 77), 1);
    assert!(slot.wants_search());
    assert_eq!(slot.visit(2, 77, 77), 0);
    assert_eq!(slot.handle(), Some(2));
    assert!(slot.ready);
    assert!(!slot.wants_search());
}

#[test]
fn tray_waits_at_most_forty_searches() {
    let mut wait = TrayWait::Start;
    let mut slept: u64 = 0;
    let mut searches = 0;
    loop {
        match wait.next(false) {
            TrayStep::Sleep(ms) => slept += ms,
            TrayStep::Search => searches += 1,
            TrayStep::Build => break,
        }
    }
    assert_eq!(searches, 40);
    assert_eq!(slept, 8500);
    assert!(matches!(wait.next(false), TrayStep::Build));
}

#[test]
fn tray_stops_waiting_when_ready() {
    let mut wait = TrayWait::Start;
    assert!(matches!(wait.next(true), TrayStep::Sleep(500)));
    assert!(matches!(wait.next(false), TrayStep::Search));
    assert!(matches!(wait.next(true), TrayStep::Sleep(200)));
    assert!(matches!(wait.next(true), TrayStep::Build));
}

#[test]
fn tray_menu() {
    let known = WindowSlot { hwnd: 5, ready: true };
    let unknown = WindowSlot::unknown();
    assert!(matches!(tray_action("1", "1", "2", &known), TrayAction::Show(5)));
    assert!(matches!(tray_action("1", "1", "2", &unknown), TrayAction::Ignore));
    assert!(matches!(tray_action("2", "1", "2", &unknown), TrayAction::Exit));
    assert!(matches!(tray_action("3", "1", "2", &known), TrayAction::Ignore));
}

#[test]
fn tray_icon_is_a_disk() {
    let rgba = tray_icon_rgba();
    assert_eq!(rgba.len(), 4096);
    assert_eq!(ICON_SIZE, 32);
    let at = |x: usize, y: usize| rgba[(y * 32 + x) * 4..(y * 32 + x) * 4 + 4].to_vec();
    assert_eq!(at(16, 16), vec![60, 180, 100, 255]);
    assert_eq!(at(26, 16), vec![60, 180, 100, 255]);
    assert_eq!(at(27, 16), vec![40, 140, 80, 255]);
    assert_eq!(at(29, 16), vec![40, 140, 80, 255]);
    assert_eq!(at(30, 16), vec![0, 0, 0, 0]);
    assert_eq!(at(0, 0), vec![0, 0, 0, 0]);
    // Distances as square roots give the same picture.
    for y in 0..32usize {
        for x in 0..32usize {
            let (cx, cy) = (x as f64 - 16.0, y as f64 - 16.0);
            let dist = (cx * cx + cy * cy).sqrt();
            let rim = vec![40, 140, 80, 255];
            let wanted = if dist < 12.0 {
                if dist > 10.0 { rim } else { vec![60, 180, 100, 255] }
            } else if dist < 14.0 {
                rim
            } else {
                vec![0, 0, 0, 0]
            };
            assert_eq!(at(x, y), wanted);
        }
    }
}
