//! What is shown, and how texts and paths are read.

use vstd::prelude::*;

use crate::cards::{row_of, rows_of, status_spec};
use crate::config::is_config_dir;
use crate::paths::{
    follows_last_slash, is_directory, is_file_name, name_starts_at, parent_or_current,
    text_or_empty,
};
use crate::text::{
    ascii_lower, ascii_lowercase, batch_ending, decimal_text, digit_text, is_batch_path, lowercase,
};
use crate::theme::{card_border_spec, card_fill_spec, rgb_spec};
use crate::tray::{
    icon_pixel, pixel_at, tray_action_spec, TrayAction, TrayStep, TrayWait, WindowSlot,
};

verus! {

/// A tab is shown as running while it runs, else as done if it is, else as ready; each says so
/// in its own words and colour, on the card and above the console.
pub proof fn status_is_told(running: bool, done: bool, name: Seq<char>)
    ensures
        ({
            let status = status_spec(running, done);
            &&& running ==> {
                &&& status is Running
                &&& status.label_spec() == "● 运行中"@
                &&& status.title_spec(name) == "▶ "@ + name + " - 运行中..."@
                &&& status.color_spec() matches Some(c) && c.r == 72 && c.g == 180 && c.b == 100
            }
            &&& !running && done ==> {
                &&& status is Done
                &&& status.label_spec() == "● 完成"@
                &&& status.title_spec(name) == "✅ "@ + name + " - 完成"@
                &&& status.color_spec() matches Some(c) && c.r == 100 && c.g == 160 && c.b == 220
            }
            &&& !running && !done ==> {
                &&& status is Ready
                &&& status.label_spec() == "○ 就绪"@
                &&& status.title_spec(name) == "📄 "@ + name + " - 就绪"@
                &&& status.color_spec() is None
            }
        }),
{
}

/// A card is lighter if it is the selected one; round a running one the border is green, else
/// blue round the selected one, else grey.
pub proof fn card_colours(running: bool, is_active: bool, r: u8, g: u8, b: u8)
    ensures
        rgb_spec(r, g, b).r == r && rgb_spec(r, g, b).g == g && rgb_spec(r, g, b).b == b,
        ({
            let fill = card_fill_spec(is_active);
            let border = card_border_spec(running, is_active);
            &&& is_active ==> fill.r == 45 && fill.g == 55 && fill.b == 72
            &&& !is_active ==> fill.r == 30 && fill.g == 35 && fill.b == 45
            &&& running ==> border.r == 72 && border.g == 180 && border.b == 100
            &&& !running && is_active ==> border.r == 100 && border.g == 140 && border.b == 200
            &&& !running && !is_active ==> border.r == 60 && border.g == 65 && border.b == 75
        }),
{
}

/// Cards stand in rows of four: card `i` is the one numbered `i % 4` in row `i / 4`, and a row
/// has four cards or what is left.
pub proof fn cards_in_rows_of_four(n: int, i: int)
    requires
        0 <= i < n <= usize::MAX,
    ensures
        rows_of(0) == 0,
        4 * (rows_of(n) - 1) < n <= 4 * rows_of(n),
        row_of(n, i / 4)[i % 4] == i,
        row_of(n, i / 4).len() == if n - 4 * (i / 4) < 4 {
            n - 4 * (i / 4)
        } else {
            4
        },
{
}

/// The number that decimal digits stand for.
pub open spec fn decimal_value(digits: Seq<char>) -> int
    decreases digits.len(),
{
    if digits.len() == 0 {
        0
    } else {
        10 * decimal_value(digits.drop_last()) + (digits.last() as int - '0' as int)
    }
}

/// A number is written in decimal digits that read back as that number, without leading zeros.
pub proof fn decimal_text_reads_back(n: nat)
    ensures
        decimal_text(n).len() > 0,
        forall|i: int|
            0 <= i < decimal_text(n).len() ==> '0' as int <= #[trigger] decimal_text(n)[i] as int
                <= '9' as int,
        decimal_value(decimal_text(n)) == n,
        n > 0 ==> decimal_text(n)[0] != '0',
        n == 0 ==> decimal_text(n).len() == 1,
    decreases n,
{
    lemma_digit(n % 10);
    let last = digit_text(n % 10);
    if n < 10 {
        assert(last.drop_last() =~= Seq::empty());
        reveal_with_fuel(decimal_value, 2);
    } else {
        decimal_text_reads_back(n / 10);
        let front = decimal_text(n / 10);
        assert((front + last).drop_last() =~= front);
    }
}

proof fn lemma_digit(d: nat)
    requires
        d < 10,
    ensures
        digit_text(d).len() == 1,
        digit_text(d)[0] as int == '0' as int + d,
{
    reveal_strlit("0");
    reveal_strlit("1");
    reveal_strlit("2");
    reveal_strlit("3");
    reveal_strlit("4");
    reveal_strlit("5");
    reveal_strlit("6");
    reveal_strlit("7");
    reveal_strlit("8");
    reveal_strlit("9");
}

/// A path names a batch file exactly if it ends, in lower case, in a dot and `bat` or `cmd`.
pub proof fn batch_files_end_in_bat_or_cmd(path: Seq<char>)
    ensures
        ({
            let lower = lowercase(path);
            let n = lower.len() as int;
            &&& is_batch_path(path) <==> n >= 4 && lower[n - 4] == '.' && (lower[n - 3] == 'b'
                && lower[n - 2] == 'a' && lower[n - 1] == 't' || lower[n - 3] == 'c' && lower[n - 2]
                == 'm' && lower[n - 1] == 'd')
            &&& is_batch_path(path) == batch_ending(lower)
        }),
{
    reveal_strlit(".bat");
    reveal_strlit(".cmd");
    let lower = lowercase(path);
    let n = lower.len() as int;
    if n >= 4 {
        let end = lower.subrange(n - 4, n);
        assert(end.len() == 4 && end[0] == lower[n - 4] && end[1] == lower[n - 3] && end[2]
            == lower[n - 2] && end[3] == lower[n - 1]);
        if end[0] == '.' && end[1] == 'b' && end[2] == 'a' && end[3] == 't' {
            assert(".bat"@ =~= end);
        }
        if end[0] == '.' && end[1] == 'c' && end[2] == 'm' && end[3] == 'd' {
            assert(".cmd"@ =~= end);
        }
    }
}

/// Lower case changes the ASCII capitals, each by itself, and no other character.
pub proof fn ascii_capitals_are_lowered(s: Seq<char>, c: char)
    ensures
        65 <= c as int <= 90 ==> ascii_lower(c) as int == c as int + 32,
        !(65 <= c as int <= 90) ==> ascii_lower(c) == c,
        ascii_lowercase(s).len() == s.len(),
        forall|i: int| 0 <= i < s.len() ==> #[trigger] ascii_lowercase(s)[i] == ascii_lower(s[i]),
{
}

/// A missing text is empty, a missing parent is the current directory.
pub proof fn what_stands_for_nothing(text: Option<String>)
    ensures
        text is None ==> text_or_empty(text).len() == 0 && parent_or_current(text) == "."@,
        text matches Some(t) ==> text_or_empty(text) == t@ && parent_or_current(text) == t@,
{
}

/// A name is an ordinary one if its characters are and not all of them are dots.
proof fn lemma_name_at(path: Seq<char>, k: int)
    requires
        0 <= k < path.len(),
        k == 0 || path[k - 1] == '/' || path[k - 1] == '\\',
        path.len() >= 2 ==> !((path[0] == '/' || path[0] == '\\') && (path[1] == '/' || path[1]
            == '\\')),
        forall|i: int|
            k <= i < path.len() ==> (#[trigger] path[i]) != '/' && path[i] != '\\' && path[i] != ':',
        exists|i: int| k <= i < path.len() && (#[trigger] path[i]) != '.',
    ensures
        name_starts_at(path, k),
{
    let name = path.skip(k);
    assert forall|i: int| 0 <= i < name.len() implies (#[trigger] name[i]) != '/' && name[i] != '\\'
        && name[i] != ':' by {
        assert(name[i] == path[k + i]);
    }
    let i = choose|i: int| k <= i < path.len() && (#[trigger] path[i]) != '.';
    assert(name[i - k] == path[i]);
    if name == seq!['.'] {
        assert(name.len() == 1 && name[0] == '.');
        assert(false);
    }
    if name == seq!['.', '.'] {
        assert(name.len() == 2 && name[0] == '.' && name[1] == '.');
        assert(false);
    }
}

/// A path that was put together with a slash comes apart again: its file name is what stands
/// behind the slash and its directory what stands before, with the root left as it is. (The
/// name is an ordinary one; the directory is neither the start of a share nor a drive alone,
/// and does not end in a separator or, behind one, in a component `.`.)
pub proof fn joined_path_comes_apart(dir: Seq<char>, name: Seq<char>, found: Seq<char>)
    requires
        forall|i: int|
            0 <= i < name.len() ==> (#[trigger] name[i]) != '/' && name[i] != '\\' && name[i] != ':',
        exists|i: int| 0 <= i < name.len() && (#[trigger] name[i]) != '.',
        dir.len() >= 1 ==> dir.last() != '/' && dir.last() != '\\' && dir.last() != ':',
        dir.len() >= 2 && dir.last() == '.' ==> dir[dir.len() - 2] != '/' && dir[dir.len() - 2]
            != '\\' && dir[dir.len() - 2] != ':',
        dir.len() >= 2 ==> !((dir[0] == '/' || dir[0] == '\\') && (dir[1] == '/' || dir[1]
            == '\\')),
    ensures
        is_file_name(dir + seq!['/'] + name, found) ==> found == name,
        is_directory(dir + seq!['/'] + name, found) ==> found == if dir.len() == 0 {
            seq!['/']
        } else {
            dir
        },
        is_file_name(name, found) ==> found == name,
        is_directory(name, found) ==> found.len() == 0,
{
    let path = dir + seq!['/'] + name;
    let k = dir.len() + 1;
    let i = choose|i: int| 0 <= i < name.len() && (#[trigger] name[i]) != '.';
    assert(path[k + i] == name[i]);
    assert forall|j: int| k <= j < path.len() implies (#[trigger] path[j]) != '/' && path[j] != '\\'
        && path[j] != ':' by {
        assert(path[j] == name[j - k]);
    }
    assert(path[k - 1] == '/');
    if dir.len() >= 1 {
        assert(path[0] == dir[0]);
        assert(path[dir.len() - 1] == dir.last());
        if dir.len() >= 2 {
            assert(path[1] == dir[1]);
            assert(path[dir.len() - 2] == dir[dir.len() - 2]);
        }
    } else {
        assert(path[1] == name[0]);
    }
    lemma_name_at(path, k as int);
    assert(path.skip(k as int) =~= name);
    assert forall|j: int| #[trigger] follows_last_slash(path, j) implies j == k by {
        if j < k {
            assert(path.skip(j)[k - 1 - j] == '/');
        }
    }
    if dir.len() >= 1 {
        assert(path.take(k - 1) =~= dir);
    } else {
        assert(path.take(1) =~= seq!['/']);
    }
    if name.len() >= 2 {
        assert(name[0] != '/');
    }
    lemma_name_at(name, 0);
    assert(name.skip(0) =~= name);
    assert(!name.contains('\\'));
}

/// A path that was put together with backslashes comes apart in one of two ways: at the last
/// backslash, or, where the backslash is a part of names, not at all.
pub proof fn backslash_path_comes_apart(dir: Seq<char>, name: Seq<char>, found: Seq<char>)
    requires
        forall|i: int|
            0 <= i < name.len() ==> (#[trigger] name[i]) != '/' && name[i] != '\\' && name[i] != ':',
        exists|i: int| 0 <= i < name.len() && (#[trigger] name[i]) != '.',
        forall|i: int| 0 <= i < dir.len() ==> (#[trigger] dir[i]) != '/',
        dir.len() >= 1,
        dir.last() != '\\' && dir.last() != ':',
        dir.len() >= 2 && dir.last() == '.' ==> dir[dir.len() - 2] != '\\' && dir[dir.len() - 2]
            != ':',
        dir.len() >= 2 ==> !(dir[0] == '\\' && dir[1] == '\\'),
    ensures
        ({
            let path = dir + seq!['\\'] + name;
            &&& is_file_name(path, found) ==> found == name || found == path
            &&& is_directory(path, found) ==> found == dir || found.len() == 0
        }),
{
    let path = dir + seq!['\\'] + name;
    let k = dir.len() + 1;
    let i = choose|i: int| 0 <= i < name.len() && (#[trigger] name[i]) != '.';
    assert(path[k + i] == name[i]);
    assert forall|j: int| k <= j < path.len() implies (#[trigger] path[j]) != '/' && path[j] != '\\'
        && path[j] != ':' by {
        assert(path[j] == name[j - k]);
    }
    assert forall|j: int| 0 <= j < path.len() implies (#[trigger] path[j]) != '/' by {
        if j < dir.len() {
            assert(path[j] == dir[j]);
        }
    }
    assert(path[k - 1] == '\\');
    assert(path[0] == dir[0]);
    assert(path[dir.len() - 1] == dir.last());
    if dir.len() >= 2 {
        assert(path[1] == dir[1]);
        assert(path[dir.len() - 2] == dir[dir.len() - 2]);
    }
    lemma_name_at(path, k as int);
    assert(path.skip(k as int) =~= name);
    assert(path.take(k - 1) =~= dir);
    assert(path.skip(0) =~= path);
    assert forall|j: int| #[trigger] follows_last_slash(path, j) implies j == 0 by {}
}

/// The configuration stands beside the program: for a program in a directory it is there.
pub proof fn configuration_is_beside_the_program(
    exe: Option<&str>,
    dir: Seq<char>,
    name: Seq<char>,
    found: Seq<char>,
)
    requires
        exe is Some ==> exe->0@ == dir + seq!['/'] + name,
        forall|i: int|
            0 <= i < name.len() ==> (#[trigger] name[i]) != '/' && name[i] != '\\' && name[i] != ':',
        name.len() > 0,
        name.last() != '.',
        dir.len() >= 1 ==> dir.last() != '/' && dir.last() != '\\' && dir.last() != ':',
        dir.len() >= 2 && dir.last() == '.' ==> dir[dir.len() - 2] != '/' && dir[dir.len() - 2]
            != '\\' && dir[dir.len() - 2] != ':',
        dir.len() >= 2 ==> !((dir[0] == '/' || dir[0] == '\\') && (dir[1] == '/' || dir[1]
            == '\\')),
        is_config_dir(exe, found),
    ensures
        exe is None ==> found.len() == 0,
        exe is Some ==> found == if dir.len() == 0 {
            seq!['/']
        } else {
            dir
        },
{
    if let Some(e) = exe {
        let path = e@;
        assert(name[name.len() - 1] != '.');
        joined_path_comes_apart(dir, name, found);
        assert(path.last() == name.last());
        assert(path[0] == if dir.len() > 0 { dir[0] } else { '/' });
        if dir.len() == 0 {
            assert(path[1] == name[0]);
        } else if dir.len() == 1 {
            assert(path[0] == dir[0]);
            assert(dir[0] == dir.last());
        } else {
            assert(path[0] == dir[0] && path[1] == dir[1]);
        }
    }
}

/// Where the path of the program is empty or the root, the configuration stands in the current
/// directory.
pub proof fn configuration_without_directory(exe: &str, found: Seq<char>)
    requires
        exe@.len() == 0 || exe@.len() == 1 && exe@[0] == '/',
        is_config_dir(Some(exe), found),
    ensures
        found == "."@,
{
    if exe@.len() == 1 {
        assert(exe@ =~= seq!['/']);
    }
}

/// The window to hide or show is the one that was found, if its handle is not 0. A visited window
/// is taken exactly if it is of our own process.
pub proof fn window_is_our_own(slot: WindowSlot, hwnd: isize, pid: u32, our_pid: u32)
    ensures
        slot.hwnd == 0 ==> slot.handle_spec() is None,
        slot.hwnd != 0 ==> slot.handle_spec() == Some(slot.hwnd),
        pid != our_pid ==> slot.after_visit(hwnd, pid, our_pid) == slot,
        pid == our_pid ==> slot.after_visit(hwnd, pid, our_pid).hwnd == hwnd && slot.after_visit(
            hwnd,
            pid,
            our_pid,
        ).ready,
{
}

/// The wait for the window, step by step: half a second first; then, as long as the window was
/// not found and fewer than forty searches were made, a search and a pause of a fifth of a
/// second; then the icon.
pub proof fn wait_step_by_step(k: u32, ready: bool)
    requires
        k < 40,
    ensures
        TrayWait::Start.step(ready) == (TrayWait::Check(0), TrayStep::Sleep(500)),
        TrayWait::Check(k).step(false) == (TrayWait::Searched(k), TrayStep::Search),
        TrayWait::Searched(k).step(ready) == (
            TrayWait::Check((k + 1) as u32),
            TrayStep::Sleep(200),
        ),
        TrayWait::Check(k).step(true) == (TrayWait::Over, TrayStep::Build),
        TrayWait::Check(40).step(ready) == (TrayWait::Over, TrayStep::Build),
        TrayWait::Over.step(ready) == (TrayWait::Over, TrayStep::Build),
{
}

/// The entry for showing shows the window, if it is known; else, and only else, the entry for
/// leaving ends the program; all other entries do nothing.
pub proof fn tray_entries(event: Seq<char>, show: Seq<char>, exit: Seq<char>, slot: WindowSlot)
    ensures
        ({
            let action = tray_action_spec(event, show, exit, slot);
            let shows = event == show && slot.hwnd != 0;
            &&& shows ==> action == TrayAction::Show(slot.hwnd)
            &&& !shows && event == exit ==> action is Exit
            &&& !shows && event != exit ==> action is Ignore
        }),
{
}

/// The icon is a green disk of radius ten about its middle, with a darker rim up to radius
/// fourteen, on nothing; and it is the same mirrored in its middle.
pub proof fn icon_is_a_rimmed_disk(x: int, y: int)
    ensures
        ({
            let square = (x - 16) * (x - 16) + (y - 16) * (y - 16);
            let (r, g, b, a) = icon_pixel(x, y);
            &&& square <= 100 ==> r == 60 && g == 180 && b == 100 && a == 255
            &&& 100 < square < 196 ==> r == 40 && g == 140 && b == 80 && a == 255
            &&& square >= 196 ==> r == 0 && g == 0 && b == 0 && a == 0
        }),
        icon_pixel(x, y) == icon_pixel(32 - x, y),
        icon_pixel(x, y) == icon_pixel(x, 32 - y),
        icon_pixel(x, y) == icon_pixel(y, x),
{
    assert((x - 16) * (x - 16) == (32 - x - 16) * (32 - x - 16)) by (nonlinear_arith);
    assert((y - 16) * (y - 16) == (32 - y - 16) * (32 - y - 16)) by (nonlinear_arith);
}

/// A pixel of a picture is four bytes: red, green, blue and opacity.
pub proof fn pixel_is_four_bytes(rgba: Seq<u8>, p: int)
    ensures
        pixel_at(rgba, p).0 == rgba[4 * p],
        pixel_at(rgba, p).1 == rgba[4 * p + 1],
        pixel_at(rgba, p).2 == rgba[4 * p + 2],
        pixel_at(rgba, p).3 == rgba[4 * p + 3],
{
}

} // verus!
