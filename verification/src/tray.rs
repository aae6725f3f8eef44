//! The tray icon: the window it hides and shows, the wait for that window, and the picture.

use vstd::prelude::*;

use crate::text::same_text;

verus! {

/// The main window, as far as it is known.
#[derive(Clone, Copy)]
pub struct WindowSlot {
    /// Its handle, 0 while it is not known.
    pub hwnd: isize,
    /// Whether it was found.
    pub ready: bool,
}

impl WindowSlot {
    /// No window was found yet.
    pub fn unknown() -> (slot: WindowSlot)
        ensures
            slot.hwnd == 0,
            !slot.ready,
    {
        WindowSlot { hwnd: 0, ready: false }
    }

    /// The handle to hide or show, if there is one.
    pub open spec fn handle_spec(self) -> Option<isize> {
        if self.hwnd == 0 {
            None
        } else {
            Some(self.hwnd)
        }
    }

    /// The handle to hide or show, if there is one.
    pub fn handle(&self) -> (handle: Option<isize>)
        ensures
            handle == self.handle_spec(),
    {
        if self.hwnd == 0 {
            None
        } else {
            Some(self.hwnd)
        }
    }

    /// Whether the window is still to be looked for.
    pub fn wants_search(&self) -> (search: bool)
        ensures
            search == (!self.ready && self.hwnd == 0),
    {
        !self.ready && self.hwnd == 0
    }

    /// The slot after a window was visited: a window of our own process is taken.
    pub open spec fn after_visit(self, hwnd: isize, pid: u32, our_pid: u32) -> WindowSlot {
        if pid == our_pid {
            WindowSlot { hwnd, ready: true }
        } else {
            self
        }
    }

    /// Visits a window of process `pid` in a walk over all windows. Returns 0 to end the walk,
    /// which it does at the first window of our own process, else 1.
    pub fn visit(&mut self, hwnd: isize, pid: u32, our_pid: u32) -> (go_on: i32)
        ensures
            *final(self) == old(self).after_visit(hwnd, pid, our_pid),
            go_on == if pid == our_pid {
                0int
            } else {
                1
            },
    {
        if pid == our_pid {
            self.hwnd = hwnd;
            self.ready = true;
            0
        } else {
            1
        }
    }

    /// The slot after a walk over windows, each given by its handle and its process.
    pub open spec fn after_walk(self, windows: Seq<(isize, u32)>, our_pid: u32) -> WindowSlot
        decreases windows.len(),
    {
        if windows.len() == 0 {
            self
        } else {
            let next = self.after_visit(windows[0].0, windows[0].1, our_pid);
            if windows[0].1 == our_pid {
                next
            } else {
                next.after_walk(windows.drop_first(), our_pid)
            }
        }
    }
}

/// A walk finds the first window of our own process, whatever stands behind it.
pub proof fn walk_finds_first(
    slot: WindowSlot,
    windows: Seq<(isize, u32)>,
    our_pid: u32,
    first: int,
)
    requires
        0 <= first < windows.len(),
        windows[first].1 == our_pid,
        forall|i: int| 0 <= i < first ==> (#[trigger] windows[i]).1 != our_pid,
    ensures
        slot.after_walk(windows, our_pid) == (WindowSlot { hwnd: windows[first].0, ready: true }),
    decreases first,
{
    if first > 0 {
        let rest = windows.drop_first();
        assert(windows[0].1 != our_pid);
        assert forall|i: int| 0 <= i < first - 1 implies (#[trigger] rest[i]).1 != our_pid by {
            assert(rest[i] == windows[i + 1]);
        }
        walk_finds_first(slot, rest, our_pid, first - 1);
    }
}

/// A walk that meets no window of our own process changes nothing.
pub proof fn walk_without_match(slot: WindowSlot, windows: Seq<(isize, u32)>, our_pid: u32)
    requires
        forall|i: int| 0 <= i < windows.len() ==> (#[trigger] windows[i]).1 != our_pid,
    ensures
        slot.after_walk(windows, our_pid) == slot,
    decreases windows.len(),
{
    if windows.len() > 0 {
        let rest = windows.drop_first();
        assert(windows[0].1 != our_pid);
        assert forall|i: int| 0 <= i < rest.len() implies (#[trigger] rest[i]).1 != our_pid by {
            assert(rest[i] == windows[i + 1]);
        }
        walk_without_match(slot, rest, our_pid);
    }
}

/// How often the window is looked for before the tray icon is made without it.
pub const SEARCHES: u32 = 40;

/// The pause before the first search, in milliseconds.
pub const FIRST_PAUSE: u64 = 500;

/// The pause after a search, in milliseconds.
pub const PAUSE: u64 = 200;

/// What to do next while the tray icon waits for the window.
pub enum TrayStep {
    /// Sleep for this many milliseconds.
    Sleep(u64),
    /// Look for the window.
    Search,
    /// Make the tray icon.
    Build,
}

/// How far the wait for the window has come.
pub enum TrayWait {
    /// Nothing was done yet.
    Start,
    /// This many searches were made, each with its pause.
    Check(u32),
    /// This many searches were made, and one more without its pause.
    Searched(u32),
    /// The wait is over.
    Over,
}

impl TrayWait {
    /// No more searches than there are to be.
    pub open spec fn wf(self) -> bool {
        match self {
            TrayWait::Check(k) => k <= SEARCHES,
            TrayWait::Searched(k) => k < SEARCHES,
            _ => true,
        }
    }

    /// What comes after the present state, and what to do.
    pub open spec fn step(self, ready: bool) -> (TrayWait, TrayStep) {
        match self {
            TrayWait::Start => (TrayWait::Check(0), TrayStep::Sleep(FIRST_PAUSE)),
            TrayWait::Check(k) => if k < SEARCHES && !ready {
                (TrayWait::Searched(k), TrayStep::Search)
            } else {
                (TrayWait::Over, TrayStep::Build)
            },
            TrayWait::Searched(k) => (TrayWait::Check((k + 1) as u32), TrayStep::Sleep(PAUSE)),
            TrayWait::Over => (TrayWait::Over, TrayStep::Build),
        }
    }

    /// The longest time that may still be slept, in milliseconds.
    pub open spec fn longest_sleep(self) -> int {
        match self {
            TrayWait::Start => FIRST_PAUSE + SEARCHES * PAUSE,
            TrayWait::Check(k) => (SEARCHES - k) * PAUSE,
            TrayWait::Searched(k) => (SEARCHES - k) * PAUSE,
            TrayWait::Over => 0,
        }
    }

    /// How many searches may still be made.
    pub open spec fn searches_left(self) -> int {
        match self {
            TrayWait::Start => SEARCHES as int,
            TrayWait::Check(k) => SEARCHES - k,
            TrayWait::Searched(k) => SEARCHES - k - 1,
            TrayWait::Over => 0,
        }
    }

    /// How many steps may still be made before the tray icon.
    pub open spec fn steps_left(self) -> int {
        match self {
            TrayWait::Start => 2 * SEARCHES + 2,
            TrayWait::Check(k) => 2 * (SEARCHES - k) + 1,
            TrayWait::Searched(k) => 2 * (SEARCHES - k),
            TrayWait::Over => 0,
        }
    }

    /// Goes one step on; `ready` tells whether the window was found by now.
    pub fn next(&mut self, ready: bool) -> (step: TrayStep)
        requires
            old(self).wf(),
        ensures
            final(self).wf(),
            (*final(self), step) == old(self).step(ready),
    {
        match *self {
            TrayWait::Start => {
                *self = TrayWait::Check(0);
                TrayStep::Sleep(FIRST_PAUSE)
            },
            TrayWait::Check(k) => {
                if k < SEARCHES && !ready {
                    *self = TrayWait::Searched(k);
                    TrayStep::Search
                } else {
                    *self = TrayWait::Over;
                    TrayStep::Build
                }
            },
            TrayWait::Searched(k) => {
                *self = TrayWait::Check(k + 1);
                TrayStep::Sleep(PAUSE)
            },
            TrayWait::Over => TrayStep::Build,
        }
    }
}

/// The wait is bounded, whatever the answers are. Each step brings the tray icon nearer, at most
/// `SEARCHES` searches are made, and what is slept is taken off the longest sleep, which from the
/// start is the first pause and one pause for each search.
pub proof fn wait_is_bounded(wait: TrayWait, ready: bool)
    requires
        wait.wf(),
    ensures
        ({
            let (next, step) = wait.step(ready);
            &&& next.wf()
            &&& wait.steps_left() >= 0 && wait.searches_left() >= 0 && wait.longest_sleep() >= 0
            &&& step is Build <==> next is Over
            &&& next.steps_left() < wait.steps_left() || wait is Over
            &&& step is Search ==> next.searches_left() == wait.searches_left() - 1
            &&& !(step is Search) ==> next.searches_left() <= wait.searches_left()
            &&& step matches TrayStep::Sleep(ms) ==> next.longest_sleep() == wait.longest_sleep()
                - ms
            &&& !(step is Sleep) ==> next.longest_sleep() <= wait.longest_sleep()
        }),
{
}

/// As soon as the window was found no further search is made.
pub proof fn no_search_when_ready(wait: TrayWait)
    ensures
        !(wait.step(true).1 is Search),
{
}

/// What a choice in the tray menu asks for.
pub enum TrayAction {
    /// Show the window with this handle and bring it to the front.
    Show(isize),
    /// End the program.
    Exit,
    Ignore,
}

/// What the menu entry `event` asks for, given the entries for showing and for leaving.
pub open spec fn tray_action_spec(
    event: Seq<char>,
    show: Seq<char>,
    exit: Seq<char>,
    slot: WindowSlot,
) -> TrayAction {
    if event == show && slot.hwnd != 0 {
        TrayAction::Show(slot.hwnd)
    } else if event == exit {
        TrayAction::Exit
    } else {
        TrayAction::Ignore
    }
}

/// Decides what a choice in the tray menu asks for.
pub fn tray_action(event: &str, show: &str, exit: &str, slot: &WindowSlot) -> (action: TrayAction)
    ensures
        action == tray_action_spec(event@, show@, exit@, *slot),
{
    if same_text(event, show) && slot.hwnd != 0 {
        TrayAction::Show(slot.hwnd)
    } else if same_text(event, exit) {
        TrayAction::Exit
    } else {
        TrayAction::Ignore
    }
}

/// The width and the height of the tray icon, in pixels.
pub const ICON_SIZE: u32 = 32;

/// A pixel: red, green, blue and opacity.
pub type Pixel = (u8, u8, u8, u8);

/// The picture on the tray icon: a green disk with a darker rim on nothing.
pub open spec fn icon_pixel(x: int, y: int) -> Pixel {
    let square = (x - 16) * (x - 16) + (y - 16) * (y - 16);
    if square <= 10 * 10 {
        (60, 180, 100, 255)
    } else if square < 14 * 14 {
        (40, 140, 80, 255)
    } else {
        (0, 0, 0, 0)
    }
}

/// The pixel number `p` of a picture given by its bytes.
pub open spec fn pixel_at(rgba: Seq<u8>, p: int) -> Pixel {
    (rgba[4 * p], rgba[4 * p + 1], rgba[4 * p + 2], rgba[4 * p + 3])
}

fn icon_pixel_at(x: i32, y: i32) -> (pixel: Pixel)
    requires
        0 <= x < 32,
        0 <= y < 32,
    ensures
        pixel == icon_pixel(x as int, y as int),
{
    let cx: i32 = x - 16;
    let cy: i32 = y - 16;
    proof {
        assert(0 <= cx * cx <= 256) by (nonlinear_arith)
            requires
                -16 <= cx <= 15,
        ;
        assert(0 <= cy * cy <= 256) by (nonlinear_arith)
            requires
                -16 <= cy <= 15,
        ;
    }
    let square: i32 = cx * cx + cy * cy;
    if square <= 100 {
        (60, 180, 100, 255)
    } else if square < 196 {
        (40, 140, 80, 255)
    } else {
        (0, 0, 0, 0)
    }
}

/// Draws the tray icon, row by row from the top, four bytes for each pixel.
pub fn tray_icon_rgba() -> (rgba: Vec<u8>)
    ensures
        rgba@.len() == 4 * ICON_SIZE * ICON_SIZE,
        forall|p: int|
            0 <= p < ICON_SIZE * ICON_SIZE ==> #[trigger] pixel_at(rgba@, p) == icon_pixel(
                p % (ICON_SIZE as int),
                p / (ICON_SIZE as int),
            ),
{
    let mut rgba: Vec<u8> = Vec::new();
    let mut p: i32 = 0;
    while p < 1024
        invariant
            0 <= p <= 1024,
            rgba@.len() == 4 * p,
            forall|q: int|
                0 <= q < p ==> #[trigger] pixel_at(rgba@, q) == icon_pixel(q % 32, q / 32),
        decreases 1024 - p,
    {
        let ghost before = rgba@;
        let pixel = icon_pixel_at(p % 32, p / 32);
        rgba.push(pixel.0);
        rgba.push(pixel.1);
        rgba.push(pixel.2);
        rgba.push(pixel.3);
        proof {
            assert forall|q: int| 0 <= q < p + 1 implies #[trigger] pixel_at(rgba@, q)
                == icon_pixel(q % 32, q / 32) by {
                if q < p {
                    assert(pixel_at(rgba@, q) == pixel_at(before, q));
                }
            }
        }
        p = p + 1;
    }
    rgba
}

} // verus!
