//! The cards of the tabs: where they stand and what they say.

use vstd::prelude::*;
use vstd::string::*;

use crate::theme::{rgb, Rgb};

verus! {

/// How many cards stand in a row.
pub const COLS: usize = 4;

/// How many rows `n` cards fill.
pub open spec fn rows_of(n: int) -> int {
    (n + COLS - 1) / (COLS as int)
}

/// The cards in row `row` of `n` cards, from the left.
pub open spec fn row_of(n: int, row: int) -> Seq<usize> {
    let first = COLS * row;
    let len = if n - first < COLS { n - first } else { COLS as int };
    Seq::new(len as nat, |k: int| (first + k) as usize)
}

/// How many rows the cards of `n` tabs fill.
pub fn row_count(n: usize) -> (rows: usize)
    ensures
        rows == rows_of(n as int),
{
    if n % COLS == 0 {
        n / COLS
    } else {
        n / COLS + 1
    }
}

/// Lays the cards of `n` tabs out, row by row.
pub fn card_rows(n: usize) -> (rows: Vec<Vec<usize>>)
    ensures
        rows@.len() == rows_of(n as int),
        forall|r: int| 0 <= r < rows@.len() ==> (#[trigger] rows@[r])@ == row_of(n as int, r),
{
    let mut rows: Vec<Vec<usize>> = Vec::new();
    let mut i: usize = 0;
    while i < n
        invariant
            i <= n,
            i == if COLS * rows@.len() <= n {
                COLS * rows@.len()
            } else {
                n as int
            },
            rows@.len() <= rows_of(n as int),
            forall|r: int| 0 <= r < rows@.len() ==> (#[trigger] rows@[r])@ == row_of(n as int, r),
        decreases n - i,
    {
        let ghost first = i;
        let ghost done = rows@;
        let mut row: Vec<usize> = Vec::new();
        while i < n && row.len() < COLS
            invariant
                first <= i <= n,
                row@.len() <= COLS,
                i == first + row@.len(),
                forall|k: int| 0 <= k < row@.len() ==> #[trigger] row@[k] == first + k,
            decreases n - i,
        {
            row.push(i);
            i = i + 1;
        }
        proof {
            assert(row@ =~= row_of(n as int, done.len() as int));
        }
        rows.push(row);
    }
    rows
}

/// Every tab has its card, and no other place in the rows shows it.
pub proof fn each_tab_on_one_card(n: int, i: int)
    requires
        0 <= i < n <= usize::MAX,
    ensures
        0 <= i / (COLS as int) < rows_of(n),
        i % (COLS as int) < row_of(n, i / (COLS as int)).len(),
        row_of(n, i / (COLS as int))[i % (COLS as int)] == i,
        forall|r: int, k: int|
            0 <= r < rows_of(n) && 0 <= k < row_of(n, r).len() && #[trigger] row_of(n, r)[k] == i
                ==> r == i / (COLS as int) && k == i % (COLS as int),
{
}

/// No row is empty, and none but the last has room left.
pub proof fn rows_are_filled(n: int, r: int)
    requires
        0 <= n <= usize::MAX,
        0 <= r < rows_of(n),
    ensures
        1 <= row_of(n, r).len() <= COLS,
        r < rows_of(n) - 1 ==> row_of(n, r).len() == COLS,
{
}

/// What a tab is doing.
#[derive(Clone, Copy, Debug, PartialEq, Eq, Structural)]
pub enum Status {
    Running,
    Done,
    Ready,
}

/// What a tab is doing.
pub open spec fn status_spec(running: bool, done: bool) -> Status {
    if running {
        Status::Running
    } else if done {
        Status::Done
    } else {
        Status::Ready
    }
}

/// What a tab is doing.
pub fn status(running: bool, done: bool) -> (status: Status)
    ensures
        status == status_spec(running, done),
{
    if running {
        Status::Running
    } else if done {
        Status::Done
    } else {
        Status::Ready
    }
}

impl Status {
    /// What a card says.
    pub open spec fn label_spec(self) -> Seq<char> {
        match self {
            Status::Running => "● 运行中"@,
            Status::Done => "● 完成"@,
            Status::Ready => "○ 就绪"@,
        }
    }

    /// What a card says.
    pub fn label(&self) -> (label: &'static str)
        ensures
            label@ == self.label_spec(),
    {
        match self {
            Status::Running => "● 运行中",
            Status::Done => "● 完成",
            Status::Ready => "○ 就绪",
        }
    }

    /// The colour in which it says so; none stands for the weak text colour.
    pub open spec fn color_spec(self) -> Option<Rgb> {
        match self {
            Status::Running => Some(rgb(72, 180, 100)),
            Status::Done => Some(rgb(100, 160, 220)),
            Status::Ready => None,
        }
    }

    /// The colour in which it says so; none stands for the weak text colour.
    pub fn color(&self) -> (color: Option<Rgb>)
        ensures
            color == self.color_spec(),
    {
        match self {
            Status::Running => Some(rgb(72, 180, 100)),
            Status::Done => Some(rgb(100, 160, 220)),
            Status::Ready => None,
        }
    }

    /// What stands above the console of the tab `name`.
    pub open spec fn title_spec(self, name: Seq<char>) -> Seq<char> {
        match self {
            Status::Running => "▶ "@ + name + " - 运行中..."@,
            Status::Done => "✅ "@ + name + " - 完成"@,
            Status::Ready => "📄 "@ + name + " - 就绪"@,
        }
    }

    /// What stands above the console of the tab `name`.
    pub fn title(&self, name: &str) -> (title: String)
        ensures
            title@ == self.title_spec(name@),
    {
        let (before, after) = match self {
            Status::Running => ("▶ ", " - 运行中..."),
            Status::Done => ("✅ ", " - 完成"),
            Status::Ready => ("📄 ", " - 就绪"),
        };
        before.to_owned().concat(name).concat(after)
    }
}

} // verus!
