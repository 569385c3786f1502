//! Selection state of the result list and the builder of a list.
use vstd::prelude::*;

verus! {

/// Which row, and which action of that row, is selected.
#[derive(Clone, Copy, PartialEq, Eq, Structural)]
pub struct ListState {
    /// selected row; -1 means no row is selected, which leaves the search bar
    /// free to edit
    pub row: i32,
    /// selected action of the row
    pub col: i32,
    /// whether the activate key was pressed
    pub activate: bool,
}

/// The navigation keys pressed since the last update.
#[derive(Clone, Copy, PartialEq, Eq, Structural)]
pub struct Keys {
    pub up: bool,
    pub down: bool,
    pub left: bool,
    pub right: bool,
    pub enter: bool,
}

pub open spec fn step(back: bool, forth: bool) -> int {
    (if forth {
        1int
    } else {
        0int
    }) - (if back {
        1int
    } else {
        0int
    })
}

pub open spec fn clamp(x: int, lo: int, hi: int) -> int {
    let y = if x < hi {
        x
    } else {
        hi
    };
    if y > lo {
        y
    } else {
        lo
    }
}

/// The row after moving by the keys, kept within `[-1, rows - 1]`.
pub open spec fn next_row(s: ListState, keys: Keys, rows: int) -> int {
    clamp(s.row + step(keys.up, keys.down), -1, rows - 1)
}

/// The action after moving by the keys: none where no row is selected, else
/// kept within the actions of the row (-1 where it has none).
pub open spec fn next_col(s: ListState, keys: Keys, rows: int, actions: int) -> int {
    if next_row(s, keys, rows) == -1 {
        -1
    } else {
        clamp(
            s.col + step(keys.left, keys.right),
            if actions == 0 {
                -1
            } else {
                0
            },
            actions - 1,
        )
    }
}

impl ListState {
    /// A state with row `selected_row` selected and nothing else.
    pub fn new(selected_row: i32) -> (r: Self)
        ensures
            r == (ListState { row: selected_row, col: 0, activate: false }),
    {
        Self { row: selected_row, col: 0, activate: false }
    }

    /// Moves the selection by the pressed keys, within `rows_length` rows of
    /// which the selected one has `actual_row_length` actions.
    pub fn update(&mut self, keys: Keys, rows_length: usize, actual_row_length: usize)
        requires
            rows_length <= i32::MAX,
            actual_row_length <= i32::MAX,
        ensures
            final(self).row == next_row(*old(self), keys, rows_length as int),
            final(self).col == next_col(*old(self), keys, rows_length as int, actual_row_length as int),
            final(self).activate == keys.enter,
    {
        let rows_length = rows_length as i64;
        let mut row = self.row as i64;
        if keys.up {
            row = row - 1;
        }
        if keys.down {
            row = row + 1;
        }
        let mut col = self.col as i64;
        if keys.left {
            col = col - 1;
        }
        if keys.right {
            col = col + 1;
        }
        if row > rows_length - 1 {
            row = rows_length - 1;
        }
        if row < -1 {
            row = -1;
        }
        if row == -1 {
            col = -1;
        } else {
            let actual = actual_row_length as i64;
            let min_idx: i64 = if actual == 0 {
                -1
            } else {
                0
            };
            if col > actual - 1 {
                col = actual - 1;
            }
            if col < min_idx {
                col = min_idx;
            }
        }
        self.row = row as i32;
        self.col = col as i32;
        self.activate = keys.enter;
    }
}

/// A list to be shown: how its rows are built, how many rows it may show,
/// and which row is selected at first.
pub struct List<T> {
    pub callback: Option<T>,
    pub limit: Option<i32>,
    pub initially_selected_row: i32,
}

impl<T> List<T> {
    pub fn new() -> (r: Self)
        ensures
            r.callback is None,
            r.limit is None,
            r.initially_selected_row == 0,
    {
        Self { callback: None, limit: None, initially_selected_row: 0 }
    }

    pub fn with_builder(self, cb: T) -> (r: Self)
        ensures
            r.callback == Some(cb),
            r.limit == self.limit,
            r.initially_selected_row == self.initially_selected_row,
    {
        List { callback: Some(cb), ..self }
    }

    pub fn with_limit(self, limit: usize) -> (r: Self)
        ensures
            r.callback == self.callback,
            r.limit == Some(limit as i32),
            r.initially_selected_row == self.initially_selected_row,
    {
        List { limit: Some(limit as i32), ..self }
    }

    pub fn with_initally_selected_row(self, initially_selected_row: i32) -> (r: Self)
        ensures
            r.callback == self.callback,
            r.limit == self.limit,
            r.initially_selected_row == initially_selected_row,
    {
        List { initially_selected_row, ..self }
    }
}

} // verus!
