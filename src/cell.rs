use vstd::prelude::*;

verus! {

/// What a cell holds: a mine, or a safe cell with the number of mines around it.
#[derive(Clone, Copy, Debug, PartialEq, Eq, PartialOrd, Structural)]
pub enum CellType {
    Mine,
    /// A safe cell with at least one mine among its neighbours.
    Safe(usize),
    /// A safe cell with no mine among its neighbours.
    Empty,
}

/// One position of the field: its type and what the player sees of it.
#[derive(Clone, Copy, Debug, PartialEq, Eq, Structural)]
pub struct Cell {
    pub cell_type: CellType,
    pub visible: bool,
    pub flag: bool,
    pub incorrect: bool,
}

/// A cell as it stands before the game starts: empty, hidden, unflagged.
pub open spec fn is_fresh(c: Cell) -> bool {
    c.cell_type == CellType::Empty && !c.visible && !c.flag && !c.incorrect
}

pub open spec fn is_mine(c: Cell) -> bool {
    c.cell_type is Mine
}

/// The type that a safe cell with `n` neighbouring mines gets.
pub open spec fn safe_type(n: nat) -> CellType {
    if n == 0 {
        CellType::Empty
    } else {
        CellType::Safe(n as usize)
    }
}

impl Cell {
    pub fn new() -> (r: Self)
        ensures
            is_fresh(r),
    {
        Cell { cell_type: CellType::Empty, visible: false, flag: false, incorrect: false }
    }
}

} // verus!
