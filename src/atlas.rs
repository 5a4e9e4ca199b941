use vstd::prelude::*;
use crate::cell::{Cell, CellType};

verus! {

/// The smiley above the field.
#[derive(Clone, Copy, Debug, PartialEq, Eq, Structural)]
pub enum Face {
    Smile,
    Pressed,
    Lost,
    Won,
}

/// Sprite of a hidden, unflagged cell.
pub const HIDDEN_SPRITE: usize = 9;

/// Sprite of a flag.
pub const FLAG_SPRITE: usize = 10;

/// Sprite of a mine.
pub const MINE_SPRITE: usize = 12;

/// Which sprite of the cell atlas shows `c`: a hidden unflagged cell has its
/// own; otherwise a flag, a mine, or the count of a safe cell (0 when empty),
/// moved to the next sprite (the red one) when the cell is marked incorrect.
pub open spec fn cell_sprite(c: Cell) -> int {
    if !c.visible && !c.flag {
        HIDDEN_SPRITE as int
    } else {
        let base: int = if c.flag {
            FLAG_SPRITE as int
        } else {
            match c.cell_type {
                CellType::Mine => MINE_SPRITE as int,
                CellType::Safe(n) => n as int,
                CellType::Empty => 0,
            }
        };
        base + if c.incorrect {
            1int
        } else {
            0int
        }
    }
}

pub open spec fn face_sprite(face: Face) -> int {
    match face {
        Face::Smile => 0,
        Face::Pressed => 1,
        Face::Lost => 4,
        Face::Won => 3,
    }
}

/// Index in the cell atlas of the sprite that shows `cell`.
pub fn cell_image_index(cell: &Cell) -> (r: usize)
    requires
        cell_sprite(*cell) <= usize::MAX,
    ensures
        r == cell_sprite(*cell),
{
    if !cell.visible && !cell.flag {
        return HIDDEN_SPRITE;
    }
    let mut index: usize = match cell.cell_type {
        CellType::Mine => MINE_SPRITE,
        CellType::Safe(n) => n,
        CellType::Empty => 0,
    };
    if cell.flag {
        index = FLAG_SPRITE;
    }
    if cell.incorrect {
        index += 1;
    }
    index
}

/// Index in the face atlas of the sprite that shows `face`.
pub fn face_image_index(face: &Face) -> (r: usize)
    ensures
        r == face_sprite(*face),
{
    match face {
        Face::Smile => 0,
        Face::Pressed => 1,
        Face::Lost => 4,
        Face::Won => 3,
    }
}

} // verus!
