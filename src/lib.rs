pub mod atlas;
pub mod cell;
pub mod field;
pub mod grid;

pub use atlas::{cell_image_index, face_image_index, Face};
pub use cell::{Cell, CellType};
pub use field::{MineSweeper, MAX_SEARCH_DEPTH};
