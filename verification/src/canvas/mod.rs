pub mod cell;
pub mod canvas;
pub mod render;

pub use cell::{blank_cell, Cell};
pub use canvas::{Canvas, CanvasModel, SubCanvas};
pub use render::{CellDraw, Renderer};
