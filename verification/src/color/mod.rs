pub mod types;
pub mod downgrade;

pub use types::{basic_from_index, basic_index, BasicColor, Color, StyleFlags};
pub use downgrade::{
    build_palette, displayable, downgrade_spec, nearest_ansi256, nearest_basic, palette_rgb,
};
