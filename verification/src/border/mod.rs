pub mod style;

pub use style::{border_glyphs, next_style, style_for_caps, BorderGlyphs, BorderStyle};
