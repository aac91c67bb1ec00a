//! Screen definitions as plain data: colors, styles, widgets and layouts that
//! can be stored and loaded, checked against the terminal class they target,
//! and turned into live widgets and anchor layouts.

pub mod types;
pub mod validate;
pub mod instantiate;

pub use types::{
    AlignDef, BasicColorName, BorderDef, ColorDef, ConstraintDef, EdgeDef, LayoutDef, ScreenDef, StyleDef,
    TerminalTarget, ValidationErrors, WidgetDef, WidgetPlacement, WrapDef,
};
