//! A terminal UI library: capability-aware colors and borders, an off-screen
//! cell canvas, widgets, and edge-anchored layout, with the logic specified
//! and proved in Verus.

pub mod border;
pub mod canvas;
pub mod color;
pub mod demo;
pub mod event;
pub mod layout;
pub mod serial;
pub mod term;
pub mod text;
pub mod widget;
