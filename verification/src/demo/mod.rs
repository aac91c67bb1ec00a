//! The screens of the demonstration program: what each draws and how each
//! answers keys.  The program's loop, terminal and file access live outside
//! the library.

pub mod screens;
pub mod table_demo;
pub mod main_menu;
pub mod border_demo;
pub mod color_palette;
pub mod save_to_file;
pub mod layout_demo;

pub use screens::{Action, ScreenId};
pub use table_demo::TableDemo;
pub use main_menu::MainMenu;
pub use border_demo::BorderDemo;
pub use color_palette::{ColorPalette, Gradients};
pub use save_to_file::{snapshot_lines, SaveToFile};
pub use layout_demo::{layout_demo_key, render_layout_demo, LayoutDemoStep, LayoutMode};
