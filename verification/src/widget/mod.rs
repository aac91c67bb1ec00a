pub mod traits;
pub mod panel;
pub mod menu;
pub mod wrap;
pub mod textblock;
pub mod table;

pub use traits::{InteractiveWidget, Widget};
pub use panel::{Align, Panel};
pub use menu::Menu;
pub use textblock::{TextBlock, WrapMode};
pub use table::Table;
