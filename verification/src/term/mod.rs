pub mod caps;

pub use caps::{level_rank, ColorLevel, TermCaps};
