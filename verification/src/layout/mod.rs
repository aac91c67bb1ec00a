mod region;
pub mod resolve;
pub mod anchor;
pub mod split;

pub use region::{sat_sub, Rect};
pub use anchor::{AnchorId, AnchorLayout, Constraint, Edge};
pub use split::{Pane2, Pane4, Split3Kind};
