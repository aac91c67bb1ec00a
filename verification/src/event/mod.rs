pub mod keys;

pub use keys::{translate, translate_key, InputEvent, Key, RawKey};
