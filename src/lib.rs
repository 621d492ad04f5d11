//! An editing session that collects key-value string pairs from key events
//! and writes them out as a JSON object.

pub mod decode;
pub mod json;
pub mod labels;
pub mod session;
pub mod store;

pub use session::{App, CurrentScreen, CurrentlyEditing, KeyCode, KeyEvent, KeyEventKind, LoopControl};
pub use store::PairStore;
