//! A text buffer for an editor: bytes in a gap buffer, marks that move through them by
//! characters, words and lines, and a history of edits that can be undone and redone.

pub mod buffer;
pub mod edit_laws;
pub mod history;
pub mod laws;
pub mod lines;
pub mod log;
pub mod marks;
pub mod motion;
pub mod motion_laws;
pub mod shift_laws;
pub mod text;
pub mod utils;

pub use buffer::Buffer;
pub use lines::Lines;
pub use log::{Change, Log, LogEntry};
pub use marks::Mark;
pub use motion::{Direction, WordEdgeMatch};
