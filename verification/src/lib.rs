//! The editing core of a small text editor.
//!
//! - [`text`]: the document buffer, a rope with a cursor, a selection and a
//!   history of edits that can be undone and redone.
//! - [`document`]: the mathematical model of the buffer, over which its
//!   contracts are stated, and the laws of undo and redo.
//! - [`event`]: the events of the history.
//! - [`caret`] and [`lines`]: positions as line and column, and where the
//!   lines of a text start.
//! - [`search`]: substring search in a buffer.
//! - [`tabs`]: the registry of open buffers.
//! - [`files`]: the tree of the file explorer.
//! - [`rope`]: the contracts assumed of the rope.
//! - [`strings`]: reading strings character by character.
//!
//! The core does no input or output. Its caller reads and writes files and
//! lists directories, and hands in what it read.

pub mod caret;
pub mod document;
pub mod event;
pub mod files;
pub mod lines;
pub mod rope;
pub mod search;
pub mod strings;
pub mod tabs;
pub mod text;
