//! Outline editor engine: a nested tree of items, a cursor path into it,
//! structural edits that keep the cursor consistent, and the viewport
//! arithmetic that decides which part of the tree fits on screen.
pub mod todo_list;
pub mod tree;
pub mod engine;
pub mod window_state;
pub mod viewport;
pub mod laws;
pub mod goto_input;
pub mod menu;
pub mod line_edit;

pub use todo_list::{TodoItem, TodoList};
pub use tree::Node;
