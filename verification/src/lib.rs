//! Selection pipeline of a window and workspace quick-switcher for a tiling
//! window manager.
//!
//! The crate covers everything between the window manager's replies and the
//! command that is sent back to it: splitting the picker's command line,
//! flattening and filtering the scene graph, building the labels shown in
//! the picker, and turning the chosen label into a manager command.
//! Talking to the window manager and running the picker are left to the
//! caller.

pub mod dispatch;
pub mod entity;
pub mod labels;
pub mod mapping;
pub mod text;
pub mod tokenizer;
pub mod tree;

pub use dispatch::{dispatch, picker_input, select_mode, Mode};
pub use entity::{Entity, Selectable, Window, Workspace};
pub use labels::{max_class_name_size, window_mapping, workspace_mapping, CLASS_MARGIN};
pub use mapping::Mapping;
pub use tokenizer::{split_exec_args, tokenize, TokenizeError};
pub use tree::{filter_node, flatten_nodes, get_windows_names, Node};
