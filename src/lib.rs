//! Project registry kept in step with a folder tree, and checklist trees
//! built from loosely indented rows.

pub mod auth;
pub mod checklist;
pub mod folder;
pub mod ordering;
pub mod reconcile;
pub mod registry;
pub mod scope;
pub mod text;
pub mod watcher;

pub use checklist::{build_checklist_tree, is_subtask_name, new_item, ChecklistItem};
pub use folder::parse_folder_name;
pub use registry::{Category, Db, Project};
pub use text::cfg_path;
