//! The logic behind the panels of the window: the order and labels of the
//! file tree, and the texts of the project sidebar.
pub mod file_tree;
pub mod sidebar;
pub mod markdown;
