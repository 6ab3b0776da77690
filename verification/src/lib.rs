pub mod models;
pub mod text;
pub mod category;
pub mod tree;
pub mod sorting;
pub mod scan;
pub mod discover;
pub mod discovery;
pub mod app_state;
pub mod preview;
pub mod ui;
pub mod highlight;
