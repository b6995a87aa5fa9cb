//! An interactive JSON tree viewer: the tree model, its navigation state and the
//! decisions behind each key press, written so that every operation is checked
//! against its contract.

pub mod app;
pub mod json;
pub mod laws;
pub mod picker;
pub mod text;
pub mod tree;
pub mod ui;
