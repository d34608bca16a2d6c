//! Rendering of JSON documents as indented, path-annotated text or as a
//! listing of key paths, with an optional ANSI colour scheme.

pub mod color;
pub mod decolor;
pub mod keys;
pub mod laws;
pub mod layout;
pub mod path;
pub mod pretty;
pub mod text;
pub mod value;
