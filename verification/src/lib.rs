//! The logic of a personal notes site: Markdown files under a directory tree are
//! listed on an index page and served as styled HTML pages.
//!
//! Everything here works on plain values. Reading directories and files and
//! speaking HTTP belong to the program built on top of this library.

pub mod loader;
pub mod paths;
pub mod resolver;
pub mod router;
pub mod templater;
pub mod text;
pub mod walker;
