//! Building blocks of the `fy-docs` documentation builder: language tags,
//! target selection, typst output decomposition and page assembly.

pub mod assets;
pub mod cli;
pub mod compiler;
pub mod paths;
pub mod project;
pub mod scaffold;
pub mod term;
pub mod watcher;
pub mod text;
