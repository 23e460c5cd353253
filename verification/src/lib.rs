//! Build-time preprocessor for GPC/GPX source text.
//!
//! The core is a pipeline of three passes over one in-memory source string:
//! import resolution (with circular-import detection), textual macro
//! definition/expansion, and constant folding of self-contained numeric
//! expressions.  Surrounding package-manager and project helpers that work on
//! plain strings live here as well; everything that touches the file system,
//! the network or the console stays outside the library.

pub mod args;
pub mod text;
pub mod imports;
pub mod laws;
pub mod macros;
pub mod optimize;
pub mod pkg;
pub mod preprocess;
pub mod project;
pub mod resolve;
pub mod version;
