//! A directive-expansion engine for composing static-site files.
//!
//! Lines of a text file may carry a directive of the form
//! `<!-- @@COMMAND args... -->`.  Each directive is replaced by the
//! contents of a referenced style, script, or named asset file, and the
//! whole content is re-scanned until a pass finds no directive.
//!
//! The engine works over plain values: the caller supplies the site
//! description and a read-only snapshot of file contents, and receives the
//! expanded text or the exact error.

pub mod engine;
pub mod laws;
pub mod model;
pub mod parser;
pub mod resolver;
pub mod text;
