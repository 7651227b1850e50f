//! Compiles HTML-like template documents into Rust type definitions.
//!
//! A template document carries an optional header block that declares typed
//! fields, and a body in which `@name@` placeholders stand for those fields
//! (`@@` stands for a literal `@`). Each document compiles to a struct with
//! the declared fields, a constructor, and a `render` method that interpolates
//! the field values into the body. A directory of documents compiles to a
//! tree of modules that mirrors the subdirectories.

pub mod compile;
pub mod emit;
pub mod header;
pub mod render;
pub mod substitute;
pub mod text;
pub mod tree;
