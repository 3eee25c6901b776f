//! Extracts the declared requirements of a Terraform module: the core
//! version constraints and the provider requirements, merged over all of
//! the module's configuration files.
//!
//! The directory listing, the file reads and the parsing are the caller's;
//! this library decides which files are read and in what order, what each
//! parsed file contributes, and how strictness treats broken files.
mod text;
pub mod discovery;
pub mod document;
pub mod module;
pub mod extract;
pub mod load;
pub mod laws;

pub use discovery::{order_files, DirEntry};
pub use document::{Attribute, Block, Body, Expression, ObjectField, ObjectKey};
pub use extract::load_module_from_file;
pub use load::{load_module_from_files, FileContents, SourceFile};
pub use module::{Error, Module, ProviderRef, ProviderRequirement};
