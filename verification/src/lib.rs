//! Finds renamed dependencies in a package manifest and writes the shell
//! commands that undo each rename in the manifest and in the source tree.
//!
//! A dependency is renamed where the manifest lists it under an alias and
//! names the real package in the entry's `package` field.  For every such
//! dependency the library writes six commands: four `sed` calls that edit
//! the manifest and two `find` calls that edit the sources.  Nothing is
//! executed and no file is written: the commands are handed back as text.
//!
//! - [`path`]: from the path on the command line to the manifest and to the
//!   source directory.
//! - [`document`]: the parsed manifest and the few calls into the parser.
//! - [`manifest`]: from a parsed value to a dependency table, and the
//!   errors on the way.
//! - [`table`], [`order`]: the dependency table, ordered by alias.
//! - [`rename`]: which entries rename, and the commands for one table.
//! - [`script`], [`module_name`]: the text of the commands for one rename.
//! - [`resolver`]: the whole run.

pub mod document;
pub mod manifest;
pub mod module_name;
pub mod order;
pub mod path;
pub mod rename;
pub mod resolver;
pub mod script;
pub mod table;
