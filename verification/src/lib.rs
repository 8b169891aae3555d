//! Scaffolding of a new project from a template.
//!
//! A template is a set of named entries, each text or binary. Text entries are rendered by a
//! substitution engine with the variables of the project; binary entries are copied. The
//! library asks the engine for literal text only; the program around it makes the calls for
//! text that holds substitution markers, and hands the output in. A template
//! comes from a zip archive, from the tree of a repository, or from files built into the
//! program around this library. Making a project means deciding which files it gets (the
//! entries of its template, a file for each of its licenses, the files of its providers of
//! continuous integration) and producing their bytes. Reading and writing directories is left
//! to the program.
//!
//! - `names`: entry names, and what makes one safe to write below a directory.
//! - `entry`: entries, and the rule that tells text from binary.
//! - `engine`: what is taken on trust of the substitution engine.
//! - `templater`: the store of entries.
//! - `loader`, `archive`: filling a store.
//! - `options`: what can be chosen for a project, and the defaults.
//! - `project`: planning a project and taking the bytes of its files.
//! - `install`: where templates are kept and fetched from.
//! - `error`: failures.

pub mod archive;
pub mod engine;
pub mod entry;
pub mod error;
pub mod install;
pub mod loader;
pub mod names;
pub mod options;
pub mod project;
pub mod templater;
