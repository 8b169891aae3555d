//! The ways in which scaffolding a project can fail.

use vstd::prelude::*;
use crate::options::License;

verus! {

/// Why an operation of this library gave up.
#[derive(Debug)]
pub enum Failure {
    /// The target directory is not there, or holds something already.
    DirectoryNotEmpty,
    /// No project name was given and the target directory has no usable base name.
    InvalidProjectName,
    /// No entry of that name is in the store.
    TemplateNotFound,
    /// A text entry has to be rendered by the engine, and no output of the engine was handed
    /// in for it.
    NotRendered,
    /// This license was chosen, and no text of it is at hand.
    UnknownLicense(License),
    /// An entry's name is not a valid entry name: it is empty, absolute, or would leave the
    /// directory that it is unpacked into.
    MalformedArchiveEntry,
    /// The walk over a repository's tree met an entry that cannot be loaded.
    RepositoryFailure,
    /// An archive, or one of its entries, could not be read; with the reader's message.
    UnreadableArchive(String),
    /// The engine refused the source of a text entry; with the engine's message.
    InvalidTemplate(String),
    /// The engine failed while rendering a text entry; with the message that was handed in.
    RenderFailure(String),
}

} // verus!
