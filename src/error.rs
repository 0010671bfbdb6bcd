use vstd::prelude::*;

verus! {

/// Why a file-management operation was refused or failed.
#[derive(Debug, Clone, PartialEq, Eq)]
pub enum FsError {
    /// The path resolves outside the sandbox root.
    PathEscape,
    /// The path or file name is empty, relative or malformed.
    InvalidPath,
    /// An expected file or directory is absent.
    NotFound,
    /// The file does not carry the recognized extension.
    WrongExtension,
    /// The bytes are not a plausible drawing document.
    InvalidContent,
    /// Another file already occupies the destination name.
    AlreadyExists,
    /// Every candidate name up to the retry ceiling is taken.
    NameExhausted,
    /// A freshly created file could not be read back.
    CreationVerificationFailed,
    /// The copy written during a rename differs from the original.
    VerificationMismatch,
    /// A multi-step operation was handed an event it was not waiting for.
    UnexpectedEvent,
    /// The operating system reported a failure; its message is kept.
    Io(String),
}

} // verus!
