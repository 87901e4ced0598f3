use vstd::prelude::*;

verus! {

/// The error kinds that a parse can surface. `Io` and `NotFound` describe a
/// file that could not be opened or read and are produced by callers that do
/// the file handling; the remaining kinds are produced while a document is
/// taken apart.
#[derive(Debug, Clone, PartialEq, Eq)]
pub enum OdtError {
    /// A byte stream could not be read.
    Io(String),
    /// The named file does not exist.
    NotFound(String),
    /// The required archive member is absent.
    MemberNotFound,
    /// The bytes do not form a valid compressed container.
    BadArchive(String),
    /// A member's data could not be decompressed.
    CorruptData(String),
    /// The markup is malformed; the message carries the byte offset.
    MarkupError(String),
}

impl OdtError {
    /// A short label for the error kind, for callers that report failures.
    pub fn kind_name(&self) -> (r: &'static str)
        ensures
            (self is Io) ==> r@ == "input error"@,
            (self is NotFound) ==> r@ == "file not found"@,
            (self is MemberNotFound) ==> r@ == "archive member not found"@,
            (self is BadArchive) ==> r@ == "bad archive"@,
            (self is CorruptData) ==> r@ == "corrupt data"@,
            (self is MarkupError) ==> r@ == "markup error"@,
    {
        match self {
            OdtError::Io(_) => "input error",
            OdtError::NotFound(_) => "file not found",
            OdtError::MemberNotFound => "archive member not found",
            OdtError::BadArchive(_) => "bad archive",
            OdtError::CorruptData(_) => "corrupt data",
            OdtError::MarkupError(_) => "markup error",
        }
    }
}

} // verus!
