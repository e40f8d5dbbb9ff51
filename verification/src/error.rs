//! The ways in which an operation on the manifest, the texture directory or
//! an archive can fail.

use vstd::prelude::*;

verus! {

/// Why an operation failed.
#[derive(Clone, Copy, Debug, PartialEq, Eq, Structural)]
pub enum TextureError {
    /// The manifest file is absent.
    ConfigNotFound,
    /// The manifest is not the JSON document it has to be, once its comments
    /// are stripped.
    ConfigParseError,
    /// A file could not be copied, read or written.
    IoError,
    /// A dropped file is neither an image nor an archive.
    UnsupportedFile,
    /// An archive is corrupt, or a file to pack is missing.
    ArchiveError,
    /// A path leads out of the project root.
    PathEscape,
}

impl TextureError {
    /// A short description of the failure, for display.
    pub fn describe(&self) -> (r: String)
        ensures
            r@ == (match *self {
                TextureError::ConfigNotFound => "the manifest file was not found"@,
                TextureError::ConfigParseError => "the manifest is not valid JSON"@,
                TextureError::IoError => "a file could not be read or written"@,
                TextureError::UnsupportedFile => "the file is neither an image nor an archive"@,
                TextureError::ArchiveError => "the archive could not be read or written"@,
                TextureError::PathEscape => "a path leads out of the project root"@,
            }),
    {
        match self {
            TextureError::ConfigNotFound => "the manifest file was not found".to_owned(),
            TextureError::ConfigParseError => "the manifest is not valid JSON".to_owned(),
            TextureError::IoError => "a file could not be read or written".to_owned(),
            TextureError::UnsupportedFile => "the file is neither an image nor an archive".to_owned(),
            TextureError::ArchiveError => "the archive could not be read or written".to_owned(),
            TextureError::PathEscape => "a path leads out of the project root".to_owned(),
        }
    }
}

} // verus!
