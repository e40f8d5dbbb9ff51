use bonzomatic_texture_manager::error::TextureError;

#[test]
fn every_error_describes_itself() {
    assert_eq!(TextureError::ConfigNotFound.describe(), "the manifest file was not found");
    assert_eq!(TextureError::ConfigParseError.describe(), "the manifest is not valid JSON");
    assert_eq!(TextureError::IoError.describe(), "a file could not be read or written");
    assert_eq!(
        TextureError::UnsupportedFile.describe(),
        "the file is neither an image nor an archive"
    );
    assert_eq!(TextureError::ArchiveError.describe(), "the archive could not be read or written");
    assert_eq!(TextureError::PathEscape.describe(), "a path leads out of the project root");
}
