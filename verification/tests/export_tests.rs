use bonzomatic_texture_manager::archive::{pack_stored, read_archive, ArchiveEntry, ProjectFile};
use bonzomatic_texture_manager::catalog::{
    active_bindings, reconcile, BonzomaticTexture, BonzomaticTextureManagerApp, ManifestEntry,
};
use bonzomatic_texture_manager::error::TextureError;
use bonzomatic_texture_manager::export::{active_paths, export_sources, export_zip, find_file};
use bonzomatic_texture_manager::import::import_archive;

fn texture(name: &str, path: &str, active: bool) -> BonzomaticTexture {
    BonzomaticTexture::new(name.to_string(), path.to_string(), active)
}

fn file(path: &str, bytes: &[u8]) -> ProjectFile {
    ProjectFile { path: path.to_string(), bytes: bytes.to_vec() }
}

fn entry(name: &str, data: &[u8]) -> ArchiveEntry {
    ArchiveEntry { name: Some(name.to_string()), is_dir: false, data: Some(data.to_vec()) }
}

#[test]
fn pack_holds_the_active_files_only() {
    let catalog = vec![
        texture("texSky", "textures/sky.png", true),
        texture("texCloud", "textures/cloud.png", false),
        texture("texFog", "textures/fog.png", true),
    ];
    let files = vec![
        file("textures/cloud.png", &[2, 2]),
        file("textures/fog.png", &[3, 3, 3]),
        file("textures/sky.png", &[1]),
    ];
    assert_eq!(active_paths(&catalog), vec!["textures/sky.png".to_string(), "textures/fog.png".to_string()]);
    assert_eq!(
        export_sources(&catalog, &files),
        Ok(vec![file("textures/sky.png", &[1]), file("textures/fog.png", &[3, 3, 3])])
    );
    let bytes = export_zip(&catalog, &files).unwrap();
    assert_eq!(
        read_archive(&bytes),
        Ok(vec![entry("textures/sky.png", &[1]), entry("textures/fog.png", &[3, 3, 3])])
    );
}

#[test]
fn pack_is_stored_and_the_same_on_every_run() {
    let catalog = vec![texture("texSky", "textures/sky.png", true)];
    let content = b"uncompressed uncompressed uncompressed uncompressed".to_vec();
    let files = vec![file("textures/sky.png", &content)];
    let first = export_zip(&catalog, &files).unwrap();
    let second = export_zip(&catalog, &files).unwrap();
    assert_eq!(first, second);
    assert!(first.windows(content.len()).any(|w| w == &content[..]));
    let mut archive = zip::ZipArchive::new(std::io::Cursor::new(first)).unwrap();
    assert_eq!(archive.len(), 1);
    let stored = archive.by_index(0).unwrap();
    assert_eq!(stored.compression(), zip::CompressionMethod::Stored);
    assert_eq!(stored.size(), content.len() as u64);
}

#[test]
fn pack_of_one_active_file_holds_that_entry() {
    let mut app = BonzomaticTextureManagerApp::new("/proj".to_string());
    app.local_textures = vec![
        texture("texSky", "textures/sky.png", true),
        texture("texCloud", "textures/cloud.png", false),
    ];
    let files = vec![file("textures/sky.png", &[1, 2]), file("textures/cloud.png", &[3])];
    let pack = app.write_zip_pack(&files).unwrap();
    assert_eq!(read_archive(&pack), Ok(vec![entry("textures/sky.png", &[1, 2])]));
    let mut archive = zip::ZipArchive::new(std::io::Cursor::new(pack)).unwrap();
    assert_eq!(archive.len(), 1);
    let stored = archive.by_index(0).unwrap();
    assert_eq!(stored.compression(), zip::CompressionMethod::Stored);
    assert_eq!(stored.size(), 2);
    assert_eq!(stored.compressed_size(), 2);
}

#[test]
fn pack_without_active_entries_is_an_empty_archive() {
    let mut app = BonzomaticTextureManagerApp::new("/proj".to_string());
    app.local_textures = vec![texture("texCloud", "textures/cloud.png", false)];
    let pack = app.write_zip_pack(&vec![file("textures/cloud.png", &[3])]).unwrap();
    let archive = zip::ZipArchive::new(std::io::Cursor::new(pack)).unwrap();
    assert_eq!(archive.len(), 0);
}

#[test]
fn missing_file_aborts_the_export() {
    let catalog = vec![
        texture("texSky", "textures/sky.png", true),
        texture("texGone", "textures/gone.png", true),
    ];
    let files = vec![file("textures/sky.png", &[1])];
    assert_eq!(export_sources(&catalog, &files), Err(TextureError::ArchiveError));
    assert_eq!(export_zip(&catalog, &files), Err(TextureError::ArchiveError));
}

#[test]
fn escaping_path_aborts_the_export() {
    let catalog = vec![
        texture("texSky", "textures/sky.png", true),
        texture("texEvil", "../secret.png", true),
        texture("texGone", "textures/gone.png", true),
    ];
    let files = vec![file("textures/sky.png", &[1]), file("../secret.png", &[6])];
    assert_eq!(export_zip(&catalog, &files), Err(TextureError::PathEscape));
    let inactive = vec![texture("texEvil", "../secret.png", false)];
    assert_eq!(read_archive(&export_zip(&inactive, &files).unwrap()), Ok(vec![]));
}

#[test]
fn file_bound_twice_is_packed_once() {
    let catalog = vec![
        texture("texA", "textures/a.png", true),
        texture("texB", "textures/a.png", true),
    ];
    let files = vec![file("textures/a.png", &[4, 2])];
    let bytes = export_zip(&catalog, &files).unwrap();
    assert_eq!(read_archive(&bytes), Ok(vec![entry("textures/a.png", &[4, 2])]));
}

#[test]
fn first_file_of_a_path_is_found() {
    let files = vec![file("a", &[1]), file("b", &[2]), file("a", &[3])];
    assert_eq!(find_file(&files, &vec!['a']), Some(&vec![1u8]));
    assert_eq!(find_file(&files, &vec!['b']), Some(&vec![2u8]));
    assert_eq!(find_file(&files, &vec!['c']), None);
}

#[test]
fn writer_refuses_a_repeated_name() {
    assert_eq!(
        pack_stored(&vec![file("a.png", &[1]), file("a.png", &[2])]),
        Err(TextureError::ArchiveError)
    );
    assert_eq!(read_archive(&pack_stored(&Vec::new()).unwrap()), Ok(vec![]));
}

#[test]
fn export_then_import_keeps_the_active_bindings() {
    let manifest = vec![
        ManifestEntry { uniform_name: "texSky".to_string(), relative_path: "textures/sky.png".to_string() },
        ManifestEntry { uniform_name: "texCloud".to_string(), relative_path: "textures/sub/cloud.jpg".to_string() },
    ];
    let listing = vec!["sky.png".to_string(), "extra.png".to_string()];
    let mut app = BonzomaticTextureManagerApp::new("/proj".to_string());
    app.reconcile_with(&manifest, Some(&listing));
    assert_eq!(app.pack_paths(), vec!["textures/sky.png".to_string(), "textures/sub/cloud.jpg".to_string()]);
    let files = vec![
        file("textures/sky.png", &[1, 2, 3]),
        file("textures/extra.png", &[9]),
        file("textures/sub/cloud.jpg", &[4, 5]),
    ];
    let pack = app.write_zip_pack(&files).unwrap();

    let written = import_archive(&pack, &Vec::new()).unwrap();
    assert_eq!(
        written,
        vec![file("textures/sky.png", &[1, 2, 3]), file("textures/sub/cloud.jpg", &[4, 5])]
    );
    let fresh_listing = vec!["sky.png".to_string(), "sub".to_string()];
    let fresh = reconcile(&manifest, &fresh_listing);
    assert_eq!(active_bindings(&fresh), manifest);
    assert_eq!(active_bindings(&app.local_textures), manifest);
}
