use bonzomatic_texture_manager::archive::{
    copy_bytes, pack_stored, read_archive, ArchiveEntry, ProjectFile,
};
use bonzomatic_texture_manager::catalog::{BonzomaticTexture, BonzomaticTextureManagerApp};
use bonzomatic_texture_manager::error::TextureError;
use bonzomatic_texture_manager::import::{
    classify_drop, import_archive, plan_archive_import, DropKind,
};
use std::io::Write;

fn texture(name: &str, path: &str, active: bool) -> BonzomaticTexture {
    BonzomaticTexture::new(name.to_string(), path.to_string(), active)
}

fn entry(name: &str, data: &[u8]) -> ArchiveEntry {
    ArchiveEntry { name: Some(name.to_string()), is_dir: false, data: Some(data.to_vec()) }
}

fn file(path: &str, bytes: &[u8]) -> ProjectFile {
    ProjectFile { path: path.to_string(), bytes: bytes.to_vec() }
}

#[test]
fn drops_are_told_apart_by_extension() {
    assert_eq!(classify_drop("/home/u/sky.png"), Ok(DropKind::Image));
    assert_eq!(classify_drop("sky.PNG"), Ok(DropKind::Image));
    assert_eq!(classify_drop("sky.Jpg"), Ok(DropKind::Image));
    assert_eq!(classify_drop("C:\\drop\\sky.jpeg"), Ok(DropKind::Image));
    assert_eq!(classify_drop("pack.zip"), Ok(DropKind::Archive));
    assert_eq!(classify_drop("pack.ZIP"), Ok(DropKind::Archive));
    assert_eq!(classify_drop("notes.txt"), Err(TextureError::UnsupportedFile));
    assert_eq!(classify_drop("noext"), Err(TextureError::UnsupportedFile));
    assert_eq!(classify_drop(".png"), Err(TextureError::UnsupportedFile));
    assert_eq!(classify_drop("dir.png/readme"), Err(TextureError::UnsupportedFile));
    assert_eq!(classify_drop("anim.apng"), Err(TextureError::UnsupportedFile));
    assert_eq!(classify_drop(""), Err(TextureError::UnsupportedFile));
}

#[test]
fn dropped_image_gets_a_free_place() {
    let mut app = BonzomaticTextureManagerApp::new("/proj".to_string());
    app.local_textures = vec![
        texture("texFog", "textures/fog.png", true),
        texture("texFog_2", "textures/fog_2.png", false),
    ];
    let none = Vec::new();
    assert_eq!(
        app.image_destination("/home/u/Downloads/fog.png", &none),
        Ok("textures/fog_3.png".to_string())
    );
    assert_eq!(
        app.image_destination("/home/u/Downloads/sky.JPG", &none),
        Ok("textures/sky.JPG".to_string())
    );
    assert_eq!(app.image_destination("/home/u/notes.txt", &none), Err(TextureError::UnsupportedFile));
    assert_eq!(app.image_destination("/home/u/pack.zip", &none), Err(TextureError::UnsupportedFile));
}

#[test]
fn dropped_image_never_takes_the_place_of_a_file_on_disk() {
    let manifest = bonzomatic_texture_manager::config::parse_manifest(
        "{\"textures\": {\"texSky\": \"textures/other.png\"}}",
    )
    .unwrap();
    let listing = vec!["other.png".to_string(), "sky.png".to_string()];
    let mut app = BonzomaticTextureManagerApp::new("/proj".to_string());
    app.reconcile_with(&manifest, Some(&listing));
    assert_eq!(app.local_textures, vec![texture("texSky", "textures/other.png", true)]);
    let existing = vec!["textures/other.png".to_string(), "textures/sky.png".to_string()];
    assert_eq!(
        app.image_destination("/tmp/sky.png", &existing),
        Ok("textures/sky_2.png".to_string())
    );
    assert_eq!(
        app.import("/tmp/sky.png", &vec![2], &existing),
        Ok(vec![file("textures/sky_2.png", &[2])])
    );
    let spelled = vec!["./textures/sky.png".to_string(), "textures/x/../sky_2.png".to_string()];
    assert_eq!(
        app.image_destination("/tmp/sky.png", &spelled),
        Ok("textures/sky_3.png".to_string())
    );
    assert_eq!(app.image_destination("/tmp/sky.png", &Vec::new()), Ok("textures/sky.png".to_string()));
}

#[test]
fn archive_import_never_overwrites() {
    let entries = vec![entry("textures/cloud.png", &[9, 9, 9]), entry("textures/new.png", &[1])];
    let existing = vec!["textures/cloud.png".to_string()];
    assert_eq!(plan_archive_import(&entries, &existing), Ok(vec![file("textures/new.png", &[1])]));
    let detour = vec![entry("textures/sub/../cloud.png", &[9])];
    assert_eq!(plan_archive_import(&detour, &existing), Ok(vec![]));
    let spelled = vec!["./textures//cloud.png".to_string()];
    assert_eq!(plan_archive_import(&entries, &spelled), Ok(vec![file("textures/new.png", &[1])]));
}

#[test]
fn archive_with_escaping_entry_is_refused() {
    let entries = vec![
        entry("textures/good.png", &[1]),
        entry("textures/../../evil.png", &[6, 6, 6]),
        entry("textures/other.png", &[2]),
    ];
    assert_eq!(plan_archive_import(&entries, &Vec::new()), Err(TextureError::PathEscape));
    let existing = vec!["textures/good.png".to_string(), "textures/other.png".to_string()];
    assert_eq!(plan_archive_import(&entries, &existing), Err(TextureError::PathEscape));
}

#[test]
fn archive_entries_outside_textures_are_passed_over() {
    let entries = vec![
        entry("readme.txt", &[1]),
        entry("../evil.png", &[2]),
        entry("/textures/abs.png", &[3]),
        entry("textures/../config.json", &[8]),
        entry("textures/..", &[8]),
        ArchiveEntry { name: Some("textures/".to_string()), is_dir: true, data: Some(vec![]) },
        ArchiveEntry { name: Some("textures/sub/".to_string()), is_dir: true, data: None },
        ArchiveEntry { name: None, is_dir: false, data: Some(vec![4]) },
        ArchiveEntry { name: Some("textures/broken.png".to_string()), is_dir: false, data: None },
        entry("textures/sub/ok.png", &[5]),
    ];
    assert_eq!(
        plan_archive_import(&entries, &Vec::new()),
        Ok(vec![file("textures/sub/ok.png", &[5])])
    );
}

#[test]
fn first_entry_of_a_path_wins() {
    let entries = vec![
        entry("textures/a.png", &[1]),
        entry("textures/./a.png", &[2]),
        entry("textures/b.png", &[3]),
        entry("textures/a.png", &[4]),
    ];
    assert_eq!(
        plan_archive_import(&entries, &Vec::new()),
        Ok(vec![file("textures/a.png", &[1]), file("textures/b.png", &[3])])
    );
}

#[test]
fn unreadable_entry_leaves_its_place_free() {
    let entries = vec![
        ArchiveEntry { name: Some("textures/a.png".to_string()), is_dir: false, data: None },
        entry("textures/a.png", &[7]),
    ];
    assert_eq!(plan_archive_import(&entries, &Vec::new()), Ok(vec![file("textures/a.png", &[7])]));
}

#[test]
fn archive_bytes_are_read_entry_by_entry() {
    let mut writer = zip::ZipWriter::new(std::io::Cursor::new(Vec::new()));
    let options = zip::write::SimpleFileOptions::default()
        .compression_method(zip::CompressionMethod::Deflated);
    writer.add_directory("textures/", options).unwrap();
    writer.start_file("textures/sky.png", options).unwrap();
    writer.write_all(&[5u8; 300]).unwrap();
    writer.start_file("notes.txt", options).unwrap();
    writer.write_all(b"hello").unwrap();
    let bytes = writer.finish().unwrap().into_inner();
    assert_eq!(
        read_archive(&bytes),
        Ok(vec![
            ArchiveEntry { name: Some("textures/".to_string()), is_dir: true, data: Some(vec![]) },
            entry("textures/sky.png", &[5u8; 300]),
            entry("notes.txt", b"hello"),
        ])
    );
    assert_eq!(
        import_archive(&bytes, &Vec::new()),
        Ok(vec![file("textures/sky.png", &[5u8; 300])])
    );
    assert_eq!(import_archive(&bytes, &vec!["textures/sky.png".to_string()]), Ok(vec![]));
}

#[test]
fn bytes_that_are_no_archive_are_refused() {
    assert_eq!(read_archive(&vec![1, 2, 3, 4]), Err(TextureError::ArchiveError));
    assert_eq!(read_archive(&Vec::new()), Err(TextureError::ArchiveError));
    assert_eq!(import_archive(&b"not a zip".to_vec(), &Vec::new()), Err(TextureError::ArchiveError));
}

#[test]
fn escaping_entry_in_real_archive_is_refused() {
    let bytes = pack_stored(&vec![
        file("textures/ok.png", &[1]),
        file("textures/../../evil.png", &[6]),
    ])
    .unwrap();
    assert_eq!(import_archive(&bytes, &Vec::new()), Err(TextureError::PathEscape));
}

#[test]
fn import_plans_images_and_archives_alike() {
    let mut app = BonzomaticTextureManagerApp::new("/proj".to_string());
    app.local_textures = vec![texture("texFog", "textures/fog.png", true)];
    let existing = vec!["textures/fog.png".to_string()];
    assert_eq!(
        app.import("/drop/fog.png", &vec![7, 7], &existing),
        Ok(vec![file("textures/fog_2.png", &[7, 7])])
    );
    let pack = pack_stored(&vec![file("textures/fog.png", &[1]), file("textures/sun.png", &[2])]).unwrap();
    assert_eq!(app.import("/drop/pack.zip", &pack, &existing), Ok(vec![file("textures/sun.png", &[2])]));
    assert_eq!(app.import("/drop/pack.zip", &vec![0, 1], &existing), Err(TextureError::ArchiveError));
    assert_eq!(app.import("/drop/notes.md", &vec![0, 1], &existing), Err(TextureError::UnsupportedFile));
}

#[test]
fn bytes_are_copied() {
    assert_eq!(copy_bytes(&vec![1, 2, 3]), vec![1, 2, 3]);
    assert_eq!(copy_bytes(&Vec::new()), Vec::<u8>::new());
}
