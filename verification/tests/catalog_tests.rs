use bonzomatic_texture_manager::catalog::{reconcile, BonzomaticTexture, ManifestEntry};
use bonzomatic_texture_manager::config::{parse_manifest, rewrite_manifest, strip_comments};
use bonzomatic_texture_manager::error::TextureError;
use bonzomatic_texture_manager::name::{capitalize, derive_uniform_name, unique_file_name};

fn texture(name: &str, path: &str, active: bool) -> BonzomaticTexture {
    BonzomaticTexture::new(name.to_string(), path.to_string(), active)
}

#[test]
fn reconcile_merges_manifest_and_directory() {
    let manifest = parse_manifest("{\"textures\": {\"texSky\": \"textures/sky.png\"}}").unwrap();
    let listing = vec!["sky.png".to_string(), "cloud.png".to_string()];
    let catalog = reconcile(&manifest, &listing);
    assert_eq!(
        catalog,
        vec![
            texture("texSky", "textures/sky.png", true),
            texture("texCloud", "textures/cloud.png", false),
        ]
    );
}

#[test]
fn collision_loop_finds_third_name() {
    let catalog = vec![
        texture("texFog", "textures/fog.png", true),
        texture("texFog_2", "textures/fog_2.png", false),
    ];
    assert_eq!(unique_file_name("fog.png", &catalog), Some("fog_3.png".to_string()));
}

#[test]
fn capitalize_raises_first_letter() {
    assert_eq!(capitalize("clouds"), "Clouds");
    assert_eq!(capitalize(""), "");
    assert_eq!(derive_uniform_name("clouds.png"), "texClouds");
}

#[test]
fn strip_keeps_slashes_inside_strings() {
    assert_eq!(strip_comments("{\"a\": \"x//y\", // note\n\"b\": 1}"), "{\"a\": \"x//y\", \n\"b\": 1}");
    assert_eq!(strip_comments("{\"url\": \"http://x\"}"), "{\"url\": \"http://x\"}");
}

#[test]
fn malformed_manifest_is_a_parse_error() {
    assert_eq!(parse_manifest("{\"textures\": "), Err(TextureError::ConfigParseError));
    assert_eq!(parse_manifest("{\"other\": 1}"), Err(TextureError::ConfigParseError));
    assert_eq!(parse_manifest("{\"textures\": {\"a\": 1}}"), Err(TextureError::ConfigParseError));
}

#[test]
fn rewrite_keeps_other_members() {
    let table = vec![ManifestEntry {
        uniform_name: "texSky".to_string(),
        relative_path: "textures/sky.png".to_string(),
    }];
    let text = rewrite_manifest("{\"window\": {\"w\": 2}, // size\n\"textures\": {}}", &table).unwrap();
    assert_eq!(
        text,
        "{\n  \"textures\": {\n    \"texSky\": \"textures/sky.png\"\n  },\n  \"window\": {\n    \"w\": 2\n  }\n}"
    );
}

#[test]
fn reconcile_skips_files_the_manifest_stands_for() {
    let manifest = vec![
        ManifestEntry { uniform_name: "texNoise".to_string(), relative_path: "textures/sub/grain.png".to_string() },
        ManifestEntry { uniform_name: "texCloud".to_string(), relative_path: "elsewhere/c.jpg".to_string() },
    ];
    let listing = vec![
        "grain.png".to_string(),
        "cloud.png".to_string(),
        "rain.png".to_string(),
        "snow.png".to_string(),
    ];
    let catalog = reconcile(&manifest, &listing);
    assert_eq!(
        catalog,
        vec![
            texture("texNoise", "textures/sub/grain.png", true),
            texture("texCloud", "elsewhere/c.jpg", true),
            texture("texSnow", "textures/snow.png", false),
        ]
    );
}

#[test]
fn reconcile_keeps_discovered_duplicates() {
    let listing = vec!["fog.png".to_string(), "fog.jpg".to_string()];
    let catalog = reconcile(&Vec::new(), &listing);
    assert_eq!(
        catalog,
        vec![texture("texFog", "textures/fog.png", false), texture("texFog", "textures/fog.jpg", false)]
    );
    assert_eq!(reconcile(&Vec::new(), &Vec::new()), vec![]);
}

#[test]
fn reconcile_twice_gives_the_same_catalog() {
    let manifest = parse_manifest(
        "{\"textures\": {\"texSky\": \"textures/sky.png\", \"texA\": \"textures/a.png\"}}",
    )
    .unwrap();
    let listing = vec!["sky.png".to_string(), "cloud.png".to_string(), "a.png".to_string()];
    let first = reconcile(&manifest, &listing);
    let second = reconcile(&manifest, &listing);
    assert_eq!(first, second);
    let written = bonzomatic_texture_manager::catalog::active_bindings(&first);
    assert_eq!(written, manifest);
    assert_eq!(reconcile(&written, &listing), first);
}

#[test]
fn edits_change_one_entry_and_mark_the_catalog() {
    let mut app = bonzomatic_texture_manager::catalog::BonzomaticTextureManagerApp::new("/proj".to_string());
    app.local_textures = vec![
        texture("texSky", "textures/sky.png", true),
        texture("texCloud", "textures/cloud.png", false),
    ];
    assert!(!app.changed);
    assert!(!app.toggle_active(2));
    assert!(!app.changed);
    assert!(app.toggle_active(1));
    assert!(app.changed);
    assert_eq!(app.local_textures[1], texture("texCloud", "textures/cloud.png", true));
    assert_eq!(app.local_textures[0], texture("texSky", "textures/sky.png", true));
    assert!(app.toggle_active(1));
    assert_eq!(app.local_textures[1], texture("texCloud", "textures/cloud.png", false));
    app.changed = false;
    assert!(app.set_uniform_name(0, "texHeaven".to_string()));
    assert!(app.changed);
    assert_eq!(app.local_textures[0], texture("texHeaven", "textures/sky.png", true));
    assert!(!app.set_uniform_name(5, "texNone".to_string()));
    app.changed = false;
    assert_eq!(app.set_relative_path(0, "textures/heaven.png".to_string()), Ok(true));
    assert!(app.changed);
    assert_eq!(app.local_textures[0], texture("texHeaven", "textures/heaven.png", true));
    app.changed = false;
    assert_eq!(app.set_relative_path(0, "../heaven.png".to_string()), Err(TextureError::PathEscape));
    assert_eq!(app.set_relative_path(7, "../heaven.png".to_string()), Err(TextureError::PathEscape));
    assert_eq!(app.set_relative_path(7, "textures/x.png".to_string()), Ok(false));
    assert!(!app.changed);
    assert_eq!(app.local_textures[0], texture("texHeaven", "textures/heaven.png", true));
    assert_eq!(app.bonzomatic_dir, "/proj");
}

#[test]
fn texture_copy_is_equal() {
    let t = texture("texSky", "textures/sky.png", true);
    assert_eq!(t.duplicate(), t);
    assert_eq!(t.glsl_name, "texSky");
    assert_eq!(t.local_file, "textures/sky.png");
    assert!(t.activated);
}
