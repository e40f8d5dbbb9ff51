use bonzomatic_texture_manager::catalog::BonzomaticTextureManagerApp;
use bonzomatic_texture_manager::error::TextureError;
use bonzomatic_texture_manager::path::{
    base_name_chars, contained, file_extension_chars, file_stem_chars, normalize, place_under,
    resolve, rooted,
};

fn cs(s: &str) -> Vec<char> {
    s.chars().collect()
}

#[test]
fn paths_inside_the_root_are_contained() {
    assert!(contained("textures/sky.png"));
    assert!(contained("textures/a/../b.png"));
    assert!(contained("config.json"));
    assert!(contained("./textures//sky.png"));
    assert!(contained(""));
    assert!(contained("textures/.."));
}

#[test]
fn paths_that_leave_the_root_are_not_contained() {
    assert!(!contained("textures/../../evil.png"));
    assert!(!contained(".."));
    assert!(!contained("../evil.png"));
    assert!(!contained("/etc/passwd"));
    assert!(!contained("\\server\\share"));
    assert!(!contained("C:\\Windows\\system.ini"));
    assert!(!contained("c:evil.png"));
    assert!(!contained("textures\\..\\..\\evil.png"));
    assert!(!contained("a/../../b"));
}

#[test]
fn normal_form_drops_detours() {
    assert_eq!(normalize("textures/./a//b/../c.png"), Some("textures/a/c.png".to_string()));
    assert_eq!(normalize("textures/sky.png"), Some("textures/sky.png".to_string()));
    assert_eq!(normalize("a\\b"), Some("a/b".to_string()));
    assert_eq!(normalize("textures/.."), Some("".to_string()));
    assert_eq!(normalize("textures/../../evil.png"), None);
    assert_eq!(normalize("/abs"), None);
}

#[test]
fn resolve_gives_the_components() {
    assert_eq!(resolve(&cs("textures/a/../b.png")), Some(vec![cs("textures"), cs("b.png")]));
    assert_eq!(resolve(&cs("..")), None);
    assert_eq!(resolve(&cs("")), Some(vec![]));
    assert!(rooted(&cs("/x")));
    assert!(rooted(&cs("D:")));
    assert!(!rooted(&cs("x/y")));
    assert!(!rooted(&cs("1:x")));
}

#[test]
fn parts_of_a_file_name() {
    assert_eq!(base_name_chars(&cs("/home/u/fog.png")), cs("fog.png"));
    assert_eq!(base_name_chars(&cs("C:\\drop\\fog.png")), cs("fog.png"));
    assert_eq!(base_name_chars(&cs("fog.png")), cs("fog.png"));
    assert_eq!(base_name_chars(&cs("dir/")), cs(""));
    assert_eq!(file_stem_chars(&cs("fog.png")), cs("fog"));
    assert_eq!(file_stem_chars(&cs("archive.tar.gz")), cs("archive.tar"));
    assert_eq!(file_stem_chars(&cs(".hidden")), cs(".hidden"));
    assert_eq!(file_stem_chars(&cs("noext")), cs("noext"));
    assert_eq!(file_stem_chars(&cs("dot.")), cs("dot"));
    assert_eq!(file_extension_chars(&cs("fog.png")), Some(cs("png")));
    assert_eq!(file_extension_chars(&cs("archive.tar.gz")), Some(cs("gz")));
    assert_eq!(file_extension_chars(&cs(".hidden")), None);
    assert_eq!(file_extension_chars(&cs("noext")), None);
    assert_eq!(file_extension_chars(&cs("dot.")), Some(cs("")));
}

#[test]
fn places_below_a_root() {
    assert_eq!(place_under(&cs("/proj"), &cs("config.json")), cs("/proj/config.json"));
    assert_eq!(place_under(&cs("/proj/"), &cs("config.json")), cs("/proj/config.json"));
    assert_eq!(place_under(&cs("C:\\proj\\"), &cs("textures")), cs("C:\\proj\\textures"));
    assert_eq!(place_under(&cs(""), &cs("config.json")), cs("config.json"));
    assert_eq!(place_under(&cs("/proj"), &cs("")), cs("/proj"));
}

#[test]
fn project_paths_are_joined_to_the_root() {
    let app = BonzomaticTextureManagerApp::new("/home/u/proj".to_string());
    assert_eq!(
        app.from_bonzomatic_dir(&"textures/sky.png".to_string()),
        Ok("/home/u/proj/textures/sky.png".to_string())
    );
    assert_eq!(
        app.from_bonzomatic_dir(&"textures/x/../sky.png".to_string()),
        Ok("/home/u/proj/textures/sky.png".to_string())
    );
    assert_eq!(
        app.from_bonzomatic_dir(&"textures/../../evil.png".to_string()),
        Err(TextureError::PathEscape)
    );
    assert_eq!(app.from_bonzomatic_dir(&"/etc/passwd".to_string()), Err(TextureError::PathEscape));
    assert_eq!(app.get_config_file_path(), "/home/u/proj/config.json");
    assert_eq!(app.get_backup_file_path(), "/home/u/proj/_bk_config.json");
    assert_eq!(app.get_texture_dir_path(), "/home/u/proj/textures");
}
