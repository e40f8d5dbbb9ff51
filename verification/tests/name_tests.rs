use bonzomatic_texture_manager::catalog::BonzomaticTexture;
use bonzomatic_texture_manager::name::{
    candidate_chars, capitalize, capitalize_chars, derive_name_chars, derive_uniform_name,
    unique_file_name,
};

fn cs(s: &str) -> Vec<char> {
    s.chars().collect()
}

fn texture(name: &str, path: &str, active: bool) -> BonzomaticTexture {
    BonzomaticTexture::new(name.to_string(), path.to_string(), active)
}

#[test]
fn capitalize_follows_unicode() {
    assert_eq!(capitalize("sky"), "Sky");
    assert_eq!(capitalize("Sky"), "Sky");
    assert_eq!(capitalize("été"), "Été");
    assert_eq!(capitalize("ßa"), "SSa");
    assert_eq!(capitalize("1up"), "1up");
    assert_eq!(capitalize_chars(&cs("x")), cs("X"));
}

#[test]
fn uniform_name_comes_from_the_stem() {
    assert_eq!(derive_uniform_name("sky.png"), "texSky");
    assert_eq!(derive_uniform_name("cloud.big.jpg"), "texCloud.big");
    assert_eq!(derive_uniform_name("noext"), "texNoext");
    assert_eq!(derive_uniform_name(""), "tex");
    assert_eq!(derive_name_chars(&cs("fog.jpeg")), cs("texFog"));
}

#[test]
fn candidates_count_before_the_extension() {
    assert_eq!(candidate_chars(&cs("fog.png"), 0), cs("fog.png"));
    assert_eq!(candidate_chars(&cs("fog.png"), 1), cs("fog.png"));
    assert_eq!(candidate_chars(&cs("fog.png"), 2), cs("fog_2.png"));
    assert_eq!(candidate_chars(&cs("fog.png"), 10), cs("fog_10.png"));
    assert_eq!(candidate_chars(&cs("fog"), 2), cs("fog_2"));
    assert_eq!(candidate_chars(&cs("a.b.png"), 3), cs("a.b_3.png"));
}

#[test]
fn free_name_is_kept() {
    let catalog = vec![texture("texSky", "textures/sky.png", true)];
    assert_eq!(unique_file_name("fog.png", &catalog), Some("fog.png".to_string()));
    assert_eq!(unique_file_name("fog.png", &Vec::new()), Some("fog.png".to_string()));
}

#[test]
fn collision_ignores_letter_case() {
    let catalog = vec![texture("texFog", "textures/FOG.PNG", true)];
    assert_eq!(unique_file_name("fog.png", &catalog), Some("fog_2.png".to_string()));
    let catalog = vec![texture("texEte", "textures/ÉTÉ.png", false)];
    assert_eq!(unique_file_name("été.png", &catalog), Some("été_2.png".to_string()));
}

#[test]
fn collision_is_matched_by_suffix() {
    let catalog = vec![texture("texBigfog", "textures/bigfog.png", false)];
    assert_eq!(unique_file_name("fog.png", &catalog), Some("fog_2.png".to_string()));
}

#[test]
fn occupied_paths_are_passed_over() {
    let catalog = vec![texture("texFog", "textures/fog.png", false)];
    let taken = vec![cs("textures/fog_2.png"), cs("textures/fog_4.png"), cs("other/fog_3.png")];
    assert_eq!(
        bonzomatic_texture_manager::name::free_file_name("fog.png", &catalog, &taken),
        Some("fog_3.png".to_string())
    );
    assert_eq!(
        bonzomatic_texture_manager::name::free_file_name("sun.png", &catalog, &taken),
        Some("sun.png".to_string())
    );
}

#[test]
fn collision_counts_inactive_entries_too() {
    let catalog = vec![
        texture("texFog", "textures/fog.png", false),
        texture("texFog_2", "textures/fog_2.png", false),
        texture("texFog_3", "textures/fog_3.png", true),
    ];
    assert_eq!(unique_file_name("fog.png", &catalog), Some("fog_4.png".to_string()));
}
