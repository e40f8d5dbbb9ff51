use bonzomatic_texture_manager::text::{
    append_chars, chars_eq, decimal_chars, ends_with, find_last, from_chars, is_one_of, join,
    last_index_of, matches_at, slice_chars, split, starts_with, to_ascii_lower,
    to_ascii_lowercase, to_chars,
};

fn cs(s: &str) -> Vec<char> {
    s.chars().collect()
}

#[test]
fn chars_round_trip_through_strings() {
    assert_eq!(to_chars("héllo"), vec!['h', 'é', 'l', 'l', 'o']);
    assert_eq!(from_chars(&cs("héllo")), "héllo");
    assert_eq!(from_chars(&Vec::new()), "");
}

#[test]
fn decimal_numerals_are_exact() {
    assert_eq!(decimal_chars(0), cs("0"));
    assert_eq!(decimal_chars(7), cs("7"));
    assert_eq!(decimal_chars(10), cs("10"));
    assert_eq!(decimal_chars(12345), cs("12345"));
    assert_eq!(decimal_chars(u64::MAX), cs("18446744073709551615"));
}

#[test]
fn ascii_lowercase_leaves_other_letters() {
    assert_eq!(to_ascii_lower('A'), 'a');
    assert_eq!(to_ascii_lower('Z'), 'z');
    assert_eq!(to_ascii_lower('a'), 'a');
    assert_eq!(to_ascii_lower('['), '[');
    assert_eq!(to_ascii_lower('É'), 'É');
    assert_eq!(to_ascii_lowercase(&cs("PnG_É1")), cs("png_É1"));
}

#[test]
fn comparison_of_character_vectors() {
    assert!(chars_eq(&cs("abc"), &cs("abc")));
    assert!(!chars_eq(&cs("abc"), &cs("abd")));
    assert!(!chars_eq(&cs("abc"), &cs("ab")));
    assert!(chars_eq(&cs(""), &cs("")));
}

#[test]
fn prefixes_suffixes_and_occurrences() {
    assert!(starts_with(&cs("textures/a.png"), &cs("textures/")));
    assert!(!starts_with(&cs("texture"), &cs("textures/")));
    assert!(starts_with(&cs("abc"), &cs("")));
    assert!(ends_with(&cs("textures/fog.png"), &cs("fog.png")));
    assert!(!ends_with(&cs("fog.png"), &cs("textures/fog.png")));
    assert!(ends_with(&cs("abc"), &cs("")));
    assert!(matches_at(&cs("a//b"), 1, &cs("//")));
    assert!(!matches_at(&cs("a//b"), 2, &cs("//")));
    assert!(!matches_at(&cs("a//b"), 3, &cs("//")));
    assert!(!matches_at(&cs("ab"), 5, &cs("")));
}

#[test]
fn last_occurrence_and_last_character() {
    assert_eq!(find_last(&cs("a // b // c"), &cs("//")), Some(7));
    assert_eq!(find_last(&cs("a ///"), &cs("//")), Some(3));
    assert_eq!(find_last(&cs("a / b"), &cs("//")), None);
    assert_eq!(find_last(&cs("/"), &cs("//")), None);
    assert_eq!(find_last(&cs("abc"), &cs("")), Some(3));
    assert_eq!(last_index_of(&cs("a.b.c"), &cs(".")), Some(3));
    assert_eq!(last_index_of(&cs("abc"), &cs(".")), None);
    assert_eq!(last_index_of(&cs("a/b\\c"), &cs("/\\")), Some(3));
    assert!(is_one_of('/', &cs("/\\")));
    assert!(!is_one_of('a', &cs("/\\")));
}

#[test]
fn split_and_join_are_inverse() {
    let parts = split(&cs("a\nb\n"), &cs("\n"));
    assert_eq!(parts, vec![cs("a"), cs("b"), cs("")]);
    assert_eq!(join(&parts, '\n'), cs("a\nb\n"));
    assert_eq!(split(&cs(""), &cs("\n")), vec![cs("")]);
    assert_eq!(split(&cs("a/b\\c"), &cs("/\\")), vec![cs("a"), cs("b"), cs("c")]);
    assert_eq!(join(&Vec::new(), ','), cs(""));
    assert_eq!(join(&vec![cs("x")], ','), cs("x"));
    assert_eq!(join(&vec![cs("x"), cs("y"), cs("z")], ','), cs("x,y,z"));
}

#[test]
fn slices_and_appends() {
    assert_eq!(slice_chars(&cs("texture"), 3, 7), cs("ture"));
    assert_eq!(slice_chars(&cs("texture"), 2, 2), cs(""));
    let mut v = cs("tex");
    append_chars(&mut v, &cs("Sky"));
    assert_eq!(v, cs("texSky"));
}
