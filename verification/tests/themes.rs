use walrs::theme::{
    collect_themes, hex_to_rgb, list_all_themes, resolve_theme, theme_exists, theme_listing,
    ThemeError, ThemeSources,
};

fn names(list: &[&str]) -> Vec<Vec<u8>> {
    list.iter().map(|n| n.as_bytes().to_vec()).collect()
}

fn no_sources() -> ThemeSources {
    ThemeSources { legacy_dark: None, legacy_light: None, current_dark: None, current_light: None }
}

#[test]
fn theme_exists_when_either_root_has_one() {
    assert!(theme_exists(true, false));
    assert!(theme_exists(false, true));
    assert!(!theme_exists(false, false));
}

#[test]
fn collect_unions_both_roots_into_a_sorted_set() {
    let r = collect_themes(&names(&["c", "a"]), &names(&["b"]));
    assert_eq!(r, names(&["a", "b", "c"]));
}

#[test]
fn a_name_in_both_roots_appears_once() {
    let r = collect_themes(&names(&["a", "b"]), &names(&["b"]));
    assert_eq!(r, names(&["a", "b"]));
}

#[test]
fn missing_directories_contribute_nothing() {
    let r = collect_themes(&Vec::new(), &names(&["only"]));
    assert_eq!(r, names(&["only"]));
}

#[test]
fn catalog_is_sorted_and_deduplicated() {
    let dark = names(&["x", "y"]);
    let light = names(&["y", "z"]);
    let all = list_all_themes(&dark, &light);
    assert_eq!(all, names(&["x", "y", "z"]));
}

#[test]
fn catalog_ignores_input_order_and_multiplicity() {
    let a = list_all_themes(&names(&["b", "a", "b"]), &names(&["a"]));
    let b = list_all_themes(&names(&["a"]), &names(&["b", "b", "a"]));
    assert_eq!(a, names(&["a", "b"]));
    assert_eq!(a, b);
}

#[test]
fn hex_decode_is_strict() {
    assert_eq!(
        hex_to_rgb(&names(&["ff0000", "00ff00"])),
        Some(vec![(0xff, 0, 0), (0, 0xff, 0)])
    );
    assert_eq!(hex_to_rgb(&names(&["ff0000", "xyz"])), None);
    assert_eq!(hex_to_rgb(&names(&[""])), None);
}

#[test]
fn hex_decode_uses_low_24_bits() {
    assert_eq!(hex_to_rgb(&names(&["1aabbcc"])), Some(vec![(0xaa, 0xbb, 0xcc)]));
}

#[test]
fn hex_decode_rejects_values_beyond_32_bits() {
    assert_eq!(hex_to_rgb(&names(&["fffffffff"])), None);
    assert_eq!(hex_to_rgb(&names(&["0000000000ffffff"])), Some(vec![(0xff, 0xff, 0xff)]));
}

#[test]
fn legacy_dark_wins_over_current_dark() {
    let name = b"shared".to_vec();
    let catalog = names(&["shared"]);
    let sources = ThemeSources {
        legacy_dark: Some(b"ff0000".to_vec()),
        legacy_light: None,
        current_dark: Some(b"0000ff".to_vec()),
        current_light: None,
    };
    let r = resolve_theme(&name, &catalog, &sources);
    assert_eq!(r, Ok(vec![(0xff, 0, 0)]));
}

#[test]
fn precedence_falls_through_in_fixed_order() {
    let name = b"t".to_vec();
    let catalog = names(&["t"]);
    let sources = ThemeSources {
        legacy_dark: None,
        legacy_light: Some(b"00ff00".to_vec()),
        current_dark: Some(b"0000ff".to_vec()),
        current_light: None,
    };
    assert_eq!(resolve_theme(&name, &catalog, &sources), Ok(vec![(0, 0xff, 0)]));
}

#[test]
fn unknown_name_is_not_found() {
    let r = resolve_theme(&b"nope".to_vec(), &names(&["other"]), &no_sources());
    assert_eq!(r, Err(ThemeError::NotFound));
}

#[test]
fn cataloged_name_without_a_file_is_unreadable() {
    let r = resolve_theme(&b"ghost".to_vec(), &names(&["ghost"]), &no_sources());
    assert_eq!(r, Err(ThemeError::Unreadable));
}

#[test]
fn one_malformed_line_fails_the_whole_theme() {
    let mut sources = no_sources();
    sources.legacy_dark = Some(b"ff0000\nbad line\n00ff00".to_vec());
    let r = resolve_theme(&b"t".to_vec(), &names(&["t"]), &sources);
    assert_eq!(r, Err(ThemeError::BadLine));
}

#[test]
fn listing_shows_both_groups() {
    let out = theme_listing(&names(&["a"]), &names(&["b", "c"]));
    let expected = b"[\x1b[33mDark\x1b[0m]\n    -a\n[\x1b[33mLight\x1b[0m]\n    -b\n    -c\n";
    assert_eq!(out, expected.to_vec());
}
