use std::path::Path;

use audionautica_core::fsutil::paths::{
    composed_filename_token, is_audio_path, join_library_relative, sanitize_composed_component,
    sanitize_filename_token, sanitize_path_component, try_composed_filename_token,
    try_sanitize_filename_token,
};
use audionautica_core::storage::library_relative;
use audionautica_core::domain::Category;

#[test]
fn strips_windows_forbidden() {
    let s = sanitize_path_component(r#"loop<>:"/\|?*name"#);
    assert!(!s.contains('<') && !s.contains(':') && !s.contains('*'));
}

#[test]
fn keeps_unicode_and_spaces_as_underscore() {
    let s = sanitize_path_component("textura café 01");
    assert!(s.contains("café") || s.contains("cafe") || s.contains("caf"));
    assert!(!s.contains(' '));
}

#[test]
fn filename_token_uppercases_ascii() {
    assert_eq!(sanitize_filename_token("hydra set", 24), "HYDRA_SET");
}

#[test]
fn library_relative_uses_year_and_category() {
    let p = join_library_relative(2026, "Texturas", "AUD_X.wav");
    let expected = Path::new("Loops")
        .join("2026")
        .join("Texturas")
        .join("AUD_X.wav");
    assert_eq!(Path::new(&p), expected.as_path());
}

#[test]
fn sanitize_component_exact_values() {
    assert_eq!(sanitize_path_component("  ..mi loop.. "), "mi_loop");
    assert_eq!(sanitize_path_component("..."), "untitled");
    assert_eq!(sanitize_path_component("a:b"), "a_b");
}

#[test]
fn filename_token_truncates_and_trims() {
    assert_eq!(sanitize_filename_token("--hydra--set--", 24), "_HYDRA_SET");
    assert_eq!(sanitize_filename_token("abcdef_ghi", 7), "ABCDEF");
    assert_eq!(sanitize_filename_token("ñandú", 24), "ÑANDÚ");
    assert_eq!(try_sanitize_filename_token("ñ", 1), None);
    assert_eq!(try_sanitize_filename_token("añb", 2), None);
    assert_eq!(try_sanitize_filename_token("añb", 3), Some("AÑ".to_string()));
}

#[test]
fn audio_paths_by_extension() {
    assert!(is_audio_path("dir/x.WAV"));
    assert!(is_audio_path("x.flac"));
    assert!(!is_audio_path("x"));
    assert!(!is_audio_path("dir/x.wav/.."));
}

#[test]
fn library_relative_uses_category_folder() {
    assert_eq!(library_relative(2026, Category::FieldFx, "a.wav"), "Loops/2026/Field_FX/a.wav");
    assert_eq!(library_relative(-5, Category::Other, "b.wav"), "Loops/-5/Otros/b.wav");
}

#[test]
fn decomposed_accents_are_composed() {
    assert_eq!(sanitize_filename_token("n\u{0303}u", 24), "ÑU");
    assert_eq!(sanitize_path_component("cafe\u{0301}"), "café");
}

#[test]
fn composed_components_and_tokens() {
    assert_eq!(sanitize_composed_component(" my loop. "), "my_loop");
    assert_eq!(sanitize_composed_component("..."), "untitled");
    assert_eq!(composed_filename_token("kick drum-01", 32), "KICK_DRUM_01");
    assert_eq!(composed_filename_token("abcdef", 3), "ABC");
    assert_eq!(try_composed_filename_token("\u{e9}\u{e9}", 4).as_deref(), Some("\u{c9}\u{c9}"));
    assert_eq!(try_composed_filename_token("\u{e9}\u{e9}", 3), None);
}
