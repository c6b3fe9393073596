use audionautica_core::naming::{
    is_ableton_timestamp_suffix, extension_of, is_supported_audio_filename, library_filename_from_original,
    normalize_composed_filename, normalize_library_filename_input, resolve_filename_collision,
    strip_ableton_consolidate_timestamp,
};

#[test]
fn strip_simple_timestamp() {
    assert_eq!(
        strip_ableton_consolidate_timestamp("loop [2026-08-29 184322].wav"),
        "loop.wav"
    );
}

#[test]
fn strip_spaced_musical_name() {
    assert_eq!(
        strip_ableton_consolidate_timestamp("textura agua [2026-08-29 184322].wav"),
        "textura agua.wav"
    );
}

#[test]
fn strip_preserves_embedded_year_in_name() {
    assert_eq!(
        strip_ableton_consolidate_timestamp("jam 2025 textura [2026-08-29 184322].wav"),
        "jam 2025 textura.wav"
    );
}

#[test]
fn does_not_strip_arbitrary_date_in_name() {
    let unchanged = "grabacion 2026-08-29 final.wav";
    assert_eq!(strip_ableton_consolidate_timestamp(unchanged), unchanged);
}

#[test]
fn unchanged_without_ableton_timestamp() {
    let unchanged = "ritmo base.wav";
    assert_eq!(strip_ableton_consolidate_timestamp(unchanged), unchanged);
}

#[test]
fn unicode_and_accents_preserved() {
    assert_eq!(
        strip_ableton_consolidate_timestamp("Percusión Acuática Ñ [2026-08-29 184322].wav"),
        "Percusión Acuática Ñ.wav"
    );
}

#[test]
fn normalize_user_filename_preserves_spaces() {
    assert_eq!(
        normalize_library_filename_input("textura agua", "wav").unwrap(),
        "textura agua.wav"
    );
}

#[test]
fn collision_suffix_human() {
    let mut taken: Vec<String> = Vec::new();
    taken.push("textura.wav".to_string());
    assert_eq!(resolve_filename_collision("textura.wav", &taken), "textura (2).wav");
    taken.push("textura (2).wav".to_string());
    assert_eq!(resolve_filename_collision("textura.wav", &taken), "textura (3).wav");
}

#[test]
fn preserves_original_extension() {
    assert_eq!(
        library_filename_from_original("clip [2026-08-29 184322].aiff"),
        "clip.aiff"
    );
    assert_eq!(extension_of("a.FLAC"), "flac");
}

#[test]
fn collision_unit_cases() {
    let mut taken: Vec<String> = Vec::new();
    assert_eq!(
        library_filename_from_original("loop [2026-08-29 184322].wav"),
        "loop.wav"
    );
    assert_eq!(
        strip_ableton_consolidate_timestamp("grabacion 2026-08-29 final.wav"),
        "grabacion 2026-08-29 final.wav"
    );
    taken.push("textura.wav".to_string());
    assert_eq!(resolve_filename_collision("textura.wav", &taken), "textura (2).wav");
}

#[test]
fn f_musical_library_filename() {
    assert_eq!(
        library_filename_from_original("textura [2026-08-29 184322].wav"),
        "textura.wav"
    );
    assert_eq!(library_filename_from_original("0003.wav"), "0003.wav");
}

#[test]
fn strip_keeps_name_without_extension() {
    assert_eq!(strip_ableton_consolidate_timestamp("loop [2026-08-29 184322]"), "loop");
    assert_eq!(strip_ableton_consolidate_timestamp("loop [2026-08-29 184322]."), "loop");
    assert_eq!(
        strip_ableton_consolidate_timestamp("loop [2026-8-29 184322].wav"),
        "loop [2026-8-29 184322].wav"
    );
}

#[test]
fn collision_is_free_base_when_not_taken() {
    let taken = vec!["otro.wav".to_string()];
    assert_eq!(resolve_filename_collision("textura.wav", &taken), "textura.wav");
    let taken = vec!["ruido".to_string(), "ruido (2)".to_string()];
    assert_eq!(resolve_filename_collision("ruido", &taken), "ruido (3)");
}

#[test]
fn collision_uses_ten_and_more() {
    let mut taken = vec!["a.wav".to_string()];
    for n in 2..=10 {
        taken.push(format!("a ({n}).wav"));
    }
    assert_eq!(resolve_filename_collision("a.wav", &taken), "a (11).wav");
}

#[test]
fn normalize_rejects_empty_and_dots() {
    let e = normalize_library_filename_input("   ", "wav").unwrap_err();
    assert_eq!(e.code(), "invalid_path");
    assert_eq!(e.message(), "Ruta inválida: El nombre del archivo no puede estar vacío");
    let e = normalize_library_filename_input(" .. ", "wav").unwrap_err();
    assert_eq!(e.message(), "Ruta inválida: Nombre de archivo inválido");
}

#[test]
fn normalize_replaces_forbidden_and_keeps_known_extension() {
    assert_eq!(
        normalize_library_filename_input("ritmo/base:1.FLAC", "wav").unwrap(),
        "ritmo_base_1.FLAC"
    );
    assert_eq!(
        normalize_library_filename_input("loop", ".aiff").unwrap(),
        "loop.aiff"
    );
    assert_eq!(normalize_library_filename_input("loop", "").unwrap(), "loop.wav");
}

#[test]
fn normalize_rejects_unsupported_fallback() {
    let e = normalize_library_filename_input("loop", "mp3").unwrap_err();
    assert_eq!(
        e.message(),
        "Ruta inválida: Extensión no soportada en «loop.mp3». Usa wav, aif, aiff o flac."
    );
}

#[test]
fn supported_audio_filenames() {
    assert!(is_supported_audio_filename("a.WAV"));
    assert!(is_supported_audio_filename("a.aif"));
    assert!(is_supported_audio_filename("sin_extension"));
    assert!(!is_supported_audio_filename("a.mp3"));
    assert_eq!(extension_of(".hidden"), "wav");
}

#[test]
fn timestamp_suffix_shape() {
    assert!(is_ableton_timestamp_suffix(" [2026-08-29 184322]"));
    assert!(!is_ableton_timestamp_suffix("[2026-08-29 184322]"));
    assert!(!is_ableton_timestamp_suffix(" [2026-08-29 18432x]"));
    assert!(!is_ableton_timestamp_suffix(" (2026-08-29 184322)"));
}

#[test]
fn typed_names_are_composed() {
    assert_eq!(normalize_library_filename_input("cafe\u{0301}", "wav").unwrap(), "café.wav");
}

#[test]
fn composed_names_are_cleaned_and_completed() {
    assert_eq!(normalize_composed_filename("a/b:c", "wav").unwrap(), "a_b_c.wav");
    assert_eq!(normalize_composed_filename("..pad.", ".aif").unwrap(), "pad.aif");
    assert_eq!(normalize_composed_filename("Café.FLAC", "wav").unwrap(), "Café.FLAC");
    assert!(normalize_composed_filename("..", "wav").is_err());
    assert!(normalize_composed_filename("loop", "mp3").is_err());
    // a decomposed accent is composed before this step
    assert_eq!(normalize_library_filename_input("Cafe\u{301}", "wav").unwrap(), "Caf\u{e9}.wav");
}
