use audionautica_core::recent::{
    extract_als_paths_from_bytes, extract_utf16le_als_paths, extract_utf8_als_paths,
    normalize_path_key,
    select_recent_sets, updated_recent_paths,
};

#[test]
fn extracts_utf8_als_path_from_binary_blob() {
    let blob = b"noise\x00C:\\Music\\Jam Session.als\x00more";
    let paths = extract_als_paths_from_bytes(blob);
    assert_eq!(paths.len(), 1);
    assert!(paths[0].ends_with("Jam Session.als"));
}

#[test]
fn extracts_utf16le_als_path_from_binary_blob() {
    let text = "D:\\Sets\\Neon Groove.als";
    let mut blob = Vec::new();
    for unit in text.encode_utf16() {
        blob.extend_from_slice(&unit.to_le_bytes());
    }
    blob.extend_from_slice(&[0, 0]);
    let utf16_paths = extract_utf16le_als_paths(&blob);
    assert_eq!(utf16_paths.len(), 1, "utf16 paths: {:?}", utf16_paths);
    let paths = extract_als_paths_from_bytes(&blob);
    assert!(paths.iter().any(|p| p.contains("Neon Groove.als")));
}

#[test]
fn text_without_separator_is_not_a_path() {
    assert!(extract_als_paths_from_bytes(b"\x00Jam.als\x00").is_empty());
    assert!(extract_als_paths_from_bytes(b"\x00/a/B.ALS").len() == 1);
    assert!(extract_als_paths_from_bytes(b"/x.als\x01\x00").is_empty());
}

#[test]
fn recent_list_dedups_and_limits() {
    let cands = vec![
        ("C:/Music/Jam.als".to_string(), true),
        ("c:\\music\\JAM.als".to_string(), true),
        ("C:/Music/missing.als".to_string(), false),
        ("C:/Music/notes.txt".to_string(), true),
        ("/sets/ Otro .als".to_string(), true),
        ("/sets/third.als".to_string(), true),
    ];
    let r = select_recent_sets(2, &cands);
    assert_eq!(r.len(), 2);
    assert_eq!(r[0].path, "C:/Music/Jam.als");
    assert_eq!(r[0].name, "Jam");
    assert_eq!(r[1].name, "Otro");
    let r = select_recent_sets(0, &cands);
    assert_eq!(r.len(), 1);
    assert_eq!(normalize_path_key("C:/Music/JAM.als"), "c:\\music\\jam.als");
}

#[test]
fn opened_set_moves_to_front_once() {
    let paths: Vec<String> = vec!["/a.als".into(), "/b.als".into(), "/c//a.als".into()];
    assert_eq!(updated_recent_paths(paths, "/b.als"), vec!["/b.als", "/a.als", "/c//a.als"]);
    let many: Vec<String> = (0..15).map(|i| format!("/s{i}.als")).collect();
    let r = updated_recent_paths(many, "/s3.als");
    assert_eq!(r.len(), 12);
    assert_eq!(r[0], "/s3.als");
    assert_eq!(r.iter().filter(|p| p.as_str() == "/s3.als").count(), 1);
    assert_eq!(updated_recent_paths(vec!["/x//y.als".into()], "/x/y.als"), vec!["/x/y.als"]);
}

#[test]
fn utf8_pieces_between_zero_bytes() {
    let blob = b"/a/One.als\x00junk\x00D:\\Two.ALS";
    assert_eq!(extract_utf8_als_paths(blob), vec!["/a/One.als".to_string(), "D:\\Two.ALS".to_string()]);
}
