use audionautica_core::domain::{
    AssetStorageLocation, Category, CopyStatus, StorageKind, StorageLocation,
};
use audionautica_core::error::AppError;
use audionautica_core::library::{
    canonical_move, check_update_request, copy_path, delete_precheck, destination_free,
    final_filename, is_same_path, moved_records, new_canonical_path, normalize_path,
    plan_relocations, planned_from, relocate_precheck, relocation_verdict, unchanged_update,
    update_target,
    LibraryDeletion, LibraryRelocation,
};

fn loc(id: &str, kind: StorageKind) -> StorageLocation {
    StorageLocation {
        id: id.into(),
        kind,
        label: format!("L-{id}"),
        root_path: format!("/r/{id}"),
        enabled: true,
        created_at_ms: 0,
    }
}

fn rec(id: &str, loc_id: &str, status: CopyStatus) -> AssetStorageLocation {
    AssetStorageLocation {
        id: id.into(),
        asset_id: "a".into(),
        storage_location_id: loc_id.into(),
        relative_path: "Loops/2026/Texturas/x.wav".into(),
        copy_status: status,
        error_message: None,
        copied_at_ms: None,
    }
}

#[test]
fn same_path_rules() {
    assert!(is_same_path("/a/b.wav", "/a//b.wav", None, None));
    assert!(is_same_path("C:\\Lib\\X.wav", "c:/lib/x.wav", None, None));
    assert!(!is_same_path("/a/x", "/a/y", Some("/real/x"), Some("/real/y")));
    assert!(is_same_path("/a/x", "/b/y", Some("/real/z"), Some("/real/z")));
    assert_eq!(normalize_path("A\\B/C.WAV"), "a/b/c.wav");
}

#[test]
fn deleting_never_touches_the_source() {
    assert!(matches!(delete_precheck("/src.wav", true, true, false), Err(AppError::Other(m)) if m == "Refusing to delete Ableton source file"));
    assert_eq!(delete_precheck("/x.wav", false, false, false).unwrap(), false);
    assert!(matches!(delete_precheck("/dir", false, true, true), Err(AppError::InvalidPath(m)) if m == "Se esperaba un archivo, no una carpeta: /dir"));
    assert_eq!(delete_precheck("/x.wav", false, true, false).unwrap(), true);
}

#[test]
fn deletion_report_and_verdict() {
    let local = loc("l", StorageKind::Local);
    let drive = loc("d", StorageKind::GoogleDriveFolder);
    let rows = vec![
        (rec("r1", "l", CopyStatus::Copied), local.clone()),
        (rec("r2", "d", CopyStatus::Failed), drive.clone()),
    ];
    assert_eq!(copy_path(&rows[0].0, &rows[0].1).unwrap(), "/r/l/Loops/2026/Texturas/x.wav");
    assert!(copy_path(&rows[1].0, &rows[1].1).is_none());

    let mut d = LibraryDeletion::new();
    d.record_deleted(&local, "/r/l/x.wav");
    d.record_no_copy(&drive);
    assert!(d.local_deleted);
    let report = d.finish("a".into(), "x.wav".into(), &rows).unwrap();
    assert!(report.removed_from_db && report.source_preserved);
    assert_eq!(report.locations.len(), 2);
    assert_eq!(report.locations[1].error.as_deref(), Some("No había copia en este destino"));

    let mut d = LibraryDeletion::new();
    d.record_failed(&local, "/r/l/x.wav", "ocupado");
    d.record_canonical_failed("ocupado");
    assert_eq!(d.errors, vec!["L-l: ocupado".to_string(), "Biblioteca local: ocupado".to_string()]);
    match d.finish("a".into(), "x.wav".into(), &rows) {
        Err(AppError::Other(m)) => assert_eq!(
            m,
            "No se pudo eliminar la copia local. El asset permanece en la biblioteca."
        ),
        other => panic!("unexpected {other:?}"),
    }

    let mut d = LibraryDeletion::new();
    d.record_canonical_deleted("/lib/x.wav");
    assert_eq!(d.locations[0].storage_location_id, "canonical");
    assert_eq!(d.locations[0].label, "Biblioteca local (canonical)");
    assert!(d.finish("a".into(), "x.wav".into(), &rows).is_ok());
}

#[test]
fn update_requests_and_targets() {
    assert!(matches!(check_update_request(None, None), Err(AppError::Other(m)) if m == "Indica un nombre nuevo, una categoría nueva, o ambos."));
    assert!(check_update_request(Some(Category::Bass), None).is_ok());
    let (c, n) = update_target(Category::Textures, "agua.wav", None, Some("nuevo nombre")).unwrap();
    assert_eq!(c, Category::Textures);
    assert_eq!(n, "nuevo nombre.wav");
    let (c, n) = update_target(Category::Textures, "agua.flac", Some(Category::Voices), None).unwrap();
    assert_eq!((c, n.as_str()), (Category::Voices, "agua.flac"));
    assert!(update_target(Category::Textures, "agua.wav", None, Some("   ")).is_err());
}

#[test]
fn final_name_ignores_own_name_in_same_category() {
    let taken = vec!["agua.wav".to_string(), "mar.wav".to_string()];
    assert_eq!(final_filename("agua.wav", taken.clone(), true, "agua.wav"), "agua.wav");
    assert_eq!(final_filename("mar.wav", taken.clone(), true, "agua.wav"), "mar (2).wav");
    assert_eq!(final_filename("agua.wav", taken, false, "agua.wav"), "agua (2).wav");
}

#[test]
fn relocation_planning() {
    let local = loc("l", StorageKind::Local);
    let drive = loc("d", StorageKind::GoogleDriveFolder);
    let rows = vec![
        (rec("r1", "l", CopyStatus::Copied), local.clone()),
        (rec("r2", "d", CopyStatus::Pending), drive.clone()),
    ];
    let (moves, results) = plan_relocations(&rows, "Loops/2026/Voces/y.wav");
    assert_eq!(moves.len(), 1);
    assert_eq!(moves[0].storage_id, "r1");
    assert_eq!(moves[0].old_path, "/r/l/Loops/2026/Texturas/x.wav");
    assert_eq!(moves[0].new_path, "/r/l/Loops/2026/Voces/y.wav");
    assert_eq!(results.len(), 1);
    assert_eq!(results[0].storage_location_id, "d");
    assert!(!results[0].moved);

    assert!(planned_from(&moves, &[None], "/r/l/Loops/2026/Texturas/x.wav", None));
    assert!(!planned_from(&moves, &[None], "/other.wav", None));
    assert!(canonical_move(&rows, "/lib/x.wav", true, true, "rel").is_none());
    assert!(canonical_move(&rows, "/lib/x.wav", false, false, "rel").is_none());
    let m = canonical_move(&rows, "/lib/x.wav", true, false, "Loops/2026/Voces/y.wav").unwrap();
    assert_eq!(m.storage_id, "canonical");
    assert_eq!(m.new_path, "/r/l/Loops/2026/Voces/y.wav");

    let mut r = LibraryRelocation::new(results);
    r.record_moved(&moves[0]);
    assert!(r.local_moved);
    assert!(relocation_verdict(true, r.local_moved).is_ok());
    assert!(matches!(relocation_verdict(true, false), Err(AppError::Other(m)) if m == "No se pudo mover la copia local. El asset permanece sin cambios."));
    assert_eq!(
        new_canonical_path(&r.locations, r.local_moved, &rows, "rel", "/old.wav"),
        "/r/l/Loops/2026/Voces/y.wav"
    );
    assert_eq!(new_canonical_path(&r.locations, false, &rows, "rel", "/old.wav"), "/old.wav");
    assert_eq!(moved_records(&rows, &r.locations), vec![0]);
}

#[test]
fn relocation_prechecks() {
    assert!(matches!(relocate_precheck("/s", true, false, true, false), Err(AppError::Other(m)) if m == "Refusing to relocate Ableton source file"));
    assert_eq!(relocate_precheck("/a", false, true, true, true).unwrap(), false);
    assert_eq!(relocate_precheck("/a", false, false, false, true).unwrap(), false);
    assert!(matches!(relocate_precheck("/a", false, false, false, false), Err(AppError::InvalidPath(m)) if m == "No se encontró el archivo a mover: /a"));
    assert_eq!(relocate_precheck("/a", false, false, true, false).unwrap(), true);
    assert!(destination_free("/b", false).is_ok());
    assert!(matches!(destination_free("/b", true), Err(AppError::Other(m)) if m == "Ya existe un archivo en el destino: /b"));
}

#[test]
fn failed_move_is_reported() {
    let local = loc("l", StorageKind::Local);
    let rows = vec![(rec("r1", "l", CopyStatus::Copied), local)];
    let (moves, results) = plan_relocations(&rows, "n.wav");
    let mut r = LibraryRelocation::new(results);
    r.record_failed(&moves[0], "bloqueado");
    assert!(!r.local_moved);
    assert_eq!(r.errors, vec!["L-l: bloqueado".to_string()]);
    assert_eq!(moved_records(&rows, &r.locations), Vec::<usize>::new());
}

#[test]
fn update_to_the_same_category_and_name_moves_nothing() {
    let r = unchanged_update("a1", 2026, Category::Textures, "pad.wav", Category::Textures, "pad.wav")
        .unwrap();
    assert_eq!(r.asset_id, "a1");
    assert_eq!((r.old_filename.as_str(), r.new_filename.as_str()), ("pad.wav", "pad.wav"));
    assert_eq!(r.old_category, Category::Textures);
    assert_eq!(r.new_category, Category::Textures);
    assert_eq!(r.old_relative_path, r.new_relative_path);
    assert!(r.old_relative_path.ends_with("pad.wav"));
    assert!(r.locations.is_empty() && r.errors.is_empty());
    assert!(unchanged_update("a1", 2026, Category::Textures, "pad.wav", Category::Voices, "pad.wav")
        .is_none());
    assert!(unchanged_update("a1", 2026, Category::Textures, "pad.wav", Category::Textures, "pad (2).wav")
        .is_none());
}
