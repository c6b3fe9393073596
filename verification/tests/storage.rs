use audionautica_core::domain::{StorageKind, StorageLocation};
use audionautica_core::error::AppError;
use audionautica_core::storage::{
    location_to_replace, taxonomy_dirs, FilesystemProvider, StorageProvider,
};

#[test]
fn year_taxonomy_has_every_category_folder() {
    let dirs = taxonomy_dirs("/lib", 2026);
    assert_eq!(dirs.len(), 8);
    assert_eq!(dirs[0], "/lib/Loops/2026/Armonias");
    assert!(dirs.contains(&"/lib/Loops/2026/Texturas".to_string()));
    assert!(dirs.contains(&"/lib/Loops/2026/Ritmos".to_string()));
    assert!(dirs.contains(&"/lib/Loops/2026/Otros".to_string()));
}

#[test]
fn provider_places_files_under_its_root() {
    let p = FilesystemProvider::new(StorageLocation {
        id: "id1".into(),
        kind: StorageKind::DropboxFolder,
        label: "Dropbox".into(),
        root_path: "/mnt/dropbox".into(),
        enabled: true,
        created_at_ms: 0,
    });
    assert_eq!(p.kind(), StorageKind::DropboxFolder);
    assert_eq!(p.label(), "Dropbox");
    assert_eq!(p.location_id(), "id1");
    assert_eq!(p.root(), "/mnt/dropbox");
    assert_eq!(
        p.destination("Loops/2026/Texturas/AUD_X.wav"),
        "/mnt/dropbox/Loops/2026/Texturas/AUD_X.wav"
    );
    assert_eq!(p.root_creation_context(), "crear Carpeta Dropbox");
    match p.root_unavailable() {
        AppError::DestinationUnavailable(m) => assert_eq!(m, "Carpeta Dropbox (/mnt/dropbox)"),
        other => panic!("unexpected {other:?}"),
    }
}

fn stored(id: &str, kind: StorageKind) -> StorageLocation {
    StorageLocation {
        id: id.into(),
        kind,
        label: id.into(),
        root_path: format!("/{id}"),
        enabled: true,
        created_at_ms: 5,
    }
}

#[test]
fn saving_a_location_replaces_by_id_or_kind() {
    let locs = vec![
        stored("a", StorageKind::Local),
        stored("b", StorageKind::DropboxFolder),
        stored("c", StorageKind::DropboxFolder),
    ];
    assert_eq!(location_to_replace(&locs, Some("c"), StorageKind::Local), Some(2));
    assert_eq!(location_to_replace(&locs, Some("zz"), StorageKind::Local), None);
    assert_eq!(location_to_replace(&locs, None, StorageKind::DropboxFolder), Some(1));
    assert_eq!(location_to_replace(&locs, None, StorageKind::GoogleDriveFolder), None);
}
