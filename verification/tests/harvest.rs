use audionautica_core::domain::{
    Category, ChangeKind, DuplicateSkip, FileFingerprint, SessionSnapshot,
    SessionStatus, StorageKind, StorageLocation,
};
use audionautica_core::error::AppError;
use audionautica_core::fsutil::stability::StabilityError;
use audionautica_core::harvest::{
    allocate_filename, change_kind, discovery_targets, distinct_years, end_event_name,
    ensure_no_active_session, farm_locations, library_base_name, make_candidate,
    mirror_indices, mirror_sync_needed, record_file_name, selected_indices, sort_by_file_name,
    source_file_name, status_after_end, without_ignored, CandidateOutcome, CandidateSelection,
    HarvestReport, HistoricalScan, IngestRun, LibraryFilter, MirrorCopy,
};

fn loc(id: &str, kind: StorageKind, enabled: bool) -> StorageLocation {
    StorageLocation {
        id: id.into(),
        kind,
        label: format!("L-{id}"),
        root_path: format!("/roots/{id}"),
        enabled,
        created_at_ms: 0,
    }
}

fn fp(path: &str, size: u64, ms: i64) -> FileFingerprint {
    FileFingerprint { relative_path: path.into(), size_bytes: size, modified_unix_ms: ms }
}

fn sel(path: &str, selected: bool) -> CandidateSelection {
    CandidateSelection {
        original_path: path.into(),
        selected,
        category: Category::Textures,
        library_filename_override: None,
    }
}

#[test]
fn only_selected_files_are_ingested() {
    let s = vec![sel("a", true), sel("b", false), sel("c", true)];
    assert_eq!(selected_indices(&s), vec![0, 2]);
    assert!(LibraryFilter::default().year.is_none());
}

#[test]
fn farming_needs_only_a_local_library() {
    let none = vec![loc("d", StorageKind::GoogleDriveFolder, true)];
    assert!(matches!(farm_locations(&none), Err(AppError::LocalLibraryMissing)));
    let local_only = vec![loc("l", StorageKind::Local, true)];
    let farm = farm_locations(&local_only).unwrap();
    assert_eq!((farm.enabled, farm.local), (vec![0], 0));
    assert!(mirror_indices(&local_only, 0).is_empty());
    let disabled_drive =
        vec![loc("l", StorageKind::Local, true), loc("d", StorageKind::GoogleDriveFolder, false)];
    assert_eq!(farm_locations(&disabled_drive).unwrap().enabled, vec![0]);
    let all = vec![
        loc("x", StorageKind::DropboxFolder, false),
        loc("l", StorageKind::Local, true),
        loc("d", StorageKind::GoogleDriveFolder, true),
    ];
    let farm = farm_locations(&all).unwrap();
    assert_eq!(farm.enabled, vec![1, 2]);
    assert_eq!(farm.local, 1);
    assert_eq!(mirror_indices(&all, farm.local), vec![2]);
}

#[test]
fn report_counts_every_outcome() {
    let all = vec![
        loc("l", StorageKind::Local, true),
        loc("d", StorageKind::GoogleDriveFolder, true),
        loc("x", StorageKind::DropboxFolder, false),
    ];
    let mut r = HarvestReport::start("s1", &all, 4);
    assert_eq!(r.storage.len(), 2);
    assert_eq!(r.storage[0].storage_location_id, "l");
    assert_eq!(r.storage[1].label, "L-d");
    assert_eq!(r.storage[1].total, 4);
    assert!(r.has_room(1));

    r.record(CandidateOutcome::Unstable { filename: "a.wav".into(), error: StabilityError::Empty });
    r.record(CandidateOutcome::Unstable {
        filename: "b.wav".into(),
        error: StabilityError::Unreadable,
    });
    r.record(CandidateOutcome::Duplicate(DuplicateSkip {
        original_filename: "c.wav".into(),
        existing_asset_id: "e1".into(),
        content_hash: "h".into(),
    }));
    r.record(CandidateOutcome::Harvested {
        asset_id: "id-d".into(),
        canonical_filename: "d.wav".into(),
        category: Category::Rhythms,
        original_filename: "d.wav".into(),
        local_id: "l".into(),
        source_changed: true,
        mirrors: vec![MirrorCopy {
            location_id: "d".into(),
            kind: StorageKind::GoogleDriveFolder,
            error: Some("sin espacio".into()),
        }],
    });
    r.record(CandidateOutcome::LocalCopyFailed { local_id: "l".into(), message: "boom".into() });
    r.finish();

    assert_eq!((r.new_assets, r.duplicates_skipped, r.failed), (1, 1, 3));
    assert_eq!(r.assets.len(), 1);
    assert!(!r.assets[0].duplicate);
    assert_eq!(r.assets[0].canonical_filename, "d.wav");
    assert_eq!(r.duplicates.len(), 1);
    assert_eq!(
        r.errors,
        vec![
            "El archivo todavía se está escribiendo: a.wav".to_string(),
            "b.wav: el archivo no se puede leer".to_string(),
            "El origen cambió durante la copia (no se modificó desde Audionáutica): d.wav"
                .to_string(),
            "Copia fallida hacia Carpeta Google Drive: sin espacio".to_string(),
            "Copia fallida (local): boom".to_string(),
        ]
    );
    assert_eq!((r.storage[0].copied, r.storage[0].failed, r.storage[0].total), (1, 1, 1));
    assert_eq!((r.storage[1].copied, r.storage[1].failed, r.storage[1].total), (0, 1, 1));
}

#[test]
fn failed_hash_is_reported_with_file_name() {
    let mut r = HarvestReport::start("s", &[], 1);
    r.record(CandidateOutcome::Failed { filename: "x.wav".into(), message: "no".into() });
    assert_eq!(r.failed, 1);
    assert_eq!(r.errors, vec!["x.wav: no".to_string()]);
}

#[test]
fn allocated_names_never_repeat() {
    let mut allocated = Vec::new();
    let a = allocate_filename("loop.wav", vec!["loop.wav".into()], &mut allocated);
    assert_eq!(a, "loop (2).wav");
    let b = allocate_filename("loop.wav", vec!["loop.wav".into()], &mut allocated);
    assert_eq!(b, "loop (3).wav");
    let c = allocate_filename("other.wav", vec![], &mut allocated);
    assert_eq!(c, "other.wav");
    assert_eq!(allocated, vec!["loop (2).wav", "loop (3).wav", "other.wav"]);
}

#[test]
fn names_of_sources_and_records() {
    assert_eq!(source_file_name("/a/b/LOOP.wav"), "LOOP.wav");
    assert_eq!(source_file_name("/"), "loop");
    assert_eq!(record_file_name("sub/x.wav"), "x.wav");
    assert_eq!(record_file_name(".."), "..");
    let mut s = sel("/a/Pad [2024-01-02 101010].wav", true);
    assert_eq!(library_base_name(&s, "Pad [2024-01-02 101010].wav"), "Pad.wav");
    s.library_filename_override = Some("Mi pad.wav".into());
    assert_eq!(library_base_name(&s, "Pad [2024-01-02 101010].wav"), "Mi pad.wav");
}

#[test]
fn snapshot_classifies_changes() {
    let snap = SessionSnapshot { files: vec![fp("a.wav", 10, 1), fp("b.wav", 20, 2)] };
    assert_eq!(snap.get("b.wav").unwrap().size_bytes, 20);
    assert!(snap.get("c.wav").is_none());
    assert_eq!(change_kind(&snap, &fp("a.wav", 10, 1)), None);
    assert_eq!(change_kind(&snap, &fp("a.wav", 11, 1)), Some(ChangeKind::Modified));
    assert_eq!(change_kind(&snap, &fp("b.wav", 20, 3)), Some(ChangeKind::Modified));
    assert_eq!(change_kind(&snap, &fp("c.wav", 1, 1)), Some(ChangeKind::New));
    let current = vec![fp("a.wav", 10, 1), fp("c.wav", 1, 1), fp("notes.txt", 1, 1), fp("b.wav", 21, 2)];
    assert_eq!(
        discovery_targets(&snap, &current),
        vec![(1, ChangeKind::New), (3, ChangeKind::Modified)]
    );
    assert!(SessionSnapshot::default().files.is_empty());
}

#[test]
fn candidates_are_built_and_sorted() {
    let c1 = make_candidate("/p/Consolidate", &fp("sub/Zeta [2024-01-02 101010].wav", 5, 9), ChangeKind::New, "h1".into()).unwrap();
    assert_eq!(c1.original_path, "/p/Consolidate/sub/Zeta [2024-01-02 101010].wav");
    assert_eq!(c1.original_filename, "Zeta [2024-01-02 101010].wav");
    assert_eq!(c1.library_filename, "Zeta.wav");
    assert!(make_candidate("/p", &fp("x.wav", 1, 1), ChangeKind::New, String::new()).is_none());
    let c2 = make_candidate("/p", &fp("Alpha.wav", 1, 1), ChangeKind::Modified, "h2".into()).unwrap();
    let c3 = make_candidate("/p", &fp("beta.wav", 1, 1), ChangeKind::New, "h3".into()).unwrap();
    let sorted = sort_by_file_name(vec![c1, c3, c2]);
    let names: Vec<&str> = sorted.iter().map(|c| c.original_filename.as_str()).collect();
    assert_eq!(names, vec!["Alpha.wav", "Zeta [2024-01-02 101010].wav", "beta.wav"]);
    let kept = without_ignored(sorted, &["h3".to_string()]);
    assert_eq!(kept.len(), 2);
}

#[test]
fn historical_scan_splits_pending_and_archived() {
    let mut scan = HistoricalScan::new();
    let ignored = vec!["i".to_string()];
    let known = vec!["k".to_string()];
    scan.add("/c", &fp("b.wav", 1, 1), "n1".into(), &ignored, &known);
    scan.add("/c", &fp("a.wav", 1, 1), "n2".into(), &ignored, &known);
    scan.add("/c", &fp("old.wav", 1, 1), "k".into(), &ignored, &known);
    scan.add("/c", &fp("skip.wav", 1, 1), "i".into(), &ignored, &known);
    let status = scan.into_status("p".into(), "HYDRA".into(), "/c".into());
    assert_eq!(status.archived_count, 1);
    assert!(!status.synced);
    let names: Vec<&str> = status.pending.iter().map(|c| c.original_filename.as_str()).collect();
    assert_eq!(names, vec!["a.wav", "b.wav"]);
    assert_eq!(status.pending[0].original_path, "/c/a.wav");
    let empty = HistoricalScan::new().into_status("p".into(), "n".into(), "/c".into());
    assert!(empty.synced);
}

#[test]
fn sessions_start_once_and_end_by_candidates() {
    assert!(ensure_no_active_session(false).is_ok());
    assert!(matches!(ensure_no_active_session(true), Err(AppError::SessionAlreadyActive)));
    assert_eq!(status_after_end(0), SessionStatus::Archived);
    assert_eq!(status_after_end(3), SessionStatus::Review);
    assert_eq!(end_event_name(0), "session_completed");
    assert_eq!(end_event_name(2), "session_review");
}

#[test]
fn mirror_sync_decisions() {
    let local = loc("l", StorageKind::Local, true);
    let drop = loc("d", StorageKind::DropboxFolder, true);
    let off = loc("o", StorageKind::DropboxFolder, false);
    assert_eq!(mirror_sync_needed(&local, &[local.clone()]).unwrap(), false);
    assert_eq!(mirror_sync_needed(&off, &[local.clone()]).unwrap(), false);
    assert_eq!(mirror_sync_needed(&drop, &[local.clone(), drop.clone()]).unwrap(), true);
    assert!(matches!(mirror_sync_needed(&drop, &[drop.clone()]), Err(AppError::LocalLibraryMissing)));
    assert_eq!(distinct_years(&[2026, 2025, 2026, 2024, 2025]), vec![2026, 2025, 2024]);
}

#[test]
fn ingest_run_books_every_selected_file() {
    let all = vec![
        loc("x", StorageKind::DropboxFolder, false),
        loc("l", StorageKind::Local, true),
        loc("d", StorageKind::GoogleDriveFolder, true),
        loc("b", StorageKind::DropboxFolder, true),
    ];
    let s = vec![
        sel("/c/one.wav", true),
        sel("/c/skip.wav", false),
        sel("/c/two.wav", true),
        sel("/c/three.wav", true),
        sel("/c/four.wav", true),
    ];
    let mut run = IngestRun::start("s9", &all, &s).unwrap();
    assert_eq!(run.local_index(), 1);
    assert_eq!(run.mirror_targets(), &[2, 3][..]);

    assert_eq!(run.next_selection(), Some(0));
    assert_eq!(run.current_filename(), "one.wav");
    assert!(run.has_room());
    run.record_harvested("a1".into(), "one.wav".into(), false, vec![None, Some("disco lleno".into())]);

    assert_eq!(run.next_selection(), Some(2));
    assert_eq!(run.current_filename(), "two.wav");
    run.record_duplicate("a0".into(), "h2".into());

    assert_eq!(run.next_selection(), Some(3));
    run.record_local_copy_failed("sin permiso".into());

    assert_eq!(run.next_selection(), Some(4));
    run.record_hash_failure("no se pudo leer".into());
    assert_eq!(run.next_selection(), None);

    let r = run.finish();
    assert_eq!(r.session_id, "s9");
    assert_eq!((r.new_assets, r.duplicates_skipped, r.failed), (1, 1, 2));
    assert_eq!(r.assets.len(), 1);
    assert_eq!(r.assets[0].asset_id, "a1");
    assert_eq!(r.assets[0].original_filename, "one.wav");
    assert!(!r.assets[0].duplicate);
    assert_eq!(r.duplicates.len(), 1);
    assert_eq!(r.duplicates[0].original_filename, "two.wav");
    assert_eq!(r.storage.len(), 3);
    let ids: Vec<&str> = r.storage.iter().map(|x| x.storage_location_id.as_str()).collect();
    assert_eq!(ids, vec!["l", "d", "b"]);
    assert!(r.storage.iter().all(|x| x.total == 1));
    assert_eq!((r.storage[0].copied, r.storage[0].failed), (1, 1));
    assert_eq!((r.storage[1].copied, r.storage[1].failed), (1, 0));
    assert_eq!((r.storage[2].copied, r.storage[2].failed), (0, 1));
}

#[test]
fn ingest_run_with_only_a_local_library() {
    let all = vec![loc("l", StorageKind::Local, true), loc("d", StorageKind::GoogleDriveFolder, false)];
    let s = vec![sel("/c/loop.wav", true)];
    let mut run = IngestRun::start("s1", &all, &s).unwrap();
    assert!(run.mirror_targets().is_empty());
    assert_eq!(run.next_selection(), Some(0));
    run.record_harvested("a".into(), "loop.wav".into(), false, Vec::new());
    let r = run.finish();
    assert_eq!(r.new_assets, 1);
    assert_eq!(r.storage.len(), 1);
    assert_eq!((r.storage[0].copied, r.storage[0].total), (1, 1));
}

#[test]
fn ingest_run_needs_a_local_library() {
    let all = vec![loc("d", StorageKind::GoogleDriveFolder, true)];
    let s = vec![sel("/c/loop.wav", true)];
    assert!(matches!(IngestRun::start("s1", &all, &s), Err(AppError::LocalLibraryMissing)));
}

#[test]
fn ingest_run_reports_unstable_files() {
    let all = vec![loc("l", StorageKind::Local, true)];
    let s = vec![sel("/c/a.wav", true)];
    let mut run = IngestRun::start("s1", &all, &s).unwrap();
    run.record_unstable(StabilityError::StillWriting);
    assert_eq!(run.next_selection(), None);
    let r = run.finish();
    assert_eq!((r.new_assets, r.failed), (0, 1));
    assert_eq!(r.errors.len(), 1);
    assert!(r.errors[0].contains("a.wav"));
}

#[test]
fn known_hash_adds_no_asset() {
    let all = vec![loc("l", StorageKind::Local, true)];
    let s = vec![sel("/c/a.wav", true), sel("/c/b.wav", true)];
    let mut run = IngestRun::start("s1", &all, &s).unwrap();
    assert!(run.skip_known(Some("old".into()), "h1".into()));
    assert_eq!(run.next_selection(), Some(1));
    assert!(!run.skip_known(None, "h2".into()));
    assert_eq!(run.next_selection(), Some(1));
    run.record_harvested("new".into(), "b.wav".into(), false, Vec::new());
    let r = run.finish();
    assert_eq!((r.new_assets, r.duplicates_skipped), (1, 1));
    assert_eq!(r.duplicates[0].existing_asset_id, "old");
    assert_eq!(r.duplicates[0].content_hash, "h1");
    assert_eq!(r.duplicates[0].original_filename, "a.wav");
    assert_eq!(r.assets.len(), 1);
}

#[test]
fn historical_scan_keeps_size_and_time() {
    let hashed = vec![
        (fp("x/one.wav", 10, 100), "h1".to_string()),
        (fp("two.wav", 20, 200), "k".to_string()),
        (fp("three.wav", 30, 300), "h3".to_string()),
    ];
    let scan = HistoricalScan::scan("/c", hashed, &[], &["k".to_string()]);
    assert_eq!(scan.archived_count, 1);
    assert_eq!(scan.pending.len(), 2);
    assert_eq!(scan.pending[0].relative_path, "x/one.wav");
    assert_eq!((scan.pending[0].size_bytes, scan.pending[0].modified_unix_ms), (10, 100));
    assert_eq!(scan.pending[0].original_filename, "one.wav");
    assert_eq!(scan.pending[0].original_path, "/c/x/one.wav");
    assert_eq!((scan.pending[1].size_bytes, scan.pending[1].modified_unix_ms), (30, 300));
    assert_eq!(scan.pending[1].content_hash, "h3");
}

#[test]
fn scan_after_import_leaves_only_new_files() {
    let names = ["E.wav", "A.wav", "D.wav", "B.wav", "C.wav"];
    let hashed: Vec<(FileFingerprint, String)> =
        names.iter().map(|n| (fp(n, 1, 1), format!("h-{n}"))).collect();
    let known: Vec<String> = ["A.wav", "B.wav", "C.wav"].iter().map(|n| format!("h-{n}")).collect();
    let status = HistoricalScan::scan("/HYDRA/Samples/Processed/Consolidate", hashed, &[], &known)
        .into_status("p".into(), "HYDRA".into(), "/HYDRA/Samples/Processed/Consolidate".into());
    let pending: Vec<&str> = status.pending.iter().map(|c| c.original_filename.as_str()).collect();
    assert_eq!(pending, vec!["D.wav", "E.wav"]);
    assert_eq!(status.archived_count, 3);
    assert!(!status.synced);
}
