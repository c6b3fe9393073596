use audionautica_core::domain::{Category, CopyStatus, IngestType, SessionStatus, SourceType, StorageKind};
use audionautica_core::error::{destination_missing, AppError, IoFailureKind};

#[test]
fn copy_status_enum_roundtrip() {
    assert_eq!(CopyStatus::parse("COPIED"), CopyStatus::Copied);
    assert_eq!(CopyStatus::parse("FAILED"), CopyStatus::Failed);
    assert_eq!(CopyStatus::parse("PENDING"), CopyStatus::Pending);
}

#[test]
fn every_enum_reads_back_its_name() {
    for c in Category::all() {
        assert_eq!(Category::parse(c.as_str()), c);
    }
    for k in [StorageKind::Local, StorageKind::DropboxFolder, StorageKind::GoogleDriveFolder, StorageKind::CustomFolder] {
        assert_eq!(StorageKind::parse(k.as_str()), k);
    }
    for s in [SessionStatus::Active, SessionStatus::Review, SessionStatus::Archived, SessionStatus::Cancelled] {
        assert_eq!(SessionStatus::parse(s.as_str()), s);
    }
    assert_eq!(IngestType::parse(IngestType::HistoricalImport.as_str()), IngestType::HistoricalImport);
    assert_eq!(SourceType::parse(SourceType::GeneratedAudio.as_str()), SourceType::GeneratedAudio);
}

#[test]
fn unknown_names_fall_back() {
    assert_eq!(Category::parse("nope"), Category::Other);
    assert_eq!(StorageKind::parse(""), StorageKind::Local);
    assert_eq!(SessionStatus::parse("active"), SessionStatus::Active);
    assert_eq!(IngestType::parse("x"), IngestType::SessionHarvest);
    assert_eq!(SourceType::parse("x"), SourceType::AbletonConsolidate);
    assert_eq!(CopyStatus::parse("copied"), CopyStatus::Pending);
}

#[test]
fn category_labels_and_folders() {
    assert_eq!(Category::Harmonies.label_es(), "Armonías");
    assert_eq!(Category::Harmonies.folder_name(), "Armonias");
    assert_eq!(Category::Percussion.filename_token(), "PERC");
    assert_eq!(StorageKind::GoogleDriveFolder.label_es(), "Carpeta Google Drive");
    assert_eq!(Category::all().len(), 8);
}

#[test]
fn error_codes_and_messages() {
    let e = AppError::CopyFailed { destination: "D".into(), reason: "R".into() };
    assert_eq!(e.code(), "copy_failed");
    assert_eq!(e.message(), "Copia fallida hacia D: R");
    assert_eq!(AppError::SessionAlreadyActive.code(), "session_already_active");
    assert_eq!(AppError::Other("x".into()).message(), "x");
}

#[test]
fn io_failures_map_to_user_errors() {
    let e = AppError::from_io_parts(IoFailureKind::NotFound, "gone", "abrir");
    assert_eq!(e.message(), "Ruta inválida: abrir: no existe");
    let e = AppError::from_io_parts(IoFailureKind::Other, "No space left on device", "copiar");
    assert_eq!(e.code(), "disk_full");
    let e = AppError::from_io_parts(IoFailureKind::Other, "Disk Full here", "copiar");
    assert_eq!(e.code(), "disk_full");
    let e = AppError::from_io_parts(IoFailureKind::Other, "boom", "copiar");
    assert_eq!(e.message(), "copiar: boom");
    let e = AppError::from_io_parts(IoFailureKind::PermissionDenied, "denied", "leer");
    assert_eq!(e.message(), "Permiso denegado: leer: denied");
    let e = AppError::from_io(std::io::Error::new(std::io::ErrorKind::NotFound, "x"), "abrir");
    assert_eq!(e.code(), "invalid_path");
}

#[test]
fn missing_destination_names_the_path() {
    let e = destination_missing("/mnt/drive".to_string());
    assert_eq!(e.code(), "destination_unavailable");
    assert_eq!(e.message(), "El destino no está disponible: /mnt/drive");
}
