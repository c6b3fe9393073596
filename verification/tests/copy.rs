use audionautica_core::error::AppError;
use audionautica_core::fsutil::copy::{
    partial_copy_path, source_bytes_unchanged, CopyAction, CopyEvent, CopyMachine, CopyStage,
};

fn expect_perform(a: CopyAction, stage: CopyStage) {
    match a {
        CopyAction::Perform(s) => assert_eq!(s, stage),
        other => panic!("expected {stage:?}, got {other:?}"),
    }
}

#[test]
fn partial_file_sits_next_to_destination() {
    assert_eq!(partial_copy_path("/lib/Loops/x.wav"), "/lib/Loops/x.wav.part");
    assert_eq!(partial_copy_path("x.wav"), "x.wav.part");
    assert_eq!(partial_copy_path("/"), "/copy.part");
}

#[test]
fn fresh_copy_goes_through_every_stage() {
    let mut m = CopyMachine::new("/src/a.wav", "/lib/a.wav");
    assert_eq!(m.stage, CopyStage::CheckSource);
    assert_eq!(m.partial, "/lib/a.wav.part");
    expect_perform(m.step(CopyEvent::SourceChecked { is_file: true }), CopyStage::HashSource);
    expect_perform(m.step(CopyEvent::SourceHashed(Ok("abc".into()))), CopyStage::ProbeDestination);
    expect_perform(
        m.step(CopyEvent::DestinationProbed { exists: false, is_file: false }),
        CopyStage::PrepareParent,
    );
    expect_perform(
        m.step(CopyEvent::ParentPrepared { parent: Some("/lib".into()), outcome: Ok(true) }),
        CopyStage::StreamToPartial,
    );
    expect_perform(m.step(CopyEvent::Streamed(Ok(()))), CopyStage::HashPartial);
    expect_perform(m.step(CopyEvent::PartialHashed(Ok("abc".into()))), CopyStage::Rename);
    assert!(matches!(m.step(CopyEvent::Renamed(Ok(()))), CopyAction::Finish(Ok(()))));
    assert_eq!(m.stage, CopyStage::Finished);
}

#[test]
fn identical_destination_is_a_no_op() {
    let mut m = CopyMachine::new("/src/a.wav", "/lib/a.wav");
    m.step(CopyEvent::SourceChecked { is_file: true });
    m.step(CopyEvent::SourceHashed(Ok("abc".into())));
    expect_perform(
        m.step(CopyEvent::DestinationProbed { exists: true, is_file: true }),
        CopyStage::HashDestination,
    );
    assert!(matches!(m.step(CopyEvent::DestinationHashed(Ok("abc".into()))), CopyAction::Finish(Ok(()))));
}

#[test]
fn different_destination_is_refused() {
    let mut m = CopyMachine::new("/src/a.wav", "/lib/a.wav");
    m.step(CopyEvent::SourceChecked { is_file: true });
    m.step(CopyEvent::SourceHashed(Ok("abc".into())));
    m.step(CopyEvent::DestinationProbed { exists: true, is_file: true });
    match m.step(CopyEvent::DestinationHashed(Ok("zzz".into()))) {
        CopyAction::Finish(Err(AppError::CopyFailed { destination, reason })) => {
            assert_eq!(destination, "/lib/a.wav");
            assert_eq!(reason, "ya existe un archivo distinto en el destino");
        }
        other => panic!("unexpected {other:?}"),
    }
}

#[test]
fn mismatching_partial_is_discarded() {
    let mut m = CopyMachine::new("/src/a.wav", "/lib/a.wav");
    m.step(CopyEvent::SourceChecked { is_file: true });
    m.step(CopyEvent::SourceHashed(Ok("abc".into())));
    m.step(CopyEvent::DestinationProbed { exists: false, is_file: false });
    m.step(CopyEvent::ParentPrepared { parent: None, outcome: Ok(false) });
    m.step(CopyEvent::Streamed(Ok(())));
    match m.step(CopyEvent::PartialHashed(Ok("abd".into()))) {
        CopyAction::DiscardPartial(AppError::CopyFailed { reason, .. }) => {
            assert_eq!(reason, "el hash de la copia no coincide con el origen")
        }
        other => panic!("unexpected {other:?}"),
    }
}

#[test]
fn missing_source_and_bad_parent_fail() {
    let mut m = CopyMachine::new("/src/a.wav", "/lib/a.wav");
    match m.step(CopyEvent::SourceChecked { is_file: false }) {
        CopyAction::Finish(Err(AppError::InvalidPath(msg))) => {
            assert_eq!(msg, "origen no es un archivo: /src/a.wav")
        }
        other => panic!("unexpected {other:?}"),
    }
    let mut m = CopyMachine::new("/src/a.wav", "/lib/a.wav");
    m.step(CopyEvent::SourceChecked { is_file: true });
    m.step(CopyEvent::SourceHashed(Ok("abc".into())));
    m.step(CopyEvent::DestinationProbed { exists: false, is_file: false });
    match m.step(CopyEvent::ParentPrepared { parent: Some("/lib".into()), outcome: Ok(false) }) {
        CopyAction::Finish(Err(AppError::DestinationUnavailable(p))) => assert_eq!(p, "/lib"),
        other => panic!("unexpected {other:?}"),
    }
}

#[test]
fn unexpected_event_asks_again() {
    let mut m = CopyMachine::new("/src/a.wav", "/lib/a.wav");
    expect_perform(m.step(CopyEvent::Renamed(Ok(()))), CopyStage::CheckSource);
    assert_eq!(m.stage, CopyStage::CheckSource);
}

#[test]
fn rename_failure_discards_partial() {
    let mut m = CopyMachine::new("/src/a.wav", "/lib/a.wav");
    m.step(CopyEvent::SourceChecked { is_file: true });
    m.step(CopyEvent::SourceHashed(Ok("abc".into())));
    m.step(CopyEvent::DestinationProbed { exists: false, is_file: false });
    m.step(CopyEvent::ParentPrepared { parent: None, outcome: Ok(true) });
    m.step(CopyEvent::Streamed(Ok(())));
    m.step(CopyEvent::PartialHashed(Ok("abc".into())));
    assert!(matches!(
        m.step(CopyEvent::Renamed(Err(AppError::Other("x".into())))),
        CopyAction::DiscardPartial(AppError::Other(_))
    ));
}

#[test]
fn source_check_compares_path_then_hash() {
    assert_eq!(source_bytes_unchanged("/a/x.wav", "/a/y.wav", "h", Some("h")), Some(false));
    assert_eq!(source_bytes_unchanged("/a/x.wav", "/a//x.wav", "h", None), None);
    assert_eq!(source_bytes_unchanged("/a/x.wav", "/a/x.wav", "h", Some("h")), Some(true));
    assert_eq!(source_bytes_unchanged("/a/x.wav", "/a/x.wav", "h", Some("g")), Some(false));
}
