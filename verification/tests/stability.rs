use audionautica_core::fsutil::stability::{
    open_outcome, FileMeta, Observation, StabilityConfig, StabilityError, StabilityState,
    StabilityStep,
};

fn meta(size: u64, modified: i128) -> Observation {
    Observation::Present(FileMeta { size, modified: Some(modified) })
}

fn run(checks: u32, polls: &[Observation]) -> StabilityStep {
    let mut state = StabilityState::initial();
    for obs in polls {
        match state.observe(checks, *obs) {
            StabilityStep::Wait(next) => state = next,
            other => return other,
        }
    }
    StabilityStep::Wait(state)
}

#[test]
fn default_and_fast_configs() {
    let d = StabilityConfig::default();
    assert_eq!((d.checks, d.interval_ms, d.max_wait_ms), (2, 250, 8000));
    let f = StabilityConfig::fast_test();
    assert_eq!((f.checks, f.interval_ms, f.max_wait_ms), (2, 15, 400));
}

#[test]
fn stable_file_settles_after_two_equal_polls() {
    assert!(matches!(run(2, &[meta(256, 7)]), StabilityStep::Wait(_)));
    assert!(matches!(run(2, &[meta(256, 7), meta(256, 7)]), StabilityStep::Open));
}

#[test]
fn growing_file_keeps_waiting() {
    let polls = [meta(256, 1), meta(512, 2), meta(768, 3), meta(1024, 4)];
    match run(3, &polls) {
        StabilityStep::Wait(s) => {
            assert_eq!(s.stable_hits, 0);
            assert_eq!(s.timeout_error(true), StabilityError::StillWriting);
        }
        _ => panic!("a growing file must not settle"),
    }
}

#[test]
fn three_checks_need_three_equal_polls() {
    assert!(matches!(run(3, &[meta(9, 1), meta(9, 1)]), StabilityStep::Wait(_)));
    assert!(matches!(run(3, &[meta(9, 1), meta(9, 1), meta(9, 1)]), StabilityStep::Open));
    assert!(matches!(run(0, &[meta(9, 1), meta(9, 1)]), StabilityStep::Open));
}

#[test]
fn empty_file_never_settles_and_times_out_empty() {
    match run(2, &[meta(0, 1), meta(0, 1), meta(0, 1)]) {
        StabilityStep::Wait(s) => {
            assert_eq!(s.stable_hits, 0);
            assert_eq!(s.timeout_error(true), StabilityError::Empty);
            assert_eq!(s.timeout_error(false), StabilityError::StillWriting);
        }
        _ => panic!("an empty file must not settle"),
    }
}

#[test]
fn missing_file_times_out_still_writing() {
    match run(2, &[Observation::Missing, Observation::Missing]) {
        StabilityStep::Wait(s) => {
            assert!(s.last.is_none());
            assert_eq!(s.timeout_error(false), StabilityError::StillWriting);
        }
        _ => panic!("a missing file keeps waiting"),
    }
}

#[test]
fn unreadable_file_fails_at_once() {
    assert!(matches!(
        run(2, &[meta(5, 1), Observation::Unreadable]),
        StabilityStep::Fail(StabilityError::Unreadable)
    ));
}

#[test]
fn changed_mtime_restarts_the_count() {
    assert!(matches!(run(2, &[meta(5, 1), meta(5, 2)]), StabilityStep::Wait(_)));
    assert!(matches!(run(2, &[meta(5, 1), meta(5, 2), meta(5, 2)]), StabilityStep::Open));
    let unknown = Observation::Present(FileMeta { size: 5, modified: None });
    assert!(matches!(run(2, &[meta(5, 1), unknown]), StabilityStep::Wait(_)));
    assert!(matches!(run(2, &[unknown, unknown]), StabilityStep::Open));
}

#[test]
fn opening_decides_the_verdict() {
    assert_eq!(open_outcome(true), Ok(()));
    assert_eq!(open_outcome(false), Err(StabilityError::Unreadable));
    assert_eq!(StabilityError::StillWriting.message(), "el archivo todavía se está escribiendo");
    assert_eq!(StabilityError::Empty.message(), "el archivo está vacío");
}
