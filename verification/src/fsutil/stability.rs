//! Deciding when a file that another program is writing has settled.
//!
//! The caller polls the file: it reads its size and modification time, hands
//! the observation to [`StabilityState::observe`], and follows the returned
//! step (wait an interval and poll again, try to open the file, or give up).
use vstd::prelude::*;

verus! {

/// How many matching polls are needed, how far apart, and for how long at most.
#[derive(Clone, Copy, Debug)]
pub struct StabilityConfig {
    pub checks: u32,
    pub interval_ms: u64,
    pub max_wait_ms: u64,
}

impl Default for StabilityConfig {
    fn default() -> (c: Self)
        ensures
            c.checks == 2,
            c.interval_ms == 250,
            c.max_wait_ms == 8000,
    {
        StabilityConfig { checks: 2, interval_ms: 250, max_wait_ms: 8000 }
    }
}

impl StabilityConfig {
    /// Short intervals, for tests.
    pub fn fast_test() -> (c: Self)
        ensures
            c.checks == 2,
            c.interval_ms == 15,
            c.max_wait_ms == 400,
    {
        StabilityConfig { checks: 2, interval_ms: 15, max_wait_ms: 400 }
    }
}

/// Why a file is not (yet) trusted.
#[derive(Clone, Copy, Debug, PartialEq, Eq, Structural)]
pub enum StabilityError {
    StillWriting,
    Missing,
    Empty,
    Unreadable,
}

pub open spec fn spec_stability_message(e: StabilityError) -> Seq<char> {
    match e {
        StabilityError::StillWriting => "el archivo todavía se está escribiendo"@,
        StabilityError::Missing => "el archivo no existe"@,
        StabilityError::Empty => "el archivo está vacío"@,
        StabilityError::Unreadable => "el archivo no se puede leer"@,
    }
}

impl StabilityError {
    /// The text shown to the user.
    pub fn message(&self) -> (s: &'static str)
        ensures
            s@ == spec_stability_message(*self),
    {
        match self {
            StabilityError::StillWriting => "el archivo todavía se está escribiendo",
            StabilityError::Missing => "el archivo no existe",
            StabilityError::Empty => "el archivo está vacío",
            StabilityError::Unreadable => "el archivo no se puede leer",
        }
    }
}

/// Size and modification time (nanoseconds from the Unix epoch, when known)
/// of a regular file.
#[derive(Clone, Copy, Debug)]
pub struct FileMeta {
    pub size: u64,
    pub modified: Option<i128>,
}

/// One poll of the file.
#[derive(Clone, Copy, Debug)]
pub enum Observation {
    /// A regular file with this size and modification time.
    Present(FileMeta),
    /// Nothing at the path.
    Missing,
    /// Something is there but its metadata cannot be read, or it is not a file.
    Unreadable,
}

/// What the poller remembers between polls.
#[derive(Clone, Copy, Debug)]
pub struct StabilityState {
    pub last: Option<FileMeta>,
    pub stable_hits: u32,
}

/// What to do after a poll.
#[derive(Clone, Copy, Debug)]
pub enum StabilityStep {
    /// Sleep one interval (or give up if the deadline passed) and poll again.
    Wait(StabilityState),
    /// The file has settled: check that it can be opened for reading.
    Open,
    /// Give up with this error.
    Fail(StabilityError),
}

/// Consecutive unchanged polls needed after the first sighting: `checks - 1`,
/// and at least one.
pub open spec fn spec_required_hits(checks: u32) -> int {
    if checks <= 2 {
        1
    } else {
        checks - 1
    }
}

pub open spec fn spec_observe(checks: u32, s: StabilityState, obs: Observation) -> StabilityStep {
    match obs {
        Observation::Present(m) => {
            if m.size == 0 {
                StabilityStep::Wait(StabilityState { last: Some(m), stable_hits: 0 })
            } else {
                match s.last {
                    Some(p) => {
                        if p == m {
                            if s.stable_hits + 1 >= spec_required_hits(checks) {
                                StabilityStep::Open
                            } else {
                                StabilityStep::Wait(
                                    StabilityState {
                                        last: Some(m),
                                        stable_hits: (s.stable_hits + 1) as u32,
                                    },
                                )
                            }
                        } else {
                            StabilityStep::Wait(StabilityState { last: Some(m), stable_hits: 0 })
                        }
                    },
                    None => StabilityStep::Wait(StabilityState { last: Some(m), stable_hits: 0 }),
                }
            }
        },
        Observation::Missing => StabilityStep::Wait(StabilityState { last: None, stable_hits: 0 }),
        Observation::Unreadable => StabilityStep::Fail(StabilityError::Unreadable),
    }
}

/// The error reported when the deadline passes: `Empty` when the file exists
/// but was last seen empty (or never seen), `StillWriting` otherwise.
pub open spec fn spec_timeout_error(s: StabilityState, exists: bool) -> StabilityError {
    let size = match s.last {
        Some(m) => m.size,
        None => 0,
    };
    if size == 0 && exists {
        StabilityError::Empty
    } else {
        StabilityError::StillWriting
    }
}

/// The outcome of trying to open a settled file.
pub open spec fn spec_open_outcome(opened: bool) -> Result<(), StabilityError> {
    if opened {
        Ok(())
    } else {
        Err(StabilityError::Unreadable)
    }
}

fn same_meta(a: &FileMeta, b: &FileMeta) -> (r: bool)
    ensures
        r == (*a == *b),
{
    if a.size != b.size {
        return false;
    }
    match (a.modified, b.modified) {
        (Some(x), Some(y)) => x == y,
        (None, None) => true,
        _ => false,
    }
}

impl StabilityState {
    /// Nothing seen yet.
    pub fn initial() -> (s: Self)
        ensures
            s.last is None,
            s.stable_hits == 0,
    {
        StabilityState { last: None, stable_hits: 0 }
    }

    /// The step after one more poll: an empty file or a change of size or
    /// modification time restarts the count, a missing file forgets what was
    /// seen, an unreadable one fails, and `checks - 1` (at least one)
    /// unchanged non-empty polls in a row settle the file.
    pub fn observe(&self, checks: u32, obs: Observation) -> (r: StabilityStep)
        ensures
            r == spec_observe(checks, *self, obs),
    {
        match obs {
            Observation::Present(m) => {
                if m.size == 0 {
                    StabilityStep::Wait(StabilityState { last: Some(m), stable_hits: 0 })
                } else {
                    match &self.last {
                        Some(p) => {
                            if same_meta(p, &m) {
                                let required: u32 = if checks <= 2 {
                                    1
                                } else {
                                    checks - 1
                                };
                                if self.stable_hits >= required - 1 {
                                    StabilityStep::Open
                                } else {
                                    StabilityStep::Wait(
                                        StabilityState {
                                            last: Some(m),
                                            stable_hits: self.stable_hits + 1,
                                        },
                                    )
                                }
                            } else {
                                StabilityStep::Wait(
                                    StabilityState { last: Some(m), stable_hits: 0 },
                                )
                            }
                        },
                        None => StabilityStep::Wait(
                            StabilityState { last: Some(m), stable_hits: 0 },
                        ),
                    }
                }
            },
            Observation::Missing => StabilityStep::Wait(
                StabilityState { last: None, stable_hits: 0 },
            ),
            Observation::Unreadable => StabilityStep::Fail(StabilityError::Unreadable),
        }
    }

    /// The error to report once the deadline has passed; `exists` says whether
    /// something is at the path now.
    pub fn timeout_error(&self, exists: bool) -> (e: StabilityError)
        ensures
            e == spec_timeout_error(*self, exists),
    {
        let size: u64 = match &self.last {
            Some(m) => m.size,
            None => 0,
        };
        if size == 0 && exists {
            StabilityError::Empty
        } else {
            StabilityError::StillWriting
        }
    }
}

/// The verdict once a settled file was (or could not be) opened for reading.
pub fn open_outcome(opened: bool) -> (r: Result<(), StabilityError>)
    ensures
        r == spec_open_outcome(opened),
{
    if opened {
        Ok(())
    } else {
        Err(StabilityError::Unreadable)
    }
}

/// The step reached after a whole series of polls from the initial state;
/// the first `Open` or `Fail` is final.
pub open spec fn spec_run(checks: u32, obs: Seq<Observation>) -> StabilityStep
    decreases obs.len(),
{
    if obs.len() == 0 {
        StabilityStep::Wait(StabilityState { last: None, stable_hits: 0 })
    } else {
        match spec_run(checks, obs.drop_last()) {
            StabilityStep::Wait(s) => spec_observe(checks, s, obs.last()),
            other => other,
        }
    }
}

/// What a waiting state says about the polls so far: the remembered metadata
/// is that of the last `stable_hits + 1` polls, non-empty once counted.
pub open spec fn state_matches_history(
    checks: u32,
    s: StabilityState,
    obs: Seq<Observation>,
) -> bool {
    &&& s.stable_hits < spec_required_hits(checks)
    &&& match s.last {
        None => s.stable_hits == 0,
        Some(m) => {
            &&& obs.len() >= s.stable_hits + 1
            &&& (s.stable_hits > 0 ==> m.size > 0)
            &&& forall|j: int|
                obs.len() - 1 - s.stable_hits <= j < obs.len() ==> #[trigger] obs[j]
                    == Observation::Present(m)
        },
    }
}

proof fn lemma_run_waiting_matches_history(checks: u32, obs: Seq<Observation>)
    ensures
        spec_run(checks, obs) matches StabilityStep::Wait(s) ==> state_matches_history(
            checks,
            s,
            obs,
        ),
    decreases obs.len(),
{
    if obs.len() > 0 {
        let prefix = obs.drop_last();
        lemma_run_waiting_matches_history(checks, prefix);
        if let StabilityStep::Wait(s) = spec_run(checks, prefix) {
            if let StabilityStep::Wait(t) = spec_observe(checks, s, obs.last()) {
                if let Some(m) = t.last {
                    assert forall|j: int|
                        obs.len() - 1 - t.stable_hits <= j < obs.len() implies #[trigger] obs[j]
                        == Observation::Present(m) by {
                        if j < obs.len() - 1 {
                            assert(obs[j] == prefix[j]);
                        }
                    }
                }
            }
        }
    }
}

/// A file is only trusted once polls have seen it, unchanged and non-empty,
/// `required + 1` times in a row: when a series of polls first reaches
/// `Open`, its last `spec_required_hits(checks) + 1` observations all report
/// the same non-empty metadata.
pub proof fn law_settled_only_after_unchanged_polls(checks: u32, obs: Seq<Observation>)
    requires
        obs.len() > 0,
        spec_run(checks, obs.drop_last()) is Wait,
        spec_run(checks, obs) is Open,
    ensures
        obs.len() >= spec_required_hits(checks) + 1,
        obs.last() is Present,
        obs.last()->Present_0.size > 0,
        forall|j: int|
            obs.len() - 1 - spec_required_hits(checks) <= j < obs.len() ==> #[trigger] obs[j]
                == obs.last(),
{
    let prefix = obs.drop_last();
    lemma_run_waiting_matches_history(checks, prefix);
    let s = spec_run(checks, prefix)->Wait_0;
    assert forall|j: int|
        obs.len() - 1 - spec_required_hits(checks) <= j < obs.len() implies #[trigger] obs[j]
        == obs.last() by {
        if j < obs.len() - 1 {
            assert(obs[j] == prefix[j]);
        }
    }
}

} // verus!
