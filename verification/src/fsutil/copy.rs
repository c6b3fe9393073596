//! Verified copying, as a sequence of decisions.
//!
//! A copy never modifies its source: it writes a sibling `.part` file, hashes
//! it, and renames it into place only when the hash equals the source's. A
//! destination that already holds the same bytes is a successful no-op. The
//! caller performs each filesystem action that [`CopyMachine`] asks for and
//! hands back what happened.
use vstd::prelude::*;

use crate::error::{AppError, AppErrorView};
use crate::pathname::{
    file_name_of, path_file_name, path_with_file_name, paths_equal, same_path_components,
    with_file_name,
};
use crate::text::{chars_of, concat_str, str_eq, string_of};

verus! {

/// The temporary file a copy is written to: the destination's file name
/// (or `copy`, when it has none) followed by `.part`, in the same folder.
pub open spec fn spec_partial_copy_path(dest: Seq<char>) -> Seq<char> {
    let name = match path_file_name(dest) {
        Some(n) => n,
        None => "copy"@,
    };
    path_with_file_name(dest, name + ".part"@)
}

/// The path of the temporary file for a copy to `dest`.
pub fn partial_copy_path(dest: &str) -> (r: String)
    ensures
        r@ == spec_partial_copy_path(dest@),
{
    let dv = chars_of(dest);
    let name = match file_name_of(dv.as_slice()) {
        Some(n) => string_of(n.as_slice()),
        None => string_of(chars_of("copy").as_slice()),
    };
    let part = concat_str(name.as_str(), ".part");
    with_file_name(dest, part.as_str())
}

/// The pending filesystem action of a copy, or its end.
#[derive(Clone, Copy, Debug, PartialEq, Eq, Structural)]
pub enum CopyStage {
    /// Is the source a regular file?
    CheckSource,
    /// Hash the source.
    HashSource,
    /// Does something exist at the destination, and is it a file?
    ProbeDestination,
    /// Hash the file already at the destination.
    HashDestination,
    /// Create the destination's folder and check that it is a folder.
    PrepareParent,
    /// Stream the source into the partial file.
    StreamToPartial,
    /// Hash the partial file.
    HashPartial,
    /// Rename the partial file onto the destination.
    Rename,
    /// Nothing more to do.
    Finished,
}

/// What happened when the caller performed the pending action.
#[derive(Debug)]
pub enum CopyEvent {
    SourceChecked { is_file: bool },
    SourceHashed(Result<String, AppError>),
    DestinationProbed { exists: bool, is_file: bool },
    DestinationHashed(Result<String, AppError>),
    /// `parent` is the destination's folder, if it has one; `outcome` is the
    /// result of creating it, then whether it is a folder.
    ParentPrepared { parent: Option<String>, outcome: Result<bool, AppError> },
    Streamed(Result<(), AppError>),
    PartialHashed(Result<String, AppError>),
    Renamed(Result<(), AppError>),
}

/// What the caller must do next.
#[derive(Debug)]
pub enum CopyAction {
    /// Perform this stage's action and report it.
    Perform(CopyStage),
    /// Stop with this result.
    Finish(Result<(), AppError>),
    /// Remove the partial file (ignoring any failure), then stop with this error.
    DiscardPartial(AppError),
}

pub enum CopyEventView {
    SourceChecked { is_file: bool },
    SourceHashed(Result<Seq<char>, AppErrorView>),
    DestinationProbed { exists: bool, is_file: bool },
    DestinationHashed(Result<Seq<char>, AppErrorView>),
    ParentPrepared { parent: Option<Seq<char>>, outcome: Result<bool, AppErrorView> },
    Streamed(Result<(), AppErrorView>),
    PartialHashed(Result<Seq<char>, AppErrorView>),
    Renamed(Result<(), AppErrorView>),
}

pub enum CopyActionView {
    Perform(CopyStage),
    Finish(Result<(), AppErrorView>),
    DiscardPartial(AppErrorView),
}

pub open spec fn text_result_view(r: Result<String, AppError>) -> Result<Seq<char>, AppErrorView> {
    match r {
        Ok(s) => Ok(s@),
        Err(e) => Err(e@),
    }
}

pub open spec fn unit_result_view(r: Result<(), AppError>) -> Result<(), AppErrorView> {
    match r {
        Ok(()) => Ok(()),
        Err(e) => Err(e@),
    }
}

impl View for CopyEvent {
    type V = CopyEventView;

    open spec fn view(&self) -> CopyEventView {
        match self {
            CopyEvent::SourceChecked { is_file } => CopyEventView::SourceChecked { is_file: *is_file },
            CopyEvent::SourceHashed(r) => CopyEventView::SourceHashed(text_result_view(*r)),
            CopyEvent::DestinationProbed { exists, is_file } => CopyEventView::DestinationProbed {
                exists: *exists,
                is_file: *is_file,
            },
            CopyEvent::DestinationHashed(r) => CopyEventView::DestinationHashed(
                text_result_view(*r),
            ),
            CopyEvent::ParentPrepared { parent, outcome } => CopyEventView::ParentPrepared {
                parent: match parent {
                    Some(p) => Some(p@),
                    None => None,
                },
                outcome: match outcome {
                    Ok(b) => Ok(*b),
                    Err(e) => Err(e@),
                },
            },
            CopyEvent::Streamed(r) => CopyEventView::Streamed(unit_result_view(*r)),
            CopyEvent::PartialHashed(r) => CopyEventView::PartialHashed(text_result_view(*r)),
            CopyEvent::Renamed(r) => CopyEventView::Renamed(unit_result_view(*r)),
        }
    }
}

impl View for CopyAction {
    type V = CopyActionView;

    open spec fn view(&self) -> CopyActionView {
        match self {
            CopyAction::Perform(s) => CopyActionView::Perform(*s),
            CopyAction::Finish(r) => CopyActionView::Finish(unit_result_view(*r)),
            CopyAction::DiscardPartial(e) => CopyActionView::DiscardPartial(e@),
        }
    }
}

pub open spec fn msg_source_not_file(source: Seq<char>) -> Seq<char> {
    "origen no es un archivo: "@ + source
}

pub open spec fn msg_different_file_exists() -> Seq<char> {
    "ya existe un archivo distinto en el destino"@
}

pub open spec fn msg_copy_hash_mismatch() -> Seq<char> {
    "el hash de la copia no coincide con el origen"@
}

/// The abstract copy: paths, the source hash once known, and the pending stage.
pub struct CopyMachineView {
    pub source: Seq<char>,
    pub dest: Seq<char>,
    pub partial: Seq<char>,
    pub source_hash: Option<Seq<char>>,
    pub stage: CopyStage,
}

/// One step of a copy: the next abstract state and what the caller must do.
/// An event that does not answer the pending stage changes nothing and asks
/// for that stage again.
pub open spec fn spec_copy_step(m: CopyMachineView, e: CopyEventView) -> (
    CopyMachineView,
    CopyActionView,
) {
    let finished = CopyMachineView { stage: CopyStage::Finished, ..m };
    let exists_error = AppErrorView::CopyFailed {
        destination: m.dest,
        reason: msg_different_file_exists(),
    };
    match (m.stage, e) {
        (CopyStage::CheckSource, CopyEventView::SourceChecked { is_file }) => {
            if is_file {
                (
                    CopyMachineView { stage: CopyStage::HashSource, ..m },
                    CopyActionView::Perform(CopyStage::HashSource),
                )
            } else {
                (
                    finished,
                    CopyActionView::Finish(
                        Err(AppErrorView::InvalidPath(msg_source_not_file(m.source))),
                    ),
                )
            }
        },
        (CopyStage::HashSource, CopyEventView::SourceHashed(r)) => match r {
            Ok(h) => (
                CopyMachineView {
                    stage: CopyStage::ProbeDestination,
                    source_hash: Some(h),
                    ..m
                },
                CopyActionView::Perform(CopyStage::ProbeDestination),
            ),
            Err(err) => (finished, CopyActionView::Finish(Err(err))),
        },
        (CopyStage::ProbeDestination, CopyEventView::DestinationProbed { exists, is_file }) => {
            if !exists {
                (
                    CopyMachineView { stage: CopyStage::PrepareParent, ..m },
                    CopyActionView::Perform(CopyStage::PrepareParent),
                )
            } else if is_file {
                (
                    CopyMachineView { stage: CopyStage::HashDestination, ..m },
                    CopyActionView::Perform(CopyStage::HashDestination),
                )
            } else {
                (finished, CopyActionView::Finish(Err(exists_error)))
            }
        },
        (CopyStage::HashDestination, CopyEventView::DestinationHashed(r)) => match r {
            Ok(h) => {
                if m.source_hash == Some(h) {
                    (finished, CopyActionView::Finish(Ok(())))
                } else {
                    (finished, CopyActionView::Finish(Err(exists_error)))
                }
            },
            Err(err) => (finished, CopyActionView::Finish(Err(err))),
        },
        (CopyStage::PrepareParent, CopyEventView::ParentPrepared { parent, outcome }) => {
            let ready = (
                CopyMachineView { stage: CopyStage::StreamToPartial, ..m },
                CopyActionView::Perform(CopyStage::StreamToPartial),
            );
            match parent {
                None => ready,
                Some(p) => match outcome {
                    Ok(is_dir) => {
                        if is_dir {
                            ready
                        } else {
                            (
                                finished,
                                CopyActionView::Finish(
                                    Err(AppErrorView::DestinationUnavailable(p)),
                                ),
                            )
                        }
                    },
                    Err(err) => (finished, CopyActionView::Finish(Err(err))),
                },
            }
        },
        (CopyStage::StreamToPartial, CopyEventView::Streamed(r)) => match r {
            Ok(()) => (
                CopyMachineView { stage: CopyStage::HashPartial, ..m },
                CopyActionView::Perform(CopyStage::HashPartial),
            ),
            Err(err) => (finished, CopyActionView::DiscardPartial(err)),
        },
        (CopyStage::HashPartial, CopyEventView::PartialHashed(r)) => match r {
            Ok(h) => {
                if m.source_hash == Some(h) {
                    (
                        CopyMachineView { stage: CopyStage::Rename, ..m },
                        CopyActionView::Perform(CopyStage::Rename),
                    )
                } else {
                    (
                        finished,
                        CopyActionView::DiscardPartial(
                            AppErrorView::CopyFailed {
                                destination: m.dest,
                                reason: msg_copy_hash_mismatch(),
                            },
                        ),
                    )
                }
            },
            Err(err) => (finished, CopyActionView::DiscardPartial(err)),
        },
        (CopyStage::Rename, CopyEventView::Renamed(r)) => match r {
            Ok(()) => (finished, CopyActionView::Finish(Ok(()))),
            Err(err) => (finished, CopyActionView::DiscardPartial(err)),
        },
        _ => (m, CopyActionView::Perform(m.stage)),
    }
}

/// A copy of `source` to `dest` in progress.
pub struct CopyMachine {
    pub source: String,
    pub dest: String,
    pub partial: String,
    pub source_hash: Option<String>,
    pub stage: CopyStage,
}

impl View for CopyMachine {
    type V = CopyMachineView;

    open spec fn view(&self) -> CopyMachineView {
        CopyMachineView {
            source: self.source@,
            dest: self.dest@,
            partial: self.partial@,
            source_hash: match self.source_hash {
                Some(h) => Some(h@),
                None => None,
            },
            stage: self.stage,
        }
    }
}

fn copy_failed(dest: &String, reason: &str) -> (e: AppError)
    ensures
        e@ == (AppErrorView::CopyFailed { destination: dest@, reason: reason@ }),
{
    AppError::CopyFailed {
        destination: string_of(chars_of(dest.as_str()).as_slice()),
        reason: string_of(chars_of(reason).as_slice()),
    }
}

fn hash_matches(known: &Option<String>, h: &String) -> (r: bool)
    ensures
        r == (match known {
            Some(k) => Some(k@),
            None => None::<Seq<char>>,
        } == Some(h@)),
{
    match known {
        Some(k) => str_eq(k.as_str(), h.as_str()),
        None => false,
    }
}

impl CopyMachine {
    /// A copy that starts by checking the source.
    pub fn new(source: &str, dest: &str) -> (m: Self)
        ensures
            m@.source == source@,
            m@.dest == dest@,
            m@.partial == spec_partial_copy_path(dest@),
            m@.source_hash is None,
            m@.stage == CopyStage::CheckSource,
    {
        CopyMachine {
            source: string_of(chars_of(source).as_slice()),
            dest: string_of(chars_of(dest).as_slice()),
            partial: partial_copy_path(dest),
            source_hash: None,
            stage: CopyStage::CheckSource,
        }
    }

    /// Takes the outcome of the pending action and says what to do next
    /// (see [`spec_copy_step`]).
    pub fn step(&mut self, event: CopyEvent) -> (r: CopyAction)
        ensures
            (final(self)@, r@) == spec_copy_step(old(self)@, event@),
    {
        let ghost m = self@;
        let ghost ev = event@;
        match (self.stage, event) {
            (CopyStage::CheckSource, CopyEvent::SourceChecked { is_file }) => {
                if is_file {
                    self.stage = CopyStage::HashSource;
                    CopyAction::Perform(CopyStage::HashSource)
                } else {
                    self.stage = CopyStage::Finished;
                    let msg = concat_str("origen no es un archivo: ", self.source.as_str());
                    CopyAction::Finish(Err(AppError::InvalidPath(msg)))
                }
            },
            (CopyStage::HashSource, CopyEvent::SourceHashed(r)) => match r {
                Ok(h) => {
                    self.stage = CopyStage::ProbeDestination;
                    self.source_hash = Some(h);
                    CopyAction::Perform(CopyStage::ProbeDestination)
                },
                Err(err) => {
                    self.stage = CopyStage::Finished;
                    CopyAction::Finish(Err(err))
                },
            },
            (CopyStage::ProbeDestination, CopyEvent::DestinationProbed { exists, is_file }) => {
                if !exists {
                    self.stage = CopyStage::PrepareParent;
                    CopyAction::Perform(CopyStage::PrepareParent)
                } else if is_file {
                    self.stage = CopyStage::HashDestination;
                    CopyAction::Perform(CopyStage::HashDestination)
                } else {
                    self.stage = CopyStage::Finished;
                    CopyAction::Finish(
                        Err(copy_failed(&self.dest, "ya existe un archivo distinto en el destino")),
                    )
                }
            },
            (CopyStage::HashDestination, CopyEvent::DestinationHashed(r)) => match r {
                Ok(h) => {
                    self.stage = CopyStage::Finished;
                    if hash_matches(&self.source_hash, &h) {
                        CopyAction::Finish(Ok(()))
                    } else {
                        CopyAction::Finish(
                            Err(
                                copy_failed(
                                    &self.dest,
                                    "ya existe un archivo distinto en el destino",
                                ),
                            ),
                        )
                    }
                },
                Err(err) => {
                    self.stage = CopyStage::Finished;
                    CopyAction::Finish(Err(err))
                },
            },
            (CopyStage::PrepareParent, CopyEvent::ParentPrepared { parent, outcome }) => {
                match parent {
                    None => {
                        self.stage = CopyStage::StreamToPartial;
                        CopyAction::Perform(CopyStage::StreamToPartial)
                    },
                    Some(p) => match outcome {
                        Ok(is_dir) => {
                            if is_dir {
                                self.stage = CopyStage::StreamToPartial;
                                CopyAction::Perform(CopyStage::StreamToPartial)
                            } else {
                                self.stage = CopyStage::Finished;
                                CopyAction::Finish(Err(AppError::DestinationUnavailable(p)))
                            }
                        },
                        Err(err) => {
                            self.stage = CopyStage::Finished;
                            CopyAction::Finish(Err(err))
                        },
                    },
                }
            },
            (CopyStage::StreamToPartial, CopyEvent::Streamed(r)) => {
                self.stage = CopyStage::Finished;
                match r {
                    Ok(()) => {
                        self.stage = CopyStage::HashPartial;
                        CopyAction::Perform(CopyStage::HashPartial)
                    },
                    Err(err) => CopyAction::DiscardPartial(err),
                }
            },
            (CopyStage::HashPartial, CopyEvent::PartialHashed(r)) => match r {
                Ok(h) => {
                    if hash_matches(&self.source_hash, &h) {
                        self.stage = CopyStage::Rename;
                        CopyAction::Perform(CopyStage::Rename)
                    } else {
                        self.stage = CopyStage::Finished;
                        CopyAction::DiscardPartial(
                            copy_failed(
                                &self.dest,
                                "el hash de la copia no coincide con el origen",
                            ),
                        )
                    }
                },
                Err(err) => {
                    self.stage = CopyStage::Finished;
                    CopyAction::DiscardPartial(err)
                },
            },
            (CopyStage::Rename, CopyEvent::Renamed(r)) => {
                self.stage = CopyStage::Finished;
                match r {
                    Ok(()) => CopyAction::Finish(Ok(())),
                    Err(err) => CopyAction::DiscardPartial(err),
                }
            },
            (stage, _) => CopyAction::Perform(stage),
        }
    }
}

/// The copy steps taken from a state through a series of events, with the
/// actions they asked for.
pub open spec fn spec_copy_run(m: CopyMachineView, events: Seq<CopyEventView>) -> (
    CopyMachineView,
    Seq<CopyActionView>,
)
    decreases events.len(),
{
    if events.len() == 0 {
        (m, Seq::empty())
    } else {
        let (prev, actions) = spec_copy_run(m, events.drop_last());
        let (next, a) = spec_copy_step(prev, events.last());
        (next, actions.push(a))
    }
}

/// The only transitions into the rename stage follow a partial-file hash
/// equal to the source hash.
pub open spec fn rename_follows_verified_hash(
    m: CopyMachineView,
    e: CopyEventView,
) -> bool {
    m.stage == CopyStage::HashPartial && (e matches CopyEventView::PartialHashed(Ok(h))
        && m.source_hash == Some(h))
}

/// The destination already held a file whose hash equals the source hash.
pub open spec fn destination_verified(m: CopyMachineView, e: CopyEventView) -> bool {
    m.stage == CopyStage::HashDestination && (e matches CopyEventView::DestinationHashed(Ok(h))
        && m.source_hash == Some(h))
}

/// A copy reports success only for verified bytes: every step that answers
/// `Finish(Ok(()))` either found a destination file whose hash equals the
/// source hash, or renamed a partial file after the stage that checked its
/// hash against the source hash; the paths never change along the way.
pub proof fn law_copy_succeeds_only_verified(m: CopyMachineView, e: CopyEventView)
    ensures
        spec_copy_step(m, e).0.source == m.source,
        spec_copy_step(m, e).0.dest == m.dest,
        spec_copy_step(m, e).0.partial == m.partial,
        spec_copy_step(m, e).1 matches CopyActionView::Finish(r) && r is Ok ==> destination_verified(m, e)
            || (m.stage == CopyStage::Rename && (e matches CopyEventView::Renamed(r) && r is Ok)),
        spec_copy_step(m, e).0.stage == CopyStage::Rename && m.stage != CopyStage::Rename
            ==> rename_follows_verified_hash(m, e),
{

}

/// Copying again is a no-op: when the destination already holds a file with
/// the source's hash, the copy asks only to hash it and then succeeds,
/// without writing anything.
pub proof fn law_copy_again_is_no_op(m: CopyMachineView, h: Seq<char>)
    requires
        m.stage == CopyStage::ProbeDestination,
        m.source_hash == Some(h),
    ensures
        ({
            let (m1, a1) = spec_copy_step(
                m,
                CopyEventView::DestinationProbed { exists: true, is_file: true },
            );
            let (m2, a2) = spec_copy_step(m1, CopyEventView::DestinationHashed(Ok(h)));
            &&& a1 == CopyActionView::Perform(CopyStage::HashDestination)
            &&& a2 matches CopyActionView::Finish(r) && r is Ok
            &&& m2.stage == CopyStage::Finished
        }),
{
}

/// A whole copy onto an existing file: from the start, a regular source
/// hashed as `h` and a destination file hashed as `g` take exactly the
/// source check, the two hashes and nothing else (no folder is made, nothing
/// is written or renamed). The copy succeeds when `g == h` and is refused
/// with `CopyFailed` on the destination otherwise.
pub proof fn law_copy_onto_existing_file(m: CopyMachineView, h: Seq<char>, g: Seq<char>)
    requires
        m.stage == CopyStage::CheckSource,
    ensures
        ({
            let events = seq![
                CopyEventView::SourceChecked { is_file: true },
                CopyEventView::SourceHashed(Ok(h)),
                CopyEventView::DestinationProbed { exists: true, is_file: true },
                CopyEventView::DestinationHashed(Ok(g)),
            ];
            let (f, actions) = spec_copy_run(m, events);
            &&& f.stage == CopyStage::Finished
            &&& f.source == m.source && f.dest == m.dest
            &&& actions == seq![
                CopyActionView::Perform(CopyStage::HashSource),
                CopyActionView::Perform(CopyStage::ProbeDestination),
                CopyActionView::Perform(CopyStage::HashDestination),
                CopyActionView::Finish(
                    if g == h {
                        Ok(())
                    } else {
                        Err(
                            AppErrorView::CopyFailed {
                                destination: m.dest,
                                reason: msg_different_file_exists(),
                            },
                        )
                    },
                ),
            ]
        }),
{
    let events = seq![
        CopyEventView::SourceChecked { is_file: true },
        CopyEventView::SourceHashed(Ok(h)),
        CopyEventView::DestinationProbed { exists: true, is_file: true },
        CopyEventView::DestinationHashed(Ok(g)),
    ];
    assert(events.drop_last().drop_last().drop_last().drop_last() =~= Seq::<CopyEventView>::empty());
    reveal_with_fuel(spec_copy_run, 5);
    let (f, actions) = spec_copy_run(m, events);
    assert(actions =~= seq![
        CopyActionView::Perform(CopyStage::HashSource),
        CopyActionView::Perform(CopyStage::ProbeDestination),
        CopyActionView::Perform(CopyStage::HashDestination),
        CopyActionView::Finish(
            if g == h {
                Ok(())
            } else {
                Err(
                    AppErrorView::CopyFailed {
                        destination: m.dest,
                        reason: msg_different_file_exists(),
                    },
                )
            },
        ),
    ]);
}

/// A whole copy onto something that is not a file: after the source check and
/// its hash, the destination probe ends the copy with `CopyFailed` on the
/// destination, and nothing is written.
pub proof fn law_copy_onto_non_file(m: CopyMachineView, h: Seq<char>)
    requires
        m.stage == CopyStage::CheckSource,
    ensures
        ({
            let events = seq![
                CopyEventView::SourceChecked { is_file: true },
                CopyEventView::SourceHashed(Ok(h)),
                CopyEventView::DestinationProbed { exists: true, is_file: false },
            ];
            let (f, actions) = spec_copy_run(m, events);
            &&& f.stage == CopyStage::Finished
            &&& actions == seq![
                CopyActionView::Perform(CopyStage::HashSource),
                CopyActionView::Perform(CopyStage::ProbeDestination),
                CopyActionView::Finish(
                    Err(
                        AppErrorView::CopyFailed {
                            destination: m.dest,
                            reason: msg_different_file_exists(),
                        },
                    ),
                ),
            ]
        }),
{
    let events = seq![
        CopyEventView::SourceChecked { is_file: true },
        CopyEventView::SourceHashed(Ok(h)),
        CopyEventView::DestinationProbed { exists: true, is_file: false },
    ];
    assert(events.drop_last().drop_last().drop_last() =~= Seq::<CopyEventView>::empty());
    reveal_with_fuel(spec_copy_run, 4);
    let (f, actions) = spec_copy_run(m, events);
    assert(actions =~= seq![
        CopyActionView::Perform(CopyStage::HashSource),
        CopyActionView::Perform(CopyStage::ProbeDestination),
        CopyActionView::Finish(
            Err(
                AppErrorView::CopyFailed {
                    destination: m.dest,
                    reason: msg_different_file_exists(),
                },
            ),
        ),
    ]);
}

/// Whether `source` still holds the bytes hashed earlier as `expected_hash`
/// at `expected_path`. A different path is `Some(false)`; for the same path
/// the answer needs the source's current hash: `None` asks for it.
pub fn source_bytes_unchanged(
    source: &str,
    expected_path: &str,
    expected_hash: &str,
    current_hash: Option<&str>,
) -> (r: Option<bool>)
    ensures
        !same_path_components(source@, expected_path@) ==> r == Some(false),
        same_path_components(source@, expected_path@) ==> r == match current_hash {
            Some(h) => Some(h@ == expected_hash@),
            None => None::<bool>,
        },
{
    if !paths_equal(source, expected_path) {
        return Some(false);
    }
    match current_hash {
        Some(h) => Some(str_eq(h, expected_hash)),
        None => None,
    }
}

} // verus!
