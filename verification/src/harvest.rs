//! Harvesting: which storage locations take part, how every selected file
//! ends up in the report, which library file name it gets, and what a session
//! turns into once it ends.
//!
//! The caller performs the filesystem and database work (waiting for a file
//! to settle, hashing, copying, inserting rows) and hands each result to the
//! functions here, which decide and keep the books.
use vstd::prelude::*;

use crate::domain::{
    first_fingerprint_at, ProjectLibraryStatus, SessionSnapshot,
    Category, ChangeKind, DuplicateSkip, FileFingerprint, HarvestCandidate,
    HarvestedAssetSummary, HistoricalConsolidate, SessionStatus, StorageCopySummary, StorageKind,
    StorageLocation,
};
use crate::error::{AppError, AppErrorView};
use crate::fsutil::stability::{spec_stability_message, StabilityError};
use crate::naming::{
    is_collision_resolution, library_filename_from_original, names_contain,
    resolve_filename_collision, spec_is_supported_audio_filename, spec_strip_timestamp,
    strings_contain, is_supported_audio_filename,
};
use crate::pathname::{file_name_of, join_path, path_file_name, path_join};
use crate::text::{chars_of, concat_str, str_eq, string_of};

verus! {

/// One file the operator ticked (or not) in the review list.
#[derive(Clone, Debug)]
pub struct CandidateSelection {
    pub original_path: String,
    pub selected: bool,
    pub category: Category,
    /// A library file name chosen by the operator in place of the one
    /// derived from the original file name.
    pub library_filename_override: Option<String>,
}

/// Filters of the library listing.
#[derive(Clone, Debug)]
pub struct LibraryFilter {
    pub year: Option<i32>,
    pub category: Option<Category>,
    pub project_id: Option<String>,
}

impl Default for LibraryFilter {
    fn default() -> (f: Self)
        ensures
            f.year is None,
            f.category is None,
            f.project_id is None,
    {
        LibraryFilter { year: None, category: None, project_id: None }
    }
}

/// What an ingest did with the selected files.
#[derive(Clone, Debug)]
pub struct HarvestReport {
    pub session_id: String,
    pub new_assets: u32,
    pub duplicates_skipped: u32,
    pub failed: u32,
    pub assets: Vec<HarvestedAssetSummary>,
    pub duplicates: Vec<DuplicateSkip>,
    pub storage: Vec<StorageCopySummary>,
    pub errors: Vec<String>,
}

// ---------------------------------------------------------------------------
// Selections and storage locations
// ---------------------------------------------------------------------------

/// Positions of the selected entries, in order.
pub open spec fn spec_selected_indices(sel: Seq<CandidateSelection>) -> Seq<usize>
    decreases sel.len(),
{
    if sel.len() == 0 {
        Seq::empty()
    } else {
        let r = spec_selected_indices(sel.drop_last());
        if sel.last().selected {
            r.push((sel.len() - 1) as usize)
        } else {
            r
        }
    }
}

/// Positions of the entries the operator selected.
pub fn selected_indices(selections: &[CandidateSelection]) -> (r: Vec<usize>)
    ensures
        r@ == spec_selected_indices(selections@),
{
    let mut r: Vec<usize> = Vec::new();
    let mut i: usize = 0;
    while i < selections.len()
        invariant
            0 <= i <= selections@.len(),
            r@ == spec_selected_indices(selections@.take(i as int)),
        decreases selections@.len() - i,
    {
        assert(selections@.take(i as int + 1).drop_last() =~= selections@.take(i as int));
        if selections[i].selected {
            r.push(i);
        }
        i = i + 1;
    }
    assert(selections@.take(i as int) =~= selections@);
    r
}

/// Positions of the enabled locations, in order.
pub open spec fn spec_enabled_indices(locs: Seq<StorageLocation>) -> Seq<usize>
    decreases locs.len(),
{
    if locs.len() == 0 {
        Seq::empty()
    } else {
        let r = spec_enabled_indices(locs.drop_last());
        if locs.last().enabled {
            r.push((locs.len() - 1) as usize)
        } else {
            r
        }
    }
}

/// The first enabled location of this kind.
pub open spec fn spec_first_enabled_of_kind(locs: Seq<StorageLocation>, kind: StorageKind) -> Option<
    int,
> {
    if exists|i: int| 0 <= i < locs.len() && locs[i].enabled && locs[i].kind == kind {
        let i = choose|i: int|
            0 <= i < locs.len() && locs[i].enabled && locs[i].kind == kind && forall|j: int|
                0 <= j < i ==> !(locs[j].enabled && locs[j].kind == kind);
        Some(i)
    } else {
        None
    }
}

/// The locations an ingest copies to: all enabled ones, among which the
/// first local library receives the canonical copy.
pub struct FarmLocations {
    /// Positions of the enabled locations.
    pub enabled: Vec<usize>,
    /// Position of the local library.
    pub local: usize,
}

proof fn lemma_first_of_kind(locs: Seq<StorageLocation>, kind: StorageKind, i: int)
    requires
        0 <= i < locs.len(),
        locs[i].enabled && locs[i].kind == kind,
        forall|j: int| 0 <= j < i ==> !(locs[j].enabled && locs[j].kind == kind),
    ensures
        spec_first_enabled_of_kind(locs, kind) == Some(i),
{
    let k = choose|k: int|
        0 <= k < locs.len() && locs[k].enabled && locs[k].kind == kind && forall|j: int|
            0 <= j < k ==> !(locs[j].enabled && locs[j].kind == kind);
    assert(k == i) by {
        if k < i {
        } else if k > i {
        }
    }
}

fn first_enabled_of_kind(locs: &[StorageLocation], kind: StorageKind) -> (r: Option<usize>)
    ensures
        match r {
            Some(i) => spec_first_enabled_of_kind(locs@, kind) == Some(i as int),
            None => spec_first_enabled_of_kind(locs@, kind) is None,
        },
{
    let mut i: usize = 0;
    while i < locs.len()
        invariant
            0 <= i <= locs@.len(),
            forall|j: int| 0 <= j < i ==> !(locs@[j].enabled && locs@[j].kind == kind),
        decreases locs@.len() - i,
    {
        if locs[i].enabled && locs[i].kind == kind {
            proof {
                lemma_first_of_kind(locs@, kind, i as int);
            }
            return Some(i);
        }
        i = i + 1;
    }
    None
}

/// Positions of the enabled locations.
pub fn enabled_indices(locations: &[StorageLocation]) -> (r: Vec<usize>)
    ensures
        r@ == spec_enabled_indices(locations@),
{
    let mut enabled: Vec<usize> = Vec::new();
    let mut i: usize = 0;
    while i < locations.len()
        invariant
            0 <= i <= locations@.len(),
            enabled@ == spec_enabled_indices(locations@.take(i as int)),
        decreases locations@.len() - i,
    {
        assert(locations@.take(i as int + 1).drop_last() =~= locations@.take(i as int));
        if locations[i].enabled {
            enabled.push(i);
        }
        i = i + 1;
    }
    assert(locations@.take(i as int) =~= locations@);
    enabled
}

/// The storage locations an ingest needs: a local library must be enabled
/// (else `LocalLibraryMissing`); mirror folders are optional.
pub fn farm_locations(locations: &[StorageLocation]) -> (r: Result<FarmLocations, AppError>)
    ensures
        match spec_first_enabled_of_kind(locations@, StorageKind::Local) {
            None => r matches Err(e) && e@ == AppErrorView::LocalLibraryMissing,
            Some(i) => r matches Ok(f) && f.local == i && f.enabled@ == spec_enabled_indices(
                locations@,
            ),
        },
{
    let enabled = enabled_indices(locations);
    let local = match first_enabled_of_kind(locations, StorageKind::Local) {
        Some(l) => l,
        None => {
            return Err(AppError::LocalLibraryMissing);
        },
    };
    Ok(FarmLocations { enabled, local })
}

/// Positions of the enabled locations other than the local library (same
/// id), in order: where an ingest mirrors each new asset.
pub open spec fn spec_mirror_indices(locs: Seq<StorageLocation>, local_id: Seq<char>) -> Seq<usize>
    decreases locs.len(),
{
    if locs.len() == 0 {
        Seq::empty()
    } else {
        let r = spec_mirror_indices(locs.drop_last(), local_id);
        if locs.last().enabled && locs.last().id@ != local_id {
            r.push((locs.len() - 1) as usize)
        } else {
            r
        }
    }
}

/// The mirrors of an ingest whose local library is at position `local`.
pub fn mirror_indices(locations: &[StorageLocation], local: usize) -> (r: Vec<usize>)
    requires
        local < locations@.len(),
    ensures
        r@ == spec_mirror_indices(locations@, locations@[local as int].id@),
{
    let local_id = &locations[local].id;
    let mut r: Vec<usize> = Vec::new();
    let mut i: usize = 0;
    while i < locations.len()
        invariant
            0 <= i <= locations@.len(),
            local < locations@.len(),
            *local_id == locations@[local as int].id,
            r@ == spec_mirror_indices(locations@.take(i as int), local_id@),
        decreases locations@.len() - i,
    {
        assert(locations@.take(i as int + 1).drop_last() =~= locations@.take(i as int));
        if locations[i].enabled && !str_eq(locations[i].id.as_str(), local_id.as_str()) {
            r.push(i);
        }
        i = i + 1;
    }
    assert(locations@.take(i as int) =~= locations@);
    r
}

// ---------------------------------------------------------------------------
// The report of an ingest
// ---------------------------------------------------------------------------

/// A report as plain values.
#[verifier::ext_equal]
pub struct HarvestReportView {
    pub session_id: Seq<char>,
    pub new_assets: u32,
    pub duplicates_skipped: u32,
    pub failed: u32,
    pub assets: Seq<HarvestedAssetView>,
    pub duplicates: Seq<DuplicateSkip>,
    pub storage: Seq<StorageCopySummary>,
    pub errors: Seq<Seq<char>>,
}

/// An asset summary as plain values.
pub struct HarvestedAssetView {
    pub asset_id: Seq<char>,
    pub canonical_filename: Seq<char>,
    pub category: Category,
    pub original_filename: Seq<char>,
    pub duplicate: bool,
}

pub open spec fn asset_view(a: HarvestedAssetSummary) -> HarvestedAssetView {
    HarvestedAssetView {
        asset_id: a.asset_id@,
        canonical_filename: a.canonical_filename@,
        category: a.category,
        original_filename: a.original_filename@,
        duplicate: a.duplicate,
    }
}

pub open spec fn assets_view(v: Seq<HarvestedAssetSummary>) -> Seq<HarvestedAssetView> {
    v.map_values(|a: HarvestedAssetSummary| asset_view(a))
}

pub open spec fn texts_view(v: Seq<String>) -> Seq<Seq<char>> {
    v.map_values(|s: String| s@)
}

impl View for HarvestReport {
    type V = HarvestReportView;

    open spec fn view(&self) -> HarvestReportView {
        HarvestReportView {
            session_id: self.session_id@,
            new_assets: self.new_assets,
            duplicates_skipped: self.duplicates_skipped,
            failed: self.failed,
            assets: assets_view(self.assets@),
            duplicates: self.duplicates@,
            storage: self.storage@,
            errors: texts_view(self.errors@),
        }
    }
}

/// The copy summary a location starts an ingest with.
pub open spec fn starts_summary(
    s: StorageCopySummary,
    l: StorageLocation,
    selected: u32,
) -> bool {
    &&& s.storage_location_id@ == l.id@
    &&& s.kind == l.kind
    &&& s.label@ == l.label@
    &&& s.copied == 0
    &&& s.failed == 0
    &&& s.total == selected
}

pub proof fn lemma_enabled_indices_bounded(locs: Seq<StorageLocation>)
    ensures
        forall|k: int|
            0 <= k < spec_enabled_indices(locs).len() ==> #[trigger] spec_enabled_indices(locs)[k]
                < locs.len(),
        spec_enabled_indices(locs).len() <= locs.len(),
    decreases locs.len(),
{
    if locs.len() > 0 {
        lemma_enabled_indices_bounded(locs.drop_last());
    }
}

/// The copy summary `s` after one more copy, successful or not.
pub open spec fn bumped(s: StorageCopySummary, ok: bool) -> StorageCopySummary {
    if ok {
        StorageCopySummary { copied: (s.copied + 1) as u32, ..s }
    } else {
        StorageCopySummary { failed: (s.failed + 1) as u32, ..s }
    }
}

/// The summaries after one copy to location `id`: the first summary of that
/// location counts it; without one, nothing changes.
pub open spec fn spec_bump(storage: Seq<StorageCopySummary>, id: Seq<char>, ok: bool) -> Seq<
    StorageCopySummary,
>
    decreases storage.len(),
{
    if storage.len() == 0 {
        storage
    } else if storage[0].storage_location_id@ == id {
        storage.update(0, bumped(storage[0], ok))
    } else {
        seq![storage[0]] + spec_bump(storage.drop_first(), id, ok)
    }
}

proof fn lemma_bump_at(storage: Seq<StorageCopySummary>, id: Seq<char>, ok: bool, i: int)
    requires
        0 <= i <= storage.len(),
        forall|j: int| 0 <= j < i ==> storage[j].storage_location_id@ != id,
    ensures
        i < storage.len() && storage[i].storage_location_id@ == id ==> spec_bump(storage, id, ok)
            == storage.update(i, bumped(storage[i], ok)),
        i == storage.len() ==> spec_bump(storage, id, ok) == storage,
    decreases i,
{
    if i > 0 {
        let rest = storage.drop_first();
        assert forall|j: int| 0 <= j < i - 1 implies rest[j].storage_location_id@ != id by {
            assert(rest[j] == storage[j + 1]);
        }
        lemma_bump_at(rest, id, ok, i - 1);
        if i < storage.len() && storage[i].storage_location_id@ == id {
            assert(rest[i - 1] == storage[i]);
            assert(seq![storage[0]] + rest.update(i - 1, bumped(storage[i], ok)) =~= storage.update(
                i,
                bumped(storage[i], ok),
            ));
        }
        if i == storage.len() {
            assert(seq![storage[0]] + rest =~= storage);
        }
    }
}

/// All counters can grow by `n` without overflowing.
pub open spec fn report_has_room(r: HarvestReportView, n: int) -> bool {
    &&& r.new_assets + n <= u32::MAX
    &&& r.duplicates_skipped + n <= u32::MAX
    &&& r.failed + n <= u32::MAX
    &&& forall|k: int|
        0 <= k < r.storage.len() ==> #[trigger] r.storage[k].copied + n <= u32::MAX
            && r.storage[k].failed + n <= u32::MAX
}

/// One copy changes one summary by one, and keeps every location, kind and label.
pub open spec fn bumps_once(
    before: Seq<StorageCopySummary>,
    after: Seq<StorageCopySummary>,
) -> bool {
    &&& after.len() == before.len()
    &&& forall|k: int|
        0 <= k < before.len() ==> {
            &&& (#[trigger] after[k]).storage_location_id == before[k].storage_location_id
            &&& after[k].kind == before[k].kind
            &&& after[k].label == before[k].label
            &&& after[k].total == before[k].total
            &&& before[k].copied <= after[k].copied <= before[k].copied + 1
            &&& before[k].failed <= after[k].failed <= before[k].failed + 1
        }
}

proof fn lemma_bump_shape(storage: Seq<StorageCopySummary>, id: Seq<char>, ok: bool)
    requires
        forall|k: int|
            0 <= k < storage.len() ==> #[trigger] storage[k].copied < u32::MAX
                && storage[k].failed < u32::MAX,
    ensures
        bumps_once(storage, spec_bump(storage, id, ok)),
    decreases storage.len(),
{
    if storage.len() > 0 {
        let rest = storage.drop_first();
        assert forall|k: int|
            0 <= k < rest.len() implies #[trigger] rest[k].copied < u32::MAX && rest[k].failed
            < u32::MAX by {
            assert(rest[k] == storage[k + 1]);
        }
        lemma_bump_shape(rest, id, ok);
        if storage[0].storage_location_id@ != id {
            let after = spec_bump(storage, id, ok);
            assert forall|k: int| 0 <= k < storage.len() implies {
                &&& (#[trigger] after[k]).storage_location_id == storage[k].storage_location_id
                &&& after[k].kind == storage[k].kind
                &&& after[k].label == storage[k].label
                &&& after[k].total == storage[k].total
                &&& storage[k].copied <= after[k].copied <= storage[k].copied + 1
                &&& storage[k].failed <= after[k].failed <= storage[k].failed + 1
            } by {
                if k > 0 {
                    assert(after[k] == spec_bump(rest, id, ok)[k - 1]);
                    assert(rest[k - 1] == storage[k]);
                }
            }
        }
    }
}

fn bump_storage(storage: &mut Vec<StorageCopySummary>, id: &str, ok: bool)
    requires
        forall|k: int|
            0 <= k < old(storage)@.len() ==> #[trigger] old(storage)@[k].copied < u32::MAX
                && old(storage)@[k].failed < u32::MAX,
    ensures
        final(storage)@ == spec_bump(old(storage)@, id@, ok),
{
    let mut i: usize = 0;
    while i < storage.len()
        invariant
            0 <= i <= storage@.len(),
            storage@ == old(storage)@,
            forall|k: int|
                0 <= k < storage@.len() ==> #[trigger] storage@[k].copied < u32::MAX
                    && storage@[k].failed < u32::MAX,
            forall|j: int| 0 <= j < i ==> storage@[j].storage_location_id@ != id@,
        decreases storage@.len() - i,
    {
        if str_eq(storage[i].storage_location_id.as_str(), id) {
            proof {
                lemma_bump_at(storage@, id@, ok, i as int);
            }
            let mut s = storage.remove(i);
            if ok {
                s.copied = s.copied + 1;
            } else {
                s.failed = s.failed + 1;
            }
            storage.insert(i, s);
            assert(storage@ =~= old(storage)@.update(i as int, bumped(old(storage)@[i as int], ok)));
            return;
        }
        i = i + 1;
    }
    proof {
        lemma_bump_at(storage@, id@, ok, i as int);
    }
}

/// The result of copying a new asset to one mirror location.
#[derive(Debug)]
pub struct MirrorCopy {
    pub location_id: String,
    pub kind: StorageKind,
    /// The error's message, when the copy failed.
    pub error: Option<String>,
}

/// What became of one selected file.
#[derive(Debug)]
pub enum CandidateOutcome {
    /// The file did not settle.
    Unstable { filename: String, error: StabilityError },
    /// The file could not be hashed; `message` says why.
    Failed { filename: String, message: String },
    /// The same bytes are already in the library.
    Duplicate(DuplicateSkip),
    /// The copy into the local library failed; `message` says why.
    LocalCopyFailed { local_id: String, message: String },
    /// The file is in the library now, as asset `asset_id` named
    /// `canonical_filename`; `source_changed` says whether its bytes changed
    /// during the copy, `mirrors` how each mirror copy went.
    Harvested {
        asset_id: String,
        canonical_filename: String,
        category: Category,
        original_filename: String,
        local_id: String,
        source_changed: bool,
        mirrors: Vec<MirrorCopy>,
    },
}

pub struct MirrorCopyView {
    pub location_id: Seq<char>,
    pub kind: StorageKind,
    pub error: Option<Seq<char>>,
}

impl View for MirrorCopy {
    type V = MirrorCopyView;

    open spec fn view(&self) -> MirrorCopyView {
        MirrorCopyView {
            location_id: self.location_id@,
            kind: self.kind,
            error: match self.error {
                Some(e) => Some(e@),
                None => None,
            },
        }
    }
}

pub enum CandidateOutcomeView {
    Unstable { filename: Seq<char>, error: StabilityError },
    Failed { filename: Seq<char>, message: Seq<char> },
    Duplicate(DuplicateSkip),
    LocalCopyFailed { local_id: Seq<char>, message: Seq<char> },
    Harvested {
        asset_id: Seq<char>,
        canonical_filename: Seq<char>,
        category: Category,
        original_filename: Seq<char>,
        local_id: Seq<char>,
        source_changed: bool,
        mirrors: Seq<MirrorCopyView>,
    },
}

impl View for CandidateOutcome {
    type V = CandidateOutcomeView;

    open spec fn view(&self) -> CandidateOutcomeView {
        match self {
            CandidateOutcome::Unstable { filename, error } => CandidateOutcomeView::Unstable {
                filename: filename@,
                error: *error,
            },
            CandidateOutcome::Failed { filename, message } => CandidateOutcomeView::Failed {
                filename: filename@,
                message: message@,
            },
            CandidateOutcome::Duplicate(d) => CandidateOutcomeView::Duplicate(*d),
            CandidateOutcome::LocalCopyFailed { local_id, message } => {
                CandidateOutcomeView::LocalCopyFailed { local_id: local_id@, message: message@ }
            },
            CandidateOutcome::Harvested {
                asset_id,
                canonical_filename,
                category,
                original_filename,
                local_id,
                source_changed,
                mirrors,
            } => {
                CandidateOutcomeView::Harvested {
                    asset_id: asset_id@,
                    canonical_filename: canonical_filename@,
                    category: *category,
                    original_filename: original_filename@,
                    local_id: local_id@,
                    source_changed: *source_changed,
                    mirrors: mirrors@.map_values(|m: MirrorCopy| m@),
                }
            },
        }
    }
}

pub open spec fn msg_still_writing(filename: Seq<char>) -> Seq<char> {
    "El archivo todavía se está escribiendo: "@ + filename
}

/// The error line of a file that did not settle.
pub open spec fn spec_unstable_message(filename: Seq<char>, e: StabilityError) -> Seq<char> {
    match e {
        StabilityError::StillWriting => msg_still_writing(filename),
        StabilityError::Empty => msg_still_writing(filename),
        _ => filename + ": "@ + spec_stability_message(e),
    }
}

pub open spec fn msg_local_copy_failed(message: Seq<char>) -> Seq<char> {
    "Copia fallida (local): "@ + message
}

pub open spec fn msg_source_changed(filename: Seq<char>) -> Seq<char> {
    "El origen cambió durante la copia (no se modificó desde Audionáutica): "@ + filename
}

pub open spec fn msg_mirror_failed(kind: StorageKind, message: Seq<char>) -> Seq<char> {
    "Copia fallida hacia "@ + kind.spec_label_es() + ": "@ + message
}

/// The error lines of the failed mirror copies, in order.
pub open spec fn spec_mirror_errors(m: Seq<MirrorCopyView>) -> Seq<Seq<char>>
    decreases m.len(),
{
    if m.len() == 0 {
        Seq::empty()
    } else {
        let r = spec_mirror_errors(m.drop_last());
        match m.last().error {
            Some(e) => r.push(msg_mirror_failed(m.last().kind, e)),
            None => r,
        }
    }
}

/// The summaries after the mirror copies, in order.
pub open spec fn spec_bump_mirrors(storage: Seq<StorageCopySummary>, m: Seq<MirrorCopyView>) -> Seq<
    StorageCopySummary,
>
    decreases m.len(),
{
    if m.len() == 0 {
        storage
    } else {
        spec_bump(
            spec_bump_mirrors(storage, m.drop_last()),
            m.last().location_id,
            m.last().error is None,
        )
    }
}

/// How many copy counters an outcome may advance at one location at most.
pub open spec fn outcome_weight(o: CandidateOutcomeView) -> int {
    match o {
        CandidateOutcomeView::Harvested { mirrors, .. } => 1 + mirrors.len() as int,
        _ => 1,
    }
}

/// The report after one more selected file.
pub open spec fn spec_record(r: HarvestReportView, o: CandidateOutcomeView) -> HarvestReportView {
    match o {
        CandidateOutcomeView::Unstable { filename, error } => HarvestReportView {
            failed: (r.failed + 1) as u32,
            errors: r.errors.push(spec_unstable_message(filename, error)),
            ..r
        },
        CandidateOutcomeView::Failed { filename, message } => HarvestReportView {
            failed: (r.failed + 1) as u32,
            errors: r.errors.push(filename + ": "@ + message),
            ..r
        },
        CandidateOutcomeView::Duplicate(d) => HarvestReportView {
            duplicates_skipped: (r.duplicates_skipped + 1) as u32,
            duplicates: r.duplicates.push(d),
            ..r
        },
        CandidateOutcomeView::LocalCopyFailed { local_id, message } => HarvestReportView {
            failed: (r.failed + 1) as u32,
            errors: r.errors.push(msg_local_copy_failed(message)),
            storage: spec_bump(r.storage, local_id, false),
            ..r
        },
        CandidateOutcomeView::Harvested {
            asset_id,
            canonical_filename,
            category,
            original_filename,
            local_id,
            source_changed,
            mirrors,
        } => {
            let errors = if source_changed {
                r.errors.push(msg_source_changed(original_filename))
            } else {
                r.errors
            };
            HarvestReportView {
                new_assets: (r.new_assets + 1) as u32,
                assets: r.assets.push(
                    HarvestedAssetView {
                        asset_id,
                        canonical_filename,
                        category,
                        original_filename,
                        duplicate: false,
                    },
                ),
                errors: errors + spec_mirror_errors(mirrors),
                storage: spec_bump_mirrors(spec_bump(r.storage, local_id, true), mirrors),
                ..r
            }
        },
    }
}

/// The summaries' totals set to the number of new assets.
pub open spec fn spec_finish(r: HarvestReportView) -> HarvestReportView {
    HarvestReportView {
        storage: r.storage.map_values(
            |s: StorageCopySummary| StorageCopySummary { total: r.new_assets, ..s },
        ),
        ..r
    }
}

/// Counters of `after` grew from those of `before` by at most `n`, with the
/// same locations, kinds, labels and totals.
pub open spec fn grows_within(
    before: Seq<StorageCopySummary>,
    after: Seq<StorageCopySummary>,
    n: int,
) -> bool {
    &&& after.len() == before.len()
    &&& forall|k: int|
        0 <= k < before.len() ==> {
            &&& (#[trigger] after[k]).storage_location_id == before[k].storage_location_id
            &&& after[k].kind == before[k].kind
            &&& after[k].label == before[k].label
            &&& after[k].total == before[k].total
            &&& before[k].copied <= after[k].copied <= before[k].copied + n
            &&& before[k].failed <= after[k].failed <= before[k].failed + n
        }
}

proof fn lemma_bump_grows(
    base: Seq<StorageCopySummary>,
    storage: Seq<StorageCopySummary>,
    id: Seq<char>,
    ok: bool,
    n: int,
    limit: int,
)
    requires
        grows_within(base, storage, n),
        n + 1 <= limit,
        forall|k: int|
            0 <= k < base.len() ==> #[trigger] base[k].copied + limit <= u32::MAX
                && base[k].failed + limit <= u32::MAX,
    ensures
        grows_within(base, spec_bump(storage, id, ok), n + 1),
{
    assert forall|k: int|
        0 <= k < storage.len() implies #[trigger] storage[k].copied < u32::MAX
        && storage[k].failed < u32::MAX by {
        assert(base[k].copied + limit <= u32::MAX);
    }
    lemma_bump_shape(storage, id, ok);
    let after = spec_bump(storage, id, ok);
    assert forall|k: int| 0 <= k < base.len() implies {
        &&& (#[trigger] after[k]).storage_location_id == base[k].storage_location_id
        &&& after[k].kind == base[k].kind
        &&& after[k].label == base[k].label
        &&& after[k].total == base[k].total
        &&& base[k].copied <= after[k].copied <= base[k].copied + n + 1
        &&& base[k].failed <= after[k].failed <= base[k].failed + n + 1
    } by {
        assert(storage[k].copied <= base[k].copied + n);
    }
}

fn stability_message(filename: &str, e: StabilityError) -> (r: String)
    ensures
        r@ == spec_unstable_message(filename@, e),
{
    match e {
        StabilityError::StillWriting | StabilityError::Empty => concat_str(
            "El archivo todavía se está escribiendo: ",
            filename,
        ),
        _ => {
            let a = concat_str(filename, ": ");
            concat_str(a.as_str(), e.message())
        },
    }
}

fn push_text(errors: &mut Vec<String>, msg: String)
    ensures
        texts_view(final(errors)@) == texts_view(old(errors)@).push(msg@),
        final(errors)@.len() == old(errors)@.len() + 1,
{
    errors.push(msg);
    assert(texts_view(errors@) =~= texts_view(old(errors)@).push(msg@));
}

impl HarvestReport {
    /// An empty report for `session_id`, with one copy summary per enabled
    /// location (in order), each expecting `selected` files.
    pub fn start(session_id: &str, locations: &[StorageLocation], selected: u32) -> (r: Self)
        ensures
            r@.session_id == session_id@,
            r@.new_assets == 0,
            r@.duplicates_skipped == 0,
            r@.failed == 0,
            r@.assets.len() == 0,
            r@.duplicates.len() == 0,
            r@.errors.len() == 0,
            r@.storage.len() == spec_enabled_indices(locations@).len(),
            forall|k: int|
                0 <= k < r@.storage.len() ==> starts_summary(
                    #[trigger] r@.storage[k],
                    locations@[spec_enabled_indices(locations@)[k] as int],
                    selected,
                ),
    {
        let mut storage: Vec<StorageCopySummary> = Vec::new();
        let mut i: usize = 0;
        while i < locations.len()
            invariant
                0 <= i <= locations@.len(),
                storage@.len() == spec_enabled_indices(locations@.take(i as int)).len(),
                forall|k: int|
                    0 <= k < storage@.len() ==> starts_summary(
                        #[trigger] storage@[k],
                        locations@[spec_enabled_indices(locations@.take(i as int))[k] as int],
                        selected,
                    ),
            decreases locations@.len() - i,
        {
            let ghost before = locations@.take(i as int);
            let ghost after = locations@.take(i as int + 1);
            assert(after.drop_last() =~= before);
            if locations[i].enabled {
                let l = &locations[i];
                storage.push(
                    StorageCopySummary {
                        storage_location_id: crate::error::copy_string(l.id.as_str()),
                        kind: l.kind,
                        label: crate::error::copy_string(l.label.as_str()),
                        copied: 0,
                        failed: 0,
                        total: selected,
                    },
                );
            }
            i = i + 1;
        }
        assert(locations@.take(i as int) =~= locations@);
        HarvestReport {
            session_id: crate::error::copy_string(session_id),
            new_assets: 0,
            duplicates_skipped: 0,
            failed: 0,
            assets: Vec::new(),
            duplicates: Vec::new(),
            storage,
            errors: Vec::new(),
        }
    }

    /// Whether every counter can still grow by `n`.
    pub fn has_room(&self, n: u32) -> (b: bool)
        ensures
            b == report_has_room(self@, n as int),
    {
        if self.new_assets > u32::MAX - n || self.duplicates_skipped > u32::MAX - n
            || self.failed > u32::MAX - n {
            return false;
        }
        let mut k: usize = 0;
        while k < self.storage.len()
            invariant
                0 <= k <= self.storage@.len(),
                forall|j: int|
                    0 <= j < k ==> #[trigger] self.storage@[j].copied + n <= u32::MAX
                        && self.storage@[j].failed + n <= u32::MAX,
            decreases self.storage@.len() - k,
        {
            if self.storage[k].copied > u32::MAX - n || self.storage[k].failed > u32::MAX - n {
                return false;
            }
            k = k + 1;
        }
        true
    }

    /// Books one selected file (see [`spec_record`]): every file counts once,
    /// as new, duplicate or failed; copies count at their location; a failed
    /// mirror copy adds an error line but the asset still counts as new.
    pub fn record(&mut self, outcome: CandidateOutcome)
        requires
            report_has_room(old(self)@, outcome_weight(outcome@)),
        ensures
            final(self)@ == spec_record(old(self)@, outcome@),
    {
        let ghost r0 = self@;
        let ghost o = outcome@;
        match outcome {
            CandidateOutcome::Unstable { filename, error } => {
                self.failed = self.failed + 1;
                push_text(&mut self.errors, stability_message(filename.as_str(), error));
            },
            CandidateOutcome::Failed { filename, message } => {
                self.failed = self.failed + 1;
                let a = concat_str(filename.as_str(), ": ");
                push_text(&mut self.errors, concat_str(a.as_str(), message.as_str()));
            },
            CandidateOutcome::Duplicate(d) => {
                self.duplicates_skipped = self.duplicates_skipped + 1;
                self.duplicates.push(d);
            },
            CandidateOutcome::LocalCopyFailed { local_id, message } => {
                self.failed = self.failed + 1;
                push_text(
                    &mut self.errors,
                    concat_str("Copia fallida (local): ", message.as_str()),
                );
                proof {
                    assert forall|k: int|
                        0 <= k < self.storage@.len() implies #[trigger] self.storage@[k].copied
                        < u32::MAX && self.storage@[k].failed < u32::MAX by {
                        assert(r0.storage[k].copied + 1 <= u32::MAX);
                    }
                }
                bump_storage(&mut self.storage, local_id.as_str(), false);
            },
            CandidateOutcome::Harvested {
                asset_id,
                canonical_filename,
                category,
                original_filename,
                local_id,
                source_changed,
                mirrors,
            } => {
                let ghost mv = mirrors@.map_values(|m: MirrorCopy| m@);
                let ghost n: int = 1 + mirrors@.len() as int;
                if source_changed {
                    push_text(
                        &mut self.errors,
                        concat_str(
                            "El origen cambió durante la copia (no se modificó desde Audionáutica): ",
                            original_filename.as_str(),
                        ),
                    );
                }
                let ghost errors0 = texts_view(self.errors@);
                proof {
                    assert(grows_within(r0.storage, r0.storage, 0));
                    lemma_bump_grows(r0.storage, r0.storage, local_id@, true, 0, n);
                    lemma_bump_shape(r0.storage, local_id@, true);
                }
                bump_storage(&mut self.storage, local_id.as_str(), true);
                let ghost bumped0 = self.storage@;
                let mut j: usize = 0;
                while j < mirrors.len()
                    invariant
                        0 <= j <= mirrors@.len(),
                        mv == mirrors@.map_values(|m: MirrorCopy| m@),
                        n == 1 + mirrors@.len() as int,
                        report_has_room(r0, n),
                        self.session_id == old(self).session_id,
                        self.new_assets == r0.new_assets,
                        self.duplicates_skipped == r0.duplicates_skipped,
                        self.failed == r0.failed,
                        assets_view(self.assets@) == r0.assets,
                        self.duplicates@ == r0.duplicates,
                        self.storage@ == spec_bump_mirrors(bumped0, mv.take(j as int)),
                        grows_within(r0.storage, self.storage@, 1 + j),
                        texts_view(self.errors@) == errors0 + spec_mirror_errors(
                            mv.take(j as int),
                        ),
                    decreases mirrors@.len() - j,
                {
                    assert(mv.take(j as int + 1).drop_last() =~= mv.take(j as int));
                    assert(mv.take(j as int + 1).last() == mirrors@[j as int]@);
                    let m = &mirrors[j];
                    proof {
                        lemma_bump_grows(
                            r0.storage,
                            self.storage@,
                            m.location_id@,
                            m.error is None,
                            1 + j,
                            n,
                        );
                        assert forall|k: int|
                            0 <= k < self.storage@.len() implies #[trigger] self.storage@[k].copied
                            < u32::MAX && self.storage@[k].failed < u32::MAX by {
                            assert(r0.storage[k].copied + n <= u32::MAX);
                        }
                    }
                    let ok = m.error.is_none();
                    bump_storage(&mut self.storage, m.location_id.as_str(), ok);
                    match &m.error {
                        Some(e) => {
                            let a = concat_str("Copia fallida hacia ", m.kind.label_es());
                            let b = concat_str(a.as_str(), ": ");
                            push_text(&mut self.errors, concat_str(b.as_str(), e.as_str()));
                            assert(texts_view(self.errors@) =~= errors0 + spec_mirror_errors(
                                mv.take(j as int + 1),
                            ));
                        },
                        None => {},
                    }
                    j = j + 1;
                }
                assert(mv.take(j as int) =~= mv);
                self.new_assets = self.new_assets + 1;
                let ghost a0 = self.assets@;
                self.assets.push(
                    HarvestedAssetSummary {
                        asset_id,
                        canonical_filename,
                        category,
                        original_filename,
                        duplicate: false,
                    },
                );
                assert(assets_view(self.assets@) =~= assets_view(a0).push(
                    asset_view(self.assets@.last()),
                ));
            },
        }
    }

    /// Sets every summary's total to the number of new assets.
    pub fn finish(&mut self)
        ensures
            final(self)@ == spec_finish(old(self)@),
    {
        let ghost r0 = self@;
        let mut k: usize = 0;
        while k < self.storage.len()
            invariant
                0 <= k <= self.storage@.len(),
                self.storage@.len() == r0.storage.len(),
                self.session_id == old(self).session_id,
                self.new_assets == r0.new_assets,
                self.duplicates_skipped == r0.duplicates_skipped,
                self.failed == r0.failed,
                assets_view(self.assets@) == r0.assets,
                self.duplicates@ == r0.duplicates,
                texts_view(self.errors@) == r0.errors,
                forall|j: int|
                    0 <= j < self.storage@.len() ==> #[trigger] self.storage@[j] == if j < k {
                        StorageCopySummary { total: r0.new_assets, ..r0.storage[j] }
                    } else {
                        r0.storage[j]
                    },
            decreases self.storage@.len() - k,
        {
            let mut s = self.storage.remove(k);
            s.total = self.new_assets;
            self.storage.insert(k, s);
            k = k + 1;
        }
        assert(self@.storage =~= spec_finish(r0).storage);
    }
}

/// The report after each outcome in turn.
pub open spec fn spec_record_all(r: HarvestReportView, outcomes: Seq<CandidateOutcomeView>) -> HarvestReportView
    decreases outcomes.len(),
{
    if outcomes.len() == 0 {
        r
    } else {
        spec_record(spec_record_all(r, outcomes.drop_last()), outcomes.last())
    }
}

proof fn lemma_bump_keeps_len(storage: Seq<StorageCopySummary>, id: Seq<char>, ok: bool)
    ensures
        spec_bump(storage, id, ok).len() == storage.len(),
        forall|k: int|
            0 <= k < storage.len() ==> (#[trigger] spec_bump(storage, id, ok)[k]).storage_location_id
                == storage[k].storage_location_id,
    decreases storage.len(),
{
    if storage.len() > 0 {
        lemma_bump_keeps_len(storage.drop_first(), id, ok);
        let after = spec_bump(storage, id, ok);
        assert forall|k: int|
            0 <= k < storage.len() implies (#[trigger] after[k]).storage_location_id
            == storage[k].storage_location_id by {
            if k > 0 && storage[0].storage_location_id@ != id {
                assert(after[k] == spec_bump(storage.drop_first(), id, ok)[k - 1]);
            }
        }
    }
}

proof fn lemma_bump_mirrors_keeps_len(storage: Seq<StorageCopySummary>, m: Seq<MirrorCopyView>)
    ensures
        spec_bump_mirrors(storage, m).len() == storage.len(),
        forall|k: int|
            0 <= k < storage.len() ==> (#[trigger] spec_bump_mirrors(
                storage,
                m,
            )[k]).storage_location_id == storage[k].storage_location_id,
    decreases m.len(),
{
    if m.len() > 0 {
        lemma_bump_mirrors_keeps_len(storage, m.drop_last());
        lemma_bump_keeps_len(
            spec_bump_mirrors(storage, m.drop_last()),
            m.last().location_id,
            m.last().error is None,
        );
    }
}

/// Every selected file is accounted for exactly once: after booking a series
/// of outcomes, new + duplicate + failed grew by the number of outcomes, one
/// asset summary was added per new asset and one duplicate entry per
/// duplicate, and the report still has one summary per location, in order.
pub proof fn law_report_accounts_every_file(
    r: HarvestReportView,
    outcomes: Seq<CandidateOutcomeView>,
)
    requires
        r.new_assets + r.duplicates_skipped + r.failed + outcomes.len() <= u32::MAX,
    ensures
        ({
            let f = spec_record_all(r, outcomes);
            &&& f.new_assets + f.duplicates_skipped + f.failed == r.new_assets
                + r.duplicates_skipped + r.failed + outcomes.len()
            &&& f.assets.len() - r.assets.len() == f.new_assets - r.new_assets
            &&& f.duplicates.len() - r.duplicates.len() == f.duplicates_skipped
                - r.duplicates_skipped
            &&& f.new_assets >= r.new_assets
            &&& f.duplicates_skipped >= r.duplicates_skipped
            &&& f.failed >= r.failed
            &&& f.session_id == r.session_id
            &&& f.storage.len() == r.storage.len()
            &&& forall|k: int|
                0 <= k < r.storage.len() ==> (#[trigger] f.storage[k]).storage_location_id
                    == r.storage[k].storage_location_id
        }),
    decreases outcomes.len(),
{
    if outcomes.len() > 0 {
        let prev = outcomes.drop_last();
        law_report_accounts_every_file(r, prev);
        let p = spec_record_all(r, prev);
        match outcomes.last() {
            CandidateOutcomeView::LocalCopyFailed { local_id, .. } => {
                lemma_bump_keeps_len(p.storage, local_id, false);
            },
            CandidateOutcomeView::Harvested { local_id, mirrors, .. } => {
                lemma_bump_keeps_len(p.storage, local_id, true);
                lemma_bump_mirrors_keeps_len(spec_bump(p.storage, local_id, true), mirrors);
            },
            _ => {},
        }
    }
}

/// The copy summaries name pairwise distinct locations.
pub open spec fn distinct_locations(storage: Seq<StorageCopySummary>) -> bool {
    forall|a: int, b: int|
        0 <= a < storage.len() && 0 <= b < storage.len() && a != b ==> (#[trigger] storage[a]).storage_location_id@
            != (#[trigger] storage[b]).storage_location_id@
}

/// The summary position of the `j`-th mirror: the summaries in order,
/// skipping the local library's.
pub open spec fn mirror_position(local: int, j: int) -> int {
    if j < local {
        j
    } else {
        j + 1
    }
}

/// An outcome names the local library at position `local` of `storage`,
/// and a harvested asset's mirror copies name every other location once,
/// in order.
pub open spec fn outcome_names_locations(
    o: CandidateOutcomeView,
    storage: Seq<StorageCopySummary>,
    local: int,
) -> bool {
    match o {
        CandidateOutcomeView::LocalCopyFailed { local_id, .. } => local_id
            == storage[local].storage_location_id@,
        CandidateOutcomeView::Harvested { local_id, mirrors, .. } => {
            &&& local_id == storage[local].storage_location_id@
            &&& mirrors.len() + 1 == storage.len()
            &&& forall|j: int|
                0 <= j < mirrors.len() ==> (#[trigger] mirrors[j]).location_id
                    == storage[mirror_position(local, j)].storage_location_id@
        },
        _ => true,
    }
}

/// A report as an ingest starts it: nothing counted yet.
pub open spec fn report_is_fresh(r: HarvestReportView) -> bool {
    &&& r.new_assets == 0
    &&& r.duplicates_skipped == 0
    &&& r.failed == 0
    &&& r.assets.len() == 0
    &&& r.duplicates.len() == 0
    &&& forall|k: int|
        0 <= k < r.storage.len() ==> (#[trigger] r.storage[k]).copied == 0 && r.storage[k].failed
            == 0
}

proof fn lemma_bump_distinct(storage: Seq<StorageCopySummary>, q: int, ok: bool)
    requires
        distinct_locations(storage),
        0 <= q < storage.len(),
    ensures
        spec_bump(storage, storage[q].storage_location_id@, ok) == storage.update(
            q,
            bumped(storage[q], ok),
        ),
{
    let id = storage[q].storage_location_id@;
    assert forall|j: int| 0 <= j < q implies storage[j].storage_location_id@ != id by {
        assert(storage[j] == storage[j]);
    }
    lemma_bump_at(storage, id, ok, q);
}

/// The same locations, in the same order.
pub open spec fn same_locations(a: Seq<StorageCopySummary>, b: Seq<StorageCopySummary>) -> bool {
    &&& a.len() == b.len()
    &&& forall|k: int|
        0 <= k < a.len() ==> (#[trigger] a[k]).storage_location_id == b[k].storage_location_id
}

proof fn lemma_same_locations_distinct(a: Seq<StorageCopySummary>, b: Seq<StorageCopySummary>)
    requires
        same_locations(a, b),
        distinct_locations(a),
    ensures
        distinct_locations(b),
{
    assert forall|x: int, y: int|
        0 <= x < b.len() && 0 <= y < b.len() && x != y implies (#[trigger] b[x]).storage_location_id@
        != (#[trigger] b[y]).storage_location_id@ by {
        assert(a[x].storage_location_id == b[x].storage_location_id);
        assert(a[y].storage_location_id == b[y].storage_location_id);
    }
}

proof fn lemma_mirror_bumps(
    storage: Seq<StorageCopySummary>,
    local: int,
    mirrors: Seq<MirrorCopyView>,
    j: int,
)
    requires
        distinct_locations(storage),
        0 <= local < storage.len(),
        mirrors.len() + 1 == storage.len(),
        forall|i: int|
            0 <= i < mirrors.len() ==> (#[trigger] mirrors[i]).location_id
                == storage[mirror_position(local, i)].storage_location_id@,
        0 <= j <= mirrors.len(),
    ensures
        ({
            let t = spec_bump_mirrors(storage, mirrors.take(j));
            &&& same_locations(storage, t)
            &&& t[local] == storage[local]
            &&& forall|i: int|
                0 <= i < j ==> #[trigger] t[mirror_position(local, i)] == bumped(
                    storage[mirror_position(local, i)],
                    mirrors[i].error is None,
                )
            &&& forall|i: int|
                j <= i < mirrors.len() ==> #[trigger] t[mirror_position(local, i)]
                    == storage[mirror_position(local, i)]
        }),
    decreases j,
{
    if j == 0 {
        assert(mirrors.take(0) =~= Seq::<MirrorCopyView>::empty());
    } else {
        lemma_mirror_bumps(storage, local, mirrors, j - 1);
        let prev = spec_bump_mirrors(storage, mirrors.take(j - 1));
        assert(mirrors.take(j).drop_last() =~= mirrors.take(j - 1));
        assert(mirrors.take(j).last() == mirrors[j - 1]);
        let q = mirror_position(local, j - 1);
        lemma_same_locations_distinct(storage, prev);
        assert(prev[q].storage_location_id == storage[q].storage_location_id);
        lemma_bump_distinct(prev, q, mirrors[j - 1].error is None);
        let t = spec_bump_mirrors(storage, mirrors.take(j));
        assert(t == prev.update(q, bumped(prev[q], mirrors[j - 1].error is None)));
        assert forall|i: int| 0 <= i < j implies #[trigger] t[mirror_position(local, i)] == bumped(
            storage[mirror_position(local, i)],
            mirrors[i].error is None,
        ) by {
            if i < j - 1 {
                assert(mirror_position(local, i) != q);
            }
        }
        assert forall|i: int| j <= i < mirrors.len() implies #[trigger] t[mirror_position(local, i)]
            == storage[mirror_position(local, i)] by {
            assert(mirror_position(local, i) != q);
        }
        assert forall|k: int| 0 <= k < storage.len() implies (
        #[trigger] storage[k]).storage_location_id == t[k].storage_location_id by {
            assert(prev[k].storage_location_id == storage[k].storage_location_id);
        }
    }
}

/// Counts kept by a run of outcomes from a fresh report, `n` outcomes in.
pub open spec fn counts_kept(f: HarvestReportView, r: HarvestReportView, local: int, n: int) -> bool {
    &&& same_locations(r.storage, f.storage)
    &&& f.new_assets <= n
    &&& f.duplicates_skipped <= n
    &&& f.failed <= n
    &&& forall|k: int|
        0 <= k < f.storage.len() ==> (#[trigger] f.storage[k]).copied <= n && f.storage[k].failed
            <= n
    &&& f.storage[local].copied == f.new_assets
    &&& forall|k: int|
        0 <= k < f.storage.len() && k != local ==> (#[trigger] f.storage[k]).copied
            + f.storage[k].failed == f.new_assets
    &&& forall|i: int| 0 <= i < f.assets.len() ==> !(#[trigger] f.assets[i]).duplicate
}

proof fn lemma_counts_kept(r: HarvestReportView, outcomes: Seq<CandidateOutcomeView>, local: int)
    requires
        report_is_fresh(r),
        distinct_locations(r.storage),
        0 <= local < r.storage.len(),
        forall|i: int|
            0 <= i < outcomes.len() ==> outcome_names_locations(
                #[trigger] outcomes[i],
                r.storage,
                local,
            ),
        outcomes.len() < u32::MAX,
    ensures
        counts_kept(spec_record_all(r, outcomes), r, local, outcomes.len() as int),
    decreases outcomes.len(),
{
    if outcomes.len() == 0 {
        return;
    }
    let prev = outcomes.drop_last();
    assert forall|i: int| 0 <= i < prev.len() implies outcome_names_locations(
        #[trigger] prev[i],
        r.storage,
        local,
    ) by {
        assert(prev[i] == outcomes[i]);
    }
    lemma_counts_kept(r, prev, local);
    let p = spec_record_all(r, prev);
    let n = outcomes.len() as int;
    let o = outcomes.last();
    assert(outcome_names_locations(outcomes[n - 1], r.storage, local));
    lemma_same_locations_distinct(r.storage, p.storage);
    assert(p.storage[local].storage_location_id == r.storage[local].storage_location_id);
    let f = spec_record_all(r, outcomes);
    match o {
        CandidateOutcomeView::LocalCopyFailed { local_id, .. } => {
            lemma_bump_distinct(p.storage, local, false);
            assert forall|k: int| 0 <= k < r.storage.len() implies (
            #[trigger] r.storage[k]).storage_location_id == f.storage[k].storage_location_id by {
                assert(p.storage[k].storage_location_id == r.storage[k].storage_location_id);
            }
        },
        CandidateOutcomeView::Harvested { local_id, mirrors, .. } => {
            lemma_bump_distinct(p.storage, local, true);
            let s1 = p.storage.update(local, bumped(p.storage[local], true));
            assert(same_locations(p.storage, s1));
            lemma_same_locations_distinct(p.storage, s1);
            assert forall|i: int|
                0 <= i < mirrors.len() implies (#[trigger] mirrors[i]).location_id
                == s1[mirror_position(local, i)].storage_location_id@ by {
                assert(p.storage[mirror_position(local, i)].storage_location_id
                    == r.storage[mirror_position(local, i)].storage_location_id);
            }
            lemma_mirror_bumps(s1, local, mirrors, mirrors.len() as int);
            assert(mirrors.take(mirrors.len() as int) =~= mirrors);
            let t = f.storage;
            assert(t == spec_bump_mirrors(s1, mirrors));
            assert forall|k: int| 0 <= k < t.len() && k != local implies (
            #[trigger] t[k]).copied + t[k].failed == f.new_assets by {
                let i = if k < local {
                    k
                } else {
                    k - 1
                };
                assert(mirror_position(local, i) == k);
                assert(t[mirror_position(local, i)] == bumped(
                    s1[mirror_position(local, i)],
                    mirrors[i].error is None,
                ));
            }
            assert forall|k: int| 0 <= k < t.len() implies (#[trigger] t[k]).copied <= n
                && t[k].failed <= n by {
                if k != local {
                    let i = if k < local {
                        k
                    } else {
                        k - 1
                    };
                    assert(mirror_position(local, i) == k);
                    assert(t[mirror_position(local, i)] == bumped(
                        s1[mirror_position(local, i)],
                        mirrors[i].error is None,
                    ));
                }
            }
            assert forall|k: int| 0 <= k < r.storage.len() implies (
            #[trigger] r.storage[k]).storage_location_id == t[k].storage_location_id by {
                assert(p.storage[k].storage_location_id == r.storage[k].storage_location_id);
                assert(s1[k].storage_location_id == p.storage[k].storage_location_id);
                assert(s1[k].storage_location_id == t[k].storage_location_id);
            }
            assert forall|i: int| 0 <= i < f.assets.len() implies !(#[trigger] f.assets[i]).duplicate by {
                if i < p.assets.len() {
                    assert(f.assets[i] == p.assets[i]);
                }
            }
        },
        _ => {
            assert forall|i: int| 0 <= i < f.assets.len() implies !(#[trigger] f.assets[i]).duplicate by {
                assert(f.assets[i] == p.assets[i]);
            }
        },
    }
}

/// How copies are counted per location: from a fresh report over distinct
/// locations, when every outcome names the local library and, for a
/// harvested asset, every mirror once, then the local library has copied
/// every new asset, each mirror has copied or failed every new asset (a
/// failed mirror copy never lowers the count of new assets), and no new
/// asset is marked as a duplicate.
pub proof fn law_copies_counted_per_location(
    r: HarvestReportView,
    outcomes: Seq<CandidateOutcomeView>,
    local: int,
)
    requires
        report_is_fresh(r),
        distinct_locations(r.storage),
        0 <= local < r.storage.len(),
        forall|i: int|
            0 <= i < outcomes.len() ==> outcome_names_locations(
                #[trigger] outcomes[i],
                r.storage,
                local,
            ),
        outcomes.len() < u32::MAX,
    ensures
        ({
            let f = spec_record_all(r, outcomes);
            &&& f.storage.len() == r.storage.len()
            &&& f.storage[local].copied == f.new_assets
            &&& forall|k: int|
                0 <= k < f.storage.len() && k != local ==> (#[trigger] f.storage[k]).copied
                    + f.storage[k].failed == f.new_assets
            &&& forall|i: int| 0 <= i < f.assets.len() ==> !(#[trigger] f.assets[i]).duplicate
        }),
{
    lemma_counts_kept(r, outcomes, local);
}

/// After the totals are set, every location reports as many expected copies
/// as there are new assets, and the copy counts are left as they were.
pub proof fn law_finished_totals_match_new_assets(r: HarvestReportView)
    ensures
        spec_finish(r).storage.len() == r.storage.len(),
        forall|k: int|
            0 <= k < r.storage.len() ==> (#[trigger] spec_finish(r).storage[k]).total
                == r.new_assets && spec_finish(r).storage[k].copied == r.storage[k].copied
                && spec_finish(r).storage[k].failed == r.storage[k].failed,
        spec_finish(r).new_assets == r.new_assets,
{
}

// ---------------------------------------------------------------------------
// File names
// ---------------------------------------------------------------------------

/// The file name an ingest reports a source by: its last component, or
/// `loop` when the path has none.
pub open spec fn spec_source_file_name(path: Seq<char>) -> Seq<char> {
    match path_file_name(path) {
        Some(n) => n,
        None => "loop"@,
    }
}

/// The name of the file at `path`, for reports.
pub fn source_file_name(path: &str) -> (r: String)
    ensures
        r@ == spec_source_file_name(path@),
{
    let pv = chars_of(path);
    match file_name_of(pv.as_slice()) {
        Some(n) => string_of(n.as_slice()),
        None => string_of(chars_of("loop").as_slice()),
    }
}

/// The library name a selected file starts from: the operator's choice when
/// given, else the original name with Ableton's timestamp removed.
pub open spec fn spec_library_base_name(
    override_name: Option<Seq<char>>,
    original_filename: Seq<char>,
) -> Seq<char> {
    match override_name {
        Some(n) => n,
        None => spec_strip_timestamp(original_filename),
    }
}

/// The library name a selected file starts from.
pub fn library_base_name(selection: &CandidateSelection, original_filename: &str) -> (r: String)
    ensures
        r@ == spec_library_base_name(
            match selection.library_filename_override {
                Some(n) => Some(n@),
                None => None,
            },
            original_filename@,
        ),
{
    match &selection.library_filename_override {
        Some(n) => crate::error::copy_string(n.as_str()),
        None => library_filename_from_original(original_filename),
    }
}

proof fn lemma_names_contain_view(s: Seq<String>, x: Seq<char>)
    ensures
        names_contain(s, x) == texts_view(s).contains(x),
{
    if names_contain(s, x) {
        let i = choose|i: int| 0 <= i < s.len() && #[trigger] s[i]@ == x;
        assert(texts_view(s)[i] == x);
    }
    if texts_view(s).contains(x) {
        let i = choose|i: int| 0 <= i < texts_view(s).len() && #[trigger] texts_view(s)[i] == x;
        assert(s[i]@ == x);
    }
}

proof fn lemma_resolution_by_view(base: Seq<char>, a: Seq<String>, b: Seq<String>, r: Seq<char>)
    requires
        texts_view(a) == texts_view(b),
    ensures
        is_collision_resolution(base, a, r) == is_collision_resolution(base, b, r),
{
    assert forall|x: Seq<char>| #[trigger] names_contain(a, x) == names_contain(b, x) by {
        lemma_names_contain_view(a, x);
        lemma_names_contain_view(b, x);
    }
}

/// The library file name for `base` in one ingest: the first free name
/// given the names already in the library's category folder (`in_library`)
/// and those this ingest allocated so far, which it joins.
pub fn allocate_filename(base: &str, in_library: Vec<String>, allocated: &mut Vec<String>) -> (r:
    String)
    requires
        in_library@.len() + old(allocated)@.len() < u64::MAX - 2,
    ensures
        is_collision_resolution(base@, in_library@ + old(allocated)@, r@),
        !names_contain(old(allocated)@, r@),
        !names_contain(in_library@, r@),
        final(allocated)@.len() == old(allocated)@.len() + 1,
        final(allocated)@.take(old(allocated)@.len() as int) == old(allocated)@,
        final(allocated)@.last()@ == r@,
{
    let mut taken = in_library;
    let ghost lib = taken@;
    let mut i: usize = 0;
    while i < allocated.len()
        invariant
            0 <= i <= allocated@.len(),
            allocated@ == old(allocated)@,
            texts_view(taken@) == texts_view(lib + allocated@.take(i as int)),
        decreases allocated@.len() - i,
    {
        let ghost t0 = taken@;
        taken.push(crate::error::copy_string(allocated[i].as_str()));
        proof {
            assert(allocated@.take(i as int + 1) =~= allocated@.take(i as int).push(allocated@[i as int]));
            assert(lib + allocated@.take(i as int + 1) =~= (lib + allocated@.take(i as int)).push(allocated@[i as int]));
            assert(texts_view(taken@) =~= texts_view(t0).push(allocated@[i as int]@));
            assert(texts_view(lib + allocated@.take(i as int + 1)) =~= texts_view(lib + allocated@.take(i as int)).push(allocated@[i as int]@));
        }
        i = i + 1;
    }
    assert(allocated@.take(i as int) =~= allocated@);
    let r = resolve_filename_collision(base, taken.as_slice());
    proof {
        let all = lib + old(allocated)@;
        lemma_resolution_by_view(base@, taken@, all, r@);
        crate::naming::law_resolved_name_is_free(base@, all, r@);
        assert forall|j: int| 0 <= j < old(allocated)@.len() implies #[trigger] old(allocated)@[j]@ != r@ by {
            assert(all[lib.len() + j] == old(allocated)@[j]);
        }
        assert forall|j: int| 0 <= j < lib.len() implies #[trigger] lib[j]@ != r@ by {
            assert(all[j] == lib[j]);
        }
    }
    allocated.push(crate::error::copy_string(r.as_str()));
    assert(allocated@.take(old(allocated)@.len() as int) =~= old(allocated)@);
    r
}

/// No two files of one ingest get the same library name: after a series of
/// allocations every allocated name is distinct, when none was allocated
/// twice before.
pub proof fn law_allocated_names_distinct(before: Seq<String>, after: Seq<String>, r: Seq<char>)
    requires
        forall|i: int, j: int|
            0 <= i < j < before.len() ==> (#[trigger] before[i])@ != (#[trigger] before[j])@,
        !names_contain(before, r),
        after.len() == before.len() + 1,
        after.take(before.len() as int) == before,
        after.last()@ == r,
    ensures
        forall|i: int, j: int|
            0 <= i < j < after.len() ==> (#[trigger] after[i])@ != (#[trigger] after[j])@,
{
    assert forall|i: int, j: int| 0 <= i < j < after.len() implies (#[trigger] after[i])@ != (
    #[trigger] after[j])@ by {
        assert(after[i] == after.take(before.len() as int)[i]);
        if j < before.len() {
            assert(after[j] == after.take(before.len() as int)[j]);
        }
    }
}

// ---------------------------------------------------------------------------
// Sessions
// ---------------------------------------------------------------------------

/// A new session cannot start while another one is open.
pub fn ensure_no_active_session(active_session_exists: bool) -> (r: Result<(), AppError>)
    ensures
        active_session_exists <==> (r matches Err(e) && e@ == AppErrorView::SessionAlreadyActive),
        !active_session_exists <==> r is Ok,
{
    if active_session_exists {
        Err(AppError::SessionAlreadyActive)
    } else {
        Ok(())
    }
}

/// The status of a session once it ends: archived when nothing is left to
/// review, in review otherwise.
pub open spec fn spec_status_after_end(candidates: nat) -> SessionStatus {
    if candidates == 0 {
        SessionStatus::Archived
    } else {
        SessionStatus::Review
    }
}

/// The status a session ends in, given how many candidates it left.
pub fn status_after_end(candidates: usize) -> (s: SessionStatus)
    ensures
        s == spec_status_after_end(candidates as nat),
{
    if candidates == 0 {
        SessionStatus::Archived
    } else {
        SessionStatus::Review
    }
}

/// The event recorded when a session ends.
pub fn end_event_name(candidates: usize) -> (s: &'static str)
    ensures
        candidates == 0 ==> s@ == "session_completed"@,
        candidates > 0 ==> s@ == "session_review"@,
{
    if candidates == 0 {
        "session_completed"
    } else {
        "session_review"
    }
}

/// Candidates whose content hash is not among the ignored ones, in order.
pub open spec fn spec_not_ignored(c: Seq<HarvestCandidate>, ignored: Seq<String>) -> Seq<
    HarvestCandidate,
>
    decreases c.len(),
{
    if c.len() == 0 {
        c
    } else {
        let r = spec_not_ignored(c.drop_last(), ignored);
        if names_contain(ignored, c.last().content_hash@) {
            r
        } else {
            r.push(c.last())
        }
    }
}

/// Drops the candidates the operator chose to ignore.
pub fn without_ignored(candidates: Vec<HarvestCandidate>, ignored: &[String]) -> (r: Vec<
    HarvestCandidate,
>)
    ensures
        r@ == spec_not_ignored(candidates@, ignored@),
{
    let ghost all = candidates@;
    let n = candidates.len();
    let mut rest = candidates;
    let mut r: Vec<HarvestCandidate> = Vec::new();
    let mut i: usize = 0;
    while rest.len() > 0
        invariant
            n == all.len(),
            i + rest@.len() == n,
            rest@ == all.skip(i as int),
            r@ == spec_not_ignored(all.take(i as int), ignored@),
        decreases rest@.len(),
    {
        let c = rest.remove(0);
        assert(all.take(i as int + 1).drop_last() =~= all.take(i as int));
        assert(all.take(i as int + 1).last() == c);
        assert(rest@ =~= all.skip(i as int + 1));
        let hv = chars_of(c.content_hash.as_str());
        if !strings_contain(ignored, hv.as_slice()) {
            r.push(c);
        }
        i = i + 1;
    }
    assert(all.take(i as int) =~= all);
    r
}

// ---------------------------------------------------------------------------
// Mirrors
// ---------------------------------------------------------------------------

/// Whether copying the library into `location` is to be done: nothing to do
/// for a disabled or a local location; a library without an enabled local
/// location cannot be mirrored (`LocalLibraryMissing`).
pub fn mirror_sync_needed(location: &StorageLocation, locations: &[StorageLocation]) -> (r: Result<
    bool,
    AppError,
>)
    ensures
        !location.enabled || location.kind == StorageKind::Local ==> (r matches Ok(b) && !b),
        location.enabled && location.kind != StorageKind::Local ==> match spec_first_enabled_of_kind(
            locations@,
            StorageKind::Local,
        ) {
            None => r matches Err(e) && e@ == AppErrorView::LocalLibraryMissing,
            Some(_) => (r matches Ok(b) && b),
        },
{
    if !location.enabled || location.kind == StorageKind::Local {
        return Ok(false);
    }
    match first_enabled_of_kind(locations, StorageKind::Local) {
        Some(_) => Ok(true),
        None => Err(AppError::LocalLibraryMissing),
    }
}

fn contains_year(r: &[i32], y: i32) -> (b: bool)
    ensures
        b == r@.contains(y),
{
    let mut k: usize = 0;
    while k < r.len()
        invariant
            0 <= k <= r@.len(),
            forall|j: int| 0 <= j < k ==> r@[j] != y,
        decreases r@.len() - k,
    {
        if r[k] == y {
            assert(r@[k as int] == y);
            return true;
        }
        k = k + 1;
    }
    false
}

proof fn lemma_push_contains(s: Seq<i32>, y: i32, z: i32)
    ensures
        s.push(y).contains(z) <==> (s.contains(z) || z == y),
{
    let t = s.push(y);
    if t.contains(z) {
        let j = choose|j: int| 0 <= j < t.len() && #[trigger] t[j] == z;
        if j < s.len() {
            assert(s[j] == z);
        }
    }
    if s.contains(z) {
        let j = choose|j: int| 0 <= j < s.len() && #[trigger] s[j] == z;
        assert(t[j] == z);
    }
    if z == y {
        assert(t[s.len() as int] == z);
    }
}

/// The distinct years among `years`, in order of first appearance.
pub fn distinct_years(years: &[i32]) -> (r: Vec<i32>)
    ensures
        forall|i: int, j: int| 0 <= i < j < r@.len() ==> r@[i] != r@[j],
        forall|y: i32| years@.contains(y) <==> r@.contains(y),
{
    let mut r: Vec<i32> = Vec::new();
    let mut i: usize = 0;
    while i < years.len()
        invariant
            0 <= i <= years@.len(),
            forall|a: int, b: int| 0 <= a < b < r@.len() ==> r@[a] != r@[b],
            forall|y: i32| years@.take(i as int).contains(y) <==> r@.contains(y),
        decreases years@.len() - i,
    {
        let y = years[i];
        let seen = contains_year(r.as_slice(), y);
        let ghost prefix = years@.take(i as int);
        let ghost next = years@.take(i as int + 1);
        let ghost r0 = r@;
        assert(next =~= prefix.push(y));
        assert(forall|z: i32| prefix.contains(z) <==> r0.contains(z));
        if !seen {
            r.push(y);
            assert(r@ =~= r0.push(y));
        }
        proof {
            assert forall|z: i32| next.contains(z) <==> r@.contains(z) by {
                lemma_push_contains(prefix, y, z);
                if !seen {
                    lemma_push_contains(r0, y, z);
                }
            }
        }
        i = i + 1;
    }
    assert(years@.take(i as int) =~= years@);
    r
}

// ---------------------------------------------------------------------------
// Ordering by file name
// ---------------------------------------------------------------------------

/// Whether `a` sorts before or with `b`, comparing characters by code point
/// (the order of `str` comparison).
pub open spec fn text_le(a: Seq<char>, b: Seq<char>) -> bool
    decreases a.len(),
{
    if a.len() == 0 {
        true
    } else if b.len() == 0 {
        false
    } else if (a[0] as u32) < (b[0] as u32) {
        true
    } else if (a[0] as u32) > (b[0] as u32) {
        false
    } else {
        text_le(a.drop_first(), b.drop_first())
    }
}

pub proof fn lemma_text_le_total(a: Seq<char>, b: Seq<char>)
    ensures
        text_le(a, b) || text_le(b, a),
    decreases a.len(),
{
    if a.len() > 0 && b.len() > 0 && a[0] as u32 == b[0] as u32 {
        lemma_text_le_total(a.drop_first(), b.drop_first());
    }
}

pub proof fn lemma_text_le_trans(a: Seq<char>, b: Seq<char>, c: Seq<char>)
    requires
        text_le(a, b),
        text_le(b, c),
    ensures
        text_le(a, c),
    decreases a.len(),
{
    if a.len() > 0 && b.len() > 0 && c.len() > 0 && a[0] as u32 == b[0] as u32 && b[0] as u32
        == c[0] as u32 {
        lemma_text_le_trans(a.drop_first(), b.drop_first(), c.drop_first());
    }
}

fn text_le_exec(a: &str, b: &str) -> (r: bool)
    ensures
        r == text_le(a@, b@),
{
    let av = chars_of(a);
    let bv = chars_of(b);
    let mut i: usize = 0;
    assert(av@.skip(0) =~= av@);
    assert(bv@.skip(0) =~= bv@);
    while i < av.len() && i < bv.len()
        invariant
            0 <= i <= av@.len(),
            i <= bv@.len(),
            av@ == a@,
            bv@ == b@,
            text_le(av@, bv@) == text_le(av@.skip(i as int), bv@.skip(i as int)),
        decreases av@.len() - i,
    {
        let x = av[i] as u32;
        let y = bv[i] as u32;
        assert(av@.skip(i as int)[0] == av@[i as int]);
        assert(bv@.skip(i as int)[0] == bv@[i as int]);
        assert(av@.skip(i as int).len() > 0 && bv@.skip(i as int).len() > 0);
        if x < y {
            return true;
        }
        if x > y {
            return false;
        }
        assert(av@.skip(i as int).drop_first() =~= av@.skip(i as int + 1));
        assert(bv@.skip(i as int).drop_first() =~= bv@.skip(i as int + 1));
        i = i + 1;
    }
    i == av.len()
}

/// Records listed in order of their original file name.
pub trait NamedByFile: Sized {
    /// The original file name.
    spec fn file_name_key(&self) -> Seq<char>;

    fn file_name(&self) -> (r: &str)
        ensures
            r@ == self.file_name_key(),
    ;
}

impl NamedByFile for HarvestCandidate {
    open spec fn file_name_key(&self) -> Seq<char> {
        self.original_filename@
    }

    fn file_name(&self) -> (r: &str) {
        self.original_filename.as_str()
    }
}

impl NamedByFile for HistoricalConsolidate {
    open spec fn file_name_key(&self) -> Seq<char> {
        self.original_filename@
    }

    fn file_name(&self) -> (r: &str) {
        self.original_filename.as_str()
    }
}

/// Where `x` goes in `sorted`: after every leading entry that sorts before
/// or with it, so equal names keep their order.
pub open spec fn spec_insertion_point<T: NamedByFile>(sorted: Seq<T>, x: T) -> int
    decreases sorted.len(),
{
    if sorted.len() == 0 {
        0
    } else if text_le(sorted[0].file_name_key(), x.file_name_key()) {
        1 + spec_insertion_point(sorted.drop_first(), x)
    } else {
        0
    }
}

/// The stable sort of `s` by file name (insertion sort).
pub open spec fn spec_sort_by_name<T: NamedByFile>(s: Seq<T>) -> Seq<T>
    decreases s.len(),
{
    if s.len() == 0 {
        s
    } else {
        let sorted = spec_sort_by_name(s.drop_last());
        sorted.insert(spec_insertion_point(sorted, s.last()), s.last())
    }
}

proof fn lemma_insertion_point<T: NamedByFile>(sorted: Seq<T>, x: T, p: int)
    requires
        0 <= p <= sorted.len(),
        forall|j: int| 0 <= j < p ==> text_le(#[trigger] sorted[j].file_name_key(), x.file_name_key()),
        p < sorted.len() ==> !text_le(sorted[p].file_name_key(), x.file_name_key()),
    ensures
        spec_insertion_point(sorted, x) == p,
    decreases p,
{
    if p > 0 {
        let rest = sorted.drop_first();
        assert forall|j: int| 0 <= j < p - 1 implies text_le(
            #[trigger] rest[j].file_name_key(),
            x.file_name_key(),
        ) by {
            assert(rest[j] == sorted[j + 1]);
        }
        if p < sorted.len() {
            assert(rest[p - 1] == sorted[p]);
        }
        lemma_insertion_point(rest, x, p - 1);
    }
}

proof fn lemma_insertion_point_bounds<T: NamedByFile>(sorted: Seq<T>, x: T)
    ensures
        0 <= spec_insertion_point(sorted, x) <= sorted.len(),
        forall|j: int|
            0 <= j < spec_insertion_point(sorted, x) ==> text_le(
                #[trigger] sorted[j].file_name_key(),
                x.file_name_key(),
            ),
        spec_insertion_point(sorted, x) < sorted.len() ==> !text_le(
            sorted[spec_insertion_point(sorted, x)].file_name_key(),
            x.file_name_key(),
        ),
    decreases sorted.len(),
{
    if sorted.len() > 0 {
        let rest = sorted.drop_first();
        lemma_insertion_point_bounds(rest, x);
        if text_le(sorted[0].file_name_key(), x.file_name_key()) {
            let p = spec_insertion_point(sorted, x);
            assert forall|j: int| 0 <= j < p implies text_le(
                #[trigger] sorted[j].file_name_key(),
                x.file_name_key(),
            ) by {
                if j > 0 {
                    assert(sorted[j] == rest[j - 1]);
                }
            }
            if p < sorted.len() {
                assert(sorted[p] == rest[p - 1]);
            }
        }
    }
}

fn insertion_point<T: NamedByFile>(sorted: &Vec<T>, x: &T) -> (p: usize)
    ensures
        p as int == spec_insertion_point(sorted@, *x),
{
    let key = x.file_name();
    let mut p: usize = 0;
    while p < sorted.len()
        invariant
            0 <= p <= sorted@.len(),
            key@ == x.file_name_key(),
            forall|j: int| 0 <= j < p ==> text_le(#[trigger] sorted@[j].file_name_key(), x.file_name_key()),
        decreases sorted@.len() - p,
    {
        if !text_le_exec(sorted[p].file_name(), key) {
            proof {
                lemma_insertion_point(sorted@, *x, p as int);
            }
            return p;
        }
        p = p + 1;
    }
    proof {
        lemma_insertion_point(sorted@, *x, p as int);
    }
    p
}

/// Sorts records by original file name; records with equal names keep
/// their order.
pub fn sort_by_file_name<T: NamedByFile>(items: Vec<T>) -> (r: Vec<T>)
    ensures
        r@ == spec_sort_by_name(items@),
{
    let ghost all = items@;
    let n = items.len();
    let mut rest = items;
    let mut sorted: Vec<T> = Vec::new();
    let mut i: usize = 0;
    while rest.len() > 0
        invariant
            n == all.len(),
            i + rest@.len() == n,
            rest@ == all.skip(i as int),
            sorted@ == spec_sort_by_name(all.take(i as int)),
        decreases rest@.len(),
    {
        let x = rest.remove(0);
        assert(all.take(i as int + 1).drop_last() =~= all.take(i as int));
        assert(all.take(i as int + 1).last() == x);
        assert(rest@ =~= all.skip(i as int + 1));
        let p = insertion_point(&sorted, &x);
        proof {
            lemma_insertion_point_bounds(sorted@, x);
        }
        sorted.insert(p, x);
        i = i + 1;
    }
    assert(all.take(i as int) =~= all);
    sorted
}

proof fn lemma_sort_len<T: NamedByFile>(s: Seq<T>)
    ensures
        spec_sort_by_name(s).len() == s.len(),
    decreases s.len(),
{
    if s.len() > 0 {
        lemma_sort_len(s.drop_last());
        lemma_insertion_point_bounds(spec_sort_by_name(s.drop_last()), s.last());
    }
}

/// Whether `s` is in order of file name.
pub open spec fn sorted_by_name<T: NamedByFile>(s: Seq<T>) -> bool {
    forall|i: int, j: int|
        0 <= i < j < s.len() ==> text_le(
            #[trigger] s[i].file_name_key(),
            #[trigger] s[j].file_name_key(),
        )
}

/// Listings are in order of file name and lose or add nothing: the sort of
/// any sequence is ordered by file name and holds the same records.
pub proof fn law_sort_by_name_orders_and_permutes<T: NamedByFile>(s: Seq<T>)
    ensures
        sorted_by_name(spec_sort_by_name(s)),
        spec_sort_by_name(s).to_multiset() == s.to_multiset(),
    decreases s.len(),
{
    broadcast use vstd::seq_lib::group_to_multiset_ensures;

    if s.len() > 0 {
        let prev = s.drop_last();
        law_sort_by_name_orders_and_permutes(prev);
        let sorted = spec_sort_by_name(prev);
        let x = s.last();
        let p = spec_insertion_point(sorted, x);
        lemma_insertion_point_bounds(sorted, x);
        let r = sorted.insert(p, x);
        assert forall|i: int, j: int| 0 <= i < j < r.len() implies text_le(
            #[trigger] r[i].file_name_key(),
            #[trigger] r[j].file_name_key(),
        ) by {
            if j < p {
                assert(r[i] == sorted[i] && r[j] == sorted[j]);
            } else if j == p {
                assert(r[i] == sorted[i]);
            } else if i == p {
                assert(r[j] == sorted[j - 1]);
                lemma_text_le_total(sorted[p].file_name_key(), x.file_name_key());
                if j - 1 > p {
                    lemma_text_le_trans(x.file_name_key(), sorted[p].file_name_key(), sorted[j - 1].file_name_key());
                }
            } else if i < p {
                assert(r[i] == sorted[i] && r[j] == sorted[j - 1]);
            } else {
                assert(r[i] == sorted[i - 1] && r[j] == sorted[j - 1]);
            }
        }
        assert(s =~= prev.push(x));
    }
}

// ---------------------------------------------------------------------------
// Discovering candidates
// ---------------------------------------------------------------------------

/// How a file of the Consolidate folder changed since the snapshot: new when
/// its path was not there, modified when its size or modification time
/// differ, unchanged otherwise.
pub open spec fn spec_change_kind(previous: Seq<FileFingerprint>, file: FileFingerprint) -> Option<
    ChangeKind,
> {
    match first_fingerprint_at(previous, file.relative_path@) {
        None => Some(ChangeKind::New),
        Some(i) => if previous[i].size_bytes != file.size_bytes || previous[i].modified_unix_ms
            != file.modified_unix_ms {
            Some(ChangeKind::Modified)
        } else {
            None
        },
    }
}

/// Whether (and how) `file` changed since the session's snapshot.
pub fn change_kind(previous: &SessionSnapshot, file: &FileFingerprint) -> (r: Option<ChangeKind>)
    ensures
        r == spec_change_kind(previous.files@, *file),
{
    match previous.get(file.relative_path.as_str()) {
        None => Some(ChangeKind::New),
        Some(old) => {
            if old.size_bytes != file.size_bytes || old.modified_unix_ms != file.modified_unix_ms {
                Some(ChangeKind::Modified)
            } else {
                None
            }
        },
    }
}

/// The file name of a path relative to the Consolidate folder: its last
/// component, or the whole path when it has none.
pub open spec fn spec_record_file_name(relative_path: Seq<char>) -> Seq<char> {
    match path_file_name(relative_path) {
        Some(n) => n,
        None => relative_path,
    }
}

/// The file name of a relative path.
pub fn record_file_name(relative_path: &str) -> (r: String)
    ensures
        r@ == spec_record_file_name(relative_path@),
{
    let v = chars_of(relative_path);
    match file_name_of(v.as_slice()) {
        Some(n) => string_of(n.as_slice()),
        None => string_of(v.as_slice()),
    }
}

/// The changed audio files worth hashing, with how they changed, in order.
pub open spec fn spec_discovery_targets(
    previous: Seq<FileFingerprint>,
    current: Seq<FileFingerprint>,
) -> Seq<(usize, ChangeKind)>
    decreases current.len(),
{
    if current.len() == 0 {
        Seq::empty()
    } else {
        let r = spec_discovery_targets(previous, current.drop_last());
        let f = current.last();
        match spec_change_kind(previous, f) {
            Some(k) => if spec_is_supported_audio_filename(spec_record_file_name(f.relative_path@)) {
                r.push(((current.len() - 1) as usize, k))
            } else {
                r
            },
            None => r,
        }
    }
}

/// Which files of the current listing are candidates (before hashing):
/// new or modified since the snapshot, with a supported audio name.
pub fn discovery_targets(previous: &SessionSnapshot, current: &[FileFingerprint]) -> (r: Vec<
    (usize, ChangeKind),
>)
    ensures
        r@ == spec_discovery_targets(previous.files@, current@),
        forall|j: int|
            0 <= j < current@.len() && (#[trigger] spec_change_kind(previous.files@, current@[j]))
                is Some && spec_is_supported_audio_filename(
                spec_record_file_name(current@[j].relative_path@),
            ) ==> exists|t: int|
                0 <= t < r@.len() && #[trigger] r@[t] == (
                    j as usize,
                    spec_change_kind(previous.files@, current@[j]).unwrap(),
                ),
{
    let mut r: Vec<(usize, ChangeKind)> = Vec::new();
    let mut i: usize = 0;
    while i < current.len()
        invariant
            0 <= i <= current@.len(),
            r@ == spec_discovery_targets(previous.files@, current@.take(i as int)),
        decreases current@.len() - i,
    {
        assert(current@.take(i as int + 1).drop_last() =~= current@.take(i as int));
        let f = &current[i];
        match change_kind(previous, f) {
            Some(k) => {
                let name = record_file_name(f.relative_path.as_str());
                if is_supported_audio_filename(name.as_str()) {
                    r.push((i, k));
                }
            },
            None => {},
        }
        i = i + 1;
    }
    assert(current@.take(i as int) =~= current@);
    proof {
        law_discovery_finds_every_change(previous.files@, current@);
    }
    r
}

/// A session only proposes what changed: every discovery target is a file of
/// the current listing, new or modified since the snapshot as its kind says,
/// with a supported audio name; files equal to their snapshot entry never are.
pub proof fn law_discovery_only_changed(
    previous: Seq<FileFingerprint>,
    current: Seq<FileFingerprint>,
)
    requires
        current.len() <= usize::MAX,
    ensures
        forall|k: int|
            0 <= k < spec_discovery_targets(previous, current).len() ==> {
                let (j, kind) = #[trigger] spec_discovery_targets(previous, current)[k];
                &&& j < current.len()
                &&& spec_change_kind(previous, current[j as int]) == Some(kind)
                &&& spec_is_supported_audio_filename(
                    spec_record_file_name(current[j as int].relative_path@),
                )
            },
    decreases current.len(),
{
    if current.len() > 0 {
        let prev = current.drop_last();
        law_discovery_only_changed(previous, prev);
        let t = spec_discovery_targets(previous, current);
        let tp = spec_discovery_targets(previous, prev);
        assert forall|k: int| 0 <= k < t.len() implies {
            let (j, kind) = #[trigger] t[k];
            &&& j < current.len()
            &&& spec_change_kind(previous, current[j as int]) == Some(kind)
            &&& spec_is_supported_audio_filename(
                spec_record_file_name(current[j as int].relative_path@),
            )
        } by {
            if k < tp.len() {
                assert(t[k] == tp[k]);
                assert(current[tp[k].0 as int] == prev[tp[k].0 as int]);
            } else {
                assert(t[k].0 as int == current.len() - 1);
                assert(current[current.len() - 1] == current.last());
            }
        }
    }
}

/// A session proposes every change: each file of the current listing that
/// is new or modified since the snapshot and has a supported audio name is a
/// discovery target, with its kind; and the targets come in listing order,
/// each file at most once.
pub proof fn law_discovery_finds_every_change(
    previous: Seq<FileFingerprint>,
    current: Seq<FileFingerprint>,
)
    requires
        current.len() <= usize::MAX,
    ensures
        forall|j: int|
            0 <= j < current.len() && (#[trigger] spec_change_kind(previous, current[j])) is Some
                && spec_is_supported_audio_filename(spec_record_file_name(current[j].relative_path@))
                ==> exists|t: int|
                0 <= t < spec_discovery_targets(previous, current).len()
                    && #[trigger] spec_discovery_targets(previous, current)[t] == (
                    j as usize,
                    spec_change_kind(previous, current[j]).unwrap(),
                ),
        forall|a: int, b: int|
            0 <= a < b < spec_discovery_targets(previous, current).len() ==> (
            #[trigger] spec_discovery_targets(previous, current)[a]).0 < (
            #[trigger] spec_discovery_targets(previous, current)[b]).0,
        forall|t: int|
            0 <= t < spec_discovery_targets(previous, current).len() ==> (
            #[trigger] spec_discovery_targets(previous, current)[t]).0 < current.len(),
    decreases current.len(),
{
    if current.len() > 0 {
        let prev = current.drop_last();
        law_discovery_finds_every_change(previous, prev);
        let t = spec_discovery_targets(previous, current);
        let tp = spec_discovery_targets(previous, prev);
        assert forall|j: int|
            0 <= j < current.len() && (#[trigger] spec_change_kind(previous, current[j])) is Some
                && spec_is_supported_audio_filename(spec_record_file_name(current[j].relative_path@))
            implies exists|u: int|
            0 <= u < t.len() && #[trigger] t[u] == (
                j as usize,
                spec_change_kind(previous, current[j]).unwrap(),
            ) by {
            if j < prev.len() {
                assert(prev[j] == current[j]);
                assert(spec_change_kind(previous, prev[j]) is Some);
                let u = choose|u: int|
                    0 <= u < tp.len() && #[trigger] tp[u] == (
                        j as usize,
                        spec_change_kind(previous, prev[j]).unwrap(),
                    );
                assert(t[u] == tp[u]);
            } else {
                assert(current[j] == current.last());
                assert(t[tp.len() as int] == (
                    j as usize,
                    spec_change_kind(previous, current[j]).unwrap(),
                ));
            }
        }
        assert forall|a: int, b: int| 0 <= a < b < t.len() implies (#[trigger] t[a]).0 < (
        #[trigger] t[b]).0 by {
            assert(t[a] == tp[a]);
            if b < tp.len() {
                assert(t[b] == tp[b]);
            }
        }
        assert forall|u: int| 0 <= u < t.len() implies (#[trigger] t[u]).0 < current.len() by {
            if u < tp.len() {
                assert(t[u] == tp[u]);
            }
        }
    }
}

/// The candidate for a changed file of `dir` with content hash
/// `content_hash`; a file that could not be hashed (empty hash) is none.
pub fn make_candidate(
    dir: &str,
    file: &FileFingerprint,
    change_kind: ChangeKind,
    content_hash: String,
) -> (r: Option<HarvestCandidate>)
    ensures
        content_hash@.len() == 0 <==> r is None,
        r matches Some(c) ==> {
            &&& c.original_path@ == path_join(dir@, file.relative_path@)
            &&& c.original_filename@ == spec_record_file_name(file.relative_path@)
            &&& c.library_filename@ == spec_strip_timestamp(
                spec_record_file_name(file.relative_path@),
            )
            &&& c.relative_path@ == file.relative_path@
            &&& c.size_bytes == file.size_bytes
            &&& c.modified_unix_ms == file.modified_unix_ms
            &&& c.change_kind == change_kind
            &&& c.content_hash == content_hash
        },
{
    if chars_of(content_hash.as_str()).len() == 0 {
        return None;
    }
    let dv = chars_of(dir);
    let rv = chars_of(file.relative_path.as_str());
    let original_path = string_of(join_path(dv.as_slice(), rv.as_slice()).as_slice());
    let original_filename = record_file_name(file.relative_path.as_str());
    let library_filename = library_filename_from_original(original_filename.as_str());
    Some(
        HarvestCandidate {
            original_path,
            original_filename,
            library_filename,
            relative_path: crate::error::copy_string(file.relative_path.as_str()),
            size_bytes: file.size_bytes,
            modified_unix_ms: file.modified_unix_ms,
            change_kind,
            content_hash,
        },
    )
}

// ---------------------------------------------------------------------------
// Historical consolidates
// ---------------------------------------------------------------------------

/// Positions of the files with a supported audio name, in order.
pub open spec fn spec_audio_indices(files: Seq<FileFingerprint>) -> Seq<usize>
    decreases files.len(),
{
    if files.len() == 0 {
        Seq::empty()
    } else {
        let r = spec_audio_indices(files.drop_last());
        if spec_is_supported_audio_filename(spec_record_file_name(files.last().relative_path@)) {
            r.push((files.len() - 1) as usize)
        } else {
            r
        }
    }
}

/// Which files of a Consolidate folder are audio worth hashing.
pub fn audio_indices(files: &[FileFingerprint]) -> (r: Vec<usize>)
    ensures
        r@ == spec_audio_indices(files@),
{
    let mut r: Vec<usize> = Vec::new();
    let mut i: usize = 0;
    while i < files.len()
        invariant
            0 <= i <= files@.len(),
            r@ == spec_audio_indices(files@.take(i as int)),
        decreases files@.len() - i,
    {
        assert(files@.take(i as int + 1).drop_last() =~= files@.take(i as int));
        let name = record_file_name(files[i].relative_path.as_str());
        if is_supported_audio_filename(name.as_str()) {
            r.push(i);
        }
        i = i + 1;
    }
    assert(files@.take(i as int) =~= files@);
    r
}

/// The relative path, hash, size and modification time of a pending
/// consolidate.
pub open spec fn pending_key(c: HistoricalConsolidate) -> (Seq<char>, Seq<char>, u64, i64) {
    (c.relative_path@, c.content_hash@, c.size_bytes, c.modified_unix_ms)
}

/// What a scan of hashed files leaves pending, in scan order: the files
/// whose hash is neither ignored nor already in the library, each with its
/// relative path, hash, size and modification time.
pub open spec fn spec_scan_pending(
    hashed: Seq<(FileFingerprint, String)>,
    ignored: Seq<String>,
    known: Seq<String>,
) -> Seq<(Seq<char>, Seq<char>, u64, i64)>
    decreases hashed.len(),
{
    if hashed.len() == 0 {
        Seq::empty()
    } else {
        let r = spec_scan_pending(hashed.drop_last(), ignored, known);
        let (f, h) = hashed.last();
        if !names_contain(ignored, h@) && !names_contain(known, h@) {
            r.push((f.relative_path@, h@, f.size_bytes, f.modified_unix_ms))
        } else {
            r
        }
    }
}

/// How many scanned files are already in the library (and not ignored).
pub open spec fn spec_scan_archived(
    hashed: Seq<(FileFingerprint, String)>,
    ignored: Seq<String>,
    known: Seq<String>,
) -> nat
    decreases hashed.len(),
{
    if hashed.len() == 0 {
        0
    } else {
        let r = spec_scan_archived(hashed.drop_last(), ignored, known);
        let h = hashed.last().1;
        if !names_contain(ignored, h@) && names_contain(known, h@) {
            r + 1
        } else {
            r
        }
    }
}

/// A scan never leaves pending a file whose hash is already in the library
/// or ignored: after an import has put a file's hash in the library, a new
/// scan leaves only the files it did not import.
pub proof fn law_scan_excludes_known(
    hashed: Seq<(FileFingerprint, String)>,
    ignored: Seq<String>,
    known: Seq<String>,
)
    ensures
        forall|k: int|
            0 <= k < spec_scan_pending(hashed, ignored, known).len() ==> {
                let p = #[trigger] spec_scan_pending(hashed, ignored, known)[k];
                !names_contain(known, p.1) && !names_contain(ignored, p.1)
            },
        (forall|i: int|
            0 <= i < hashed.len() ==> names_contain(known, (#[trigger] hashed[i]).1@)
                || names_contain(ignored, hashed[i].1@)) ==> spec_scan_pending(
            hashed,
            ignored,
            known,
        ).len() == 0,
    decreases hashed.len(),
{
    if hashed.len() > 0 {
        let prev = hashed.drop_last();
        law_scan_excludes_known(prev, ignored, known);
        assert forall|i: int| 0 <= i < prev.len() implies prev[i] == hashed[i] by {}
        let r0 = spec_scan_pending(prev, ignored, known);
        let r = spec_scan_pending(hashed, ignored, known);
        assert forall|k: int| 0 <= k < r.len() implies !names_contain(known, (#[trigger] r[k]).1)
            && !names_contain(ignored, r[k].1) by {
            if k < r0.len() {
                assert(r[k] == r0[k]);
            }
        }
    }
}

/// The scanned file's hash is ignored for the project.
pub open spec fn entry_ignored(ignored: Seq<String>) -> spec_fn((FileFingerprint, String)) -> bool {
    |p: (FileFingerprint, String)| names_contain(ignored, p.1@)
}

/// The scanned file's hash is in the library and not ignored.
pub open spec fn entry_archived(ignored: Seq<String>, known: Seq<String>) -> spec_fn(
    (FileFingerprint, String),
) -> bool {
    |p: (FileFingerprint, String)| !names_contain(ignored, p.1@) && names_contain(known, p.1@)
}

/// The scanned file's hash is neither ignored nor in the library.
pub open spec fn entry_new(ignored: Seq<String>, known: Seq<String>) -> spec_fn(
    (FileFingerprint, String),
) -> bool {
    |p: (FileFingerprint, String)| !names_contain(ignored, p.1@) && !names_contain(known, p.1@)
}

/// A scan sorts every file into exactly one of three kinds: ignored files are
/// skipped (neither pending nor archived), files already in the library are
/// counted as archived, and the rest are pending. So the archived count is
/// the number of scanned files in the library and not ignored, the pending
/// list has one entry per new file, and the three kinds add up to all files.
pub proof fn law_scan_sorts_every_file(
    hashed: Seq<(FileFingerprint, String)>,
    ignored: Seq<String>,
    known: Seq<String>,
)
    ensures
        spec_scan_archived(hashed, ignored, known) == hashed.filter(
            entry_archived(ignored, known),
        ).len(),
        spec_scan_pending(hashed, ignored, known).len() == hashed.filter(
            entry_new(ignored, known),
        ).len(),
        hashed.filter(entry_ignored(ignored)).len() + spec_scan_archived(hashed, ignored, known)
            + spec_scan_pending(hashed, ignored, known).len() == hashed.len(),
    decreases hashed.len(),
{
    reveal(Seq::filter);
    let a = entry_archived(ignored, known);
    let w = entry_new(ignored, known);
    let g = entry_ignored(ignored);
    if hashed.len() > 0 {
        law_scan_sorts_every_file(hashed.drop_last(), ignored, known);
        let last = hashed.last();
        let h = last.1;
        assert(a(last) == (!names_contain(ignored, h@) && names_contain(known, h@)));
        assert(w(last) == (!names_contain(ignored, h@) && !names_contain(known, h@)));
        assert(g(last) == names_contain(ignored, h@));
    } else {
        assert(hashed.filter(a).len() == 0);
        assert(hashed.filter(w).len() == 0);
        assert(hashed.filter(g).len() == 0);
    }
}

/// A pending consolidate of folder `dir` describes its file.
pub open spec fn pending_describes(c: HistoricalConsolidate, dir: Seq<char>) -> bool {
    &&& c.original_path@ == path_join(dir, c.relative_path@)
    &&& c.original_filename@ == spec_record_file_name(c.relative_path@)
    &&& c.library_filename@ == spec_strip_timestamp(spec_record_file_name(c.relative_path@))
}

proof fn lemma_scan_archived_bound(
    hashed: Seq<(FileFingerprint, String)>,
    ignored: Seq<String>,
    known: Seq<String>,
)
    ensures
        spec_scan_archived(hashed, ignored, known) <= hashed.len(),
    decreases hashed.len(),
{
    if hashed.len() > 0 {
        lemma_scan_archived_bound(hashed.drop_last(), ignored, known);
    }
}

/// Pending consolidates and how many are already archived.
pub struct HistoricalScan {
    pub pending: Vec<HistoricalConsolidate>,
    pub archived_count: u32,
}

impl HistoricalScan {
    pub fn new() -> (s: Self)
        ensures
            s.pending@.len() == 0,
            s.archived_count == 0,
    {
        HistoricalScan { pending: Vec::new(), archived_count: 0 }
    }

    /// Books one hashed audio file of `dir`: ignored hashes are skipped,
    /// hashes already in the library count as archived, the rest is pending.
    pub fn add(
        &mut self,
        dir: &str,
        file: &FileFingerprint,
        content_hash: String,
        ignored: &[String],
        known: &[String],
    )
        requires
            old(self).archived_count < u32::MAX,
        ensures
            names_contain(ignored@, content_hash@) ==> *final(self) == *old(self),
            !names_contain(ignored@, content_hash@) && names_contain(known@, content_hash@) ==> {
                &&& final(self).archived_count == old(self).archived_count + 1
                &&& final(self).pending@ == old(self).pending@
            },
            !names_contain(ignored@, content_hash@) && !names_contain(known@, content_hash@) ==> {
                &&& final(self).archived_count == old(self).archived_count
                &&& final(self).pending@.len() == old(self).pending@.len() + 1
                &&& final(self).pending@.drop_last() == old(self).pending@
                &&& final(self).pending@.last().original_path@ == path_join(
                    dir@,
                    file.relative_path@,
                )
                &&& final(self).pending@.last().original_filename@ == spec_record_file_name(
                    file.relative_path@,
                )
                &&& final(self).pending@.last().library_filename@ == spec_strip_timestamp(
                    spec_record_file_name(file.relative_path@),
                )
                &&& final(self).pending@.last().relative_path@ == file.relative_path@
                &&& final(self).pending@.last().size_bytes == file.size_bytes
                &&& final(self).pending@.last().modified_unix_ms == file.modified_unix_ms
                &&& final(self).pending@.last().content_hash == content_hash
            },
    {
        let hv = chars_of(content_hash.as_str());
        if strings_contain(ignored, hv.as_slice()) {
            return;
        }
        if strings_contain(known, hv.as_slice()) {
            self.archived_count = self.archived_count + 1;
            return;
        }
        let dv = chars_of(dir);
        let rv = chars_of(file.relative_path.as_str());
        let original_path = string_of(join_path(dv.as_slice(), rv.as_slice()).as_slice());
        let original_filename = record_file_name(file.relative_path.as_str());
        let library_filename = library_filename_from_original(original_filename.as_str());
        self.pending.push(
            HistoricalConsolidate {
                original_path,
                original_filename,
                library_filename,
                relative_path: crate::error::copy_string(file.relative_path.as_str()),
                size_bytes: file.size_bytes,
                modified_unix_ms: file.modified_unix_ms,
                content_hash,
            },
        );
        assert(self.pending@.drop_last() =~= old(self).pending@);
    }

    /// Scans the hashed audio files of `dir`, in order (see [`HistoricalScan::add`]):
    /// afterwards exactly the files whose hash is neither ignored nor in the
    /// library are pending, in scan order, and the ones in the library are
    /// counted as archived. Scanning again after importing them all leaves
    /// nothing pending.
    pub fn scan(
        dir: &str,
        hashed: Vec<(FileFingerprint, String)>,
        ignored: &[String],
        known: &[String],
    ) -> (s: Self)
        requires
            hashed@.len() < u32::MAX,
        ensures
            s.pending@.map_values(|c: HistoricalConsolidate| pending_key(c)) == spec_scan_pending(
                hashed@,
                ignored@,
                known@,
            ),
            s.archived_count == spec_scan_archived(hashed@, ignored@, known@),
            forall|k: int| 0 <= k < s.pending@.len() ==> pending_describes(#[trigger] s.pending@[k], dir@),
            s.archived_count == hashed@.filter(entry_archived(ignored@, known@)).len(),
            s.pending@.len() == hashed@.filter(entry_new(ignored@, known@)).len(),
            hashed@.filter(entry_ignored(ignored@)).len() + s.archived_count + s.pending@.len()
                == hashed@.len(),
    {
        let ghost all = hashed@;
        let n = hashed.len();
        let mut rest = hashed;
        let mut scan = HistoricalScan::new();
        let mut i: usize = 0;
        while rest.len() > 0
            invariant
                n == all.len(),
                n < u32::MAX,
                i + rest@.len() == n,
                rest@ == all.skip(i as int),
                scan.pending@.map_values(|c: HistoricalConsolidate| pending_key(c))
                    == spec_scan_pending(all.take(i as int), ignored@, known@),
                scan.archived_count == spec_scan_archived(all.take(i as int), ignored@, known@),
                forall|k: int|
                    0 <= k < scan.pending@.len() ==> pending_describes(#[trigger] scan.pending@[k], dir@),
            decreases rest@.len(),
        {
            let (file, hash) = rest.remove(0);
            let ghost prefix = all.take(i as int);
            assert(all.take(i as int + 1).drop_last() =~= prefix);
            assert(all.take(i as int + 1).last() == (file, hash));
            assert(rest@ =~= all.skip(i as int + 1));
            proof {
                lemma_scan_archived_bound(prefix, ignored@, known@);
            }
            let ghost before = scan.pending@;
            let ghost h = hash@;
            scan.add(dir, &file, hash, ignored, known);
            proof {
                if !names_contain(ignored@, h) && !names_contain(known@, h) {
                    assert(scan.pending@ =~= before.push(scan.pending@.last()));
                    assert(scan.pending@.map_values(|c: HistoricalConsolidate| pending_key(c))
                        =~= before.map_values(|c: HistoricalConsolidate| pending_key(c)).push(
                        pending_key(scan.pending@.last()),
                    ));
                    assert forall|k: int|
                        0 <= k < scan.pending@.len() implies pending_describes(
                        #[trigger] scan.pending@[k],
                        dir@,
                    ) by {
                        if k < before.len() {
                            assert(scan.pending@[k] == before[k]);
                        }
                    }
                }
            }
            i = i + 1;
        }
        assert(all.take(i as int) =~= all);
        proof {
            law_scan_sorts_every_file(all, ignored@, known@);
            assert(scan.pending@.len() == scan.pending@.map_values(
                |c: HistoricalConsolidate| pending_key(c),
            ).len());
        }
        scan
    }

    /// The project's status: pending consolidates in order of file name, and
    /// synced exactly when none is pending.
    pub fn into_status(self, project_id: String, project_name: String, consolidate_dir: String) -> (r:
        ProjectLibraryStatus)
        ensures
            r.project_id == project_id,
            r.project_name == project_name,
            r.consolidate_dir == consolidate_dir,
            r.pending@ == spec_sort_by_name(self.pending@),
            r.archived_count == self.archived_count,
            r.synced <==> self.pending@.len() == 0,
    {
        let pending = sort_by_file_name(self.pending);
        proof {
            lemma_sort_len(self.pending@);
        }
        let synced = pending.len() == 0;
        ProjectLibraryStatus {
            project_id,
            project_name,
            consolidate_dir,
            pending,
            archived_count: self.archived_count,
            synced,
        }
    }
}

// ---------------------------------------------------------------------------
// Ingest runs
// ---------------------------------------------------------------------------

/// The enabled locations have pairwise distinct ids.
pub open spec fn enabled_ids_distinct(locs: Seq<StorageLocation>) -> bool {
    let e = spec_enabled_indices(locs);
    forall|a: int, b: int|
        0 <= a < e.len() && 0 <= b < e.len() && a != b ==> locs[#[trigger] e[a] as int].id@
            != locs[#[trigger] e[b] as int].id@
}

proof fn lemma_enabled_prefix(locs: Seq<StorageLocation>)
    requires
        locs.len() > 0,
    ensures
        ({
            let e = spec_enabled_indices(locs);
            let e0 = spec_enabled_indices(locs.drop_last());
            &&& locs.last().enabled ==> e == e0.push((locs.len() - 1) as usize)
            &&& !locs.last().enabled ==> e == e0
            &&& forall|k: int| 0 <= k < e0.len() ==> #[trigger] e0[k] < locs.len() - 1
        }),
{
    lemma_enabled_indices_bounded(locs.drop_last());
}

proof fn lemma_mirrors_without_local_id(locs: Seq<StorageLocation>, lid: Seq<char>)
    requires
        locs.len() <= usize::MAX,
        forall|k: int|
            0 <= k < spec_enabled_indices(locs).len() ==> locs[#[trigger] spec_enabled_indices(
                locs,
            )[k] as int].id@ != lid,
    ensures
        spec_mirror_indices(locs, lid) == spec_enabled_indices(locs),
    decreases locs.len(),
{
    if locs.len() > 0 {
        let l0 = locs.drop_last();
        lemma_enabled_prefix(locs);
        let e = spec_enabled_indices(locs);
        let e0 = spec_enabled_indices(l0);
        assert forall|k: int| 0 <= k < e0.len() implies l0[#[trigger] e0[k] as int].id@ != lid by {
            assert(e[k] == e0[k]);
            assert(l0[e0[k] as int] == locs[e0[k] as int]);
        }
        lemma_mirrors_without_local_id(l0, lid);
        if locs.last().enabled {
            assert(e[e0.len() as int] == (locs.len() - 1) as usize);
        }
    }
}

proof fn lemma_mirrors_skip_local(locs: Seq<StorageLocation>, p: int)
    requires
        locs.len() <= usize::MAX,
        enabled_ids_distinct(locs),
        0 <= p < spec_enabled_indices(locs).len(),
    ensures
        ({
            let e = spec_enabled_indices(locs);
            let m = spec_mirror_indices(locs, locs[e[p] as int].id@);
            &&& m.len() + 1 == e.len()
            &&& forall|j: int| 0 <= j < m.len() ==> #[trigger] m[j] == e[mirror_position(p, j)]
        }),
    decreases locs.len(),
{
    let e = spec_enabled_indices(locs);
    let lid = locs[e[p] as int].id@;
    let l0 = locs.drop_last();
    lemma_enabled_prefix(locs);
    let e0 = spec_enabled_indices(l0);
    if locs.last().enabled && p == e0.len() {
        // The local library is the last location: every other enabled one is a mirror.
        assert forall|k: int| 0 <= k < e0.len() implies l0[#[trigger] e0[k] as int].id@ != lid by {
            assert(e[k] == e0[k]);
            assert(l0[e0[k] as int] == locs[e0[k] as int]);
        }
        lemma_mirrors_without_local_id(l0, lid);
        assert(locs.last().id@ == lid);
    } else {
        assert(p < e0.len());
        assert(e[p] == e0[p]);
        assert(l0[e0[p] as int] == locs[e0[p] as int]);
        assert forall|a: int, b: int|
            0 <= a < e0.len() && 0 <= b < e0.len() && a != b implies l0[#[trigger] e0[a] as int].id@
            != l0[#[trigger] e0[b] as int].id@ by {
            assert(e[a] == e0[a] && e[b] == e0[b]);
            assert(locs[e[a] as int].id@ != locs[e[b] as int].id@);
        }
        lemma_mirrors_skip_local(l0, p);
        if locs.last().enabled {
            let last = e0.len() as int;
            assert(e[last] == (locs.len() - 1) as usize);
            assert(locs[e[last] as int].id@ != locs[e[p] as int].id@);
            let m = spec_mirror_indices(locs, lid);
            let m0 = spec_mirror_indices(l0, lid);
            assert(m == m0.push((locs.len() - 1) as usize));
            assert forall|j: int| 0 <= j < m.len() implies #[trigger] m[j] == e[mirror_position(p, j)] by {
                if j < m0.len() {
                    assert(m0[j] == e0[mirror_position(p, j)]);
                }
            }
        } else {
            let m = spec_mirror_indices(locs, lid);
            let m0 = spec_mirror_indices(l0, lid);
            assert(m == m0);
            assert forall|j: int| 0 <= j < m.len() implies #[trigger] m[j] == e[mirror_position(p, j)] by {
                assert(m0[j] == e0[mirror_position(p, j)]);
            }
        }
    }
}

/// One file of an ingest: its name for reports, its category, and its
/// position among the selections.
pub struct IngestFileView {
    pub filename: Seq<char>,
    pub category: Category,
    pub selection: usize,
}

/// An ingest in progress as plain values.
pub struct IngestRunView {
    pub locations: Seq<StorageLocation>,
    pub local_id: Seq<char>,
    pub targets: Seq<usize>,
    pub local: int,
    pub local_pos: int,
    pub files: Seq<IngestFileView>,
    pub mirrors: Seq<(Seq<char>, StorageKind)>,
    pub start: HarvestReportView,
    pub outcomes: Seq<CandidateOutcomeView>,
    pub next: int,
    pub report: HarvestReportView,
}

/// The files an ingest takes, in order: the selected entries, each named by
/// its source file name.
pub open spec fn spec_ingest_files(sel: Seq<CandidateSelection>) -> Seq<IngestFileView> {
    spec_selected_indices(sel).map_values(
        |i: usize|
            IngestFileView {
                filename: spec_source_file_name(sel[i as int].original_path@),
                category: sel[i as int].category,
                selection: i,
            },
    )
}

/// An ingest run: every selected file is booked exactly once, in order,
/// with outcomes the run builds itself (so the local library and every
/// mirror are named as the storage locations say).
pub struct IngestRun {
    report: HarvestReport,
    files: Vec<(String, Category, usize)>,
    next: usize,
    local_id: String,
    targets: Vec<usize>,
    mirrors: Vec<(String, StorageKind)>,
    locations: Ghost<Seq<StorageLocation>>,
    local: usize,
    local_pos: Ghost<int>,
    start: Ghost<HarvestReportView>,
    outcomes: Ghost<Seq<CandidateOutcomeView>>,
}

pub open spec fn file_view(f: (String, Category, usize)) -> IngestFileView {
    IngestFileView { filename: f.0@, category: f.1, selection: f.2 }
}

pub open spec fn target_view(t: (String, StorageKind)) -> (Seq<char>, StorageKind) {
    (t.0@, t.1)
}

impl View for IngestRun {
    type V = IngestRunView;

    closed spec fn view(&self) -> IngestRunView {
        IngestRunView {
            locations: self.locations@,
            local_id: self.local_id@,
            targets: self.targets@,
            local: self.local as int,
            local_pos: self.local_pos@,
            files: self.files@.map_values(|f: (String, Category, usize)| file_view(f)),
            mirrors: self.mirrors@.map_values(|t: (String, StorageKind)| target_view(t)),
            start: self.start@,
            outcomes: self.outcomes@,
            next: self.next as int,
            report: self.report@,
        }
    }
}

/// What every ingest run keeps: the report is the fresh report after the
/// outcomes booked so far, one per processed file; the local library and the
/// mirrors are those of the locations; over locations with distinct ids,
/// every outcome names the local library and each mirror once.
pub open spec fn run_wf(v: IngestRunView) -> bool {
    &&& v.locations.len() <= usize::MAX
    &&& v.files.len() < u32::MAX
    &&& v.outcomes.len() <= v.files.len()
    &&& v.next == v.outcomes.len()
    &&& v.mirrors.len() == v.targets.len()
    &&& run_frame(v)
}

/// The part of `run_wf` that ties the report, the local library and the
/// mirrors to the locations.
#[verifier::opaque]
pub open spec fn run_frame(v: IngestRunView) -> bool {
    let e = spec_enabled_indices(v.locations);
    &&& v.report == spec_record_all(v.start, v.outcomes)
    &&& report_is_fresh(v.start)
    &&& v.start.storage.len() == e.len()
    &&& forall|k: int|
        0 <= k < e.len() ==> starts_summary(
            #[trigger] v.start.storage[k],
            v.locations[e[k] as int],
            v.files.len() as u32,
        )
    &&& spec_first_enabled_of_kind(v.locations, StorageKind::Local) == Some(v.local)
    &&& 0 <= v.local_pos < e.len()
    &&& e[v.local_pos] == v.local
    &&& v.local_id == v.locations[v.local].id@
    &&& v.targets == spec_mirror_indices(v.locations, v.local_id)
    &&& v.mirrors == v.targets.map_values(
        |i: usize| (v.locations[i as int].id@, v.locations[i as int].kind),
    )
    &&& enabled_ids_distinct(v.locations) ==> forall|i: int|
        0 <= i < v.outcomes.len() ==> outcome_names_locations(
            #[trigger] v.outcomes[i],
            v.start.storage,
            v.local_pos,
        )
}

proof fn lemma_selected_bounded(sel: Seq<CandidateSelection>)
    ensures
        spec_selected_indices(sel).len() <= sel.len(),
        forall|k: int|
            0 <= k < spec_selected_indices(sel).len() ==> #[trigger] spec_selected_indices(sel)[k]
                < sel.len(),
    decreases sel.len(),
{
    if sel.len() > 0 {
        lemma_selected_bounded(sel.drop_last());
    }
}

proof fn lemma_enabled_found(locs: Seq<StorageLocation>, i: int)
    requires
        0 <= i < locs.len(),
        locs[i].enabled,
        locs.len() <= usize::MAX,
    ensures
        exists|k: int|
            0 <= k < spec_enabled_indices(locs).len() && #[trigger] spec_enabled_indices(locs)[k]
                == i,
    decreases locs.len(),
{
    lemma_enabled_prefix(locs);
    let e = spec_enabled_indices(locs);
    let e0 = spec_enabled_indices(locs.drop_last());
    if i == locs.len() - 1 {
        assert(e[e0.len() as int] == i);
    } else {
        lemma_enabled_found(locs.drop_last(), i);
        let k = choose|k: int| 0 <= k < e0.len() && #[trigger] e0[k] == i;
        assert(e[k] == e0[k]);
    }
}

/// The outcome weight bound of a run: a harvested file touches the local
/// library and every mirror.
pub open spec fn run_weight(v: IngestRunView) -> int {
    1 + v.mirrors.len() as int
}

proof fn lemma_minimal_of_kind(locs: Seq<StorageLocation>, kind: StorageKind, i: int)
    requires
        0 <= i < locs.len(),
        locs[i].enabled && locs[i].kind == kind,
    ensures
        exists|m: int|
            0 <= m < locs.len() && locs[m].enabled && locs[m].kind == kind && forall|j: int|
                0 <= j < m ==> !(locs[j].enabled && locs[j].kind == kind),
    decreases i,
{
    if exists|j: int| 0 <= j < i && locs[j].enabled && locs[j].kind == kind {
        let j = choose|j: int| 0 <= j < i && locs[j].enabled && locs[j].kind == kind;
        lemma_minimal_of_kind(locs, kind, j);
    } else {
        assert(forall|j: int| 0 <= j < i ==> !(locs[j].enabled && locs[j].kind == kind));
    }
}

proof fn lemma_first_of_kind_found(locs: Seq<StorageLocation>, kind: StorageKind)
    ensures
        spec_first_enabled_of_kind(locs, kind) matches Some(i) ==> 0 <= i < locs.len()
            && locs[i].enabled && locs[i].kind == kind && forall|j: int|
            0 <= j < i ==> !(locs[j].enabled && locs[j].kind == kind),
{
    if exists|i: int| 0 <= i < locs.len() && locs[i].enabled && locs[i].kind == kind {
        let i = choose|i: int| 0 <= i < locs.len() && locs[i].enabled && locs[i].kind == kind;
        lemma_minimal_of_kind(locs, kind, i);
    }
}

proof fn lemma_mirror_indices_bounded(locs: Seq<StorageLocation>, lid: Seq<char>)
    ensures
        forall|k: int|
            0 <= k < spec_mirror_indices(locs, lid).len() ==> #[trigger] spec_mirror_indices(
                locs,
                lid,
            )[k] < locs.len(),
    decreases locs.len(),
{
    if locs.len() > 0 {
        let l0 = locs.drop_last();
        lemma_mirror_indices_bounded(l0, lid);
        let m = spec_mirror_indices(locs, lid);
        let m0 = spec_mirror_indices(l0, lid);
        assert forall|k: int| 0 <= k < m.len() implies #[trigger] m[k] < locs.len() by {
            if k < m0.len() {
                assert(m[k] == m0[k]);
            }
        }
    }
}

impl IngestRun {
    /// Starts an ingest of the selected entries over `locations`: an enabled
    /// local library is needed (else `LocalLibraryMissing`); mirrors are the
    /// other enabled locations.
    pub fn start(
        session_id: &str,
        locations: &[StorageLocation],
        selections: &[CandidateSelection],
    ) -> (r: Result<IngestRun, AppError>)
        requires
            selections@.len() < u32::MAX,
        ensures
            match spec_first_enabled_of_kind(locations@, StorageKind::Local) {
                None => r matches Err(e) && e@ == AppErrorView::LocalLibraryMissing,
                Some(i) => r matches Ok(run) && {
                    &&& run_wf(run@)
                    &&& run@.locations == locations@
                    &&& run@.local == i
                    &&& run@.files == spec_ingest_files(selections@)
                    &&& run@.outcomes.len() == 0
                    &&& run@.report.session_id == session_id@
                },
            },
    {
        let farm = farm_locations(locations)?;
        proof {
            lemma_first_of_kind_found(locations@, StorageKind::Local);
        }
        let picked = selected_indices(selections);
        proof {
            lemma_selected_bounded(selections@);
        }
        let mut files: Vec<(String, Category, usize)> = Vec::new();
        let mut k: usize = 0;
        while k < picked.len()
            invariant
                0 <= k <= picked@.len(),
                picked@ == spec_selected_indices(selections@),
                forall|j: int| 0 <= j < picked@.len() ==> #[trigger] picked@[j] < selections@.len(),
                files@.map_values(|f: (String, Category, usize)| file_view(f))
                    == spec_ingest_files(selections@).take(k as int),
            decreases picked@.len() - k,
        {
            let idx = picked[k];
            let name = source_file_name(selections[idx].original_path.as_str());
            let ghost f0 = files@;
            let ghost entry = IngestFileView {
                filename: name@,
                category: selections@[idx as int].category,
                selection: idx,
            };
            assert(spec_ingest_files(selections@)[k as int] == entry);
            files.push((name, selections[idx].category, idx));
            assert(files@.map_values(|f: (String, Category, usize)| file_view(f)) =~= f0.map_values(
                |f: (String, Category, usize)| file_view(f),
            ).push(entry));
            assert(spec_ingest_files(selections@).take(k as int + 1) =~= spec_ingest_files(
                selections@,
            ).take(k as int).push(entry));
            k = k + 1;
        }
        assert(spec_ingest_files(selections@).take(k as int) =~= spec_ingest_files(selections@));
        let report = HarvestReport::start(session_id, locations, picked.len() as u32);
        let local = farm.local;
        let local_id = crate::error::copy_string(locations[local].id.as_str());
        let targets = mirror_indices(locations, local);
        proof {
            lemma_mirror_indices_bounded(locations@, locations@[local as int].id@);
        }
        let mut mirrors: Vec<(String, StorageKind)> = Vec::new();
        let mut j: usize = 0;
        while j < targets.len()
            invariant
                0 <= j <= targets@.len(),
                targets@ == spec_mirror_indices(locations@, locations@[local as int].id@),
                forall|t: int| 0 <= t < targets@.len() ==> #[trigger] targets@[t] < locations@.len(),
                mirrors@.map_values(|t: (String, StorageKind)| target_view(t)) == targets@.take(
                    j as int,
                ).map_values(|i: usize| (locations@[i as int].id@, locations@[i as int].kind)),
            decreases targets@.len() - j,
        {
            let t = targets[j];
            let ghost m0 = mirrors@;
            let ghost entry = (locations@[t as int].id@, locations@[t as int].kind);
            mirrors.push((crate::error::copy_string(locations[t].id.as_str()), locations[t].kind));
            assert(mirrors@.map_values(|t: (String, StorageKind)| target_view(t)) =~= m0.map_values(
                |t: (String, StorageKind)| target_view(t),
            ).push(entry));
            assert(targets@.take(j as int + 1) =~= targets@.take(j as int).push(t));
            assert(targets@.take(j as int + 1).map_values(
                |i: usize| (locations@[i as int].id@, locations@[i as int].kind),
            ) =~= targets@.take(j as int).map_values(
                |i: usize| (locations@[i as int].id@, locations@[i as int].kind),
            ).push(entry));
            j = j + 1;
        }
        assert(targets@.take(j as int) =~= targets@);
        let mut p: usize = 0;
        proof {
            lemma_enabled_found(locations@, local as int);
        }
        while p < farm.enabled.len() && farm.enabled[p] != local
            invariant
                0 <= p <= farm.enabled@.len(),
                farm.enabled@ == spec_enabled_indices(locations@),
                forall|q: int| 0 <= q < p ==> farm.enabled@[q] != local,
            decreases farm.enabled@.len() - p,
        {
            p = p + 1;
        }
        assert(p < farm.enabled@.len());
        let run = IngestRun {
            report,
            files,
            next: 0,
            local_id,
            targets,
            mirrors,
            locations: Ghost(locations@),
            local,
            local_pos: Ghost(p as int),
            start: Ghost(report@),
            outcomes: Ghost(Seq::empty()),
        };
        proof {
            lemma_enabled_indices_bounded(locations@);
            reveal(run_frame);
        }
        Ok(run)
    }
}

/// The outcome of the file being processed, built from its name, the local
/// library and the mirrors of the run.
pub open spec fn unstable_outcome(v: IngestRunView, error: StabilityError) -> CandidateOutcomeView {
    CandidateOutcomeView::Unstable { filename: v.files[v.outcomes.len() as int].filename, error }
}

pub open spec fn mirror_results(v: IngestRunView, errors: Seq<Option<Seq<char>>>) -> Seq<
    MirrorCopyView,
> {
    Seq::new(
        v.mirrors.len(),
        |j: int| MirrorCopyView { location_id: v.mirrors[j].0, kind: v.mirrors[j].1, error: errors[j] },
    )
}

proof fn lemma_no_duplicate_flags(r: HarvestReportView, outcomes: Seq<CandidateOutcomeView>)
    requires
        forall|i: int| 0 <= i < r.assets.len() ==> !(#[trigger] r.assets[i]).duplicate,
    ensures
        forall|i: int|
            0 <= i < spec_record_all(r, outcomes).assets.len() ==> !(#[trigger] spec_record_all(
                r,
                outcomes,
            ).assets[i]).duplicate,
    decreases outcomes.len(),
{
    if outcomes.len() > 0 {
        lemma_no_duplicate_flags(r, outcomes.drop_last());
        let p = spec_record_all(r, outcomes.drop_last());
        let f = spec_record_all(r, outcomes);
        assert forall|i: int| 0 <= i < f.assets.len() implies !(#[trigger] f.assets[i]).duplicate by {
            if i < p.assets.len() {
                assert(f.assets[i] == p.assets[i]);
            }
        }
    }
}

/// Booking one more outcome that names the locations keeps the frame.
proof fn lemma_frame_step(v: IngestRunView, o: CandidateOutcomeView)
    requires
        run_frame(v),
        enabled_ids_distinct(v.locations) ==> outcome_names_locations(o, v.start.storage, v.local_pos),
    ensures
        run_frame(
            IngestRunView {
                outcomes: v.outcomes.push(o),
                next: v.next + 1,
                report: spec_record(v.report, o),
                ..v
            },
        ),
{
    reveal(run_frame);
    let w = IngestRunView {
        outcomes: v.outcomes.push(o),
        next: v.next + 1,
        report: spec_record(v.report, o),
        ..v
    };
    assert(w.outcomes.drop_last() =~= v.outcomes);
    assert(w.report == spec_record_all(w.start, w.outcomes));
    if enabled_ids_distinct(v.locations) {
        assert forall|i: int| 0 <= i < w.outcomes.len() implies outcome_names_locations(
            #[trigger] w.outcomes[i],
            w.start.storage,
            w.local_pos,
        ) by {
            if i < v.outcomes.len() {
                assert(w.outcomes[i] == v.outcomes[i]);
            }
        }
    }
}

/// In a run the local library's summary carries the local id.
proof fn lemma_run_local_id(v: IngestRunView)
    requires
        run_wf(v),
    ensures
        v.start.storage[v.local_pos].storage_location_id@ == v.local_id,
{
    reveal(run_frame);
    let e = spec_enabled_indices(v.locations);
    assert(starts_summary(
        v.start.storage[v.local_pos],
        v.locations[e[v.local_pos] as int],
        v.files.len() as u32,
    ));
}

/// Over distinct ids, the mirror copies of a run name every summary but the
/// local library's, in order.
proof fn lemma_run_mirrors_named(v: IngestRunView, errs: Seq<Option<Seq<char>>>)
    requires
        run_wf(v),
    ensures
        enabled_ids_distinct(v.locations) ==> {
            &&& mirror_results(v, errs).len() + 1 == v.start.storage.len()
            &&& forall|t: int|
                0 <= t < mirror_results(v, errs).len() ==> (#[trigger] mirror_results(
                    v,
                    errs,
                )[t]).location_id == v.start.storage[mirror_position(
                    v.local_pos,
                    t,
                )].storage_location_id@
        },
{
    reveal(run_frame);
    let e = spec_enabled_indices(v.locations);
    if enabled_ids_distinct(v.locations) {
        lemma_mirrors_skip_local(v.locations, v.local_pos);
        let ms = mirror_results(v, errs);
        assert forall|t: int| 0 <= t < ms.len() implies (#[trigger] ms[t]).location_id
            == v.start.storage[mirror_position(v.local_pos, t)].storage_location_id@ by {
            let q = mirror_position(v.local_pos, t);
            assert(v.targets[t] == e[q]);
            assert(starts_summary(v.start.storage[q], v.locations[e[q] as int], v.files.len() as u32));
        }
    }
}

/// What a completed run's report says, before it is finished.
proof fn lemma_run_finished(v: IngestRunView)
    requires
        run_wf(v),
        v.outcomes.len() == v.files.len(),
    ensures
        ({
            let r = spec_finish(v.report);
            &&& r.new_assets + r.duplicates_skipped + r.failed == v.files.len()
            &&& r.assets.len() == r.new_assets
            &&& r.duplicates.len() == r.duplicates_skipped
            &&& forall|i: int| 0 <= i < r.assets.len() ==> !(#[trigger] r.assets[i]).duplicate
            &&& r.storage.len() == spec_enabled_indices(v.locations).len()
            &&& forall|k: int|
                0 <= k < r.storage.len() ==> (#[trigger] r.storage[k]).total == r.new_assets
                    && r.storage[k].storage_location_id@ == v.locations[spec_enabled_indices(
                    v.locations,
                )[k] as int].id@
            &&& enabled_ids_distinct(v.locations) ==> {
                &&& r.storage[v.local_pos].copied == r.new_assets
                &&& forall|k: int|
                    0 <= k < r.storage.len() && k != v.local_pos ==> (
                    #[trigger] r.storage[k]).copied + r.storage[k].failed == r.new_assets
            }
        }),
{
    reveal(run_frame);
    let e = spec_enabled_indices(v.locations);
    let named = enabled_ids_distinct(v.locations);
    assert forall|k: int| 0 <= k < v.start.storage.len() implies (#[trigger] v.start.storage[
        k
    ]).storage_location_id@ == v.locations[e[k] as int].id@ by {
        assert(starts_summary(v.start.storage[k], v.locations[e[k] as int], v.files.len() as u32));
    }
    if named {
        assert forall|a: int, b: int|
            0 <= a < v.start.storage.len() && 0 <= b < v.start.storage.len() && a != b implies (
            #[trigger] v.start.storage[a]).storage_location_id@ != (
            #[trigger] v.start.storage[b]).storage_location_id@ by {
            assert(v.start.storage[a].storage_location_id@ == v.locations[e[a] as int].id@);
            assert(v.start.storage[b].storage_location_id@ == v.locations[e[b] as int].id@);
        }
    }
    lemma_finished_report(v.start, v.outcomes, v.local_pos, named);
}

/// The finished report after a series of outcomes booked on a fresh report.
proof fn lemma_finished_report(
    r0: HarvestReportView,
    outcomes: Seq<CandidateOutcomeView>,
    local: int,
    named: bool,
)
    requires
        report_is_fresh(r0),
        0 <= local < r0.storage.len(),
        outcomes.len() < u32::MAX,
        named ==> distinct_locations(r0.storage),
        named ==> forall|i: int|
            0 <= i < outcomes.len() ==> outcome_names_locations(
                #[trigger] outcomes[i],
                r0.storage,
                local,
            ),
    ensures
        ({
            let r = spec_finish(spec_record_all(r0, outcomes));
            &&& r.new_assets + r.duplicates_skipped + r.failed == outcomes.len()
            &&& r.assets.len() == r.new_assets
            &&& r.duplicates.len() == r.duplicates_skipped
            &&& forall|i: int| 0 <= i < r.assets.len() ==> !(#[trigger] r.assets[i]).duplicate
            &&& r.storage.len() == r0.storage.len()
            &&& forall|k: int|
                0 <= k < r.storage.len() ==> (#[trigger] r.storage[k]).total == r.new_assets
                    && r.storage[k].storage_location_id == r0.storage[k].storage_location_id
            &&& named ==> {
                &&& r.storage[local].copied == r.new_assets
                &&& forall|k: int|
                    0 <= k < r.storage.len() && k != local ==> (#[trigger] r.storage[k]).copied
                        + r.storage[k].failed == r.new_assets
            }
        }),
{
    law_report_accounts_every_file(r0, outcomes);
    lemma_no_duplicate_flags(r0, outcomes);
    let f = spec_record_all(r0, outcomes);
    let r = spec_finish(f);
    assert forall|k: int| 0 <= k < r.storage.len() implies (#[trigger] r.storage[k]).total
        == r.new_assets && r.storage[k].storage_location_id == r0.storage[k].storage_location_id by {
        assert(r.storage[k] == StorageCopySummary { total: f.new_assets, ..f.storage[k] });
    }
    if named {
        lemma_counts_kept(r0, outcomes, local);
        assert forall|k: int| 0 <= k < r.storage.len() && k != local implies (
        #[trigger] r.storage[k]).copied + r.storage[k].failed == r.new_assets by {
            assert(r.storage[k] == StorageCopySummary { total: f.new_assets, ..f.storage[k] });
        }
        assert(r.storage[local] == StorageCopySummary { total: f.new_assets, ..f.storage[local] });
    }
}

impl IngestRun {
    /// The selection the next file comes from; none once every file is booked.
    pub fn next_selection(&self) -> (r: Option<usize>)
        requires
            run_wf(self@),
        ensures
            self@.outcomes.len() < self@.files.len() ==> r == Some(
                self@.files[self@.outcomes.len() as int].selection,
            ),
            self@.outcomes.len() == self@.files.len() ==> r is None,
    {
        if self.next < self.files.len() {
            Some(self.files[self.next].2)
        } else {
            None
        }
    }

    /// The name reports use for the file being processed.
    pub fn current_filename(&self) -> (r: &str)
        requires
            run_wf(self@),
            self@.outcomes.len() < self@.files.len(),
        ensures
            r@ == self@.files[self@.outcomes.len() as int].filename,
    {
        self.files[self.next].0.as_str()
    }

    /// Position (among the locations) of the local library.
    pub fn local_index(&self) -> (r: usize)
        ensures
            r == self@.local,
    {
        self.local
    }

    /// Positions (among the locations) of the mirrors, in the order their
    /// copies are reported.
    pub fn mirror_targets(&self) -> (r: &[usize])
        requires
            run_wf(self@),
        ensures
            r@ == self@.targets,
    {
        self.targets.as_slice()
    }

    /// Whether the report can book one more file.
    pub fn has_room(&self) -> (b: bool)
        requires
            run_wf(self@),
        ensures
            b == report_has_room(self@.report, run_weight(self@)),
    {
        let w = self.mirrors.len();
        if w >= u32::MAX as usize {
            return false;
        }
        self.report.has_room(1 + w as u32)
    }

    fn book(&mut self, outcome: CandidateOutcome)
        requires
            run_wf(old(self)@),
            old(self)@.outcomes.len() < old(self)@.files.len(),
            report_has_room(old(self)@.report, outcome_weight(outcome@)),
            enabled_ids_distinct(old(self)@.locations) ==> outcome_names_locations(
                outcome@,
                old(self)@.start.storage,
                old(self)@.local_pos,
            ),
        ensures
            final(self)@ == (IngestRunView {
                outcomes: old(self)@.outcomes.push(outcome@),
                next: old(self)@.next + 1,
                report: spec_record(old(self)@.report, outcome@),
                ..old(self)@
            }),
            run_wf(final(self)@),
    {
        let ghost o = outcome@;
        let ghost v0 = self@;
        self.report.record(outcome);
        self.next = self.next + 1;
        proof {
            self.outcomes@ = self.outcomes@.push(o);
            lemma_frame_step(v0, o);
        }
        assert(self@.files =~= v0.files);
        assert(self@.mirrors =~= v0.mirrors);
        assert(self@.outcomes == v0.outcomes.push(o));
    }

    /// Books the file being processed as one that did not settle.
    pub fn record_unstable(&mut self, error: StabilityError)
        requires
            run_wf(old(self)@),
            old(self)@.outcomes.len() < old(self)@.files.len(),
            report_has_room(old(self)@.report, run_weight(old(self)@)),
        ensures
            ({
                let o = unstable_outcome(old(self)@, error);
                final(self)@ == (IngestRunView {
                    outcomes: old(self)@.outcomes.push(o),
                    next: old(self)@.next + 1,
                    report: spec_record(old(self)@.report, o),
                    ..old(self)@
                })
            }),
            run_wf(final(self)@),
    {
        let filename = crate::error::copy_string(self.files[self.next].0.as_str());
        self.book(CandidateOutcome::Unstable { filename, error });
    }

    /// Books the file being processed as one that could not be hashed.
    pub fn record_hash_failure(&mut self, message: String)
        requires
            run_wf(old(self)@),
            old(self)@.outcomes.len() < old(self)@.files.len(),
            report_has_room(old(self)@.report, run_weight(old(self)@)),
        ensures
            ({
                let o = CandidateOutcomeView::Failed {
                    filename: old(self)@.files[old(self)@.outcomes.len() as int].filename,
                    message: message@,
                };
                final(self)@ == (IngestRunView {
                    outcomes: old(self)@.outcomes.push(o),
                    next: old(self)@.next + 1,
                    report: spec_record(old(self)@.report, o),
                    ..old(self)@
                })
            }),
            run_wf(final(self)@),
    {
        let filename = crate::error::copy_string(self.files[self.next].0.as_str());
        self.book(CandidateOutcome::Failed { filename, message });
    }

    /// Books the file being processed as a duplicate of asset
    /// `existing_asset_id`, which already holds bytes hashing to `content_hash`.
    pub fn record_duplicate(&mut self, existing_asset_id: String, content_hash: String)
        requires
            run_wf(old(self)@),
            old(self)@.outcomes.len() < old(self)@.files.len(),
            report_has_room(old(self)@.report, run_weight(old(self)@)),
        ensures
            final(self)@.outcomes.len() == old(self)@.outcomes.len() + 1,
            final(self)@.outcomes.last() matches CandidateOutcomeView::Duplicate(d) && {
                &&& d.original_filename@ == old(self)@.files[old(self)@.outcomes.len() as int].filename
                &&& d.existing_asset_id == existing_asset_id
                &&& d.content_hash == content_hash
            },
            final(self)@ == (IngestRunView {
                outcomes: old(self)@.outcomes.push(final(self)@.outcomes.last()),
                next: old(self)@.next + 1,
                report: spec_record(old(self)@.report, final(self)@.outcomes.last()),
                ..old(self)@
            }),
            run_wf(final(self)@),
    {
        let filename = crate::error::copy_string(self.files[self.next].0.as_str());
        self.book(
            CandidateOutcome::Duplicate(
                DuplicateSkip { original_filename: filename, existing_asset_id, content_hash },
            ),
        );
    }

    /// Decides on the file being processed from the catalogue's lookup of its
    /// content hash: a hash already held by asset `id` books the file as a
    /// duplicate of it, which adds no asset (and returns `true`); an unknown
    /// hash changes nothing (and returns `false`), the file goes on to be
    /// copied.
    pub fn skip_known(&mut self, existing_asset_id: Option<String>, content_hash: String) -> (skipped:
        bool)
        requires
            run_wf(old(self)@),
            old(self)@.outcomes.len() < old(self)@.files.len(),
            report_has_room(old(self)@.report, run_weight(old(self)@)),
        ensures
            skipped == existing_asset_id is Some,
            run_wf(final(self)@),
            existing_asset_id is None ==> final(self)@ == old(self)@,
            existing_asset_id matches Some(id) ==> {
                let d = DuplicateSkip {
                    original_filename: final(self)@.outcomes.last()->Duplicate_0.original_filename,
                    existing_asset_id: id,
                    content_hash,
                };
                &&& d.original_filename@ == old(self)@.files[old(self)@.outcomes.len() as int].filename
                &&& final(self)@.outcomes == old(self)@.outcomes.push(CandidateOutcomeView::Duplicate(d))
                &&& final(self)@.report == spec_record(
                    old(self)@.report,
                    CandidateOutcomeView::Duplicate(d),
                )
                &&& final(self)@.report.new_assets == old(self)@.report.new_assets
                &&& final(self)@.report.assets == old(self)@.report.assets
                &&& final(self)@.report.duplicates_skipped == old(self)@.report.duplicates_skipped + 1
            },
    {
        match existing_asset_id {
            Some(id) => {
                self.record_duplicate(id, content_hash);
                true
            },
            None => false,
        }
    }

    /// Books the file being processed as one whose copy into the local
    /// library failed with `message`.
    pub fn record_local_copy_failed(&mut self, message: String)
        requires
            run_wf(old(self)@),
            old(self)@.outcomes.len() < old(self)@.files.len(),
            report_has_room(old(self)@.report, run_weight(old(self)@)),
        ensures
            ({
                let o = CandidateOutcomeView::LocalCopyFailed {
                    local_id: old(self)@.local_id,
                    message: message@,
                };
                final(self)@ == (IngestRunView {
                    outcomes: old(self)@.outcomes.push(o),
                    next: old(self)@.next + 1,
                    report: spec_record(old(self)@.report, o),
                    ..old(self)@
                })
            }),
            run_wf(final(self)@),
    {
        proof {
            lemma_run_local_id(self@);
        }
        let local_id = crate::error::copy_string(self.local_id.as_str());
        self.book(CandidateOutcome::LocalCopyFailed { local_id, message });
    }

    /// Books the file being processed as harvested: stored as asset
    /// `asset_id` named `canonical_filename`, with `source_changed` telling
    /// whether its bytes changed during the copy, and `mirror_errors[j]` the
    /// error (if any) of the copy to the `j`-th mirror target.
    pub fn record_harvested(
        &mut self,
        asset_id: String,
        canonical_filename: String,
        source_changed: bool,
        mirror_errors: Vec<Option<String>>,
    )
        requires
            run_wf(old(self)@),
            old(self)@.outcomes.len() < old(self)@.files.len(),
            report_has_room(old(self)@.report, run_weight(old(self)@)),
            mirror_errors@.len() == old(self)@.mirrors.len(),
        ensures
            ({
                let v = old(self)@;
                let f = v.files[v.outcomes.len() as int];
                let o = CandidateOutcomeView::Harvested {
                    asset_id: asset_id@,
                    canonical_filename: canonical_filename@,
                    category: f.category,
                    original_filename: f.filename,
                    local_id: v.local_id,
                    source_changed,
                    mirrors: mirror_results(
                        v,
                        mirror_errors@.map_values(
                            |e: Option<String>|
                                match e {
                                    Some(t) => Some(t@),
                                    None => None,
                                },
                        ),
                    ),
                };
                final(self)@ == (IngestRunView {
                    outcomes: v.outcomes.push(o),
                    next: v.next + 1,
                    report: spec_record(v.report, o),
                    ..v
                })
            }),
            run_wf(final(self)@),
    {
        let ghost v = self@;
        let ghost errs = mirror_errors@.map_values(
            |e: Option<String>|
                match e {
                    Some(t) => Some(t@),
                    None => None,
                },
        );
        let mut rest = mirror_errors;
        let mut mirrors: Vec<MirrorCopy> = Vec::new();
        let mut j: usize = 0;
        while j < self.mirrors.len()
            invariant
                self@ == v,
                0 <= j <= v.mirrors.len(),
                rest@.len() + j == v.mirrors.len(),
                forall|t: int|
                    0 <= t < rest@.len() ==> match #[trigger] rest@[t] {
                        Some(x) => errs[j + t] == Some(x@),
                        None => errs[j + t] is None,
                    },
                mirrors@.map_values(|m: MirrorCopy| m@) == mirror_results(v, errs).take(j as int),
            decreases v.mirrors.len() - j,
        {
            let e = rest.remove(0);
            let id = crate::error::copy_string(self.mirrors[j].0.as_str());
            let kind = self.mirrors[j].1;
            let ghost m0 = mirrors@;
            let m = MirrorCopy { location_id: id, kind, error: e };
            assert(m@ == mirror_results(v, errs)[j as int]);
            mirrors.push(m);
            assert(mirrors@.map_values(|m: MirrorCopy| m@) =~= m0.map_values(|m: MirrorCopy| m@).push(
                mirror_results(v, errs)[j as int],
            ));
            assert(mirror_results(v, errs).take(j as int + 1) =~= mirror_results(v, errs).take(
                j as int,
            ).push(mirror_results(v, errs)[j as int]));
            j = j + 1;
        }
        assert(mirror_results(v, errs).take(j as int) =~= mirror_results(v, errs));
        proof {
            lemma_run_local_id(v);
            lemma_run_mirrors_named(v, errs);
        }
        let category = self.files[self.next].1;
        let original_filename = crate::error::copy_string(self.files[self.next].0.as_str());
        let local_id = crate::error::copy_string(self.local_id.as_str());
        self.book(
            CandidateOutcome::Harvested {
                asset_id,
                canonical_filename,
                category,
                original_filename,
                local_id,
                source_changed,
                mirrors,
            },
        );
    }

    /// The report of a run in which every file was booked: each selected
    /// file counted once as new, duplicate or failed; one summary per new
    /// asset, none marked duplicate; every location's total is the number of
    /// new assets; and, over locations with distinct ids, the local library
    /// copied every new asset while each mirror copied or failed each one.
    pub fn finish(self) -> (r: HarvestReport)
        requires
            run_wf(self@),
            self@.outcomes.len() == self@.files.len(),
        ensures
            r@ == spec_finish(self@.report),
            r@.new_assets + r@.duplicates_skipped + r@.failed == self@.files.len(),
            r@.assets.len() == r@.new_assets,
            r@.duplicates.len() == r@.duplicates_skipped,
            forall|i: int| 0 <= i < r@.assets.len() ==> !(#[trigger] r@.assets[i]).duplicate,
            r@.storage.len() == spec_enabled_indices(self@.locations).len(),
            forall|k: int|
                0 <= k < r@.storage.len() ==> (#[trigger] r@.storage[k]).total == r@.new_assets
                    && r@.storage[k].storage_location_id@ == self@.locations[spec_enabled_indices(
                    self@.locations,
                )[k] as int].id@,
            enabled_ids_distinct(self@.locations) ==> {
                &&& r@.storage[self@.local_pos].copied == r@.new_assets
                &&& forall|k: int|
                    0 <= k < r@.storage.len() && k != self@.local_pos ==> (
                    #[trigger] r@.storage[k]).copied + r@.storage[k].failed == r@.new_assets
            },
    {
        proof {
            lemma_run_finished(self@);
        }
        let mut report = self.report;
        report.finish();
        report
    }
}

} // verus!
