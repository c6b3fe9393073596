//! Removing, renaming and recategorising library assets.
//!
//! Every copy of an asset is a file the library manages; the Ableton source
//! file it came from is never touched. The caller does the filesystem and
//! database work and reports back; these functions decide what to do with
//! each copy, keep the per-location results, and say when the operation as a
//! whole must be refused.
use vstd::prelude::*;

use crate::domain::{
    AssetStorageLocation, Category, CopyStatus, DeleteFromLibraryReport, StorageDeleteResult,
    StorageKind, StorageLocation, StorageRelocateResult, UpdateLibraryAssetReport,
};
use crate::error::{copy_string, lowercase, lowercase_of, AppError, AppErrorView};
use crate::naming::{
    clean_chars, extension_of, is_audio_extension, is_collision_resolution,
    law_cleaning_removes_unsafe_chars, nfc_of, normalize_library_filename_input,
    resolve_filename_collision, spec_extension_of, spec_normalize_filename,
};
use crate::pathname::{join_path, lemma_plain_name, path_join, paths_equal, same_path_components};
use crate::storage::{library_relative, spec_library_relative};
use crate::text::{
    chars_of, concat_str, lemma_trim_keeps, str_eq, string_of, trim, trim_end, trim_start, TrimClass,
};

verus! {

// ---------------------------------------------------------------------------
// Comparing paths
// ---------------------------------------------------------------------------

/// `\` replaced by `/`.
pub open spec fn forward_slashes(s: Seq<char>) -> Seq<char> {
    s.map_values(|c: char| if c == '\\' { '/' } else { c })
}

/// A path's text with forward slashes, in lowercase: the last resort for
/// telling whether two paths name the same file.
pub open spec fn spec_normalize_path(path: Seq<char>) -> Seq<char> {
    lowercase_of(forward_slashes(path))
}

/// The loose form of a path used to compare paths that cannot be resolved.
pub fn normalize_path(path: &str) -> (r: String)
    ensures
        r@ == spec_normalize_path(path@),
{
    let v = chars_of(path);
    let mut out: Vec<char> = Vec::new();
    let mut i: usize = 0;
    while i < v.len()
        invariant
            0 <= i <= v@.len(),
            out@ == forward_slashes(v@.take(i as int)),
        decreases v@.len() - i,
    {
        let c = v[i];
        out.push(if c == '\\' { '/' } else { c });
        assert(forward_slashes(v@.take(i as int + 1)) =~= forward_slashes(v@.take(i as int)).push(
            if c == '\\' { '/' } else { c },
        ));
        i = i + 1;
    }
    assert(v@.take(i as int) =~= v@);
    let s = string_of(out.as_slice());
    lowercase(s.as_str())
}

/// Whether `a` and `b` name the same file: equal paths do; otherwise, when
/// both resolve (`canonical_a`, `canonical_b`, the results of
/// `Path::canonicalize`), their resolved paths decide; otherwise their
/// normalised texts do.
pub open spec fn spec_is_same_path(
    a: Seq<char>,
    b: Seq<char>,
    canonical_a: Option<Seq<char>>,
    canonical_b: Option<Seq<char>>,
) -> bool {
    if same_path_components(a, b) {
        true
    } else {
        match (canonical_a, canonical_b) {
            (Some(ca), Some(cb)) => same_path_components(ca, cb),
            _ => spec_normalize_path(a) == spec_normalize_path(b),
        }
    }
}

pub open spec fn opt_text(o: Option<&str>) -> Option<Seq<char>> {
    match o {
        Some(s) => Some(s@),
        None => None,
    }
}

/// Whether two paths name the same file (see [`spec_is_same_path`]).
pub fn is_same_path(a: &str, b: &str, canonical_a: Option<&str>, canonical_b: Option<&str>) -> (r:
    bool)
    ensures
        r == spec_is_same_path(a@, b@, opt_text(canonical_a), opt_text(canonical_b)),
{
    if paths_equal(a, b) {
        return true;
    }
    match (canonical_a, canonical_b) {
        (Some(ca), Some(cb)) => paths_equal(ca, cb),
        _ => {
            let na = normalize_path(a);
            let nb = normalize_path(b);
            str_eq(na.as_str(), nb.as_str())
        },
    }
}

// ---------------------------------------------------------------------------
// Deleting
// ---------------------------------------------------------------------------

pub open spec fn msg_refuse_delete_source() -> Seq<char> {
    "Refusing to delete Ableton source file"@
}

pub open spec fn msg_expected_file(path: Seq<char>) -> Seq<char> {
    "Se esperaba un archivo, no una carpeta: "@ + path
}

/// Whether the managed file at `path` is to be removed: never the Ableton
/// source file (refused), nothing to do when it is already gone, and a
/// folder is refused.
pub fn delete_precheck(path: &str, is_source: bool, exists: bool, is_dir: bool) -> (r: Result<
    bool,
    AppError,
>)
    ensures
        is_source ==> (r matches Err(e) && e@ == AppErrorView::Other(msg_refuse_delete_source())),
        !is_source && !exists ==> (r matches Ok(b) && !b),
        !is_source && exists && is_dir ==> (r matches Err(e) && e@ == AppErrorView::InvalidPath(
            msg_expected_file(path@),
        )),
        !is_source && exists && !is_dir ==> (r matches Ok(b) && b),
{
    if is_source {
        return Err(AppError::Other(copy_string("Refusing to delete Ableton source file")));
    }
    if !exists {
        return Ok(false);
    }
    if is_dir {
        return Err(AppError::InvalidPath(concat_str("Se esperaba un archivo, no una carpeta: ", path)));
    }
    Ok(true)
}

/// Where the copy recorded in `rec` lives: the location's root joined with
/// the relative path, when the copy was made.
pub open spec fn spec_copy_path(rec: AssetStorageLocation, loc: StorageLocation) -> Option<
    Seq<char>,
> {
    if rec.copy_status == CopyStatus::Copied {
        Some(path_join(loc.root_path@, rec.relative_path@))
    } else {
        None
    }
}

/// The file of a recorded copy, if the copy was made.
pub fn copy_path(rec: &AssetStorageLocation, loc: &StorageLocation) -> (r: Option<String>)
    ensures
        match r {
            Some(p) => spec_copy_path(*rec, *loc) == Some(p@),
            None => spec_copy_path(*rec, *loc) is None,
        },
{
    if rec.copy_status != CopyStatus::Copied {
        return None;
    }
    let root = chars_of(loc.root_path.as_str());
    let rel = chars_of(rec.relative_path.as_str());
    Some(string_of(join_path(root.as_slice(), rel.as_slice()).as_slice()))
}

/// Whether some row records a completed copy in a local library.
pub open spec fn has_local_copy(rows: Seq<(AssetStorageLocation, StorageLocation)>) -> bool {
    exists|i: int|
        0 <= i < rows.len() && (#[trigger] rows[i]).1.kind == StorageKind::Local
            && rows[i].0.copy_status == CopyStatus::Copied
}

/// Whether some row records a completed local copy.
pub fn any_local_copy(rows: &[(AssetStorageLocation, StorageLocation)]) -> (r: bool)
    ensures
        r == has_local_copy(rows@),
{
    let mut i: usize = 0;
    while i < rows.len()
        invariant
            0 <= i <= rows@.len(),
            forall|j: int|
                0 <= j < i ==> !((#[trigger] rows@[j]).1.kind == StorageKind::Local
                    && rows@[j].0.copy_status == CopyStatus::Copied),
        decreases rows@.len() - i,
    {
        if rows[i].1.kind == StorageKind::Local && rows[i].0.copy_status == CopyStatus::Copied {
            assert(rows@[i as int] == rows[i as int]);
            return true;
        }
        i = i + 1;
    }
    false
}

pub open spec fn msg_no_copy_here() -> Seq<char> {
    "No había copia en este destino"@
}

pub open spec fn msg_local_delete_failed() -> Seq<char> {
    "No se pudo eliminar la copia local. El asset permanece en la biblioteca."@
}

pub open spec fn label_canonical() -> Seq<char> {
    "Biblioteca local (canonical)"@
}

/// The per-location results of removing an asset's copies.
pub struct LibraryDeletion {
    pub locations: Vec<StorageDeleteResult>,
    pub errors: Vec<String>,
    pub local_deleted: bool,
}

pub open spec fn texts(v: Seq<String>) -> Seq<Seq<char>> {
    v.map_values(|s: String| s@)
}

/// A result for location `loc` at `path`.
pub open spec fn delete_result_is(
    r: StorageDeleteResult,
    id: Seq<char>,
    kind: StorageKind,
    label: Seq<char>,
    path: Seq<char>,
    deleted: bool,
    error: Option<Seq<char>>,
) -> bool {
    &&& r.storage_location_id@ == id
    &&& r.kind == kind
    &&& r.label@ == label
    &&& r.path@ == path
    &&& r.deleted == deleted
    &&& match r.error {
        Some(e) => error == Some(e@),
        None => error is None,
    }
}

fn push_error(errors: &mut Vec<String>, msg: String)
    ensures
        texts(final(errors)@) == texts(old(errors)@).push(msg@),
{
    errors.push(msg);
    assert(texts(errors@) =~= texts(old(errors)@).push(msg@));
}

impl LibraryDeletion {
    pub fn new() -> (d: Self)
        ensures
            d.locations@.len() == 0,
            d.errors@.len() == 0,
            !d.local_deleted,
    {
        LibraryDeletion { locations: Vec::new(), errors: Vec::new(), local_deleted: false }
    }

    /// A location that never received a copy.
    pub fn record_no_copy(&mut self, loc: &StorageLocation)
        ensures
            final(self).local_deleted == old(self).local_deleted,
            texts(final(self).errors@) == texts(old(self).errors@),
            final(self).locations@.drop_last() == old(self).locations@,
            final(self).locations@.len() == old(self).locations@.len() + 1,
            delete_result_is(
                final(self).locations@.last(),
                loc.id@,
                loc.kind,
                loc.label@,
                Seq::empty(),
                false,
                Some(msg_no_copy_here()),
            ),
    {
        self.locations.push(
            StorageDeleteResult {
                storage_location_id: copy_string(loc.id.as_str()),
                kind: loc.kind,
                label: copy_string(loc.label.as_str()),
                path: String::new(),
                deleted: false,
                error: Some(copy_string("No había copia en este destino")),
            },
        );
        assert(self.locations@.drop_last() =~= old(self).locations@);
    }

    /// The copy at `path` in `loc` was removed (or was already gone).
    pub fn record_deleted(&mut self, loc: &StorageLocation, path: &str)
        ensures
            final(self).local_deleted == (old(self).local_deleted || loc.kind == StorageKind::Local),
            texts(final(self).errors@) == texts(old(self).errors@),
            final(self).locations@.drop_last() == old(self).locations@,
            final(self).locations@.len() == old(self).locations@.len() + 1,
            delete_result_is(
                final(self).locations@.last(),
                loc.id@,
                loc.kind,
                loc.label@,
                path@,
                true,
                None,
            ),
    {
        if loc.kind == StorageKind::Local {
            self.local_deleted = true;
        }
        self.locations.push(
            StorageDeleteResult {
                storage_location_id: copy_string(loc.id.as_str()),
                kind: loc.kind,
                label: copy_string(loc.label.as_str()),
                path: copy_string(path),
                deleted: true,
                error: None,
            },
        );
        assert(self.locations@.drop_last() =~= old(self).locations@);
    }

    /// Removing the copy at `path` in `loc` failed with `message`.
    pub fn record_failed(&mut self, loc: &StorageLocation, path: &str, message: &str)
        ensures
            final(self).local_deleted == old(self).local_deleted,
            texts(final(self).errors@) == texts(old(self).errors@).push(
                loc.label@ + ": "@ + message@,
            ),
            final(self).locations@.drop_last() == old(self).locations@,
            final(self).locations@.len() == old(self).locations@.len() + 1,
            delete_result_is(
                final(self).locations@.last(),
                loc.id@,
                loc.kind,
                loc.label@,
                path@,
                false,
                Some(message@),
            ),
    {
        let a = concat_str(loc.label.as_str(), ": ");
        push_error(&mut self.errors, concat_str(a.as_str(), message));
        self.locations.push(
            StorageDeleteResult {
                storage_location_id: copy_string(loc.id.as_str()),
                kind: loc.kind,
                label: copy_string(loc.label.as_str()),
                path: copy_string(path),
                deleted: false,
                error: Some(copy_string(message)),
            },
        );
        assert(self.locations@.drop_last() =~= old(self).locations@);
    }

    /// The canonical file at `path`, outside any recorded location, was removed.
    pub fn record_canonical_deleted(&mut self, path: &str)
        ensures
            final(self).local_deleted,
            texts(final(self).errors@) == texts(old(self).errors@),
            final(self).locations@.drop_last() == old(self).locations@,
            final(self).locations@.len() == old(self).locations@.len() + 1,
            delete_result_is(
                final(self).locations@.last(),
                "canonical"@,
                StorageKind::Local,
                label_canonical(),
                path@,
                true,
                None,
            ),
    {
        self.local_deleted = true;
        self.locations.push(
            StorageDeleteResult {
                storage_location_id: copy_string("canonical"),
                kind: StorageKind::Local,
                label: copy_string("Biblioteca local (canonical)"),
                path: copy_string(path),
                deleted: true,
                error: None,
            },
        );
        assert(self.locations@.drop_last() =~= old(self).locations@);
    }

    /// Removing the canonical file failed with `message`.
    pub fn record_canonical_failed(&mut self, message: &str)
        ensures
            final(self).local_deleted == old(self).local_deleted,
            final(self).locations@ == old(self).locations@,
            texts(final(self).errors@) == texts(old(self).errors@).push(
                "Biblioteca local: "@ + message@,
            ),
    {
        push_error(&mut self.errors, concat_str("Biblioteca local: ", message));
    }

    /// The report, unless a recorded local copy is still in place: then the
    /// asset must stay in the library and the removal is refused. Otherwise
    /// the removal succeeds, whatever became of the mirror copies (their
    /// failures are in the report's locations and errors).
    pub fn finish(
        self,
        asset_id: String,
        canonical_filename: String,
        rows: &[(AssetStorageLocation, StorageLocation)],
    ) -> (r: Result<DeleteFromLibraryReport, AppError>)
        ensures
            !self.local_deleted && has_local_copy(rows@) <==> (r matches Err(e) && e@
                == AppErrorView::Other(msg_local_delete_failed())),
            !(!self.local_deleted && has_local_copy(rows@)) ==> r is Ok,
            r matches Ok(rep) ==> {
                &&& rep.asset_id == asset_id
                &&& rep.canonical_filename == canonical_filename
                &&& rep.removed_from_db
                &&& rep.source_preserved
                &&& rep.locations@ == self.locations@
                &&& rep.errors@ == self.errors@
            },
    {
        if !self.local_deleted && any_local_copy(rows) {
            return Err(
                AppError::Other(
                    copy_string(
                        "No se pudo eliminar la copia local. El asset permanece en la biblioteca.",
                    ),
                ),
            );
        }
        Ok(
            DeleteFromLibraryReport {
                asset_id,
                canonical_filename,
                removed_from_db: true,
                source_preserved: true,
                locations: self.locations,
                errors: self.errors,
            },
        )
    }
}

// ---------------------------------------------------------------------------
// Renaming and recategorising
// ---------------------------------------------------------------------------

pub open spec fn msg_nothing_to_update() -> Seq<char> {
    "Indica un nombre nuevo, una categoría nueva, o ambos."@
}

/// An update must ask for a new name, a new category, or both.
pub fn check_update_request(new_category: Option<Category>, new_filename: Option<&str>) -> (r: Result<
    (),
    AppError,
>)
    ensures
        new_category is None && new_filename is None <==> (r matches Err(e) && e@
            == AppErrorView::Other(msg_nothing_to_update())),
        new_category is Some || new_filename is Some <==> r is Ok,
{
    if new_category.is_none() && new_filename.is_none() {
        return Err(AppError::Other(copy_string("Indica un nombre nuevo, una categoría nueva, o ambos.")));
    }
    Ok(())
}

/// The category and file name an update aims at: the new category, else the
/// current one; the new name normalised (keeping the current extension when
/// it has none), else the current name.
pub open spec fn spec_update_target(
    category: Category,
    filename: Seq<char>,
    new_category: Option<Category>,
    new_filename: Option<Seq<char>>,
) -> Result<(Category, Seq<char>), AppErrorView> {
    let target_category = match new_category {
        Some(c) => c,
        None => category,
    };
    match new_filename {
        Some(raw) => match spec_normalize_filename(raw, spec_extension_of(filename)) {
            Ok(n) => Ok((target_category, n)),
            Err(e) => Err(e),
        },
        None => Ok((target_category, filename)),
    }
}

/// The typed name as normalisation cleans it, before any extension is added.
pub open spec fn typed_name_cleaned(raw: Seq<char>) -> Seq<char> {
    trim(clean_chars(nfc_of(trim(raw, TrimClass::Whitespace))), TrimClass::DotSpace)
}

/// Renaming keeps the asset's format: a new name typed without an extension
/// (once cleaned it holds no `.`) gets the current file's extension, so
/// renaming `agua.flac` to `nuevo` gives `nuevo.flac`. The category is the new
/// one when given, else the current one.
pub proof fn law_rename_keeps_current_extension(
    category: Category,
    filename: Seq<char>,
    new_category: Option<Category>,
    raw: Seq<char>,
    c: Category,
    n: Seq<char>,
)
    requires
        spec_update_target(category, filename, new_category, Some(raw)) == Ok::<
            (Category, Seq<char>),
            AppErrorView,
        >((c, n)),
        is_audio_extension(spec_extension_of(filename)),
        forall|j: int|
            0 <= j < typed_name_cleaned(raw).len() ==> #[trigger] typed_name_cleaned(raw)[j] != '.',
    ensures
        n == typed_name_cleaned(raw) + "."@ + spec_extension_of(filename),
        c == match new_category {
            Some(x) => x,
            None => category,
        },
{
    let e = spec_extension_of(filename);
    let trimmed = trim(raw, TrimClass::Whitespace);
    let cl = clean_chars(nfc_of(trimmed));
    let cleaned = typed_name_cleaned(raw);
    law_cleaning_removes_unsafe_chars(nfc_of(trimmed));
    let p = |ch: char| ch != '/';
    assert forall|j: int| 0 <= j < cl.len() implies p(#[trigger] cl[j]) by {}
    lemma_trim_keeps(cl, TrimClass::DotSpace, p);
    assert(spec_normalize_filename(raw, e) == Ok::<Seq<char>, AppErrorView>(n));
    assert(cleaned.len() > 0);
    assert forall|j: int| 0 <= j < cleaned.len() implies cleaned[j] != '/' && cleaned[j] != '.' by {
        assert(p(cleaned[j]));
    }
    lemma_plain_name(cleaned);
    reveal_strlit("wav");
    reveal_strlit("aif");
    reveal_strlit("aiff");
    reveal_strlit("flac");
    reveal_strlit(".");
    assert(trim_start(e, TrimClass::Dot) == e);
    let name = cleaned + "."@ + e;
    assert(name.last() == e.last());
    assert(trim_end(name, TrimClass::DotSpace) == name);
}

/// An update whose target is the category and name the asset already has
/// moves nothing: its report names the asset's current paths and lists no
/// location and no error. `None` when the update changes the category or the
/// name.
pub fn unchanged_update(
    asset_id: &str,
    year: i32,
    category: Category,
    filename: &str,
    target_category: Category,
    target_filename: &str,
) -> (r: Option<UpdateLibraryAssetReport>)
    ensures
        (category == target_category && filename@ == target_filename@) <==> r is Some,
        r matches Some(rep) ==> {
            &&& rep.asset_id@ == asset_id@
            &&& rep.old_filename@ == filename@
            &&& rep.new_filename@ == target_filename@
            &&& rep.old_category == category
            &&& rep.new_category == target_category
            &&& rep.old_relative_path@ == spec_library_relative(year as int, category, filename@)
            &&& rep.new_relative_path@ == spec_library_relative(
                year as int,
                target_category,
                target_filename@,
            )
            &&& rep.locations@.len() == 0
            &&& rep.errors@.len() == 0
        },
{
    if category == target_category && str_eq(filename, target_filename) {
        Some(
            UpdateLibraryAssetReport {
                asset_id: copy_string(asset_id),
                old_filename: copy_string(filename),
                new_filename: copy_string(target_filename),
                old_category: category,
                new_category: target_category,
                old_relative_path: library_relative(year, category, filename),
                new_relative_path: library_relative(year, target_category, target_filename),
                locations: Vec::new(),
                errors: Vec::new(),
            },
        )
    } else {
        None
    }
}

/// Where an update of an asset in `category` named `filename` goes.
pub fn update_target(
    category: Category,
    filename: &str,
    new_category: Option<Category>,
    new_filename: Option<&str>,
) -> (r: Result<(Category, String), AppError>)
    ensures
        match r {
            Ok((c, n)) => spec_update_target(category, filename@, new_category, opt_text(new_filename))
                == Ok::<(Category, Seq<char>), AppErrorView>((c, n@)),
            Err(e) => spec_update_target(category, filename@, new_category, opt_text(new_filename))
                == Err::<(Category, Seq<char>), AppErrorView>(e@),
        },
        match (r, new_filename) {
            (Ok((c, n)), Some(raw)) => is_audio_extension(spec_extension_of(filename@)) && (forall|
                j: int,
            |
                0 <= j < typed_name_cleaned(raw@).len() ==> #[trigger] typed_name_cleaned(raw@)[j]
                    != '.') ==> n@ == typed_name_cleaned(raw@) + "."@ + spec_extension_of(
                filename@,
            ),
            _ => true,
        },
{
    let target_category = match new_category {
        Some(c) => c,
        None => category,
    };
    let r = match new_filename {
        Some(raw) => {
            let ext = extension_of(filename);
            match normalize_library_filename_input(raw, ext.as_str()) {
                Ok(n) => Ok((target_category, n)),
                Err(e) => Err(e),
            }
        },
        None => Ok((target_category, copy_string(filename))),
    };
    proof {
        let ghost gr = r;
        match (gr, new_filename) {
            (Ok((c, n)), Some(raw)) => {
                if is_audio_extension(spec_extension_of(filename@)) && (forall|j: int|
                    0 <= j < typed_name_cleaned(raw@).len() ==> #[trigger] typed_name_cleaned(
                        raw@,
                    )[j] != '.') {
                    law_rename_keeps_current_extension(
                        category,
                        filename@,
                        new_category,
                        raw@,
                        c,
                        n@,
                    );
                }
            },
            _ => {},
        }
    }
    r
}

/// `taken` without the names equal to `name`, in order.
pub open spec fn spec_without_name(taken: Seq<String>, name: Seq<char>) -> Seq<String>
    decreases taken.len(),
{
    if taken.len() == 0 {
        taken
    } else {
        let r = spec_without_name(taken.drop_last(), name);
        if taken.last()@ == name {
            r
        } else {
            r.push(taken.last())
        }
    }
}

/// The file name an update ends with: `target` made free among the names of
/// the target category folder; when the category stays, the asset's own
/// current name does not count as taken.
pub fn final_filename(target: &str, taken: Vec<String>, same_category: bool, current: &str) -> (r:
    String)
    requires
        taken@.len() < u64::MAX - 2,
    ensures
        same_category ==> is_collision_resolution(target@, spec_without_name(taken@, current@), r@),
        !same_category ==> is_collision_resolution(target@, taken@, r@),
{
    if !same_category {
        return resolve_filename_collision(target, taken.as_slice());
    }
    let ghost all = taken@;
    let n = taken.len();
    let mut rest = taken;
    let mut kept: Vec<String> = Vec::new();
    let mut i: usize = 0;
    while rest.len() > 0
        invariant
            n == all.len(),
            i + rest@.len() == n,
            rest@ == all.skip(i as int),
            kept@ == spec_without_name(all.take(i as int), current@),
            kept@.len() <= i,
        decreases rest@.len(),
    {
        let t = rest.remove(0);
        assert(all.take(i as int + 1).drop_last() =~= all.take(i as int));
        assert(all.take(i as int + 1).last() == t);
        assert(rest@ =~= all.skip(i as int + 1));
        if !str_eq(t.as_str(), current) {
            kept.push(t);
        }
        i = i + 1;
    }
    assert(all.take(i as int) =~= all);
    resolve_filename_collision(target, kept.as_slice())
}

/// One copy to move from `old_path` to `new_path`.
#[derive(Debug)]
pub struct PlannedMove {
    pub storage_id: String,
    pub old_path: String,
    pub new_path: String,
    pub kind: StorageKind,
    pub label: String,
}

pub struct PlannedMoveView {
    pub storage_id: Seq<char>,
    pub old_path: Seq<char>,
    pub new_path: Seq<char>,
    pub kind: StorageKind,
    pub label: Seq<char>,
}

impl View for PlannedMove {
    type V = PlannedMoveView;

    open spec fn view(&self) -> PlannedMoveView {
        PlannedMoveView {
            storage_id: self.storage_id@,
            old_path: self.old_path@,
            new_path: self.new_path@,
            kind: self.kind,
            label: self.label@,
        }
    }
}

pub open spec fn moves_view(v: Seq<PlannedMove>) -> Seq<PlannedMoveView> {
    v.map_values(|m: PlannedMove| m@)
}

/// The moves for the recorded copies, in order: each copy goes from its
/// place under its location's root to `new_relative` under the same root.
pub open spec fn spec_planned_moves(
    rows: Seq<(AssetStorageLocation, StorageLocation)>,
    new_relative: Seq<char>,
) -> Seq<PlannedMoveView>
    decreases rows.len(),
{
    if rows.len() == 0 {
        Seq::empty()
    } else {
        let r = spec_planned_moves(rows.drop_last(), new_relative);
        let (rec, loc) = rows.last();
        if rec.copy_status == CopyStatus::Copied {
            r.push(
                PlannedMoveView {
                    storage_id: rec.id@,
                    old_path: path_join(loc.root_path@, rec.relative_path@),
                    new_path: path_join(loc.root_path@, new_relative),
                    kind: loc.kind,
                    label: loc.label@,
                },
            )
        } else {
            r
        }
    }
}

/// The locations without a copy, in order.
pub open spec fn spec_uncopied(rows: Seq<(AssetStorageLocation, StorageLocation)>) -> Seq<
    StorageLocation,
>
    decreases rows.len(),
{
    if rows.len() == 0 {
        Seq::empty()
    } else {
        let r = spec_uncopied(rows.drop_last());
        if rows.last().0.copy_status == CopyStatus::Copied {
            r
        } else {
            r.push(rows.last().1)
        }
    }
}

/// The result reported for a location without a copy.
pub open spec fn relocate_result_is(
    r: StorageRelocateResult,
    id: Seq<char>,
    kind: StorageKind,
    label: Seq<char>,
    old_path: Seq<char>,
    new_path: Seq<char>,
    moved: bool,
    error: Option<Seq<char>>,
) -> bool {
    &&& r.storage_location_id@ == id
    &&& r.kind == kind
    &&& r.label@ == label
    &&& r.old_path@ == old_path
    &&& r.new_path@ == new_path
    &&& r.moved == moved
    &&& match r.error {
        Some(e) => error == Some(e@),
        None => error is None,
    }
}

/// The moves an update makes, and the results of the locations that had no
/// copy to move.
pub fn plan_relocations(
    rows: &[(AssetStorageLocation, StorageLocation)],
    new_relative: &str,
) -> (r: (Vec<PlannedMove>, Vec<StorageRelocateResult>))
    ensures
        moves_view(r.0@) == spec_planned_moves(rows@, new_relative@),
        r.1@.len() == spec_uncopied(rows@).len(),
        forall|k: int|
            0 <= k < r.1@.len() ==> relocate_result_is(
                #[trigger] r.1@[k],
                spec_uncopied(rows@)[k].id@,
                spec_uncopied(rows@)[k].kind,
                spec_uncopied(rows@)[k].label@,
                Seq::empty(),
                Seq::empty(),
                false,
                Some(msg_no_copy_here()),
            ),
{
    let mut moves: Vec<PlannedMove> = Vec::new();
    let mut results: Vec<StorageRelocateResult> = Vec::new();
    let nr = chars_of(new_relative);
    let mut i: usize = 0;
    while i < rows.len()
        invariant
            0 <= i <= rows@.len(),
            nr@ == new_relative@,
            moves_view(moves@) == spec_planned_moves(rows@.take(i as int), new_relative@),
            results@.len() == spec_uncopied(rows@.take(i as int)).len(),
            forall|k: int|
                0 <= k < results@.len() ==> relocate_result_is(
                    #[trigger] results@[k],
                    spec_uncopied(rows@.take(i as int))[k].id@,
                    spec_uncopied(rows@.take(i as int))[k].kind,
                    spec_uncopied(rows@.take(i as int))[k].label@,
                    Seq::empty(),
                    Seq::empty(),
                    false,
                    Some(msg_no_copy_here()),
                ),
        decreases rows@.len() - i,
    {
        let ghost before = rows@.take(i as int);
        assert(rows@.take(i as int + 1).drop_last() =~= before);
        assert(rows@.take(i as int + 1).last() == rows@[i as int]);
        let rec = &rows[i].0;
        let loc = &rows[i].1;
        if rec.copy_status != CopyStatus::Copied {
            results.push(
                StorageRelocateResult {
                    storage_location_id: copy_string(loc.id.as_str()),
                    kind: loc.kind,
                    label: copy_string(loc.label.as_str()),
                    old_path: String::new(),
                    new_path: String::new(),
                    moved: false,
                    error: Some(copy_string("No había copia en este destino")),
                },
            );
        } else {
            let root = chars_of(loc.root_path.as_str());
            let rel = chars_of(rec.relative_path.as_str());
            let m = PlannedMove {
                storage_id: copy_string(rec.id.as_str()),
                old_path: string_of(join_path(root.as_slice(), rel.as_slice()).as_slice()),
                new_path: string_of(join_path(root.as_slice(), nr.as_slice()).as_slice()),
                kind: loc.kind,
                label: copy_string(loc.label.as_str()),
            };
            let ghost m0 = moves@;
            moves.push(m);
            assert(moves_view(moves@) =~= moves_view(m0).push(m@));
        }
        i = i + 1;
    }
    assert(rows@.take(i as int) =~= rows@);
    (moves, results)
}

/// Whether `path` names the same file as the old path of some planned move;
/// `forms[i]` is the resolved form of move `i`'s old path and `path_form`
/// that of `path`, where they resolve.
pub fn planned_from(
    moves: &[PlannedMove],
    forms: &[Option<String>],
    path: &str,
    path_form: Option<&str>,
) -> (r: bool)
    requires
        forms@.len() == moves@.len(),
    ensures
        r == exists|i: int|
            0 <= i < moves@.len() && spec_is_same_path(
                (#[trigger] moves@[i]).old_path@,
                path@,
                match forms@[i] {
                    Some(f) => Some(f@),
                    None => None,
                },
                opt_text(path_form),
            ),
{
    let mut i: usize = 0;
    while i < moves.len()
        invariant
            0 <= i <= moves@.len(),
            forms@.len() == moves@.len(),
            forall|j: int|
                0 <= j < i ==> !spec_is_same_path(
                    (#[trigger] moves@[j]).old_path@,
                    path@,
                    match forms@[j] {
                        Some(f) => Some(f@),
                        None => None,
                    },
                    opt_text(path_form),
                ),
        decreases moves@.len() - i,
    {
        let form: Option<&str> = match &forms[i] {
            Some(f) => Some(f.as_str()),
            None => None,
        };
        if is_same_path(moves[i].old_path.as_str(), path, form, path_form) {
            return true;
        }
        i = i + 1;
    }
    false
}

/// The first local location among the rows, whatever its copy status.
pub open spec fn spec_first_local(rows: Seq<(AssetStorageLocation, StorageLocation)>) -> Option<int> {
    if exists|i: int| 0 <= i < rows.len() && (#[trigger] rows[i]).1.kind == StorageKind::Local {
        Some(
            choose|i: int|
                0 <= i < rows.len() && (#[trigger] rows[i]).1.kind == StorageKind::Local
                    && forall|j: int| 0 <= j < i ==> rows[j].1.kind != StorageKind::Local,
        )
    } else {
        None
    }
}

fn first_local(rows: &[(AssetStorageLocation, StorageLocation)]) -> (r: Option<usize>)
    ensures
        match r {
            Some(i) => i < rows@.len() && spec_first_local(rows@) == Some(i as int),
            None => spec_first_local(rows@) is None,
        },
{
    let mut i: usize = 0;
    while i < rows.len()
        invariant
            0 <= i <= rows@.len(),
            forall|j: int| 0 <= j < i ==> (#[trigger] rows@[j]).1.kind != StorageKind::Local,
        decreases rows@.len() - i,
    {
        if rows[i].1.kind == StorageKind::Local {
            proof {
                assert(rows@[i as int].1.kind == StorageKind::Local);
                let k = choose|k: int|
                    0 <= k < rows@.len() && (#[trigger] rows@[k]).1.kind == StorageKind::Local
                        && forall|j: int| 0 <= j < k ==> rows@[j].1.kind != StorageKind::Local;
                assert(k == i) by {
                    if k < i {
                    } else if k > i {
                        assert(rows@[i as int].1.kind != StorageKind::Local);
                    }
                }
            }
            return Some(i);
        }
        i = i + 1;
    }
    None
}

/// The extra move of the canonical file when it exists and no recorded copy
/// already moves it: into the first local location's root, under
/// `new_relative`. Without a local location there is none.
pub fn canonical_move(
    rows: &[(AssetStorageLocation, StorageLocation)],
    canonical_path: &str,
    canonical_exists: bool,
    already_planned: bool,
    new_relative: &str,
) -> (r: Option<PlannedMove>)
    ensures
        !canonical_exists || already_planned ==> r is None,
        canonical_exists && !already_planned ==> match spec_first_local(rows@) {
            None => r is None,
            Some(i) => r matches Some(m) && m@ == (PlannedMoveView {
                storage_id: "canonical"@,
                old_path: canonical_path@,
                new_path: path_join(rows@[i].1.root_path@, new_relative@),
                kind: StorageKind::Local,
                label: label_canonical(),
            }),
        },
{
    if !canonical_exists || already_planned {
        return None;
    }
    match first_local(rows) {
        None => None,
        Some(i) => {
            let root = chars_of(rows[i].1.root_path.as_str());
            let nr = chars_of(new_relative);
            Some(
                PlannedMove {
                    storage_id: copy_string("canonical"),
                    old_path: copy_string(canonical_path),
                    new_path: string_of(join_path(root.as_slice(), nr.as_slice()).as_slice()),
                    kind: StorageKind::Local,
                    label: copy_string("Biblioteca local (canonical)"),
                },
            )
        },
    }
}

pub open spec fn msg_refuse_relocate_source() -> Seq<char> {
    "Refusing to relocate Ableton source file"@
}

pub open spec fn msg_nothing_to_move(old_path: Seq<char>) -> Seq<char> {
    "No se encontró el archivo a mover: "@ + old_path
}

pub open spec fn msg_destination_taken(new_path: Seq<char>) -> Seq<char> {
    "Ya existe un archivo en el destino: "@ + new_path
}

/// Whether the managed file at `old_path` must be moved to `new_path`: never
/// the Ableton source (refused); nothing to do when both name the same file
/// or when the file is already at its new place; a missing file is an error.
pub fn relocate_precheck(
    old_path: &str,
    is_source: bool,
    same_place: bool,
    old_exists: bool,
    new_exists: bool,
) -> (r: Result<bool, AppError>)
    ensures
        is_source ==> (r matches Err(e) && e@ == AppErrorView::Other(msg_refuse_relocate_source())),
        !is_source && same_place ==> (r matches Ok(b) && !b),
        !is_source && !same_place && !old_exists && new_exists ==> (r matches Ok(b) && !b),
        !is_source && !same_place && !old_exists && !new_exists ==> (r matches Err(e) && e@
            == AppErrorView::InvalidPath(msg_nothing_to_move(old_path@))),
        !is_source && !same_place && old_exists ==> (r matches Ok(b) && b),
{
    if is_source {
        return Err(AppError::Other(copy_string("Refusing to relocate Ableton source file")));
    }
    if same_place {
        return Ok(false);
    }
    if !old_exists {
        if new_exists {
            return Ok(false);
        }
        return Err(AppError::InvalidPath(concat_str("No se encontró el archivo a mover: ", old_path)));
    }
    Ok(true)
}

/// A move never overwrites: a file already at `new_path` refuses it.
pub fn destination_free(new_path: &str, new_exists: bool) -> (r: Result<(), AppError>)
    ensures
        new_exists <==> (r matches Err(e) && e@ == AppErrorView::Other(msg_destination_taken(new_path@))),
        !new_exists <==> r is Ok,
{
    if new_exists {
        return Err(AppError::Other(concat_str("Ya existe un archivo en el destino: ", new_path)));
    }
    Ok(())
}

/// The per-location results of moving an asset's copies.
pub struct LibraryRelocation {
    pub locations: Vec<StorageRelocateResult>,
    pub errors: Vec<String>,
    pub local_moved: bool,
}

impl LibraryRelocation {
    /// Starts from the results of the locations that had no copy.
    pub fn new(locations: Vec<StorageRelocateResult>) -> (r: Self)
        ensures
            r.locations == locations,
            r.errors@.len() == 0,
            !r.local_moved,
    {
        LibraryRelocation { locations, errors: Vec::new(), local_moved: false }
    }

    /// The planned move `m` was done (or had nothing to do).
    pub fn record_moved(&mut self, m: &PlannedMove)
        ensures
            final(self).local_moved == (old(self).local_moved || m.kind == StorageKind::Local),
            texts(final(self).errors@) == texts(old(self).errors@),
            final(self).locations@.drop_last() == old(self).locations@,
            final(self).locations@.len() == old(self).locations@.len() + 1,
            relocate_result_is(
                final(self).locations@.last(),
                m.storage_id@,
                m.kind,
                m.label@,
                m.old_path@,
                m.new_path@,
                true,
                None,
            ),
    {
        if m.kind == StorageKind::Local {
            self.local_moved = true;
        }
        self.locations.push(
            StorageRelocateResult {
                storage_location_id: copy_string(m.storage_id.as_str()),
                kind: m.kind,
                label: copy_string(m.label.as_str()),
                old_path: copy_string(m.old_path.as_str()),
                new_path: copy_string(m.new_path.as_str()),
                moved: true,
                error: None,
            },
        );
        assert(self.locations@.drop_last() =~= old(self).locations@);
    }

    /// The planned move `m` failed with `message`.
    pub fn record_failed(&mut self, m: &PlannedMove, message: &str)
        ensures
            final(self).local_moved == old(self).local_moved,
            texts(final(self).errors@) == texts(old(self).errors@).push(m.label@ + ": "@ + message@),
            final(self).locations@.drop_last() == old(self).locations@,
            final(self).locations@.len() == old(self).locations@.len() + 1,
            relocate_result_is(
                final(self).locations@.last(),
                m.storage_id@,
                m.kind,
                m.label@,
                m.old_path@,
                m.new_path@,
                false,
                Some(message@),
            ),
    {
        let a = concat_str(m.label.as_str(), ": ");
        push_error(&mut self.errors, concat_str(a.as_str(), message));
        self.locations.push(
            StorageRelocateResult {
                storage_location_id: copy_string(m.storage_id.as_str()),
                kind: m.kind,
                label: copy_string(m.label.as_str()),
                old_path: copy_string(m.old_path.as_str()),
                new_path: copy_string(m.new_path.as_str()),
                moved: false,
                error: Some(copy_string(message)),
            },
        );
        assert(self.locations@.drop_last() =~= old(self).locations@);
    }
}

pub open spec fn msg_local_move_failed() -> Seq<char> {
    "No se pudo mover la copia local. El asset permanece sin cambios."@
}

/// An update that could not move an existing local copy is refused, so the
/// asset stays as it was.
pub fn relocation_verdict(had_local_copy: bool, local_moved: bool) -> (r: Result<(), AppError>)
    ensures
        had_local_copy && !local_moved <==> (r matches Err(e) && e@ == AppErrorView::Other(
            msg_local_move_failed(),
        )),
        !(had_local_copy && !local_moved) <==> r is Ok,
{
    if had_local_copy && !local_moved {
        return Err(AppError::Other(copy_string("No se pudo mover la copia local. El asset permanece sin cambios.")));
    }
    Ok(())
}

/// The first result of a moved local copy.
pub open spec fn spec_first_moved_local(results: Seq<StorageRelocateResult>) -> Option<int> {
    if exists|i: int|
        0 <= i < results.len() && (#[trigger] results[i]).kind == StorageKind::Local
            && results[i].moved {
        Some(
            choose|i: int|
                0 <= i < results.len() && (#[trigger] results[i]).kind == StorageKind::Local
                    && results[i].moved && forall|j: int|
                    0 <= j < i ==> !(results[j].kind == StorageKind::Local && results[j].moved),
        )
    } else {
        None
    }
}

fn first_moved_local(results: &[StorageRelocateResult]) -> (r: Option<usize>)
    ensures
        match r {
            Some(i) => i < results@.len() && spec_first_moved_local(results@) == Some(i as int),
            None => spec_first_moved_local(results@) is None,
        },
{
    let mut i: usize = 0;
    while i < results.len()
        invariant
            0 <= i <= results@.len(),
            forall|j: int|
                0 <= j < i ==> !((#[trigger] results@[j]).kind == StorageKind::Local
                    && results@[j].moved),
        decreases results@.len() - i,
    {
        if results[i].kind == StorageKind::Local && results[i].moved {
            proof {
                let k = choose|k: int|
                    0 <= k < results@.len() && (#[trigger] results@[k]).kind == StorageKind::Local
                        && results@[k].moved && forall|j: int|
                        0 <= j < k ==> !(results@[j].kind == StorageKind::Local
                            && results@[j].moved);
                assert(k == i) by {
                    if k < i {
                    } else if k > i {
                        assert(!(results@[i as int].kind == StorageKind::Local
                            && results@[i as int].moved));
                    }
                }
            }
            return Some(i);
        }
        i = i + 1;
    }
    None
}

/// Where the asset's canonical file is after an update: the new place of the
/// first moved local copy; failing that, `new_relative` under the first local
/// location's root; failing that (or when no local copy moved), where it was.
pub open spec fn spec_new_canonical_path(
    results: Seq<StorageRelocateResult>,
    local_moved: bool,
    rows: Seq<(AssetStorageLocation, StorageLocation)>,
    new_relative: Seq<char>,
    current: Seq<char>,
) -> Seq<char> {
    if !local_moved {
        current
    } else {
        match spec_first_moved_local(results) {
            Some(i) => results[i].new_path@,
            None => match spec_first_local(rows) {
                Some(j) => path_join(rows[j].1.root_path@, new_relative),
                None => current,
            },
        }
    }
}

/// The canonical path recorded after an update (see [`spec_new_canonical_path`]).
pub fn new_canonical_path(
    results: &[StorageRelocateResult],
    local_moved: bool,
    rows: &[(AssetStorageLocation, StorageLocation)],
    new_relative: &str,
    current: &str,
) -> (r: String)
    ensures
        r@ == spec_new_canonical_path(results@, local_moved, rows@, new_relative@, current@),
{
    if !local_moved {
        return copy_string(current);
    }
    match first_moved_local(results) {
        Some(i) => copy_string(results[i].new_path.as_str()),
        None => match first_local(rows) {
            Some(j) => {
                let root = chars_of(rows[j].1.root_path.as_str());
                let nr = chars_of(new_relative);
                string_of(join_path(root.as_slice(), nr.as_slice()).as_slice())
            },
            None => copy_string(current),
        },
    }
}

/// Whether a moved result is reported for record `id`.
pub open spec fn moved_for(results: Seq<StorageRelocateResult>, id: Seq<char>) -> bool {
    exists|k: int|
        0 <= k < results.len() && (#[trigger] results[k]).storage_location_id@ == id
            && results[k].moved
}

/// The records whose copy moved, in order: their relative path changes.
pub open spec fn spec_moved_records(
    rows: Seq<(AssetStorageLocation, StorageLocation)>,
    results: Seq<StorageRelocateResult>,
) -> Seq<usize>
    decreases rows.len(),
{
    if rows.len() == 0 {
        Seq::empty()
    } else {
        let r = spec_moved_records(rows.drop_last(), results);
        let rec = rows.last().0;
        if rec.copy_status == CopyStatus::Copied && moved_for(results, rec.id@) {
            r.push((rows.len() - 1) as usize)
        } else {
            r
        }
    }
}

fn any_moved_for(results: &[StorageRelocateResult], id: &str) -> (r: bool)
    ensures
        r == moved_for(results@, id@),
{
    let mut k: usize = 0;
    while k < results.len()
        invariant
            0 <= k <= results@.len(),
            forall|j: int|
                0 <= j < k ==> !((#[trigger] results@[j]).storage_location_id@ == id@
                    && results@[j].moved),
        decreases results@.len() - k,
    {
        if results[k].moved && str_eq(results[k].storage_location_id.as_str(), id) {
            assert(results@[k as int].storage_location_id@ == id@);
            return true;
        }
        k = k + 1;
    }
    false
}

/// Positions of the records whose relative path an update rewrites.
pub fn moved_records(
    rows: &[(AssetStorageLocation, StorageLocation)],
    results: &[StorageRelocateResult],
) -> (r: Vec<usize>)
    ensures
        r@ == spec_moved_records(rows@, results@),
{
    let mut r: Vec<usize> = Vec::new();
    let mut i: usize = 0;
    while i < rows.len()
        invariant
            0 <= i <= rows@.len(),
            r@ == spec_moved_records(rows@.take(i as int), results@),
        decreases rows@.len() - i,
    {
        assert(rows@.take(i as int + 1).drop_last() =~= rows@.take(i as int));
        assert(rows@.take(i as int + 1).last() == rows@[i as int]);
        let rec = &rows[i].0;
        if rec.copy_status == CopyStatus::Copied && any_moved_for(results, rec.id.as_str()) {
            r.push(i);
        }
        i = i + 1;
    }
    assert(rows@.take(i as int) =~= rows@);
    r
}

} // verus!
