//! Where a library file lives: `Loops/<year>/<category folder>/<filename>`
//! under each storage root.
use vstd::prelude::*;

use crate::domain::{Category, StorageKind, StorageLocation};
use crate::error::{AppError, AppErrorView};
use crate::fsutil::paths::{join_library_relative, spec_join_library_relative};
use crate::pathname::{join_path, path_join};
use crate::text::{chars_of, concat_str, signed_decimal, signed_decimal_chars, string_of};

verus! {

/// The library-relative path of a file of `category` harvested in `year`.
pub open spec fn spec_library_relative(year: int, category: Category, filename: Seq<char>) -> Seq<char> {
    spec_join_library_relative(year, category.spec_folder_name(), filename)
}

pub fn library_relative(year: i32, category: Category, filename: &str) -> (r: String)
    ensures
        r@ == spec_library_relative(year as int, category, filename@),
{
    join_library_relative(year, category.folder_name(), filename)
}

/// The folders a storage root needs for `year`: one per category, under
/// `Loops/<year>`, in the order of [`Category::spec_all`].
pub open spec fn spec_taxonomy_dirs(root: Seq<char>, year: int) -> Seq<Seq<char>> {
    Category::spec_all().map_values(
        |c: Category|
            path_join(path_join(path_join(root, "Loops"@), signed_decimal(year)), c.spec_folder_name()),
    )
}

/// The category folders of `year` under `root`, to be created.
pub fn taxonomy_dirs(root: &str, year: i32) -> (r: Vec<String>)
    ensures
        r@.map_values(|s: String| s@) == spec_taxonomy_dirs(root@, year as int),
{
    let rv = chars_of(root);
    let loops = join_path(rv.as_slice(), chars_of("Loops").as_slice());
    let y = signed_decimal_chars(year as i64);
    let year_dir = join_path(loops.as_slice(), y.as_slice());
    let all = Category::all();
    let mut r: Vec<String> = Vec::new();
    let mut i: usize = 0;
    while i < all.len()
        invariant
            0 <= i <= all@.len(),
            all@ == Category::spec_all(),
            year_dir@ == path_join(path_join(root@, "Loops"@), signed_decimal(year as int)),
            r@.map_values(|s: String| s@) == spec_taxonomy_dirs(root@, year as int).take(i as int),
        decreases all@.len() - i,
    {
        let folder = chars_of(all[i].folder_name());
        let d = string_of(join_path(year_dir.as_slice(), folder.as_slice()).as_slice());
        let ghost r0 = r@;
        r.push(d);
        assert(r@.map_values(|s: String| s@) =~= r0.map_values(|s: String| s@).push(d@));
        assert(spec_taxonomy_dirs(root@, year as int).take(i as int + 1) =~= spec_taxonomy_dirs(
            root@,
            year as int,
        ).take(i as int).push(d@));
        i = i + 1;
    }
    assert(spec_taxonomy_dirs(root@, year as int).take(i as int) =~= spec_taxonomy_dirs(
        root@,
        year as int,
    ));
    r
}

/// The stored location a save replaces: the one with the given id, or, when
/// no id is given, the first of the same kind.
pub open spec fn spec_location_to_replace(
    locations: Seq<StorageLocation>,
    id: Option<Seq<char>>,
    kind: StorageKind,
) -> Option<int> {
    let matches = |l: StorageLocation|
        match id {
            Some(want) => l.id@ == want,
            None => l.kind == kind,
        };
    if exists|i: int| 0 <= i < locations.len() && matches(#[trigger] locations[i]) {
        Some(
            choose|i: int|
                0 <= i < locations.len() && matches(#[trigger] locations[i]) && forall|j: int|
                    0 <= j < i ==> !matches(locations[j]),
        )
    } else {
        None
    }
}

/// Which stored location a save replaces (see [`spec_location_to_replace`]).
pub fn location_to_replace(locations: &[StorageLocation], id: Option<&str>, kind: StorageKind) -> (r:
    Option<usize>)
    ensures
        match r {
            Some(i) => i < locations@.len() && spec_location_to_replace(
                locations@,
                match id {
                    Some(s) => Some(s@),
                    None => None,
                },
                kind,
            ) == Some(i as int),
            None => spec_location_to_replace(
                locations@,
                match id {
                    Some(s) => Some(s@),
                    None => None,
                },
                kind,
            ) is None,
        },
{
    let ghost want = match id {
        Some(s) => Some(s@),
        None => None::<Seq<char>>,
    };
    let ghost matches = |l: StorageLocation|
        match want {
            Some(w) => l.id@ == w,
            None => l.kind == kind,
        };
    let mut i: usize = 0;
    while i < locations.len()
        invariant
            0 <= i <= locations@.len(),
            want == match id {
                Some(s) => Some(s@),
                None => None::<Seq<char>>,
            },
            matches == (|l: StorageLocation|
                match want {
                    Some(w) => l.id@ == w,
                    None => l.kind == kind,
                }),
            forall|j: int| 0 <= j < i ==> !matches(#[trigger] locations@[j]),
        decreases locations@.len() - i,
    {
        let hit = match id {
            Some(s) => crate::text::str_eq(locations[i].id.as_str(), s),
            None => locations[i].kind == kind,
        };
        if hit {
            proof {
                assert(matches(locations@[i as int]));
                let k = choose|k: int|
                    0 <= k < locations@.len() && matches(#[trigger] locations@[k]) && forall|j: int|
                        0 <= j < k ==> !matches(locations@[j]);
                assert(k == i) by {
                    if k < i {
                    } else if k > i {
                        assert(!matches(locations@[i as int]));
                    }
                }
            }
            return Some(i);
        }
        i = i + 1;
    }
    None
}

/// A place that receives copies of library files. Folder-backed locations
/// are the only kind so far; providers backed by a service would answer the
/// same questions.
pub trait StorageProvider {
    fn kind(&self) -> StorageKind;

    fn label(&self) -> &str;

    fn location_id(&self) -> &str;

    fn root(&self) -> &str;
}

/// A storage location that is a folder (local, or synced by a desktop client).
#[derive(Clone, Debug)]
pub struct FilesystemProvider {
    pub location: StorageLocation,
}

impl FilesystemProvider {
    pub fn new(location: StorageLocation) -> (p: Self)
        ensures
            p.location == location,
    {
        FilesystemProvider { location }
    }

    /// Where a file goes: `relative` under the root.
    pub fn destination(&self, relative: &str) -> (r: String)
        ensures
            r@ == path_join(self.location.root_path@, relative@),
    {
        let root = chars_of(self.location.root_path.as_str());
        let rel = chars_of(relative);
        string_of(join_path(root.as_slice(), rel.as_slice()).as_slice())
    }

    /// What creating the root is called in an error.
    pub fn root_creation_context(&self) -> (r: String)
        ensures
            r@ == "crear "@ + self.location.kind.spec_label_es(),
    {
        concat_str("crear ", self.location.kind.label_es())
    }

    /// The error when the root exists but is not a folder.
    pub fn root_unavailable(&self) -> (e: AppError)
        ensures
            e@ == AppErrorView::DestinationUnavailable(
                self.location.kind.spec_label_es() + " ("@ + self.location.root_path@ + ")"@,
            ),
    {
        let a = concat_str(self.location.kind.label_es(), " (");
        let b = concat_str(a.as_str(), self.location.root_path.as_str());
        AppError::DestinationUnavailable(concat_str(b.as_str(), ")"))
    }
}

impl StorageProvider for FilesystemProvider {
    fn kind(&self) -> (k: StorageKind)
        ensures
            k == self.location.kind,
    {
        self.location.kind
    }

    fn label(&self) -> (s: &str)
        ensures
            s@ == self.location.label@,
    {
        self.location.label.as_str()
    }

    fn location_id(&self) -> (s: &str)
        ensures
            s@ == self.location.id@,
    {
        self.location.id.as_str()
    }

    fn root(&self) -> (s: &str)
        ensures
            s@ == self.location.root_path@,
    {
        self.location.root_path.as_str()
    }
}

} // verus!
