//! User-facing errors. Messages are in Spanish and must remain understandable.
use vstd::prelude::*;

use crate::text::{chars_contains, chars_of, concat_chars, contains_seq, string_of};

verus! {

/// User-facing errors of the library.
#[derive(Clone, Debug)]
pub enum AppError {
    AbletonSetNotFound(String),
    AbletonSetUnreadable,
    ConsolidateUnavailable(String),
    DestinationUnavailable(String),
    DiskFull(String),
    PermissionDenied(String),
    FileStillWriting(String),
    CopyFailed { destination: String, reason: String },
    Database(String),
    SessionAlreadyActive,
    NoActiveSession,
    SessionNotFound(String),
    LocalLibraryMissing,
    DriveLibraryMissing,
    AssetNotFound(String),
    InvalidPath(String),
    Other(String),
}

pub type AppResult<T> = Result<T, AppError>;

/// The value of an [`AppError`], with its texts as character sequences.
pub enum AppErrorView {
    AbletonSetNotFound(Seq<char>),
    AbletonSetUnreadable,
    ConsolidateUnavailable(Seq<char>),
    DestinationUnavailable(Seq<char>),
    DiskFull(Seq<char>),
    PermissionDenied(Seq<char>),
    FileStillWriting(Seq<char>),
    CopyFailed { destination: Seq<char>, reason: Seq<char> },
    Database(Seq<char>),
    SessionAlreadyActive,
    NoActiveSession,
    SessionNotFound(Seq<char>),
    LocalLibraryMissing,
    DriveLibraryMissing,
    AssetNotFound(Seq<char>),
    InvalidPath(Seq<char>),
    Other(Seq<char>),
}

impl View for AppError {
    type V = AppErrorView;

    open spec fn view(&self) -> AppErrorView {
        match self {
            AppError::AbletonSetNotFound(s) => AppErrorView::AbletonSetNotFound(s@),
            AppError::AbletonSetUnreadable => AppErrorView::AbletonSetUnreadable,
            AppError::ConsolidateUnavailable(s) => AppErrorView::ConsolidateUnavailable(s@),
            AppError::DestinationUnavailable(s) => AppErrorView::DestinationUnavailable(s@),
            AppError::DiskFull(s) => AppErrorView::DiskFull(s@),
            AppError::PermissionDenied(s) => AppErrorView::PermissionDenied(s@),
            AppError::FileStillWriting(s) => AppErrorView::FileStillWriting(s@),
            AppError::CopyFailed { destination, reason } => AppErrorView::CopyFailed {
                destination: destination@,
                reason: reason@,
            },
            AppError::Database(s) => AppErrorView::Database(s@),
            AppError::SessionAlreadyActive => AppErrorView::SessionAlreadyActive,
            AppError::NoActiveSession => AppErrorView::NoActiveSession,
            AppError::SessionNotFound(s) => AppErrorView::SessionNotFound(s@),
            AppError::LocalLibraryMissing => AppErrorView::LocalLibraryMissing,
            AppError::DriveLibraryMissing => AppErrorView::DriveLibraryMissing,
            AppError::AssetNotFound(s) => AppErrorView::AssetNotFound(s@),
            AppError::InvalidPath(s) => AppErrorView::InvalidPath(s@),
            AppError::Other(s) => AppErrorView::Other(s@),
        }
    }
}

/// The machine-readable code of each error.
pub open spec fn spec_error_code(e: AppErrorView) -> Seq<char> {
    match e {
        AppErrorView::AbletonSetNotFound(_) => "ableton_set_not_found"@,
        AppErrorView::AbletonSetUnreadable => "ableton_set_unreadable"@,
        AppErrorView::ConsolidateUnavailable(_) => "consolidate_unavailable"@,
        AppErrorView::DestinationUnavailable(_) => "destination_unavailable"@,
        AppErrorView::DiskFull(_) => "disk_full"@,
        AppErrorView::PermissionDenied(_) => "permission_denied"@,
        AppErrorView::FileStillWriting(_) => "file_still_writing"@,
        AppErrorView::CopyFailed { .. } => "copy_failed"@,
        AppErrorView::Database(_) => "database_failure"@,
        AppErrorView::SessionAlreadyActive => "session_already_active"@,
        AppErrorView::NoActiveSession => "no_active_session"@,
        AppErrorView::SessionNotFound(_) => "session_not_found"@,
        AppErrorView::LocalLibraryMissing => "local_library_missing"@,
        AppErrorView::DriveLibraryMissing => "drive_library_missing"@,
        AppErrorView::AssetNotFound(_) => "asset_not_found"@,
        AppErrorView::InvalidPath(_) => "invalid_path"@,
        AppErrorView::Other(_) => "other"@,
    }
}

/// Which variant an error is, by position in the declaration.
pub open spec fn error_variant(e: AppErrorView) -> int {
    match e {
        AppErrorView::AbletonSetNotFound(_) => 0,
        AppErrorView::AbletonSetUnreadable => 1,
        AppErrorView::ConsolidateUnavailable(_) => 2,
        AppErrorView::DestinationUnavailable(_) => 3,
        AppErrorView::DiskFull(_) => 4,
        AppErrorView::PermissionDenied(_) => 5,
        AppErrorView::FileStillWriting(_) => 6,
        AppErrorView::CopyFailed { .. } => 7,
        AppErrorView::Database(_) => 8,
        AppErrorView::SessionAlreadyActive => 9,
        AppErrorView::NoActiveSession => 10,
        AppErrorView::SessionNotFound(_) => 11,
        AppErrorView::LocalLibraryMissing => 12,
        AppErrorView::DriveLibraryMissing => 13,
        AppErrorView::AssetNotFound(_) => 14,
        AppErrorView::InvalidPath(_) => 15,
        AppErrorView::Other(_) => 16,
    }
}

/// Error codes name variants: an error's code depends only on its variant,
/// never on its texts, and different variants have different codes.
pub proof fn law_error_code_names_variant(a: AppErrorView, b: AppErrorView)
    ensures
        spec_error_code(a) == spec_error_code(b) <==> error_variant(a) == error_variant(b),
{
    reveal_strlit("ableton_set_not_found");
    assert("ableton_set_not_found"@.len() == 21 && "ableton_set_not_found"@[0] == 'a');
    reveal_strlit("ableton_set_unreadable");
    assert("ableton_set_unreadable"@.len() == 22 && "ableton_set_unreadable"@[0] == 'a');
    reveal_strlit("consolidate_unavailable");
    assert("consolidate_unavailable"@.len() == 23 && "consolidate_unavailable"@[0] == 'c');
    reveal_strlit("destination_unavailable");
    assert("destination_unavailable"@.len() == 23 && "destination_unavailable"@[0] == 'd');
    reveal_strlit("disk_full");
    assert("disk_full"@.len() == 9 && "disk_full"@[0] == 'd');
    reveal_strlit("permission_denied");
    assert("permission_denied"@.len() == 17 && "permission_denied"@[0] == 'p');
    reveal_strlit("file_still_writing");
    assert("file_still_writing"@.len() == 18 && "file_still_writing"@[0] == 'f');
    reveal_strlit("copy_failed");
    assert("copy_failed"@.len() == 11 && "copy_failed"@[0] == 'c');
    reveal_strlit("database_failure");
    assert("database_failure"@.len() == 16 && "database_failure"@[0] == 'd');
    reveal_strlit("session_already_active");
    assert("session_already_active"@.len() == 22 && "session_already_active"@[0] == 's');
    reveal_strlit("no_active_session");
    assert("no_active_session"@.len() == 17 && "no_active_session"@[0] == 'n');
    reveal_strlit("session_not_found");
    assert("session_not_found"@.len() == 17 && "session_not_found"@[0] == 's');
    reveal_strlit("local_library_missing");
    assert("local_library_missing"@.len() == 21 && "local_library_missing"@[0] == 'l');
    reveal_strlit("drive_library_missing");
    assert("drive_library_missing"@.len() == 21 && "drive_library_missing"@[0] == 'd');
    reveal_strlit("asset_not_found");
    assert("asset_not_found"@.len() == 15 && "asset_not_found"@[0] == 'a');
    reveal_strlit("invalid_path");
    assert("invalid_path"@.len() == 12 && "invalid_path"@[0] == 'i');
    reveal_strlit("other");
    assert("other"@.len() == 5 && "other"@[0] == 'o');
}

/// The message shown to the user for each error.
pub open spec fn spec_error_message(e: AppErrorView) -> Seq<char> {
    match e {
        AppErrorView::AbletonSetNotFound(s) => "No se encontró el Ableton Set o no está guardado: "@
            + s,
        AppErrorView::AbletonSetUnreadable => "El Ableton Set no se pudo leer (solo lectura). El archivo no fue modificado."@,
        AppErrorView::ConsolidateUnavailable(s) => "La carpeta Consolidate no está disponible: "@
            + s,
        AppErrorView::DestinationUnavailable(s) => "El destino no está disponible: "@ + s,
        AppErrorView::DiskFull(s) => "Disco lleno al copiar hacia: "@ + s,
        AppErrorView::PermissionDenied(s) => "Permiso denegado: "@ + s,
        AppErrorView::FileStillWriting(s) => "El archivo todavía se está escribiendo: "@ + s,
        AppErrorView::CopyFailed { destination, reason } => "Copia fallida hacia "@ + destination
            + ": "@ + reason,
        AppErrorView::Database(s) => "Fallo de base de datos: "@ + s,
        AppErrorView::SessionAlreadyActive => "Ya hay una sesión activa. Termínala antes de iniciar otra."@,
        AppErrorView::NoActiveSession => "No hay una sesión activa."@,
        AppErrorView::SessionNotFound(s) => "Sesión no encontrada: "@ + s,
        AppErrorView::LocalLibraryMissing => "Configura primero la biblioteca local (Local Library)."@,
        AppErrorView::DriveLibraryMissing => "Configura primero la carpeta de Google Drive para farmear."@,
        AppErrorView::AssetNotFound(s) => "Asset no encontrado en la biblioteca: "@ + s,
        AppErrorView::InvalidPath(s) => "Ruta inválida: "@ + s,
        AppErrorView::Other(s) => s,
    }
}

/// `prefix` followed by `s`, as a new string.
fn prefixed(prefix: &str, s: &String) -> (r: String)
    ensures
        r@ == prefix@ + s@,
{
    let p = chars_of(prefix);
    let v = chars_of(s.as_str());
    let all = concat_chars(p.as_slice(), v.as_slice());
    string_of(all.as_slice())
}

/// A copy of a string.
pub fn copy_string(s: &str) -> (r: String)
    ensures
        r@ == s@,
{
    let v = chars_of(s);
    string_of(v.as_slice())
}

impl AppError {
    /// Machine-readable code of the error.
    pub fn code(&self) -> (s: &'static str)
        ensures
            s@ == spec_error_code(self@),
    {
        match self {
            AppError::AbletonSetNotFound(_) => "ableton_set_not_found",
            AppError::AbletonSetUnreadable => "ableton_set_unreadable",
            AppError::ConsolidateUnavailable(_) => "consolidate_unavailable",
            AppError::DestinationUnavailable(_) => "destination_unavailable",
            AppError::DiskFull(_) => "disk_full",
            AppError::PermissionDenied(_) => "permission_denied",
            AppError::FileStillWriting(_) => "file_still_writing",
            AppError::CopyFailed { .. } => "copy_failed",
            AppError::Database(_) => "database_failure",
            AppError::SessionAlreadyActive => "session_already_active",
            AppError::NoActiveSession => "no_active_session",
            AppError::SessionNotFound(_) => "session_not_found",
            AppError::LocalLibraryMissing => "local_library_missing",
            AppError::DriveLibraryMissing => "drive_library_missing",
            AppError::AssetNotFound(_) => "asset_not_found",
            AppError::InvalidPath(_) => "invalid_path",
            AppError::Other(_) => "other",
        }
    }

    /// The message shown to the user.
    pub fn message(&self) -> (s: String)
        ensures
            s@ == spec_error_message(self@),
    {
        match self {
            AppError::AbletonSetNotFound(s) => prefixed(
                "No se encontró el Ableton Set o no está guardado: ",
                s,
            ),
            AppError::AbletonSetUnreadable => copy_string(
                "El Ableton Set no se pudo leer (solo lectura). El archivo no fue modificado.",
            ),
            AppError::ConsolidateUnavailable(s) => prefixed(
                "La carpeta Consolidate no está disponible: ",
                s,
            ),
            AppError::DestinationUnavailable(s) => prefixed("El destino no está disponible: ", s),
            AppError::DiskFull(s) => prefixed("Disco lleno al copiar hacia: ", s),
            AppError::PermissionDenied(s) => prefixed("Permiso denegado: ", s),
            AppError::FileStillWriting(s) => prefixed(
                "El archivo todavía se está escribiendo: ",
                s,
            ),
            AppError::CopyFailed { destination, reason } => {
                let a = prefixed("Copia fallida hacia ", destination);
                let b = prefixed(": ", reason);
                let av = chars_of(a.as_str());
                let bv = chars_of(b.as_str());
                let all = concat_chars(av.as_slice(), bv.as_slice());
                let r = string_of(all.as_slice());
                assert(r@ =~= "Copia fallida hacia "@ + destination@ + ": "@ + reason@);
                r
            },
            AppError::Database(s) => prefixed("Fallo de base de datos: ", s),
            AppError::SessionAlreadyActive => copy_string(
                "Ya hay una sesión activa. Termínala antes de iniciar otra.",
            ),
            AppError::NoActiveSession => copy_string("No hay una sesión activa."),
            AppError::SessionNotFound(s) => prefixed("Sesión no encontrada: ", s),
            AppError::LocalLibraryMissing => copy_string(
                "Configura primero la biblioteca local (Local Library).",
            ),
            AppError::DriveLibraryMissing => copy_string(
                "Configura primero la carpeta de Google Drive para farmear.",
            ),
            AppError::AssetNotFound(s) => prefixed("Asset no encontrado en la biblioteca: ", s),
            AppError::InvalidPath(s) => prefixed("Ruta inválida: ", s),
            AppError::Other(s) => copy_string(s.as_str()),
        }
    }
}


#[verifier::external_type_specification]
#[verifier::external_body]
pub struct ExIoError(std::io::Error);

/// The kinds of I/O failure that [`AppError::from_io`] tells apart.
#[derive(Clone, Copy, Debug, PartialEq, Eq, Structural)]
pub enum IoFailureKind {
    NotFound,
    PermissionDenied,
    StorageFull,
    Other,
}

/// Which of the [`IoFailureKind`]s `std::io::Error::kind` reports.
#[verifier::external_body]
fn io_error_kind(err: &std::io::Error) -> IoFailureKind {
    match err.kind() {
        std::io::ErrorKind::NotFound => IoFailureKind::NotFound,
        std::io::ErrorKind::PermissionDenied => IoFailureKind::PermissionDenied,
        std::io::ErrorKind::StorageFull => IoFailureKind::StorageFull,
        _ => IoFailureKind::Other,
    }
}

/// The text of an I/O error (its `Display`, which the operating system words).
#[verifier::external_body]
fn io_error_text(err: &std::io::Error) -> String {
    err.to_string()
}

/// What `str::to_lowercase` returns for a text.
pub uninterp spec fn lowercase_of(s: Seq<char>) -> Seq<char>;

/// `str::to_lowercase`: the text with every character mapped to its lowercase form.
#[verifier::external_body]
pub(crate) fn lowercase(s: &str) -> (r: String)
    ensures
        r@ == lowercase_of(s@),
{
    s.to_lowercase()
}

/// The error an I/O failure of kind `kind`, worded `text`, maps to while doing `context`.
pub open spec fn spec_from_io_parts(kind: IoFailureKind, text: Seq<char>, context: Seq<char>) -> AppErrorView {
    match kind {
        IoFailureKind::NotFound => AppErrorView::InvalidPath(context + ": no existe"@),
        IoFailureKind::PermissionDenied => AppErrorView::PermissionDenied(context + ": "@ + text),
        IoFailureKind::StorageFull => AppErrorView::DiskFull(context),
        IoFailureKind::Other => {
            let lower = lowercase_of(text);
            if contains_seq(lower, "no space"@) || contains_seq(lower, "disk full"@) {
                AppErrorView::DiskFull(context)
            } else {
                AppErrorView::Other(context + ": "@ + text)
            }
        },
    }
}

/// `a` + `b` + `c` as a new string.
fn join3(a: &str, b: &str, c: &str) -> (r: String)
    ensures
        r@ == a@ + b@ + c@,
{
    let av = chars_of(a);
    let bv = chars_of(b);
    let cv = chars_of(c);
    let ab = concat_chars(av.as_slice(), bv.as_slice());
    let abc = concat_chars(ab.as_slice(), cv.as_slice());
    string_of(abc.as_slice())
}

impl AppError {
    /// Maps an I/O failure, described by its kind and its text, to a user-facing error.
    pub fn from_io_parts(kind: IoFailureKind, text: &str, context: &str) -> (e: AppError)
        ensures
            e@ == spec_from_io_parts(kind, text@, context@),
    {
        match kind {
            IoFailureKind::NotFound => {
                let r = join3(context, ": no existe", "");
                proof {
                    reveal_strlit("");
                    assert(r@ =~= context@ + ": no existe"@);
                }
                AppError::InvalidPath(r)
            },
            IoFailureKind::PermissionDenied => AppError::PermissionDenied(join3(context, ": ", text)),
            IoFailureKind::StorageFull => AppError::DiskFull(copy_string(context)),
            IoFailureKind::Other => {
                let lower = lowercase(text);
                let lv = chars_of(lower.as_str());
                let p1 = chars_of("no space");
                let p2 = chars_of("disk full");
                if chars_contains(lv.as_slice(), p1.as_slice()) || chars_contains(
                    lv.as_slice(),
                    p2.as_slice(),
                ) {
                    AppError::DiskFull(copy_string(context))
                } else {
                    AppError::Other(join3(context, ": ", text))
                }
            },
        }
    }

    /// Maps a `std::io::Error` met while doing `context` to a user-facing error.
    ///
    /// The kind and the wording of the error come from the operating system;
    /// whatever they are, the result is what [`AppError::from_io_parts`] gives for them.
    pub fn from_io(err: std::io::Error, context: &str) -> (e: AppError)
        ensures
            exists|k: IoFailureKind, t: Seq<char>| e@ == spec_from_io_parts(k, t, context@),
    {
        let kind = io_error_kind(&err);
        let text = io_error_text(&err);
        AppError::from_io_parts(kind, text.as_str(), context)
    }
}

/// Error for a destination folder that is not there.
pub fn destination_missing(path: String) -> (e: AppError)
    ensures
        e@ == AppErrorView::DestinationUnavailable(path@),
{
    AppError::DestinationUnavailable(path)
}

} // verus!
