//! Domain vocabulary of the audio library: where an asset came from, how it
//! entered, its musical category, storage kinds, copy and session states.
use vstd::prelude::*;

use crate::text::str_eq;

verus! {

/// Origin of an audio asset.
#[derive(Clone, Copy, Debug, PartialEq, Eq, Structural, Hash)]
pub enum SourceType {
    AbletonConsolidate,
    SonobusStem,
    RemoteCollab,
    FieldRecording,
    IpadInstrument,
    CommunityUpload,
    GeneratedAudio,
}

/// How an asset entered the library.
#[derive(Clone, Copy, Debug, PartialEq, Eq, Structural, Hash)]
pub enum IngestType {
    SessionHarvest,
    HistoricalImport,
}

/// Musical taxonomy. Physical folders are a projection of it.
#[derive(Clone, Copy, Debug, PartialEq, Eq, Structural, Hash)]
pub enum Category {
    Harmonies,
    Rhythms,
    Textures,
    Percussion,
    Bass,
    Voices,
    FieldFx,
    Other,
}

#[derive(Clone, Copy, Debug, PartialEq, Eq, Structural, Hash)]
pub enum StorageKind {
    Local,
    DropboxFolder,
    GoogleDriveFolder,
    CustomFolder,
}

#[derive(Clone, Copy, Debug, PartialEq, Eq, Structural, Hash)]
pub enum CopyStatus {
    Pending,
    Copied,
    Failed,
}

#[derive(Clone, Copy, Debug, PartialEq, Eq, Structural, Hash)]
pub enum SessionStatus {
    Active,
    Review,
    Archived,
    Cancelled,
}

/// Whether a file appeared or changed since the session snapshot.
#[derive(Clone, Copy, Debug, PartialEq, Eq, Structural, Hash)]
pub enum ChangeKind {
    New,
    Modified,
}

impl Default for IngestType {
    fn default() -> (r: Self)
        ensures
            r == IngestType::SessionHarvest,
    {
        IngestType::SessionHarvest
    }
}

impl Default for Category {
    fn default() -> (r: Self)
        ensures
            r == Category::Other,
    {
        Category::Other
    }
}

// ---------------------------------------------------------------------------
// IngestType
// ---------------------------------------------------------------------------

impl IngestType {
    pub open spec fn spec_as_str(self) -> Seq<char> {
        match self {
            IngestType::SessionHarvest => "SESSION_HARVEST"@,
            IngestType::HistoricalImport => "HISTORICAL_IMPORT"@,
        }
    }

    pub open spec fn spec_parse(value: Seq<char>) -> Self {
        if value == "HISTORICAL_IMPORT"@ {
            IngestType::HistoricalImport
        } else {
            IngestType::SessionHarvest
        }
    }

    pub fn as_str(self) -> (s: &'static str)
        ensures
            s@ == self.spec_as_str(),
    {
        match self {
            IngestType::SessionHarvest => "SESSION_HARVEST",
            IngestType::HistoricalImport => "HISTORICAL_IMPORT",
        }
    }

    pub fn parse(value: &str) -> (r: Self)
        ensures
            r == Self::spec_parse(value@),
    {
        if str_eq(value, "HISTORICAL_IMPORT") {
            IngestType::HistoricalImport
        } else {
            IngestType::SessionHarvest
        }
    }
}

// ---------------------------------------------------------------------------
// SourceType
// ---------------------------------------------------------------------------

impl SourceType {
    pub open spec fn spec_as_str(self) -> Seq<char> {
        match self {
            SourceType::AbletonConsolidate => "ABLETON_CONSOLIDATE"@,
            SourceType::SonobusStem => "SONOBUS_STEM"@,
            SourceType::RemoteCollab => "REMOTE_COLLAB"@,
            SourceType::FieldRecording => "FIELD_RECORDING"@,
            SourceType::IpadInstrument => "IPAD_INSTRUMENT"@,
            SourceType::CommunityUpload => "COMMUNITY_UPLOAD"@,
            SourceType::GeneratedAudio => "GENERATED_AUDIO"@,
        }
    }

    pub open spec fn spec_parse(value: Seq<char>) -> Self {
        if value == "SONOBUS_STEM"@ {
            SourceType::SonobusStem
        } else if value == "REMOTE_COLLAB"@ {
            SourceType::RemoteCollab
        } else if value == "FIELD_RECORDING"@ {
            SourceType::FieldRecording
        } else if value == "IPAD_INSTRUMENT"@ {
            SourceType::IpadInstrument
        } else if value == "COMMUNITY_UPLOAD"@ {
            SourceType::CommunityUpload
        } else if value == "GENERATED_AUDIO"@ {
            SourceType::GeneratedAudio
        } else {
            SourceType::AbletonConsolidate
        }
    }

    pub fn as_str(self) -> (s: &'static str)
        ensures
            s@ == self.spec_as_str(),
    {
        match self {
            SourceType::AbletonConsolidate => "ABLETON_CONSOLIDATE",
            SourceType::SonobusStem => "SONOBUS_STEM",
            SourceType::RemoteCollab => "REMOTE_COLLAB",
            SourceType::FieldRecording => "FIELD_RECORDING",
            SourceType::IpadInstrument => "IPAD_INSTRUMENT",
            SourceType::CommunityUpload => "COMMUNITY_UPLOAD",
            SourceType::GeneratedAudio => "GENERATED_AUDIO",
        }
    }

    pub fn parse(value: &str) -> (r: Self)
        ensures
            r == Self::spec_parse(value@),
    {
        if str_eq(value, "SONOBUS_STEM") {
            SourceType::SonobusStem
        } else if str_eq(value, "REMOTE_COLLAB") {
            SourceType::RemoteCollab
        } else if str_eq(value, "FIELD_RECORDING") {
            SourceType::FieldRecording
        } else if str_eq(value, "IPAD_INSTRUMENT") {
            SourceType::IpadInstrument
        } else if str_eq(value, "COMMUNITY_UPLOAD") {
            SourceType::CommunityUpload
        } else if str_eq(value, "GENERATED_AUDIO") {
            SourceType::GeneratedAudio
        } else {
            SourceType::AbletonConsolidate
        }
    }
}

// ---------------------------------------------------------------------------
// Category
// ---------------------------------------------------------------------------

impl Category {
    pub open spec fn spec_as_str(self) -> Seq<char> {
        match self {
            Category::Harmonies => "HARMONIES"@,
            Category::Rhythms => "RHYTHMS"@,
            Category::Textures => "TEXTURES"@,
            Category::Percussion => "PERCUSSION"@,
            Category::Bass => "BASS"@,
            Category::Voices => "VOICES"@,
            Category::FieldFx => "FIELD_FX"@,
            Category::Other => "OTHER"@,
        }
    }

    pub open spec fn spec_parse(value: Seq<char>) -> Self {
        if value == "HARMONIES"@ {
            Category::Harmonies
        } else if value == "RHYTHMS"@ {
            Category::Rhythms
        } else if value == "TEXTURES"@ {
            Category::Textures
        } else if value == "PERCUSSION"@ {
            Category::Percussion
        } else if value == "BASS"@ {
            Category::Bass
        } else if value == "VOICES"@ {
            Category::Voices
        } else if value == "FIELD_FX"@ {
            Category::FieldFx
        } else {
            Category::Other
        }
    }

    pub open spec fn spec_label_es(self) -> Seq<char> {
        match self {
            Category::Harmonies => "Armonías"@,
            Category::Rhythms => "Ritmos"@,
            Category::Textures => "Texturas"@,
            Category::Percussion => "Percusión"@,
            Category::Bass => "Bajos"@,
            Category::Voices => "Voces"@,
            Category::FieldFx => "Field / FX"@,
            Category::Other => "Otros"@,
        }
    }

    pub open spec fn spec_folder_name(self) -> Seq<char> {
        match self {
            Category::Harmonies => "Armonias"@,
            Category::Rhythms => "Ritmos"@,
            Category::Textures => "Texturas"@,
            Category::Percussion => "Percusion"@,
            Category::Bass => "Bajos"@,
            Category::Voices => "Voces"@,
            Category::FieldFx => "Field_FX"@,
            Category::Other => "Otros"@,
        }
    }

    pub open spec fn spec_filename_token(self) -> Seq<char> {
        match self {
            Category::Harmonies => "HARMONY"@,
            Category::Rhythms => "RHYTHM"@,
            Category::Textures => "TEXTURE"@,
            Category::Percussion => "PERC"@,
            Category::Bass => "BASS"@,
            Category::Voices => "VOICE"@,
            Category::FieldFx => "FIELDFX"@,
            Category::Other => "OTHER"@,
        }
    }

    /// Every category, in taxonomy order.
    pub open spec fn spec_all() -> Seq<Category> {
        seq![
            Category::Harmonies,
            Category::Rhythms,
            Category::Textures,
            Category::Percussion,
            Category::Bass,
            Category::Voices,
            Category::FieldFx,
            Category::Other,
        ]
    }

    /// Every category, in taxonomy order.
    pub fn all() -> (r: Vec<Category>)
        ensures
            r@ == Self::spec_all(),
    {
        let r = vec![
            Category::Harmonies,
            Category::Rhythms,
            Category::Textures,
            Category::Percussion,
            Category::Bass,
            Category::Voices,
            Category::FieldFx,
            Category::Other,
        ];
        assert(r@ =~= Self::spec_all());
        r
    }

    pub fn as_str(self) -> (s: &'static str)
        ensures
            s@ == self.spec_as_str(),
    {
        match self {
            Category::Harmonies => "HARMONIES",
            Category::Rhythms => "RHYTHMS",
            Category::Textures => "TEXTURES",
            Category::Percussion => "PERCUSSION",
            Category::Bass => "BASS",
            Category::Voices => "VOICES",
            Category::FieldFx => "FIELD_FX",
            Category::Other => "OTHER",
        }
    }

    pub fn parse(value: &str) -> (r: Self)
        ensures
            r == Self::spec_parse(value@),
    {
        if str_eq(value, "HARMONIES") {
            Category::Harmonies
        } else if str_eq(value, "RHYTHMS") {
            Category::Rhythms
        } else if str_eq(value, "TEXTURES") {
            Category::Textures
        } else if str_eq(value, "PERCUSSION") {
            Category::Percussion
        } else if str_eq(value, "BASS") {
            Category::Bass
        } else if str_eq(value, "VOICES") {
            Category::Voices
        } else if str_eq(value, "FIELD_FX") {
            Category::FieldFx
        } else {
            Category::Other
        }
    }

    /// Label shown in the UI (Spanish).
    pub fn label_es(self) -> (s: &'static str)
        ensures
            s@ == self.spec_label_es(),
    {
        match self {
            Category::Harmonies => "Armonías",
            Category::Rhythms => "Ritmos",
            Category::Textures => "Texturas",
            Category::Percussion => "Percusión",
            Category::Bass => "Bajos",
            Category::Voices => "Voces",
            Category::FieldFx => "Field / FX",
            Category::Other => "Otros",
        }
    }

    /// Filesystem folder name (no accents, safer on Windows).
    pub fn folder_name(self) -> (s: &'static str)
        ensures
            s@ == self.spec_folder_name(),
    {
        match self {
            Category::Harmonies => "Armonias",
            Category::Rhythms => "Ritmos",
            Category::Textures => "Texturas",
            Category::Percussion => "Percusion",
            Category::Bass => "Bajos",
            Category::Voices => "Voces",
            Category::FieldFx => "Field_FX",
            Category::Other => "Otros",
        }
    }

    /// Token used in canonical filenames.
    pub fn filename_token(self) -> (s: &'static str)
        ensures
            s@ == self.spec_filename_token(),
    {
        match self {
            Category::Harmonies => "HARMONY",
            Category::Rhythms => "RHYTHM",
            Category::Textures => "TEXTURE",
            Category::Percussion => "PERC",
            Category::Bass => "BASS",
            Category::Voices => "VOICE",
            Category::FieldFx => "FIELDFX",
            Category::Other => "OTHER",
        }
    }
}

// ---------------------------------------------------------------------------
// StorageKind
// ---------------------------------------------------------------------------

impl StorageKind {
    pub open spec fn spec_as_str(self) -> Seq<char> {
        match self {
            StorageKind::Local => "LOCAL"@,
            StorageKind::DropboxFolder => "DROPBOX_FOLDER"@,
            StorageKind::GoogleDriveFolder => "GOOGLE_DRIVE_FOLDER"@,
            StorageKind::CustomFolder => "CUSTOM_FOLDER"@,
        }
    }

    pub open spec fn spec_parse(value: Seq<char>) -> Self {
        if value == "DROPBOX_FOLDER"@ {
            StorageKind::DropboxFolder
        } else if value == "GOOGLE_DRIVE_FOLDER"@ {
            StorageKind::GoogleDriveFolder
        } else if value == "CUSTOM_FOLDER"@ {
            StorageKind::CustomFolder
        } else {
            StorageKind::Local
        }
    }

    pub open spec fn spec_label_es(self) -> Seq<char> {
        match self {
            StorageKind::Local => "Biblioteca local"@,
            StorageKind::DropboxFolder => "Carpeta Dropbox"@,
            StorageKind::GoogleDriveFolder => "Carpeta Google Drive"@,
            StorageKind::CustomFolder => "Carpeta personalizada"@,
        }
    }

    pub fn as_str(self) -> (s: &'static str)
        ensures
            s@ == self.spec_as_str(),
    {
        match self {
            StorageKind::Local => "LOCAL",
            StorageKind::DropboxFolder => "DROPBOX_FOLDER",
            StorageKind::GoogleDriveFolder => "GOOGLE_DRIVE_FOLDER",
            StorageKind::CustomFolder => "CUSTOM_FOLDER",
        }
    }

    pub fn parse(value: &str) -> (r: Self)
        ensures
            r == Self::spec_parse(value@),
    {
        if str_eq(value, "DROPBOX_FOLDER") {
            StorageKind::DropboxFolder
        } else if str_eq(value, "GOOGLE_DRIVE_FOLDER") {
            StorageKind::GoogleDriveFolder
        } else if str_eq(value, "CUSTOM_FOLDER") {
            StorageKind::CustomFolder
        } else {
            StorageKind::Local
        }
    }

    pub fn label_es(self) -> (s: &'static str)
        ensures
            s@ == self.spec_label_es(),
    {
        match self {
            StorageKind::Local => "Biblioteca local",
            StorageKind::DropboxFolder => "Carpeta Dropbox",
            StorageKind::GoogleDriveFolder => "Carpeta Google Drive",
            StorageKind::CustomFolder => "Carpeta personalizada",
        }
    }
}

// ---------------------------------------------------------------------------
// CopyStatus
// ---------------------------------------------------------------------------

impl CopyStatus {
    pub open spec fn spec_as_str(self) -> Seq<char> {
        match self {
            CopyStatus::Pending => "PENDING"@,
            CopyStatus::Copied => "COPIED"@,
            CopyStatus::Failed => "FAILED"@,
        }
    }

    pub open spec fn spec_parse(value: Seq<char>) -> Self {
        if value == "COPIED"@ {
            CopyStatus::Copied
        } else if value == "FAILED"@ {
            CopyStatus::Failed
        } else {
            CopyStatus::Pending
        }
    }

    pub fn as_str(self) -> (s: &'static str)
        ensures
            s@ == self.spec_as_str(),
    {
        match self {
            CopyStatus::Pending => "PENDING",
            CopyStatus::Copied => "COPIED",
            CopyStatus::Failed => "FAILED",
        }
    }

    pub fn parse(value: &str) -> (r: Self)
        ensures
            r == Self::spec_parse(value@),
    {
        if str_eq(value, "COPIED") {
            CopyStatus::Copied
        } else if str_eq(value, "FAILED") {
            CopyStatus::Failed
        } else {
            CopyStatus::Pending
        }
    }
}

// ---------------------------------------------------------------------------
// SessionStatus
// ---------------------------------------------------------------------------

impl SessionStatus {
    pub open spec fn spec_as_str(self) -> Seq<char> {
        match self {
            SessionStatus::Active => "ACTIVE"@,
            SessionStatus::Review => "REVIEW"@,
            SessionStatus::Archived => "ARCHIVED"@,
            SessionStatus::Cancelled => "CANCELLED"@,
        }
    }

    pub open spec fn spec_parse(value: Seq<char>) -> Self {
        if value == "REVIEW"@ {
            SessionStatus::Review
        } else if value == "ARCHIVED"@ {
            SessionStatus::Archived
        } else if value == "CANCELLED"@ {
            SessionStatus::Cancelled
        } else {
            SessionStatus::Active
        }
    }

    pub fn as_str(self) -> (s: &'static str)
        ensures
            s@ == self.spec_as_str(),
    {
        match self {
            SessionStatus::Active => "ACTIVE",
            SessionStatus::Review => "REVIEW",
            SessionStatus::Archived => "ARCHIVED",
            SessionStatus::Cancelled => "CANCELLED",
        }
    }

    pub fn parse(value: &str) -> (r: Self)
        ensures
            r == Self::spec_parse(value@),
    {
        if str_eq(value, "REVIEW") {
            SessionStatus::Review
        } else if str_eq(value, "ARCHIVED") {
            SessionStatus::Archived
        } else if str_eq(value, "CANCELLED") {
            SessionStatus::Cancelled
        } else {
            SessionStatus::Active
        }
    }
}

// ---------------------------------------------------------------------------
// Laws: every stored name reads back as the value that wrote it
// ---------------------------------------------------------------------------

/// Parsing the stored name of an ingest type gives that ingest type back.
pub proof fn law_ingest_type_roundtrip(t: IngestType)
    ensures
        IngestType::spec_parse(t.spec_as_str()) == t,
{
    reveal_strlit("SESSION_HARVEST");
    assert("SESSION_HARVEST"@.len() == 15 && "SESSION_HARVEST"@[0] == 'S');
    reveal_strlit("HISTORICAL_IMPORT");
    assert("HISTORICAL_IMPORT"@.len() == 17 && "HISTORICAL_IMPORT"@[0] == 'H');
}

/// Parsing the stored name of a source type gives that source type back.
pub proof fn law_source_type_roundtrip(t: SourceType)
    ensures
        SourceType::spec_parse(t.spec_as_str()) == t,
{
    reveal_strlit("ABLETON_CONSOLIDATE");
    assert("ABLETON_CONSOLIDATE"@.len() == 19 && "ABLETON_CONSOLIDATE"@[0] == 'A');
    reveal_strlit("SONOBUS_STEM");
    assert("SONOBUS_STEM"@.len() == 12 && "SONOBUS_STEM"@[0] == 'S');
    reveal_strlit("REMOTE_COLLAB");
    assert("REMOTE_COLLAB"@.len() == 13 && "REMOTE_COLLAB"@[0] == 'R');
    reveal_strlit("FIELD_RECORDING");
    assert("FIELD_RECORDING"@.len() == 15 && "FIELD_RECORDING"@[0] == 'F');
    reveal_strlit("IPAD_INSTRUMENT");
    assert("IPAD_INSTRUMENT"@.len() == 15 && "IPAD_INSTRUMENT"@[0] == 'I');
    reveal_strlit("COMMUNITY_UPLOAD");
    assert("COMMUNITY_UPLOAD"@.len() == 16 && "COMMUNITY_UPLOAD"@[0] == 'C');
    reveal_strlit("GENERATED_AUDIO");
    assert("GENERATED_AUDIO"@.len() == 15 && "GENERATED_AUDIO"@[0] == 'G');
}

/// Parsing the stored name of a category gives that category back.
pub proof fn law_category_roundtrip(c: Category)
    ensures
        Category::spec_parse(c.spec_as_str()) == c,
{
    reveal_strlit("HARMONIES");
    assert("HARMONIES"@.len() == 9 && "HARMONIES"@[0] == 'H');
    reveal_strlit("RHYTHMS");
    assert("RHYTHMS"@.len() == 7 && "RHYTHMS"@[0] == 'R');
    reveal_strlit("TEXTURES");
    assert("TEXTURES"@.len() == 8 && "TEXTURES"@[0] == 'T');
    reveal_strlit("PERCUSSION");
    assert("PERCUSSION"@.len() == 10 && "PERCUSSION"@[0] == 'P');
    reveal_strlit("BASS");
    assert("BASS"@.len() == 4 && "BASS"@[0] == 'B');
    reveal_strlit("VOICES");
    assert("VOICES"@.len() == 6 && "VOICES"@[0] == 'V');
    reveal_strlit("FIELD_FX");
    assert("FIELD_FX"@.len() == 8 && "FIELD_FX"@[0] == 'F');
    reveal_strlit("OTHER");
    assert("OTHER"@.len() == 5 && "OTHER"@[0] == 'O');
}

/// Parsing the stored name of a storage kind gives that storage kind back.
pub proof fn law_storage_kind_roundtrip(k: StorageKind)
    ensures
        StorageKind::spec_parse(k.spec_as_str()) == k,
{
    reveal_strlit("LOCAL");
    assert("LOCAL"@.len() == 5 && "LOCAL"@[0] == 'L');
    reveal_strlit("DROPBOX_FOLDER");
    assert("DROPBOX_FOLDER"@.len() == 14 && "DROPBOX_FOLDER"@[0] == 'D');
    reveal_strlit("GOOGLE_DRIVE_FOLDER");
    assert("GOOGLE_DRIVE_FOLDER"@.len() == 19 && "GOOGLE_DRIVE_FOLDER"@[0] == 'G');
    reveal_strlit("CUSTOM_FOLDER");
    assert("CUSTOM_FOLDER"@.len() == 13 && "CUSTOM_FOLDER"@[0] == 'C');
}

/// Parsing the stored name of a copy status gives that copy status back.
pub proof fn law_copy_status_roundtrip(s: CopyStatus)
    ensures
        CopyStatus::spec_parse(s.spec_as_str()) == s,
{
    reveal_strlit("PENDING");
    assert("PENDING"@.len() == 7 && "PENDING"@[0] == 'P');
    reveal_strlit("COPIED");
    assert("COPIED"@.len() == 6 && "COPIED"@[0] == 'C');
    reveal_strlit("FAILED");
    assert("FAILED"@.len() == 6 && "FAILED"@[0] == 'F');
}

/// Parsing the stored name of a session status gives that session status back.
pub proof fn law_session_status_roundtrip(s: SessionStatus)
    ensures
        SessionStatus::spec_parse(s.spec_as_str()) == s,
{
    reveal_strlit("ACTIVE");
    assert("ACTIVE"@.len() == 6 && "ACTIVE"@[0] == 'A');
    reveal_strlit("REVIEW");
    assert("REVIEW"@.len() == 6 && "REVIEW"@[0] == 'R');
    reveal_strlit("ARCHIVED");
    assert("ARCHIVED"@.len() == 8 && "ARCHIVED"@[0] == 'A');
    reveal_strlit("CANCELLED");
    assert("CANCELLED"@.len() == 9 && "CANCELLED"@[0] == 'C');
}

/// Distinct categories live in distinct folders, so the folder projection
/// loses no information.
pub proof fn law_category_folders_distinct(a: Category, b: Category)
    ensures
        a != b ==> a.spec_folder_name() != b.spec_folder_name(),
{
    reveal_strlit("Armonias");
    assert("Armonias"@.len() == 8 && "Armonias"@[0] == 'A');
    reveal_strlit("Ritmos");
    assert("Ritmos"@.len() == 6 && "Ritmos"@[0] == 'R');
    reveal_strlit("Texturas");
    assert("Texturas"@.len() == 8 && "Texturas"@[0] == 'T');
    reveal_strlit("Percusion");
    assert("Percusion"@.len() == 9 && "Percusion"@[0] == 'P');
    reveal_strlit("Bajos");
    assert("Bajos"@.len() == 5 && "Bajos"@[0] == 'B');
    reveal_strlit("Voces");
    assert("Voces"@.len() == 5 && "Voces"@[0] == 'V');
    reveal_strlit("Field_FX");
    assert("Field_FX"@.len() == 8 && "Field_FX"@[0] == 'F');
    reveal_strlit("Otros");
    assert("Otros"@.len() == 5 && "Otros"@[0] == 'O');
}

// ---------------------------------------------------------------------------
// Records. Instants are milliseconds from the Unix epoch.
// ---------------------------------------------------------------------------

/// Size and modification time of one audio file of a Consolidate folder.
#[derive(Clone, Debug)]
pub struct FileFingerprint {
    pub relative_path: String,
    pub size_bytes: u64,
    pub modified_unix_ms: i64,
}

/// The audio files of a Consolidate folder when a session started.
#[derive(Clone, Debug)]
pub struct SessionSnapshot {
    pub files: Vec<FileFingerprint>,
}

impl Default for SessionSnapshot {
    fn default() -> (r: Self)
        ensures
            r.files@.len() == 0,
    {
        SessionSnapshot { files: Vec::new() }
    }
}

/// Index of the first fingerprint of `files` at `relative_path`, if any.
pub open spec fn first_fingerprint_at(files: Seq<FileFingerprint>, relative_path: Seq<char>) -> Option<
    int,
>
    decreases files.len(),
{
    if files.len() == 0 {
        None
    } else if files[0].relative_path@ == relative_path {
        Some(0)
    } else {
        match first_fingerprint_at(files.drop_first(), relative_path) {
            Some(i) => Some(i + 1),
            None => None,
        }
    }
}

proof fn lemma_first_fingerprint_at(files: Seq<FileFingerprint>, relative_path: Seq<char>, i: int)
    requires
        0 <= i <= files.len(),
        forall|j: int| 0 <= j < i ==> files[j].relative_path@ != relative_path,
    ensures
        i < files.len() && files[i].relative_path@ == relative_path ==> first_fingerprint_at(
            files,
            relative_path,
        ) == Some(i),
        i == files.len() ==> first_fingerprint_at(files, relative_path) is None,
    decreases i,
{
    if i > 0 {
        let rest = files.drop_first();
        assert forall|j: int| 0 <= j < i - 1 implies rest[j].relative_path@ != relative_path by {
            assert(rest[j] == files[j + 1]);
        }
        lemma_first_fingerprint_at(rest, relative_path, i - 1);
    }
}

impl SessionSnapshot {
    /// The first fingerprint recorded for `relative_path`.
    pub fn get(&self, relative_path: &str) -> (r: Option<&FileFingerprint>)
        ensures
            match first_fingerprint_at(self.files@, relative_path@) {
                Some(i) => r == Some(&self.files@[i]),
                None => r is None,
            },
    {
        let mut i: usize = 0;
        while i < self.files.len()
            invariant
                0 <= i <= self.files@.len(),
                forall|j: int| 0 <= j < i ==> self.files@[j].relative_path@ != relative_path@,
            decreases self.files@.len() - i,
        {
            if crate::text::str_eq(self.files[i].relative_path.as_str(), relative_path) {
                proof {
                    lemma_first_fingerprint_at(self.files@, relative_path@, i as int);
                }
                return Some(&self.files[i]);
            }
            i = i + 1;
        }
        proof {
            lemma_first_fingerprint_at(self.files@, relative_path@, i as int);
        }
        None
    }
}

/// A folder the library is copied to.
#[derive(Clone, Debug)]
pub struct StorageLocation {
    pub id: String,
    pub kind: StorageKind,
    pub label: String,
    pub root_path: String,
    pub enabled: bool,
    pub created_at_ms: i64,
}

/// Where one asset was copied to, and how that went.
#[derive(Clone, Debug)]
pub struct AssetStorageLocation {
    pub id: String,
    pub asset_id: String,
    pub storage_location_id: String,
    pub relative_path: String,
    pub copy_status: CopyStatus,
    pub error_message: Option<String>,
    pub copied_at_ms: Option<i64>,
}

/// A consolidate of a past session that is not in the library yet.
#[derive(Clone, Debug)]
pub struct HistoricalConsolidate {
    pub original_path: String,
    pub original_filename: String,
    /// Musical library name with Ableton timestamp stripped only.
    pub library_filename: String,
    pub relative_path: String,
    pub size_bytes: u64,
    pub modified_unix_ms: i64,
    pub content_hash: String,
}

/// A consolidate the operator chose not to import.
#[derive(Clone, Debug)]
pub struct IgnoredConsolidateInput {
    pub content_hash: String,
    pub original_path: String,
    pub original_filename: String,
}

/// How much of a project's Consolidate folder is already in the library.
#[derive(Clone, Debug)]
pub struct ProjectLibraryStatus {
    pub project_id: String,
    pub project_name: String,
    pub consolidate_dir: String,
    pub pending: Vec<HistoricalConsolidate>,
    pub archived_count: u32,
    pub synced: bool,
}

/// A file that appeared or changed during a session.
#[derive(Clone, Debug)]
pub struct HarvestCandidate {
    pub original_path: String,
    pub original_filename: String,
    /// Musical library name with Ableton timestamp stripped only.
    pub library_filename: String,
    pub relative_path: String,
    pub size_bytes: u64,
    pub modified_unix_ms: i64,
    pub change_kind: ChangeKind,
    pub content_hash: String,
}

/// A selected file whose bytes were already in the library.
#[derive(Clone, Debug)]
pub struct DuplicateSkip {
    pub original_filename: String,
    pub existing_asset_id: String,
    pub content_hash: String,
}

/// Copies made to one storage location during an ingest.
#[derive(Clone, Debug)]
pub struct StorageCopySummary {
    pub storage_location_id: String,
    pub kind: StorageKind,
    pub label: String,
    pub copied: u32,
    pub failed: u32,
    pub total: u32,
}

/// One asset added by an ingest.
#[derive(Clone, Debug)]
pub struct HarvestedAssetSummary {
    pub asset_id: String,
    pub canonical_filename: String,
    pub category: Category,
    pub original_filename: String,
    pub duplicate: bool,
}

/// What removing one copy of an asset did.
#[derive(Clone, Debug)]
pub struct StorageDeleteResult {
    pub storage_location_id: String,
    pub kind: StorageKind,
    pub label: String,
    pub path: String,
    pub deleted: bool,
    pub error: Option<String>,
}

/// What removing an asset from the library did.
#[derive(Clone, Debug)]
pub struct DeleteFromLibraryReport {
    pub asset_id: String,
    pub canonical_filename: String,
    pub removed_from_db: bool,
    pub source_preserved: bool,
    pub locations: Vec<StorageDeleteResult>,
    pub errors: Vec<String>,
}

/// What moving one copy of an asset did.
#[derive(Clone, Debug)]
pub struct StorageRelocateResult {
    pub storage_location_id: String,
    pub kind: StorageKind,
    pub label: String,
    pub old_path: String,
    pub new_path: String,
    pub moved: bool,
    pub error: Option<String>,
}

/// What renaming or recategorising an asset did.
#[derive(Clone, Debug)]
pub struct UpdateLibraryAssetReport {
    pub asset_id: String,
    pub old_filename: String,
    pub new_filename: String,
    pub old_category: Category,
    pub new_category: Category,
    pub old_relative_path: String,
    pub new_relative_path: String,
    pub locations: Vec<StorageRelocateResult>,
    pub errors: Vec<String>,
}

} // verus!
