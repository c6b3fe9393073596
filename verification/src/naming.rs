//! Library filenames: Ableton's consolidate timestamp is stripped, user-typed
//! names are normalised, and clashes get a ` (n)` suffix.
use vstd::prelude::*;

use unicode_normalization::UnicodeNormalization;

use crate::error::{AppError, AppErrorView};
use crate::pathname::{
    extension_of_path, file_stem_of, path_extension, path_file_stem, split_at_last_dot,
};
use crate::text::{
    ascii_lower_seq, ascii_lowercase, char_is_ascii_digit, char_is_control, chars_eq_str,
    chars_of, concat_chars, decimal, decimal_chars, is_ascii_digit, is_control, last_index_of,
    lemma_decimal_injective, lemma_decimal_len, lemma_last_index_of, lemma_last_index_of_unique,
    lemma_trim_keeps, lemma_trim_end_keeps, lemma_trim_start_keeps, rfind_char, slice_chars,
    string_of, trim, trim_chars, trim_end, trim_end_chars, trim_start, trim_start_chars,
    TrimClass,
};

verus! {

// ---------------------------------------------------------------------------
// Ableton timestamp suffix
// ---------------------------------------------------------------------------

/// ` [YYYY-MM-DD HHMMSS]`: the suffix Ableton Live appends before the extension.
pub open spec fn is_timestamp_suffix(s: Seq<char>) -> bool {
    &&& s.len() == 20
    &&& s[0] == ' ' && s[1] == '['
    &&& is_ascii_digit(s[2]) && is_ascii_digit(s[3]) && is_ascii_digit(s[4]) && is_ascii_digit(s[5])
    &&& s[6] == '-'
    &&& is_ascii_digit(s[7]) && is_ascii_digit(s[8])
    &&& s[9] == '-'
    &&& is_ascii_digit(s[10]) && is_ascii_digit(s[11])
    &&& s[12] == ' '
    &&& is_ascii_digit(s[13]) && is_ascii_digit(s[14]) && is_ascii_digit(s[15])
        && is_ascii_digit(s[16]) && is_ascii_digit(s[17]) && is_ascii_digit(s[18])
    &&& s[19] == ']'
}

/// `stem` ends with an Ableton timestamp suffix.
pub open spec fn ends_with_timestamp(stem: Seq<char>) -> bool {
    stem.len() >= 20 && is_timestamp_suffix(stem.subrange(stem.len() - 20, stem.len() as int))
}

/// The filename with Ableton's timestamp removed from its stem, keeping a
/// non-empty extension; the filename unchanged when its stem carries no timestamp.
pub open spec fn spec_strip_timestamp(f: Seq<char>) -> Seq<char> {
    let stem = match path_file_stem(f) {
        Some(s) => s,
        None => f,
    };
    if ends_with_timestamp(stem) {
        let clean = stem.subrange(0, stem.len() - 20);
        match path_extension(f) {
            Some(e) => if e.len() > 0 {
                clean + seq!['.'] + e
            } else {
                clean
            },
            None => clean,
        }
    } else {
        f
    }
}

fn chars_is_timestamp_suffix(s: &[char]) -> (r: bool)
    ensures
        r == is_timestamp_suffix(s@),
{
    if s.len() != 20 {
        return false;
    }
    s[0] == ' ' && s[1] == '[' && char_is_ascii_digit(s[2]) && char_is_ascii_digit(s[3])
        && char_is_ascii_digit(s[4]) && char_is_ascii_digit(s[5]) && s[6] == '-'
        && char_is_ascii_digit(s[7]) && char_is_ascii_digit(s[8]) && s[9] == '-'
        && char_is_ascii_digit(s[10]) && char_is_ascii_digit(s[11]) && s[12] == ' '
        && char_is_ascii_digit(s[13]) && char_is_ascii_digit(s[14]) && char_is_ascii_digit(s[15])
        && char_is_ascii_digit(s[16]) && char_is_ascii_digit(s[17]) && char_is_ascii_digit(s[18])
        && s[19] == ']'
}

/// Whether `suffix` is exactly an Ableton timestamp suffix ` [YYYY-MM-DD HHMMSS]`.
pub fn is_ableton_timestamp_suffix(suffix: &str) -> (r: bool)
    ensures
        r == is_timestamp_suffix(suffix@),
{
    let v = chars_of(suffix);
    chars_is_timestamp_suffix(v.as_slice())
}

/// Ableton Live appends a timestamp suffix immediately before the extension:
/// `nombre musical [YYYY-MM-DD HHMMSS].ext`. This removes it and nothing else.
pub fn strip_ableton_consolidate_timestamp(filename: &str) -> (r: String)
    ensures
        r@ == spec_strip_timestamp(filename@),
{
    let f = chars_of(filename);
    let ext = extension_of_path(f.as_slice());
    let stem = match file_stem_of(f.as_slice()) {
        Some(s) => s,
        None => slice_chars(f.as_slice(), 0, f.len()),
    };
    assert(f@.subrange(0, f@.len() as int) =~= f@);
    if stem.len() >= 20 {
        let open = stem.len() - 20;
        let suffix = slice_chars(stem.as_slice(), open, stem.len());
        if chars_is_timestamp_suffix(suffix.as_slice()) {
            let clean = slice_chars(stem.as_slice(), 0, open);
            match ext {
                Some(e) => {
                    if e.len() > 0 {
                        let mut with_dot = clean;
                        with_dot.push('.');
                        let all = concat_chars(with_dot.as_slice(), e.as_slice());
                        return string_of(all.as_slice());
                    } else {
                        return string_of(clean.as_slice());
                    }
                },
                None => {
                    return string_of(clean.as_slice());
                },
            }
        }
    }
    string_of(f.as_slice())
}

/// The library filename keeps the musical name, with only Ableton's automatic
/// timestamp removed.
pub fn library_filename_from_original(original_filename: &str) -> (r: String)
    ensures
        r@ == spec_strip_timestamp(original_filename@),
{
    strip_ableton_consolidate_timestamp(original_filename)
}

// ---------------------------------------------------------------------------
// Extensions
// ---------------------------------------------------------------------------

/// The lowercase extension of a filename, `wav` when it has none.
pub open spec fn spec_extension_of(f: Seq<char>) -> Seq<char> {
    match path_extension(f) {
        Some(e) => if e.len() > 0 {
            ascii_lower_seq(e)
        } else {
            "wav"@
        },
        None => "wav"@,
    }
}

/// One of the audio extensions the library accepts.
pub open spec fn is_audio_extension(e: Seq<char>) -> bool {
    e == "wav"@ || e == "aif"@ || e == "aiff"@ || e == "flac"@
}

pub open spec fn spec_is_supported_audio_filename(f: Seq<char>) -> bool {
    is_audio_extension(spec_extension_of(f))
}

pub fn chars_is_audio_extension(e: &[char]) -> (r: bool)
    ensures
        r == is_audio_extension(e@),
{
    chars_eq_str(e, "wav") || chars_eq_str(e, "aif") || chars_eq_str(e, "aiff") || chars_eq_str(
        e,
        "flac",
    )
}

fn chars_extension_of(f: &[char]) -> (r: Vec<char>)
    ensures
        r@ == spec_extension_of(f@),
{
    match extension_of_path(f) {
        Some(e) => {
            if e.len() > 0 {
                ascii_lowercase(e.as_slice())
            } else {
                chars_of("wav")
            }
        },
        None => chars_of("wav"),
    }
}

/// Lowercase extension of `filename`; `wav` when there is none.
pub fn extension_of(filename: &str) -> (r: String)
    ensures
        r@ == spec_extension_of(filename@),
{
    let f = chars_of(filename);
    let e = chars_extension_of(f.as_slice());
    string_of(e.as_slice())
}

fn chars_is_supported_audio_filename(f: &[char]) -> (r: bool)
    ensures
        r == spec_is_supported_audio_filename(f@),
{
    let e = chars_extension_of(f);
    chars_is_audio_extension(e.as_slice())
}

/// Whether `filename` has one of the audio extensions `wav`, `aif`, `aiff`, `flac`.
pub fn is_supported_audio_filename(filename: &str) -> (r: bool)
    ensures
        r == spec_is_supported_audio_filename(filename@),
{
    let f = chars_of(filename);
    chars_is_supported_audio_filename(f.as_slice())
}

// ---------------------------------------------------------------------------
// Collisions
// ---------------------------------------------------------------------------

/// A filename split at its last dot anywhere in the text; no extension when
/// there is no dot or the only dot is the first character.
pub open spec fn spec_split_stem_ext(f: Seq<char>) -> (Seq<char>, Seq<char>) {
    let i = last_index_of(f, '.');
    if i > 0 {
        (f.subrange(0, i), f.subrange(i + 1, f.len() as int))
    } else {
        (f, Seq::<char>::empty())
    }
}

/// `stem (n).ext`, or `stem (n)` without an extension.
pub open spec fn collision_candidate(base: Seq<char>, n: nat) -> Seq<char> {
    let (stem, ext) = spec_split_stem_ext(base);
    if ext.len() == 0 {
        stem + " ("@ + decimal(n) + ")"@
    } else {
        stem + " ("@ + decimal(n) + ")."@ + ext
    }
}

/// The numbered names split the base name at its last dot: when the last
/// `.` of `base` is at `i > 0`, the `n`-th name is the text before it, then
/// ` (n)`, then the dot and the rest (the extension), which is left out when
/// empty. Names like `Kick.01.wav` keep `Kick.01` whole: `Kick.01 (2).wav`.
pub proof fn law_candidate_splits_at_last_dot(base: Seq<char>, i: int, n: nat)
    requires
        0 < i < base.len(),
        base[i] == '.',
        forall|j: int| i < j < base.len() ==> base[j] != '.',
    ensures
        collision_candidate(base, n) == if i + 1 < base.len() {
            base.subrange(0, i) + " ("@ + decimal(n) + ")."@ + base.subrange(i + 1, base.len() as int)
        } else {
            base.subrange(0, i) + " ("@ + decimal(n) + ")"@
        },
{
    lemma_last_index_of_unique(base, '.', i);
}

/// A base name without a dot after its first character gets ` (n)` at its end.
pub proof fn law_candidate_without_extension(base: Seq<char>, n: nat)
    requires
        forall|j: int| 0 < j < base.len() ==> base[j] != '.',
    ensures
        collision_candidate(base, n) == base + " ("@ + decimal(n) + ")"@,
{
    lemma_last_index_of(base, '.');
}

/// `taken` holds a string equal to `x`.
pub open spec fn names_contain(taken: Seq<String>, x: Seq<char>) -> bool {
    exists|i: int| 0 <= i < taken.len() && #[trigger] taken[i]@ == x
}

/// The filename chosen for `base` when the names in `taken` are in use:
/// `base` itself when free, else the first free `stem (n).ext` with `n >= 2`.
pub open spec fn is_collision_resolution(base: Seq<char>, taken: Seq<String>, r: Seq<char>) -> bool {
    if !names_contain(taken, base) {
        r == base
    } else {
        exists|n: nat|
            #![trigger collision_candidate(base, n)]
            n >= 2 && r == collision_candidate(base, n) && !names_contain(taken, r) && forall|m: nat|
                2 <= m < n ==> names_contain(taken, #[trigger] collision_candidate(base, m))
    }
}

fn split_stem_ext(filename: &[char]) -> (r: (Vec<char>, Vec<char>))
    ensures
        r.0@ == spec_split_stem_ext(filename@).0,
        r.1@ == spec_split_stem_ext(filename@).1,
{
    let n = filename.len();
    assert(filename@.subrange(0, n as int) =~= filename@);
    match rfind_char(filename, n, '.') {
        Some(i) => {
            if i > 0 {
                (slice_chars(filename, 0, i), slice_chars(filename, i + 1, n))
            } else {
                (slice_chars(filename, 0, n), Vec::new())
            }
        },
        None => (slice_chars(filename, 0, n), Vec::new()),
    }
}

proof fn lemma_candidate_injective(base: Seq<char>, a: nat, b: nat)
    requires
        collision_candidate(base, a) == collision_candidate(base, b),
    ensures
        a == b,
{
    let (stem, ext) = spec_split_stem_ext(base);
    reveal_strlit(" (");
    reveal_strlit(")");
    reveal_strlit(").");
    let ca = collision_candidate(base, a);
    let cb = collision_candidate(base, b);
    let da = decimal(a);
    let db = decimal(b);
    let k: int = stem.len() as int + 2;
    assert(ca.len() == cb.len());
    assert(da.len() == db.len());
    assert(ca.subrange(k, k + da.len() as int) =~= da);
    assert(cb.subrange(k, k + db.len() as int) =~= db);
    lemma_decimal_injective(a, b);
}

/// Whether `taken` holds a string equal to `x`.
pub fn strings_contain(taken: &[String], x: &[char]) -> (r: bool)
    ensures
        r == names_contain(taken@, x@),
{
    let mut i: usize = 0;
    while i < taken.len()
        invariant
            i <= taken@.len(),
            forall|j: int| 0 <= j < i ==> taken@[j]@ != x@,
        decreases taken@.len() - i,
    {
        let t = chars_of(taken[i].as_str());
        if crate::text::chars_eq(t.as_slice(), x) {
            return true;
        }
        i = i + 1;
    }
    false
}

fn candidate_chars(stem: &[char], ext: &[char], n: u64) -> (r: Vec<char>)
    ensures
        ext@.len() == 0 ==> r@ == stem@ + " ("@ + decimal(n as nat) + ")"@,
        ext@.len() > 0 ==> r@ == stem@ + " ("@ + decimal(n as nat) + ")."@ + ext@,
{
    let open = chars_of(" (");
    let num = decimal_chars(n);
    let a = concat_chars(stem, open.as_slice());
    let b = concat_chars(a.as_slice(), num.as_slice());
    if ext.len() == 0 {
        let close = chars_of(")");
        concat_chars(b.as_slice(), close.as_slice())
    } else {
        let close = chars_of(").");
        let c = concat_chars(b.as_slice(), close.as_slice());
        concat_chars(c.as_slice(), ext)
    }
}

/// Pigeonhole: the names `stem (m).ext` for `m` in `[2, n)` are pairwise
/// distinct, so if all are taken then `taken` has at least `n - 2` entries.
proof fn lemma_taken_bound(base: Seq<char>, taken: Seq<String>, n: nat)
    requires
        n >= 2,
        forall|m: nat| 2 <= m < n ==> names_contain(taken, #[trigger] collision_candidate(base, m)),
    ensures
        n - 2 <= taken.len(),
{
    let views = vstd::set_lib::set_int_range(0, taken.len() as int).map(|j: int| taken[j]@);
    vstd::set_lib::lemma_int_range(0, taken.len() as int);
    vstd::set_lib::lemma_map_size_bound(
        vstd::set_lib::set_int_range(0, taken.len() as int),
        views,
        |j: int| taken[j]@,
    );
    let f = |m: int| collision_candidate(base, m as nat);
    let range = vstd::set_lib::set_int_range(2, n as int);
    vstd::set_lib::lemma_int_range(2, n as int);
    let img = range.map(f);
    assert(vstd::relations::injective_on(f, range)) by {
        assert forall|x: int, y: int| range.contains(x) && range.contains(y) && #[trigger] f(x)
            == #[trigger] f(y) implies x == y by {
            lemma_candidate_injective(base, x as nat, y as nat);
        }
    }
    vstd::set_lib::lemma_map_size(range, img, f);
    assert(img.subset_of(views)) by {
        assert forall|x: Seq<char>| img.contains(x) implies views.contains(x) by {
            let m = choose|m: int| range.contains(m) && f(m) == x;
            assert(names_contain(taken, collision_candidate(base, m as nat)));
            let j = choose|j: int| 0 <= j < taken.len() && #[trigger] taken[j]@ == collision_candidate(
                base,
                m as nat,
            );
            assert(vstd::set_lib::set_int_range(0, taken.len() as int).contains(j));
        }
    }
    vstd::set_lib::lemma_len_subset(img, views);
}

/// A resolved name is never one already in use, and a free base name is kept.
pub proof fn law_resolved_name_is_free(base: Seq<char>, taken: Seq<String>, r: Seq<char>)
    requires
        is_collision_resolution(base, taken, r),
    ensures
        !names_contain(taken, r),
        !names_contain(taken, base) ==> r == base,
{
}

/// A new file whose cleaned name is already in the library gets the first
/// free numbered name: with `base` taken and `stem (2).ext` free, it is
/// `stem (2).ext`, and never the taken name.
pub proof fn law_taken_name_gets_number(base: Seq<char>, taken: Seq<String>, r: Seq<char>)
    requires
        is_collision_resolution(base, taken, r),
        names_contain(taken, base),
        !names_contain(taken, collision_candidate(base, 2)),
    ensures
        r == collision_candidate(base, 2),
        r != base || !names_contain(taken, r),
{
    let n = choose|n: nat|
        #![trigger collision_candidate(base, n)]
        n >= 2 && r == collision_candidate(base, n) && !names_contain(taken, r) && forall|m: nat|
            2 <= m < n ==> names_contain(taken, #[trigger] collision_candidate(base, m));
    if n > 2 {
        assert(names_contain(taken, collision_candidate(base, 2)));
    }
}

/// When two different assets clean to the same filename, allocate
/// `name (2).ext`, `name (3).ext`, ... : the first one not in `taken`.
pub fn resolve_filename_collision(base: &str, taken: &[String]) -> (r: String)
    requires
        taken@.len() < u64::MAX - 2,
    ensures
        is_collision_resolution(base@, taken@, r@),
{
    let b = chars_of(base);
    if !strings_contain(taken, b.as_slice()) {
        return string_of(b.as_slice());
    }
    let (stem, ext) = split_stem_ext(b.as_slice());
    let mut n: u64 = 2;
    loop
        invariant
            2 <= n <= taken@.len() + 2,
            taken@.len() < u64::MAX - 2,
            names_contain(taken@, base@),
            stem@ == spec_split_stem_ext(base@).0,
            ext@ == spec_split_stem_ext(base@).1,
            forall|m: nat| 2 <= m < n ==> names_contain(taken@, #[trigger] collision_candidate(base@, m)),
        decreases taken@.len() + 2 - n,
    {
        let cand = candidate_chars(stem.as_slice(), ext.as_slice(), n);
        assert(cand@ == collision_candidate(base@, n as nat));
        if !strings_contain(taken, cand.as_slice()) {
            let r = string_of(cand.as_slice());
            assert(is_collision_resolution(base@, taken@, r@));
            return r;
        }
        proof {
            lemma_taken_bound(base@, taken@, (n + 1) as nat);
        }
        n = n + 1;
    }
}

// ---------------------------------------------------------------------------
// User-typed filenames
// ---------------------------------------------------------------------------

/// Characters forbidden in filenames on Windows, plus `:` which macOS refuses.
pub open spec fn is_forbidden_char(c: char) -> bool {
    c == '<' || c == '>' || c == ':' || c == '"' || c == '/' || c == '\\' || c == '|' || c == '?'
        || c == '*'
}

pub fn char_is_forbidden(c: char) -> (r: bool)
    ensures
        r == is_forbidden_char(c),
{
    c == '<' || c == '>' || c == ':' || c == '"' || c == '/' || c == '\\' || c == '|' || c == '?'
        || c == '*'
}

/// Control and forbidden characters become `_`.
pub open spec fn clean_char(c: char) -> char {
    if is_control(c) || is_forbidden_char(c) {
        '_'
    } else {
        c
    }
}

pub open spec fn clean_chars(s: Seq<char>) -> Seq<char> {
    s.map_values(|c: char| clean_char(c))
}

/// A character a library file name may hold: none of
/// `< > : " / \\ | ? *` and no control character.
pub open spec fn filename_safe_char(c: char) -> bool {
    &&& !is_control(c)
    &&& c != '<' && c != '>' && c != ':' && c != '"' && c != '/' && c != '\\'
    &&& c != '|' && c != '?' && c != '*'
}

/// Cleaning replaces exactly the characters a file name may not hold, each
/// by `_`, and keeps every other character in place.
pub proof fn law_cleaning_removes_unsafe_chars(s: Seq<char>)
    ensures
        clean_chars(s).len() == s.len(),
        forall|i: int|
            0 <= i < s.len() ==> filename_safe_char(#[trigger] clean_chars(s)[i]) && (
            filename_safe_char(s[i]) ==> clean_chars(s)[i] == s[i]) && (!filename_safe_char(s[i])
                ==> clean_chars(s)[i] == '_'),
{
}

/// A normalised file name holds only safe characters (as long as the
/// fallback extension does): `¿Qué?` becomes `¿Qué_.wav`.
pub proof fn law_normalised_name_is_safe(input: Seq<char>, fallback_ext: Seq<char>, name: Seq<char>)
    requires
        spec_normalize_filename(input, fallback_ext) == Ok::<Seq<char>, AppErrorView>(name),
        forall|j: int| 0 <= j < fallback_ext.len() ==> filename_safe_char(#[trigger] fallback_ext[j]),
    ensures
        forall|i: int| 0 <= i < name.len() ==> filename_safe_char(#[trigger] name[i]),
{
    let p = |c: char| filename_safe_char(c);
    let trimmed = trim(input, TrimClass::Whitespace);
    let cl = clean_chars(nfc_of(trimmed));
    law_cleaning_removes_unsafe_chars(nfc_of(trimmed));
    assert forall|j: int| 0 <= j < cl.len() implies p(#[trigger] cl[j]) by {}
    lemma_trim_keeps(cl, TrimClass::DotSpace, p);
    let cleaned = trim(cl, TrimClass::DotSpace);
    assert forall|j: int| 0 <= j < fallback_ext.len() implies p(#[trigger] fallback_ext[j]) by {}
    lemma_trim_start_keeps(fallback_ext, TrimClass::Dot, p);
    let fe = trim_start(fallback_ext, TrimClass::Dot);
    let full = with_audio_extension(cleaned, fallback_ext);
    reveal_strlit(".wav");
    reveal_strlit(".");
    assert forall|j: int| 0 <= j < full.len() implies p(#[trigger] full[j]) by {
        if j < cleaned.len() {
            assert(p(cleaned[j]));
        } else if full != cleaned {
            if fe.len() == 0 {
                assert(full == cleaned + ".wav"@);
            } else {
                assert(full == cleaned + "."@ + fe);
                if j > cleaned.len() {
                    assert(full[j] == fe[j - cleaned.len() - 1]);
                    assert(p(fe[j - cleaned.len() - 1]));
                }
            }
        }
    }
    lemma_trim_end_keeps(full, TrimClass::DotSpace, p);
}

pub fn clean_chars_exec(s: &[char]) -> (r: Vec<char>)
    ensures
        r@ == clean_chars(s@),
{
    let mut r: Vec<char> = Vec::new();
    let mut i: usize = 0;
    while i < s.len()
        invariant
            i <= s@.len(),
            r@ == clean_chars(s@.take(i as int)),
        decreases s@.len() - i,
    {
        let c = s[i];
        if char_is_control(c) || char_is_forbidden(c) {
            r.push('_');
        } else {
            r.push(c);
        }
        i = i + 1;
        assert(r@ =~= clean_chars(s@.take(i as int)));
    }
    assert(s@.take(s@.len() as int) =~= s@);
    r
}

/// What the Unicode normalization to NFC (composed form) returns for a text.
pub uninterp spec fn nfc_of(s: Seq<char>) -> Seq<char>;

/// `unicode_normalization::UnicodeNormalization::nfc`: the text in Unicode
/// Normalization Form C.
#[verifier::external_body]
pub(crate) fn nfc(s: &str) -> (r: Vec<char>)
    ensures
        r@ == nfc_of(s@),
{
    UnicodeNormalization::nfc(s).collect()
}

pub open spec fn msg_name_empty() -> Seq<char> {
    "El nombre del archivo no puede estar vacío"@
}

pub open spec fn msg_name_invalid() -> Seq<char> {
    "Nombre de archivo inválido"@
}

pub open spec fn msg_unsupported_extension(name: Seq<char>) -> Seq<char> {
    "Extensión no soportada en «"@ + name + "». Usa wav, aif, aiff o flac."@
}

/// The name with the fallback extension added when it has no known audio extension.
pub open spec fn with_audio_extension(cleaned: Seq<char>, fallback_ext: Seq<char>) -> Seq<char> {
    let has_known = match path_extension(cleaned) {
        Some(e) => is_audio_extension(ascii_lower_seq(e)),
        None => false,
    };
    if has_known {
        cleaned
    } else {
        let fe = trim_start(fallback_ext, TrimClass::Dot);
        if fe.len() == 0 {
            cleaned + ".wav"@
        } else {
            cleaned + "."@ + fe
        }
    }
}

/// The stem of `name` is blank.
pub open spec fn has_blank_stem(name: Seq<char>) -> bool {
    match path_file_stem(name) {
        Some(stem) => trim(stem, TrimClass::Whitespace).len() == 0,
        None => false,
    }
}

/// A user-edited library filename, normalised: spaces and Unicode are kept
/// (composed to NFC), control and path characters become `_`, leading and
/// trailing dots and spaces go, and a known audio extension is ensured.
pub open spec fn spec_normalize_filename(input: Seq<char>, fallback_ext: Seq<char>) -> Result<
    Seq<char>,
    AppErrorView,
> {
    let trimmed = trim(input, TrimClass::Whitespace);
    if trimmed.len() == 0 {
        Err(AppErrorView::InvalidPath(msg_name_empty()))
    } else {
        spec_normalize_composed(nfc_of(trimmed), fallback_ext)
    }
}

/// The rest of the normalisation, on the trimmed name composed to NFC.
pub open spec fn spec_normalize_composed(composed: Seq<char>, fallback_ext: Seq<char>) -> Result<
    Seq<char>,
    AppErrorView,
> {
    let cleaned = trim(clean_chars(composed), TrimClass::DotSpace);
    if cleaned.len() == 0 || cleaned == "."@ || cleaned == ".."@ {
        Err(AppErrorView::InvalidPath(msg_name_invalid()))
    } else {
        let name = with_audio_extension(cleaned, fallback_ext);
        if has_blank_stem(name) {
            Err(AppErrorView::InvalidPath(msg_name_empty()))
        } else if !spec_is_supported_audio_filename(name) {
            Err(AppErrorView::InvalidPath(msg_unsupported_extension(name)))
        } else {
            let fin = trim_end(name, TrimClass::DotSpace);
            if fin.len() == 0 {
                Err(AppErrorView::InvalidPath(msg_name_invalid()))
            } else {
                Ok(fin)
            }
        }
    }
}

fn invalid_path(msg: &str) -> (e: AppError)
    ensures
        e@ == AppErrorView::InvalidPath(msg@),
{
    AppError::InvalidPath(crate::error::copy_string(msg))
}

/// Normalize a user-edited library filename. Spaces and Unicode are preserved;
/// path separators are rejected.
pub fn normalize_library_filename_input(input: &str, fallback_ext: &str) -> (r: Result<
    String,
    AppError,
>)
    ensures
        match r {
            Ok(s) => spec_normalize_filename(input@, fallback_ext@) == Ok::<
                Seq<char>,
                AppErrorView,
            >(s@),
            Err(e) => spec_normalize_filename(input@, fallback_ext@) == Err::<
                Seq<char>,
                AppErrorView,
            >(e@),
        },
        r matches Ok(s) ==> ((forall|j: int|
            0 <= j < fallback_ext@.len() ==> filename_safe_char(#[trigger] fallback_ext@[j]))
            ==> forall|i: int| 0 <= i < s@.len() ==> filename_safe_char(#[trigger] s@[i])),
{
    let iv = chars_of(input);
    let trimmed = trim_chars(iv.as_slice(), TrimClass::Whitespace);
    if trimmed.len() == 0 {
        return Err(invalid_path("El nombre del archivo no puede estar vacío"));
    }
    let trimmed_s = string_of(trimmed.as_slice());
    let normalized = nfc(trimmed_s.as_str());
    let composed = string_of(normalized.as_slice());
    let r = normalize_composed_filename(composed.as_str(), fallback_ext);
    proof {
        let ghost gr = r;
        if let Ok(s) = gr {
            if forall|j: int|
                0 <= j < fallback_ext@.len() ==> filename_safe_char(#[trigger] fallback_ext@[j]) {
                law_normalised_name_is_safe(input@, fallback_ext@, s@);
            }
        }
    }
    r
}

/// [`normalize_library_filename_input`] from the point where the trimmed
/// name has been composed to NFC.
pub fn normalize_composed_filename(composed: &str, fallback_ext: &str) -> (r: Result<
    String,
    AppError,
>)
    ensures
        match r {
            Ok(s) => spec_normalize_composed(composed@, fallback_ext@) == Ok::<
                Seq<char>,
                AppErrorView,
            >(s@),
            Err(e) => spec_normalize_composed(composed@, fallback_ext@) == Err::<
                Seq<char>,
                AppErrorView,
            >(e@),
        },
{
    let normalized = chars_of(composed);
    let replaced = clean_chars_exec(normalized.as_slice());
    let cleaned = trim_chars(replaced.as_slice(), TrimClass::DotSpace);
    if cleaned.len() == 0 || chars_eq_str(cleaned.as_slice(), ".") || chars_eq_str(
        cleaned.as_slice(),
        "..",
    ) {
        return Err(invalid_path("Nombre de archivo inválido"));
    }
    let has_known = match extension_of_path(cleaned.as_slice()) {
        Some(e) => {
            let lower = ascii_lowercase(e.as_slice());
            chars_is_audio_extension(lower.as_slice())
        },
        None => false,
    };
    let name: Vec<char> = if has_known {
        cleaned
    } else {
        let fv = chars_of(fallback_ext);
        let fe = trim_start_chars(fv.as_slice(), TrimClass::Dot);
        if fe.len() == 0 {
            let suffix = chars_of(".wav");
            concat_chars(cleaned.as_slice(), suffix.as_slice())
        } else {
            let dot = chars_of(".");
            let a = concat_chars(cleaned.as_slice(), dot.as_slice());
            concat_chars(a.as_slice(), fe.as_slice())
        }
    };
    assert(name@ == with_audio_extension(cleaned@, fallback_ext@));
    let blank = match file_stem_of(name.as_slice()) {
        Some(stem) => {
            let t = trim_chars(stem.as_slice(), TrimClass::Whitespace);
            t.len() == 0
        },
        None => false,
    };
    if blank {
        return Err(invalid_path("El nombre del archivo no puede estar vacío"));
    }
    if !chars_is_supported_audio_filename(name.as_slice()) {
        let a = chars_of("Extensión no soportada en «");
        let b = chars_of("». Usa wav, aif, aiff o flac.");
        let ab = concat_chars(a.as_slice(), name.as_slice());
        let msg = concat_chars(ab.as_slice(), b.as_slice());
        return Err(AppError::InvalidPath(string_of(msg.as_slice())));
    }
    let fin = trim_end_chars(name.as_slice(), TrimClass::DotSpace);
    if fin.len() == 0 {
        return Err(invalid_path("Nombre de archivo inválido"));
    }
    Ok(string_of(fin.as_slice()))
}

} // verus!
