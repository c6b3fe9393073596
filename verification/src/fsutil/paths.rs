//! Sanitising names for the filesystem and laying out library-relative paths.
use vstd::prelude::*;

use crate::naming::{
    char_is_forbidden, chars_is_audio_extension, clean_chars, clean_chars_exec, is_audio_extension,
    is_forbidden_char, nfc, nfc_of,
};
use crate::pathname::{extension_of_path, join_path, path_extension, path_join};
use crate::text::{
    ascii_lower_seq, ascii_lowercase, ascii_upper, char_ascii_upper, char_is_ascii_alphanumeric,
    char_is_control, char_utf8_len_exec, chars_of, utf8_len_at_most, lemma_utf8_len_take, lemma_utf8_len_take_mono, is_ascii, is_ascii_alphanumeric, is_control,
    signed_decimal, signed_decimal_chars, string_of, trim, trim_chars, trim_end, trim_end_chars,
    utf8_len, char_utf8_len, TrimClass,
};

verus! {

// ---------------------------------------------------------------------------
// Path components
// ---------------------------------------------------------------------------

pub open spec fn space_to_underscore(s: Seq<char>) -> Seq<char> {
    s.map_values(|c: char| if c == ' ' { '_' } else { c })
}

/// A single path component made safe on Windows and macOS: NFC, control and
/// forbidden characters as `_`, no leading/trailing dots, spaces or
/// underscores, inner spaces as `_`; `untitled` when nothing is left.
pub open spec fn spec_sanitize_path_component(input: Seq<char>) -> Seq<char> {
    spec_sanitize_composed_component(nfc_of(input))
}

/// The same for a text already in NFC.
pub open spec fn spec_sanitize_composed_component(composed: Seq<char>) -> Seq<char> {
    let out = space_to_underscore(trim(clean_chars(composed), TrimClass::DotSpaceUnderscore));
    if out.len() == 0 {
        "untitled"@
    } else {
        out
    }
}

pub fn sanitize_path_component(input: &str) -> (r: String)
    ensures
        r@ == spec_sanitize_path_component(input@),
{
    let normalized = nfc(input);
    let composed = string_of(normalized.as_slice());
    sanitize_composed_component(composed.as_str())
}

/// [`sanitize_path_component`] of a text already composed to NFC.
pub fn sanitize_composed_component(composed: &str) -> (r: String)
    ensures
        r@ == spec_sanitize_composed_component(composed@),
{
    let normalized = chars_of(composed);
    let cleaned = clean_chars_exec(normalized.as_slice());
    let trimmed = trim_chars(cleaned.as_slice(), TrimClass::DotSpaceUnderscore);
    let mut out: Vec<char> = Vec::new();
    let mut i: usize = 0;
    while i < trimmed.len()
        invariant
            i <= trimmed@.len(),
            out@ == space_to_underscore(trimmed@.take(i as int)),
        decreases trimmed@.len() - i,
    {
        let c = trimmed[i];
        if c == ' ' {
            out.push('_');
        } else {
            out.push(c);
        }
        i = i + 1;
        assert(out@ =~= space_to_underscore(trimmed@.take(i as int)));
    }
    assert(trimmed@.take(trimmed@.len() as int) =~= trimmed@);
    if out.len() == 0 {
        let u = chars_of("untitled");
        string_of(u.as_slice())
    } else {
        string_of(out.as_slice())
    }
}

// ---------------------------------------------------------------------------
// Filename tokens
// ---------------------------------------------------------------------------

/// What `char::is_alphanumeric` returns (Unicode `Alphabetic` or `Numeric`).
pub uninterp spec fn unicode_alphanumeric(c: char) -> bool;

/// What `char::to_uppercase` yields for a character.
pub uninterp spec fn unicode_uppercase(c: char) -> Seq<char>;

/// `char::is_alphanumeric`.
#[verifier::external_body]
fn char_is_alphanumeric(c: char) -> (r: bool)
    ensures
        r == unicode_alphanumeric(c),
{
    c.is_alphanumeric()
}

/// `char::to_uppercase`, collected.
#[verifier::external_body]
fn char_to_uppercase(c: char) -> (r: Vec<char>)
    ensures
        r@ == unicode_uppercase(c),
{
    c.to_uppercase().collect()
}

/// The characters of `u` that are neither forbidden nor control characters.
pub open spec fn keep_token_chars(u: Seq<char>) -> Seq<char>
    decreases u.len(),
{
    if u.len() == 0 {
        u
    } else if is_forbidden_char(u.last()) || is_control(u.last()) {
        keep_token_chars(u.drop_last())
    } else {
        keep_token_chars(u.drop_last()).push(u.last())
    }
}

pub open spec fn ends_with_underscore(s: Seq<char>) -> bool {
    s.len() > 0 && s.last() == '_'
}

/// One character's contribution to a filename token.
pub open spec fn token_step(out: Seq<char>, c: char) -> Seq<char> {
    if is_ascii_alphanumeric(c) {
        out.push(ascii_upper(c))
    } else if c == '_' || c == '-' {
        if ends_with_underscore(out) {
            out
        } else {
            out.push('_')
        }
    } else if !is_ascii(c) && unicode_alphanumeric(c) {
        out + keep_token_chars(unicode_uppercase(c))
    } else if !ends_with_underscore(out) && out.len() > 0 {
        out.push('_')
    } else {
        out
    }
}

/// The token built from all characters of `s`, before trimming.
pub open spec fn token_fold(s: Seq<char>) -> Seq<char>
    decreases s.len(),
{
    if s.len() == 0 {
        s
    } else {
        token_step(token_fold(s.drop_last()), s.last())
    }
}

/// The uppercase token of `input`, without trailing underscores, before any truncation.
pub open spec fn token_body(input: Seq<char>) -> Seq<char> {
    composed_token_body(nfc_of(input))
}

/// The same for a text already in NFC.
pub open spec fn composed_token_body(composed: Seq<char>) -> Seq<char> {
    trim_end(token_fold(composed), TrimClass::Underscore)
}

/// Cutting `body` after `max_len` bytes falls between two characters.
pub open spec fn token_truncation_ok(body: Seq<char>, max_len: nat) -> bool {
    utf8_len(body) <= max_len || exists|k: int| 0 <= k <= body.len() && #[trigger] utf8_len(body.take(k)) == max_len
}

/// The filename token of `input`, at most `max_len` bytes long.
pub open spec fn spec_filename_token(input: Seq<char>, max_len: nat) -> Seq<char> {
    spec_composed_token(nfc_of(input), max_len)
}

/// The filename token of a text already in NFC.
pub open spec fn spec_composed_token(composed: Seq<char>, max_len: nat) -> Seq<char> {
    let body = composed_token_body(composed);
    if utf8_len(body) <= max_len {
        body
    } else {
        let k = choose|k: int| 0 <= k <= body.len() && #[trigger] utf8_len(body.take(k)) == max_len;
        trim_end(body.take(k), TrimClass::Underscore)
    }
}

fn keep_token_chars_exec(u: &[char]) -> (r: Vec<char>)
    ensures
        r@ == keep_token_chars(u@),
{
    let mut r: Vec<char> = Vec::new();
    let mut i: usize = 0;
    while i < u.len()
        invariant
            i <= u@.len(),
            r@ == keep_token_chars(u@.take(i as int)),
        decreases u@.len() - i,
    {
        let c = u[i];
        assert(u@.take(i + 1).drop_last() =~= u@.take(i as int));
        if !(char_is_forbidden(c) || char_is_control(c)) {
            r.push(c);
        }
        i = i + 1;
    }
    assert(u@.take(u@.len() as int) =~= u@);
    r
}

/// The number of leading characters of `s` whose encoding takes exactly `max_len`
/// bytes, if there is such a cut.
fn char_cut_at_bytes(s: &[char], max_len: usize) -> (r: Option<usize>)
    ensures
        match r {
            Some(k) => k <= s@.len() && utf8_len(s@.take(k as int)) == max_len,
            None => forall|k: int| 0 <= k <= s@.len() ==> #[trigger] utf8_len(s@.take(k)) != max_len,
        },
{
    let mut k: usize = 0;
    let mut bytes: usize = 0;
    assert(s@.take(0) =~= Seq::<char>::empty());
    while k < s.len() && bytes < max_len
        invariant
            k <= s@.len(),
            bytes == utf8_len(s@.take(k as int)),
            bytes <= max_len,
            forall|j: int| 0 <= j < k ==> #[trigger] utf8_len(s@.take(j)) < max_len,
        decreases s@.len() - k,
    {
        proof {
            lemma_utf8_len_take(s@, k as int);
        }
        let w = char_utf8_len_exec(s[k]);
        if w > max_len - bytes {
            proof {
                assert forall|j: int| 0 <= j <= s@.len() implies #[trigger] utf8_len(s@.take(j)) != max_len by {
                    if j > k {
                        lemma_utf8_len_take_mono(s@, k + 1, j);
                    }
                }
            }
            return None;
        }
        bytes = bytes + w;
        k = k + 1;
    }
    if bytes == max_len {
        Some(k)
    } else {
        proof {
            assert(k == s@.len());
        }
        None
    }
}

/// The token body of an already normalised text.
fn token_fold_exec(s: &[char]) -> (r: Vec<char>)
    ensures
        r@ == token_fold(s@),
{
    let mut out: Vec<char> = Vec::new();
    let mut i: usize = 0;
    while i < s.len()
        invariant
            i <= s@.len(),
            out@ == token_fold(s@.take(i as int)),
        decreases s@.len() - i,
    {
        let c = s[i];
        assert(s@.take(i + 1).drop_last() =~= s@.take(i as int));
        let ends_us = out.len() > 0 && out[out.len() - 1] == '_';
        if char_is_ascii_alphanumeric(c) {
            out.push(char_ascii_upper(c));
        } else if c == '_' || c == '-' {
            if !ends_us {
                out.push('_');
            }
        } else if (c as u32) >= 0x80 && char_is_alphanumeric(c) {
            let up = char_to_uppercase(c);
            let kept = keep_token_chars_exec(up.as_slice());
            let mut j: usize = 0;
            let ghost before = out@;
            while j < kept.len()
                invariant
                    j <= kept@.len(),
                    out@ == before + kept@.take(j as int),
                decreases kept@.len() - j,
            {
                out.push(kept[j]);
                j = j + 1;
                assert(out@ =~= before + kept@.take(j as int));
            }
            assert(kept@.take(kept@.len() as int) =~= kept@);
        } else if !ends_us && out.len() > 0 {
            out.push('_');
        }
        i = i + 1;
    }
    assert(s@.take(s@.len() as int) =~= s@);
    out
}

/// Uppercase, ASCII-ish token for canonical filenames. Cuts the token to
/// `max_len` bytes, which must fall between two characters.
pub fn sanitize_filename_token(input: &str, max_len: usize) -> (r: String)
    requires
        token_truncation_ok(token_body(input@), max_len as nat),
    ensures
        r@ == spec_filename_token(input@, max_len as nat),
{
    let normalized = nfc(input);
    let composed = string_of(normalized.as_slice());
    composed_filename_token(composed.as_str(), max_len)
}

/// [`sanitize_filename_token`] of a text already composed to NFC.
pub fn composed_filename_token(composed: &str, max_len: usize) -> (r: String)
    requires
        token_truncation_ok(composed_token_body(composed@), max_len as nat),
    ensures
        r@ == spec_composed_token(composed@, max_len as nat),
{
    let normalized = chars_of(composed);
    let folded = token_fold_exec(normalized.as_slice());
    let body = trim_end_chars(folded.as_slice(), TrimClass::Underscore);
    match char_cut_at_bytes(body.as_slice(), max_len) {
        Some(k) => {
            if k < body.len() {
                proof {
                    let kk = choose|kk: int| 0 <= kk <= body@.len() && #[trigger] utf8_len(body@.take(kk)) == max_len;
                    if kk != k {
                        if kk < k {
                            lemma_utf8_len_take_mono(body@, kk + 1, k as int);
                            lemma_utf8_len_take(body@, kk);
                        } else {
                            lemma_utf8_len_take_mono(body@, k as int + 1, kk);
                            lemma_utf8_len_take(body@, k as int);
                        }
                    }
                    lemma_utf8_len_take(body@, k as int);
                    lemma_utf8_len_take_mono(body@, k as int + 1, body@.len() as int);
                    assert(body@.take(body@.len() as int) =~= body@);
                }
                let head = crate::text::slice_chars(body.as_slice(), 0, k);
                assert(head@ =~= body@.take(k as int));
                let t = trim_end_chars(head.as_slice(), TrimClass::Underscore);
                string_of(t.as_slice())
            } else {
                assert(body@.take(body@.len() as int) =~= body@);
                string_of(body.as_slice())
            }
        },
        None => {
            assert(body@.take(body@.len() as int) =~= body@);
            string_of(body.as_slice())
        },
    }
}

/// [`sanitize_filename_token`] for any input: `None` when cutting the token to
/// `max_len` bytes would split a character.
pub fn try_sanitize_filename_token(input: &str, max_len: usize) -> (r: Option<String>)
    ensures
        match r {
            Some(s) => token_truncation_ok(token_body(input@), max_len as nat) && s@
                == spec_filename_token(input@, max_len as nat),
            None => !token_truncation_ok(token_body(input@), max_len as nat),
        },
{
    let normalized = nfc(input);
    let composed = string_of(normalized.as_slice());
    try_composed_filename_token(composed.as_str(), max_len)
}

/// [`try_sanitize_filename_token`] of a text already composed to NFC.
pub fn try_composed_filename_token(composed: &str, max_len: usize) -> (r: Option<String>)
    ensures
        match r {
            Some(s) => token_truncation_ok(composed_token_body(composed@), max_len as nat) && s@
                == spec_composed_token(composed@, max_len as nat),
            None => !token_truncation_ok(composed_token_body(composed@), max_len as nat),
        },
{
    let normalized = chars_of(composed);
    let folded = token_fold_exec(normalized.as_slice());
    let body = trim_end_chars(folded.as_slice(), TrimClass::Underscore);
    let fits = match char_cut_at_bytes(body.as_slice(), max_len) {
        Some(_) => true,
        None => utf8_len_at_most(body.as_slice(), max_len),
    };
    if fits {
        Some(composed_filename_token(composed, max_len))
    } else {
        None
    }
}

// ---------------------------------------------------------------------------
// Library layout
// ---------------------------------------------------------------------------

/// `Loops/<year>/<category folder>/<filename>`, joined as `Path::join` joins.
pub open spec fn spec_join_library_relative(year: int, category_folder: Seq<char>, filename: Seq<char>) -> Seq<char> {
    path_join(path_join(path_join("Loops"@, signed_decimal(year)), category_folder), filename)
}

pub fn join_library_relative(year: i32, category_folder: &str, filename: &str) -> (r: String)
    ensures
        r@ == spec_join_library_relative(year as int, category_folder@, filename@),
{
    let loops = chars_of("Loops");
    let y = signed_decimal_chars(year as i64);
    let a = join_path(loops.as_slice(), y.as_slice());
    let folder = chars_of(category_folder);
    let b = join_path(a.as_slice(), folder.as_slice());
    let name = chars_of(filename);
    let c = join_path(b.as_slice(), name.as_slice());
    string_of(c.as_slice())
}

/// The path has one of the audio extensions, in any letter case.
pub open spec fn spec_is_audio_path(path: Seq<char>) -> bool {
    match path_extension(path) {
        Some(e) => is_audio_extension(ascii_lower_seq(e)),
        None => false,
    }
}

pub fn is_audio_path(path: &str) -> (r: bool)
    ensures
        r == spec_is_audio_path(path@),
{
    let p = chars_of(path);
    match extension_of_path(p.as_slice()) {
        Some(e) => {
            let lower = ascii_lowercase(e.as_slice());
            chars_is_audio_extension(lower.as_slice())
        },
        None => false,
    }
}

} // verus!
