//! Read-only knowledge of Ableton Live projects: where the consolidates are,
//! what the project is called, and where in the set's XML the tempo is written.
//!
//! Nothing here writes a set; the bytes of a `.als` are only ever read.
use vstd::prelude::*;
use vstd::utf8::{decode_utf8, encode_utf8, is_char_boundary, valid_utf8};

use std::io::Read;

use crate::error::{AppError, AppErrorView};
use crate::pathname::{file_stem_of, join_path, path_file_stem, path_join};
use crate::text::{chars_of, string_of, trim, trim_chars, TrimClass, occurs_at};

verus! {

/// Whether the set was read with a tempo.
#[derive(Clone, Copy, Debug, PartialEq, Eq, Structural)]
pub enum TempoSource {
    AlsManual,
    Unknown,
}

/// Read-only Ableton Live project inspector.
///
/// Guarantees: never modifies the `.als`, never rewrites its XML, and treats
/// the internal format as unstable.
pub struct AbletonProjectReader;

// ---------------------------------------------------------------------------
// Project layout
// ---------------------------------------------------------------------------

/// `<project>/Samples/Processed/Consolidate`.
pub open spec fn spec_consolidate_dir(project_root: Seq<char>) -> Seq<char> {
    path_join(path_join(path_join(project_root, "Samples"@), "Processed"@), "Consolidate"@)
}

pub fn consolidate_dir(project_root: &str) -> (r: String)
    ensures
        r@ == spec_consolidate_dir(project_root@),
{
    let root = chars_of(project_root);
    let s = chars_of("Samples");
    let p = chars_of("Processed");
    let c = chars_of("Consolidate");
    let a = join_path(root.as_slice(), s.as_slice());
    let b = join_path(a.as_slice(), p.as_slice());
    let d = join_path(b.as_slice(), c.as_slice());
    string_of(d.as_slice())
}

/// The project name: the set's file stem, trimmed; `PROJECT` when there is none.
pub open spec fn spec_project_name(als_path: Seq<char>) -> Seq<char> {
    match path_file_stem(als_path) {
        Some(stem) => trim(stem, TrimClass::Whitespace),
        None => trim("PROJECT"@, TrimClass::Whitespace),
    }
}

impl AbletonProjectReader {
    /// The name of the project whose set is `als_path`.
    pub fn project_name(als_path: &str) -> (r: String)
        ensures
            r@ == spec_project_name(als_path@),
    {
        let p = chars_of(als_path);
        let stem = match file_stem_of(p.as_slice()) {
            Some(s) => s,
            None => chars_of("PROJECT"),
        };
        let t = trim_chars(stem.as_slice(), TrimClass::Whitespace);
        string_of(t.as_slice())
    }
}

// ---------------------------------------------------------------------------
// Set contents
// ---------------------------------------------------------------------------

/// What a `flate2::read::GzDecoder` over some bytes yields when read to a
/// string: the decompressed text, or nothing when the data is not gzip or the
/// text is not UTF-8.
pub uninterp spec fn gunzip_text(bytes: Seq<u8>) -> Option<Seq<char>>;

/// `flate2::read::GzDecoder::new(bytes).read_to_string(..)`.
#[verifier::external_body]
fn gunzip_to_string(bytes: &[u8]) -> (r: Option<String>)
    ensures
        match r {
            Some(s) => gunzip_text(bytes@) == Some(s@),
            None => gunzip_text(bytes@).is_none(),
        },
{
    let mut decoder = flate2::read::GzDecoder::new(bytes);
    let mut s = String::new();
    match decoder.read_to_string(&mut s) {
        Ok(_) => Some(s),
        Err(_) => None,
    }
}

/// `std::str::from_utf8`: the text the bytes encode, when they are valid UTF-8.
#[verifier::external_body]
pub(crate) fn utf8_to_string(bytes: &[u8]) -> (r: Option<String>)
    ensures
        match r {
            Some(s) => valid_utf8(bytes@) && s@ == decode_utf8(bytes@),
            None => !valid_utf8(bytes@),
        },
{
    match std::str::from_utf8(bytes) {
        Ok(s) => Some(s.to_string()),
        Err(_) => None,
    }
}

/// The XML text of a set: gzip-compressed when it starts with the gzip magic
/// bytes, plain UTF-8 otherwise.
pub open spec fn spec_set_xml(bytes: Seq<u8>) -> Option<Seq<char>> {
    if bytes.len() >= 2 && bytes[0] == 0x1f && bytes[1] == 0x8b {
        gunzip_text(bytes)
    } else if valid_utf8(bytes) {
        Some(decode_utf8(bytes))
    } else {
        None
    }
}

/// The XML of a Live set from the bytes of its `.als`. A set that cannot be
/// decoded is reported unreadable (and is never touched).
pub fn decode_set_xml(bytes: &[u8]) -> (r: Result<String, AppError>)
    ensures
        match r {
            Ok(s) => spec_set_xml(bytes@) == Some(s@),
            Err(e) => spec_set_xml(bytes@).is_none() && e@ == AppErrorView::AbletonSetUnreadable,
        },
{
    let decoded = if bytes.len() >= 2 && bytes[0] == 0x1f && bytes[1] == 0x8b {
        gunzip_to_string(bytes)
    } else {
        utf8_to_string(bytes)
    };
    match decoded {
        Some(s) => Ok(s),
        None => Err(AppError::AbletonSetUnreadable),
    }
}

// ---------------------------------------------------------------------------
// Locating the tempo in the XML
// ---------------------------------------------------------------------------

/// The first index at or after `from` where `t` occurs in `s`.
pub open spec fn find_from(s: Seq<u8>, t: Seq<u8>, from: int) -> Option<int>
    decreases s.len() - from,
{
    if from < 0 || from + t.len() > s.len() {
        None
    } else if occurs_at(s, t, from) {
        Some(from)
    } else if from >= s.len() {
        None
    } else {
        find_from(s, t, from + 1)
    }
}

pub proof fn lemma_find_from(s: Seq<u8>, t: Seq<u8>, from: int)
    ensures
        match find_from(s, t, from) {
            Some(i) => from <= i && occurs_at(s, t, i),
            None => true,
        },
    decreases s.len() - from,
{
    if !(from < 0 || from + t.len() > s.len()) && !occurs_at(s, t, from) && from < s.len() {
        lemma_find_from(s, t, from + 1);
    }
}


fn bytes_occur_at(s: &[u8], t: &[u8], i: usize) -> (r: bool)
    requires
        i + t@.len() <= s@.len(),
    ensures
        r == occurs_at(s@, t@, i as int),
{
    let n = s.len();
    let mut k: usize = 0;
    while k < t.len()
        invariant
            n == s@.len(),
            i + t@.len() <= s@.len(),
            k <= t@.len(),
            forall|j: int| 0 <= j < k ==> s@[i + j] == t@[j],
        decreases t@.len() - k,
    {
        if s[i + k] != t[k] {
            assert(s@.subrange(i as int, i + t@.len())[k as int] != t@[k as int]);
            return false;
        }
        k = k + 1;
    }
    assert(s@.subrange(i as int, i + t@.len()) =~= t@);
    true
}

/// `str::find` on bytes: the first occurrence of `t` at or after `from`.
pub fn find_bytes(s: &[u8], t: &[u8], from: usize) -> (r: Option<usize>)
    ensures
        match r {
            Some(i) => find_from(s@, t@, from as int) == Some(i as int),
            None => find_from(s@, t@, from as int).is_none(),
        },
{
    if t.len() > s.len() || from > s.len() - t.len() {
        return None;
    }
    let last = s.len() - t.len();
    let mut i: usize = from;
    while i <= last
        invariant
            from <= i <= last + 1,
            last == s@.len() - t@.len(),
            find_from(s@, t@, from as int) == find_from(s@, t@, i as int),
        decreases last + 1 - i,
    {
        if bytes_occur_at(s, t, i) {
            return Some(i);
        }
        if i == last {
            return None;
        }
        i = i + 1;
    }
    None
}


/// Where the manual tempo value is written inside a `<Tempo>` block:
/// after `Manual Value="` (or `Manual Value='`) up to the matching quote,
/// as offsets into the block.
pub open spec fn spec_manual_value_span(block: Seq<u8>) -> Option<(int, int)> {
    let dq = find_from(block, needle_dq(), 0);
    let sq = find_from(block, needle_sq(), 0);
    let (start, q): (int, u8) = match dq {
        Some(i) => (i + 14, 0x22u8),
        None => match sq {
            Some(i) => (i + 14, 0x27u8),
            None => (-1, 0u8),
        },
    };
    if start < 0 {
        None
    } else {
        match find_from(block, seq![q], start) {
            Some(e) => Some((start, e)),
            None => None,
        }
    }
}

pub open spec fn needle_dq() -> Seq<u8> {
    seq![0x4d, 0x61, 0x6e, 0x75, 0x61, 0x6c, 0x20, 0x56, 0x61, 0x6c, 0x75, 0x65, 0x3d, 0x22]
}

pub open spec fn needle_sq() -> Seq<u8> {
    seq![0x4d, 0x61, 0x6e, 0x75, 0x61, 0x6c, 0x20, 0x56, 0x61, 0x6c, 0x75, 0x65, 0x3d, 0x27]
}

pub open spec fn close_lower() -> Seq<u8> {
    seq![0x3c, 0x2f, 0x74, 0x65, 0x6d, 0x70, 0x6f, 0x3e]
}

pub open spec fn close_upper() -> Seq<u8> {
    seq![0x3c, 0x2f, 0x54, 0x65, 0x6d, 0x70, 0x6f, 0x3e]
}

pub open spec fn open_tempo() -> Seq<u8> {
    seq![0x3c, 0x54, 0x65, 0x6d, 0x70, 0x6f]
}

pub open spec fn anchor_main() -> Seq<u8> {
    seq![0x3c, 0x4d, 0x61, 0x69, 0x6e, 0x54, 0x72, 0x61, 0x63, 0x6b]
}

pub open spec fn anchor_master() -> Seq<u8> {
    seq![0x3c, 0x4d, 0x61, 0x73, 0x74, 0x65, 0x72, 0x54, 0x72, 0x61, 0x63, 0x6b]
}

/// The span of the tempo value of the `<Tempo` block starting at byte `p`:
/// the block is read within 8192 bytes (when that cut falls between two
/// characters) and ends at `</Tempo>` or `</tempo>`.
pub open spec fn spec_tempo_value_span(xml: Seq<u8>, p: int) -> Option<(int, int)> {
    let end_bound = if p + 8192 < xml.len() {
        p + 8192
    } else {
        xml.len() as int
    };
    if !(0 <= p <= end_bound) || !is_char_boundary(xml, end_bound) {
        None
    } else {
        let window = xml.subrange(p, end_bound);
        if window.len() == 0 {
            None
        } else {
            let close = match find_from(window, close_upper(), 0) {
                Some(c) => c,
                None => match find_from(window, close_lower(), 0) {
                    Some(c) => c,
                    None => window.len() - 1,
                },
            };
            let block = window.subrange(0, close + 1);
            match spec_manual_value_span(block) {
                Some((a, b)) => Some((p + a, p + b)),
                None => None,
            }
        }
    }
}

pub open spec fn opt_span(s: Option<(int, int)>) -> Seq<(int, int)> {
    match s {
        Some(x) => seq![x],
        None => Seq::empty(),
    }
}

/// The tempo value spans of every `<Tempo` occurrence from `from` on, in order.
pub open spec fn spec_all_tempo_spans(xml: Seq<u8>, from: int) -> Seq<(int, int)>
    decreases xml.len() - from,
{
    if from < 0 {
        Seq::empty()
    } else {
        match find_from(xml, open_tempo(), from) {
            None => Seq::empty(),
            Some(p) => {
                proof {
                    lemma_find_from(xml, open_tempo(), from);
                }
                opt_span(spec_tempo_value_span(xml, p)) + spec_all_tempo_spans(xml, p + 6)
            },
        }
    }
}

/// The tempo value span of the first `<Tempo` after `anchor`, if any.
pub open spec fn spec_anchored_span(xml: Seq<u8>, anchor: Seq<u8>) -> Option<(int, int)> {
    match find_from(xml, anchor, 0) {
        Some(idx) => match find_from(xml, open_tempo(), idx) {
            Some(p) => spec_tempo_value_span(xml, p),
            None => None,
        },
        None => None,
    }
}

/// Tempo value spans in the order they are tried: Live 12's `<MainTrack>`
/// tempo, then older sets' `<MasterTrack>` tempo, then every `<Tempo` block
/// of the set. The set tempo is the first of them that reads as a sensible BPM.
pub open spec fn spec_tempo_candidates(xml: Seq<u8>) -> Seq<(int, int)> {
    opt_span(spec_anchored_span(xml, anchor_main())) + opt_span(
        spec_anchored_span(xml, anchor_master()),
    ) + spec_all_tempo_spans(xml, 0)
}

pub open spec fn span_view(r: Seq<(usize, usize)>) -> Seq<(int, int)> {
    r.map_values(|x: (usize, usize)| (x.0 as int, x.1 as int))
}


/// The span of the manual tempo value inside `block`.
fn manual_value_span(block: &[u8]) -> (r: Option<(usize, usize)>)
    ensures
        match r {
            Some((a, b)) => spec_manual_value_span(block@) == Some((a as int, b as int)),
            None => spec_manual_value_span(block@).is_none(),
        },
{
    let n = block.len();
    let dq: Vec<u8> = vec![0x4d, 0x61, 0x6e, 0x75, 0x61, 0x6c, 0x20, 0x56, 0x61, 0x6c, 0x75, 0x65, 0x3d, 0x22];
    let sq: Vec<u8> = vec![0x4d, 0x61, 0x6e, 0x75, 0x61, 0x6c, 0x20, 0x56, 0x61, 0x6c, 0x75, 0x65, 0x3d, 0x27];
    assert(dq@ =~= needle_dq());
    assert(sq@ =~= needle_sq());
    proof {
        lemma_find_from(block@, needle_dq(), 0);
        lemma_find_from(block@, needle_sq(), 0);
    }
    let (start, q): (usize, u8) = match find_bytes(block, dq.as_slice(), 0) {
        Some(i) => (i + 14, 0x22u8),
        None => match find_bytes(block, sq.as_slice(), 0) {
            Some(i) => (i + 14, 0x27u8),
            None => {
                return None;
            },
        },
    };
    let qv: Vec<u8> = vec![q];
    assert(qv@ =~= seq![q]);
    match find_bytes(block, qv.as_slice(), start) {
        Some(e) => Some((start, e)),
        None => None,
    }
}

/// The tempo value span of the `<Tempo` block starting at byte `p`.
fn tempo_value_span(xml: &[u8], p: usize) -> (r: Option<(usize, usize)>)
    requires
        vstd::utf8::valid_utf8(xml@),
        p <= xml@.len(),
    ensures
        match r {
            Some((a, b)) => spec_tempo_value_span(xml@, p as int) == Some((a as int, b as int)),
            None => spec_tempo_value_span(xml@, p as int).is_none(),
        },
{
    let end_bound: usize = if p < xml.len() && xml.len() - p > 8192 {
        p + 8192
    } else {
        xml.len()
    };
    if !byte_is_char_boundary(xml, end_bound) {
        return None;
    }
    let window = crate::text::slice_bytes(xml, p, end_bound);
    if window.len() == 0 {
        return None;
    }
    let cu: Vec<u8> = vec![0x3c, 0x2f, 0x54, 0x65, 0x6d, 0x70, 0x6f, 0x3e];
    let cl: Vec<u8> = vec![0x3c, 0x2f, 0x74, 0x65, 0x6d, 0x70, 0x6f, 0x3e];
    assert(cu@ =~= close_upper());
    assert(cl@ =~= close_lower());
    proof {
        lemma_find_from(window@, close_upper(), 0);
        lemma_find_from(window@, close_lower(), 0);
    }
    let close = match find_bytes(window.as_slice(), cu.as_slice(), 0) {
        Some(c) => c,
        None => match find_bytes(window.as_slice(), cl.as_slice(), 0) {
            Some(c) => c,
            None => window.len() - 1,
        },
    };
    let block = crate::text::slice_bytes(window.as_slice(), 0, close + 1);
    match manual_value_span(block.as_slice()) {
        Some((a, b)) => {
            proof {
                lemma_find_from(block@, needle_dq(), 0);
                lemma_find_from(block@, needle_sq(), 0);
                lemma_find_from(block@, seq![0x22u8], a as int);
                lemma_find_from(block@, seq![0x27u8], a as int);
            }
            assert(b <= block@.len());
            Some((p + a, p + b))
        },
        None => None,
    }
}

/// `str::is_char_boundary` on the bytes of a text.
fn byte_is_char_boundary(bytes: &[u8], i: usize) -> (r: bool)
    requires
        vstd::utf8::valid_utf8(bytes@),
    ensures
        r == is_char_boundary(bytes@, i as int),
{
    if i == 0 || i == bytes.len() {
        proof {
            vstd::utf8::is_char_boundary_start_end_of_seq(bytes@);
        }
        true
    } else if i > bytes.len() {
        false
    } else {
        proof {
            vstd::utf8::is_char_boundary_iff_not_is_continuation_byte(bytes@, i as int);
        }
        let b = bytes[i];
        !(0x80 <= b && b <= 0xbf)
    }
}

impl AbletonProjectReader {
    /// Byte spans of the candidate tempo values in the XML of a set, in the
    /// order in which they are tried (see [`spec_tempo_candidates`]).
    /// The set tempo is the first of them that reads as a BPM in `(0, 999)`.
    pub fn tempo_candidates(xml: &str) -> (r: Vec<(usize, usize)>)
        ensures
            span_view(r@) == spec_tempo_candidates(encode_utf8(xml@)),
    {
        let bytes = xml.as_bytes();
        let blen = bytes.len();
        assert(bytes@ == encode_utf8(xml@));
        proof {
            vstd::utf8::encode_utf8_valid_utf8(xml@);
        }
        let ot: Vec<u8> = vec![0x3c, 0x54, 0x65, 0x6d, 0x70, 0x6f];
        let am: Vec<u8> = vec![0x3c, 0x4d, 0x61, 0x69, 0x6e, 0x54, 0x72, 0x61, 0x63, 0x6b];
        let ms: Vec<u8> = vec![0x3c, 0x4d, 0x61, 0x73, 0x74, 0x65, 0x72, 0x54, 0x72, 0x61, 0x63, 0x6b];
        assert(ot@ =~= open_tempo());
        assert(am@ =~= anchor_main());
        assert(ms@ =~= anchor_master());
        let mut out: Vec<(usize, usize)> = Vec::new();
        let first = anchored_span(bytes, am.as_slice(), ot.as_slice());
        match first {
            Some(s) => out.push(s),
            None => {},
        }
        let second = anchored_span(bytes, ms.as_slice(), ot.as_slice());
        match second {
            Some(s) => out.push(s),
            None => {},
        }
        let ghost prefix = span_view(out@);
        assert(prefix =~= opt_span(spec_anchored_span(bytes@, anchor_main())) + opt_span(
            spec_anchored_span(bytes@, anchor_master()),
        ));
        let mut search: usize = 0;
        loop
            invariant
                vstd::utf8::valid_utf8(bytes@),
                blen == bytes@.len(),
                bytes@ == encode_utf8(xml@),
                prefix == opt_span(spec_anchored_span(bytes@, anchor_main())) + opt_span(
                    spec_anchored_span(bytes@, anchor_master()),
                ),
                ot@ == open_tempo(),
                search <= bytes@.len(),
                span_view(out@) + spec_all_tempo_spans(bytes@, search as int) == prefix
                    + spec_all_tempo_spans(bytes@, 0),
            decreases bytes@.len() - search,
        {
            proof {
                lemma_find_from(bytes@, open_tempo(), search as int);
            }
            match find_bytes(bytes, ot.as_slice(), search) {
                None => {
                    assert(spec_all_tempo_spans(bytes@, search as int) =~= Seq::<(int, int)>::empty());
                    assert(span_view(out@) =~= span_view(out@) + spec_all_tempo_spans(bytes@, search as int));
                    assert(span_view(out@) =~= prefix + spec_all_tempo_spans(bytes@, 0));
                    return out;
                },
                Some(abs) => {
                    let ghost before = span_view(out@);
                    match tempo_value_span(bytes, abs) {
                        Some(s) => out.push(s),
                        None => {},
                    }
                    assert(span_view(out@) =~= before + opt_span(spec_tempo_value_span(bytes@, abs as int)));
                    assert(span_view(out@) + spec_all_tempo_spans(bytes@, abs + 6) =~= before
                        + spec_all_tempo_spans(bytes@, search as int));
                    search = abs + 6;
                },
            }
        }
    }
}

fn anchored_span(bytes: &[u8], anchor: &[u8], ot: &[u8]) -> (r: Option<(usize, usize)>)
    requires
        vstd::utf8::valid_utf8(bytes@),
        ot@ == open_tempo(),
    ensures
        match r {
            Some((a, b)) => spec_anchored_span(bytes@, anchor@) == Some((a as int, b as int)),
            None => spec_anchored_span(bytes@, anchor@).is_none(),
        },
{
    proof {
        lemma_find_from(bytes@, anchor@, 0);
    }
    match find_bytes(bytes, anchor, 0) {
        Some(idx) => {
            proof {
                lemma_find_from(bytes@, open_tempo(), idx as int);
            }
            match find_bytes(bytes, ot, idx) {
                Some(p) => tempo_value_span(bytes, p),
                None => None,
            }
        },
        None => None,
    }
}

} // verus!
