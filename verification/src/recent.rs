//! Recent Ableton Live `.als` projects: paths found in Live's binary
//! preference files, and the de-duplicated list shown to the user.
use vstd::prelude::*;
use vstd::utf8::{decode_utf8, valid_utf8};

use crate::ableton::utf8_to_string;
use crate::error::lowercase_of;
use crate::pathname::{
    extension_of_path, file_stem_of, path_extension, path_file_stem, paths_equal,
    same_path_components,
};
use crate::text::{
    char_is_control, chars_contain, chars_ends_with, chars_eq, chars_eq_str, chars_of, has_suffix,
    is_control, slice_bytes, string_of, trim, trim_chars, utf8_len, utf8_len_at_most, TrimClass,
};

verus! {

/// A recent `.als` set: its path and its display name.
#[derive(Debug)]
pub struct RecentAbletonSet {
    pub path: String,
    pub name: String,
}

impl View for RecentAbletonSet {
    type V = (Seq<char>, Seq<char>);

    open spec fn view(&self) -> (Seq<char>, Seq<char>) {
        (self.path@, self.name@)
    }
}

// ---------------------------------------------------------------------------
// Recognising a path to a set in a piece of text
// ---------------------------------------------------------------------------

/// A piece of text names a set when, trimmed, it is 5 to 420 bytes long,
/// ends in `.als` or `.ALS`, holds a path separator or a drive colon, and
/// has no control characters.
pub open spec fn spec_als_path_from_text(text: Seq<char>) -> Option<Seq<char>> {
    let t = trim(text, TrimClass::Whitespace);
    if utf8_len(t) < 5 || utf8_len(t) > 420 {
        None
    } else if !(has_suffix(t, ".als"@) || has_suffix(t, ".ALS"@)) {
        None
    } else if !(t.contains('/') || t.contains('\\') || t.contains(':')) {
        None
    } else if exists|i: int| 0 <= i < t.len() && is_control(#[trigger] t[i]) {
        None
    } else {
        Some(t)
    }
}

fn has_control_char(t: &[char]) -> (r: bool)
    ensures
        r == exists|i: int| 0 <= i < t@.len() && is_control(#[trigger] t@[i]),
{
    let mut i: usize = 0;
    while i < t.len()
        invariant
            i <= t@.len(),
            forall|j: int| 0 <= j < i ==> !is_control(#[trigger] t@[j]),
        decreases t@.len() - i,
    {
        if char_is_control(t[i]) {
            return true;
        }
        i = i + 1;
    }
    false
}

/// The set path named by `text`, if it names one.
pub fn als_path_from_text(text: &[char]) -> (r: Option<Vec<char>>)
    ensures
        match r {
            Some(p) => spec_als_path_from_text(text@) == Some(p@),
            None => spec_als_path_from_text(text@).is_none(),
        },
{
    let t = trim_chars(text, TrimClass::Whitespace);
    if utf8_len_at_most(t.as_slice(), 4) || !utf8_len_at_most(t.as_slice(), 420) {
        return None;
    }
    if !(chars_ends_with(t.as_slice(), ".als") || chars_ends_with(t.as_slice(), ".ALS")) {
        return None;
    }
    if !(chars_contain(t.as_slice(), '/') || chars_contain(t.as_slice(), '\\') || chars_contain(
        t.as_slice(),
        ':',
    )) {
        return None;
    }
    if has_control_char(t.as_slice()) {
        return None;
    }
    Some(t)
}

// ---------------------------------------------------------------------------
// UTF-8 paths: zero-separated pieces of text
// ---------------------------------------------------------------------------

/// The first index at or after `start` holding a zero byte, or the length.
pub open spec fn first_zero_from(data: Seq<u8>, start: int) -> int
    decreases data.len() - start,
{
    if start < 0 || start >= data.len() {
        data.len() as int
    } else if data[start] == 0 {
        start
    } else {
        first_zero_from(data, start + 1)
    }
}

pub proof fn lemma_first_zero_from(data: Seq<u8>, start: int)
    requires
        0 <= start <= data.len(),
    ensures
        start <= first_zero_from(data, start) <= data.len(),
        forall|k: int| start <= k < first_zero_from(data, start) ==> data[k] != 0,
        first_zero_from(data, start) < data.len() ==> data[first_zero_from(data, start)] == 0,
    decreases data.len() - start,
{
    if start < data.len() && data[start] != 0 {
        lemma_first_zero_from(data, start + 1);
    }
}

/// The set path a piece of bytes names, when it is non-empty UTF-8 naming one.
pub open spec fn piece_path(piece: Seq<u8>) -> Seq<Seq<char>> {
    if piece.len() > 0 && valid_utf8(piece) {
        match spec_als_path_from_text(decode_utf8(piece)) {
            Some(p) => seq![p],
            None => Seq::empty(),
        }
    } else {
        Seq::empty()
    }
}

/// Set paths named by the zero-separated pieces of `data` from `start` on.
pub open spec fn utf8_paths_from(data: Seq<u8>, start: int) -> Seq<Seq<char>>
    decreases data.len() - start,
{
    if start < 0 || start > data.len() {
        Seq::empty()
    } else {
        let j = first_zero_from(data, start);
        proof {
            lemma_first_zero_from(data, start);
        }
        let here = piece_path(data.subrange(start, j));
        if j < data.len() {
            here + utf8_paths_from(data, j + 1)
        } else {
            here
        }
    }
}

pub open spec fn string_views(v: Seq<String>) -> Seq<Seq<char>> {
    v.map_values(|s: String| s@)
}

pub open spec fn chars_views(v: Seq<Vec<char>>) -> Seq<Seq<char>> {
    v.map_values(|x: Vec<char>| x@)
}

fn first_zero(data: &[u8], start: usize) -> (r: usize)
    requires
        start <= data@.len(),
    ensures
        r as int == first_zero_from(data@, start as int),
{
    let mut i = start;
    proof {
        lemma_first_zero_from(data@, start as int);
    }
    while i < data.len() && data[i] != 0
        invariant
            start <= i <= data@.len(),
            first_zero_from(data@, i as int) == first_zero_from(data@, start as int),
        decreases data@.len() - i,
    {
        i = i + 1;
    }
    i
}

/// Set paths written as UTF-8 text between zero bytes.
fn utf8_als_path_chars(data: &[u8]) -> (r: Vec<Vec<char>>)
    ensures
        chars_views(r@) == utf8_paths_from(data@, 0),
{
    let mut out: Vec<Vec<char>> = Vec::new();
    let mut start: usize = 0;
    loop
        invariant
            start <= data@.len(),
            chars_views(out@) + utf8_paths_from(data@, start as int) == utf8_paths_from(data@, 0),
        decreases data@.len() - start,
    {
        let j = first_zero(data, start);
        proof {
            lemma_first_zero_from(data@, start as int);
        }
        let ghost before = chars_views(out@);
        if j > start {
            let piece = slice_bytes(data, start, j);
            match utf8_to_string(piece.as_slice()) {
                Some(text) => {
                    let tv = chars_of(text.as_str());
                    match als_path_from_text(tv.as_slice()) {
                        Some(p) => out.push(p),
                        None => {},
                    }
                },
                None => {},
            }
        }
        assert(chars_views(out@) =~= before + piece_path(data@.subrange(start as int, j as int)));
        if j == data.len() {
            assert(chars_views(out@) =~= utf8_paths_from(data@, 0));
            return out;
        }
        start = j + 1;
    }
}

// ---------------------------------------------------------------------------
// UTF-16LE paths
// ---------------------------------------------------------------------------

/// Decoding UTF-16 as `String::from_utf16` does: surrogate pairs combine,
/// an unpaired surrogate makes the whole text invalid.
pub open spec fn decode_utf16(u: Seq<u16>) -> Option<Seq<char>>
    decreases u.len(),
{
    if u.len() == 0 {
        Some(Seq::empty())
    } else if u[0] < 0xd800 || u[0] > 0xdfff {
        match decode_utf16(u.drop_first()) {
            Some(rest) => Some(seq![(u[0] as u32) as char] + rest),
            None => None,
        }
    } else if u[0] <= 0xdbff && u.len() >= 2 && 0xdc00 <= u[1] && u[1] <= 0xdfff {
        match decode_utf16(u.subrange(2, u.len() as int)) {
            Some(rest) => Some(
                seq![((0x10000 + (u[0] - 0xd800) * 0x400 + (u[1] - 0xdc00)) as u32) as char] + rest,
            ),
            None => None,
        }
    } else {
        None
    }
}

/// `String::from_utf16`.
#[verifier::external_body]
fn utf16_to_chars(units: &[u16]) -> (r: Option<Vec<char>>)
    ensures
        match r {
            Some(s) => decode_utf16(units@) == Some(s@),
            None => decode_utf16(units@).is_none(),
        },
{
    match String::from_utf16(units) {
        Ok(s) => Some(s.chars().collect()),
        Err(_) => None,
    }
}

/// The little-endian UTF-16 unit ending at byte `pos`.
pub open spec fn unit_before(data: Seq<u8>, pos: int) -> u16 {
    (data[pos - 2] as int + 256 * (data[pos - 1] as int)) as u16
}

/// The UTF-16 units read backwards from byte `pos` up to a zero unit or the
/// start of the data; `None` when a control unit (below 0x20) comes first.
pub open spec fn units_ending_at(data: Seq<u8>, pos: int) -> Option<Seq<u16>>
    decreases pos,
{
    if pos < 2 || pos > data.len() {
        Some(Seq::empty())
    } else if unit_before(data, pos) == 0 {
        Some(Seq::empty())
    } else if unit_before(data, pos) < 0x20 {
        None
    } else {
        match units_ending_at(data, pos - 2) {
            Some(u) => Some(u.push(unit_before(data, pos))),
            None => None,
        }
    }
}

/// The set path written in UTF-16LE that ends at byte `end`, if any: at most
/// 260 units, no control units, valid UTF-16 naming a set.
pub open spec fn spec_utf16_path_ending_at(data: Seq<u8>, end: int) -> Option<Seq<char>> {
    if end % 2 != 0 || end < 4 || end > data.len() {
        None
    } else {
        match units_ending_at(data, end) {
            None => None,
            Some(u) => if u.len() > 260 {
                None
            } else {
                match decode_utf16(u) {
                    Some(text) => spec_als_path_from_text(text),
                    None => None,
                }
            },
        }
    }
}

fn utf16_path_ending_at(data: &[u8], end: usize) -> (r: Option<Vec<char>>)
    requires
        end <= data@.len(),
    ensures
        match r {
            Some(p) => spec_utf16_path_ending_at(data@, end as int) == Some(p@),
            None => spec_utf16_path_ending_at(data@, end as int).is_none(),
        },
{
    if end % 2 != 0 || end < 4 {
        return None;
    }
    let mut units: Vec<u16> = Vec::new();
    let mut pos: usize = end;
    while pos >= 2
        invariant
            pos <= end <= data@.len(),
            units@.len() <= 260,
            units_ending_at(data@, end as int) == match units_ending_at(data@, pos as int) {
                Some(u) => Some(u + units@),
                None => None::<Seq<u16>>,
            },
        ensures
            units@.len() <= 260,
            units_ending_at(data@, end as int) == Some(units@),
        decreases pos,
    {
        let unit: u16 = (data[pos - 2] as u16) + 256 * (data[pos - 1] as u16);
        assert(unit == unit_before(data@, pos as int));
        if unit == 0 {
            assert(units_ending_at(data@, pos as int) == Some(Seq::<u16>::empty()));
            assert(Seq::<u16>::empty() + units@ =~= units@);
            break;
        }
        if unit < 0x20 {
            return None;
        }
        let ghost old_units = units@;
        units.insert(0, unit);
        pos = pos - 2;
        proof {
            match units_ending_at(data@, pos as int) {
                Some(u) => {
                    assert(u.push(unit) + old_units =~= u + units@);
                },
                None => {},
            }
        }
        if units.len() > 260 {
            proof {
                match units_ending_at(data@, pos as int) {
                    Some(u) => {
                        assert((u + units@).len() > 260);
                    },
                    None => {},
                }
            }
            return None;
        }
    }
    match utf16_to_chars(units.as_slice()) {
        Some(text) => als_path_from_text(text.as_slice()),
        None => None,
    }
}

pub open spec fn utf16_als_pattern() -> Seq<u8> {
    seq![0x2e, 0x00, 0x61, 0x00, 0x6c, 0x00, 0x73, 0x00]
}

/// Set paths written in UTF-16LE before each `.als` found at an even offset
/// from `i` on.
pub open spec fn utf16_paths_from(data: Seq<u8>, i: int) -> Seq<Seq<char>>
    decreases data.len() - i,
{
    if i < 0 || i + 8 > data.len() {
        Seq::empty()
    } else {
        let here = if data.subrange(i, i + 8) == utf16_als_pattern() {
            match spec_utf16_path_ending_at(data, i + 8) {
                Some(p) => seq![p],
                None => Seq::empty(),
            }
        } else {
            Seq::empty()
        };
        here + utf16_paths_from(data, i + 2)
    }
}

/// Set paths written in UTF-16LE (Live's preference files on Windows).
fn utf16le_als_path_chars(data: &[u8]) -> (r: Vec<Vec<char>>)
    ensures
        chars_views(r@) == utf16_paths_from(data@, 0),
{
    let pat: Vec<u8> = vec![0x2e, 0x00, 0x61, 0x00, 0x6c, 0x00, 0x73, 0x00];
    assert(pat@ =~= utf16_als_pattern());
    let mut out: Vec<Vec<char>> = Vec::new();
    let mut i: usize = 0;
    while i <= data.len() && data.len() - i >= 8
        invariant
            pat@ == utf16_als_pattern(),
            chars_views(out@) + utf16_paths_from(data@, i as int) == utf16_paths_from(data@, 0),
        decreases data@.len() - i,
    {
        let ghost before = chars_views(out@);
        let window = slice_bytes(data, i, i + 8);
        let mut same = true;
        let mut k: usize = 0;
        while k < 8
            invariant
                k <= 8,
                window@.len() == 8,
                pat@.len() == 8,
                same == (forall|j: int| 0 <= j < k ==> window@[j] == pat@[j]),
            decreases 8 - k,
        {
            if window[k] != pat[k] {
                same = false;
            }
            k = k + 1;
        }
        proof {
            if same {
                assert(window@ =~= pat@);
            } else {
                assert(window@ != pat@);
            }
        }
        if same {
            match utf16_path_ending_at(data, i + 8) {
                Some(p) => out.push(p),
                None => {},
            }
        }
        assert(chars_views(out@) + utf16_paths_from(data@, i + 2) =~= before + utf16_paths_from(
            data@,
            i as int,
        ));
        i = i + 2;
    }
    proof {
        assert(utf16_paths_from(data@, i as int) =~= Seq::<Seq<char>>::empty());
        assert(chars_views(out@) =~= utf16_paths_from(data@, 0));
    }
    out
}

/// Every set path found in a binary preference blob: the UTF-8 ones, then
/// the UTF-16LE ones.
fn als_path_chars_from_bytes(data: &[u8]) -> (r: Vec<Vec<char>>)
    ensures
        chars_views(r@) == utf8_paths_from(data@, 0) + utf16_paths_from(data@, 0),
{
    let mut a = utf8_als_path_chars(data);
    let mut b = utf16le_als_path_chars(data);
    let ghost av = chars_views(a@);
    let ghost bv = chars_views(b@);
    a.append(&mut b);
    assert(chars_views(a@) =~= av + bv);
    a
}

/// The paths as strings.
fn strings_of(paths: Vec<Vec<char>>) -> (r: Vec<String>)
    ensures
        string_views(r@) == chars_views(paths@),
{
    let mut out: Vec<String> = Vec::new();
    let mut i: usize = 0;
    while i < paths.len()
        invariant
            i <= paths@.len(),
            string_views(out@) == chars_views(paths@).take(i as int),
        decreases paths@.len() - i,
    {
        let ghost prev = string_views(out@);
        out.push(string_of(paths[i].as_slice()));
        assert(string_views(out@) =~= prev.push(chars_views(paths@)[i as int]));
        i = i + 1;
        assert(string_views(out@) =~= chars_views(paths@).take(i as int));
    }
    assert(chars_views(paths@).take(paths@.len() as int) =~= chars_views(paths@));
    out
}

/// Set paths written as UTF-8 text between zero bytes.
pub fn extract_utf8_als_paths(data: &[u8]) -> (r: Vec<String>)
    ensures
        string_views(r@) == utf8_paths_from(data@, 0),
{
    strings_of(utf8_als_path_chars(data))
}

/// Set paths written in UTF-16LE (Live's preference files on Windows).
pub fn extract_utf16le_als_paths(data: &[u8]) -> (r: Vec<String>)
    ensures
        string_views(r@) == utf16_paths_from(data@, 0),
{
    strings_of(utf16le_als_path_chars(data))
}

/// Every set path found in a binary preference blob: the UTF-8 ones, then
/// the UTF-16LE ones.
pub fn extract_als_paths_from_bytes(data: &[u8]) -> (r: Vec<String>)
    ensures
        string_views(r@) == utf8_paths_from(data@, 0) + utf16_paths_from(data@, 0),
{
    strings_of(als_path_chars_from_bytes(data))
}

// ---------------------------------------------------------------------------
// The recent list
// ---------------------------------------------------------------------------

pub open spec fn replace_slash(s: Seq<char>) -> Seq<char> {
    s.map_values(|c: char| if c == '/' { '\\' } else { c })
}

/// The key two paths share when they name the same set: backslashes, lowercase.
pub open spec fn spec_path_key(path: Seq<char>) -> Seq<char> {
    lowercase_of(replace_slash(path))
}

pub fn normalize_path_key(path: &str) -> (r: String)
    ensures
        r@ == spec_path_key(path@),
{
    let p = chars_of(path);
    let mut out: Vec<char> = Vec::new();
    let mut i: usize = 0;
    while i < p.len()
        invariant
            i <= p@.len(),
            out@ == replace_slash(p@.take(i as int)),
        decreases p@.len() - i,
    {
        if p[i] == '/' {
            out.push('\\');
        } else {
            out.push(p[i]);
        }
        i = i + 1;
        assert(out@ =~= replace_slash(p@.take(i as int)));
    }
    assert(p@.take(p@.len() as int) =~= p@);
    let joined = string_of(out.as_slice());
    crate::error::lowercase(joined.as_str())
}

/// The display name of a set: its trimmed file stem, `Proyecto` without one.
pub open spec fn spec_recent_name(path: Seq<char>) -> Seq<char> {
    match path_file_stem(path) {
        Some(s) => trim(s, TrimClass::Whitespace),
        None => trim("Proyecto"@, TrimClass::Whitespace),
    }
}

/// Whether the path is listed: its extension is exactly `als`.
pub open spec fn is_als_path(path: Seq<char>) -> bool {
    path_extension(path) == Some("als"@)
}

/// One step of building the recent list: a path is added when the list is
/// not full, the path is an existing `.als` file, and no listed path has the
/// same key.
pub open spec fn recent_step(
    state: (Seq<(Seq<char>, Seq<char>)>, Seq<Seq<char>>),
    path: Seq<char>,
    is_file: bool,
    limit: nat,
) -> (Seq<(Seq<char>, Seq<char>)>, Seq<Seq<char>>) {
    let (out, seen) = state;
    if out.len() >= limit || !is_file || !is_als_path(path) || seen.contains(spec_path_key(path)) {
        state
    } else {
        (out.push((path, spec_recent_name(path))), seen.push(spec_path_key(path)))
    }
}

pub open spec fn candidate_view(c: (String, bool)) -> (Seq<char>, bool) {
    (c.0@, c.1)
}

/// The recent list built from candidates in order.
pub open spec fn recent_fold(cands: Seq<(Seq<char>, bool)>, limit: nat) -> (
    Seq<(Seq<char>, Seq<char>)>,
    Seq<Seq<char>>,
)
    decreases cands.len(),
{
    if cands.len() == 0 {
        (Seq::empty(), Seq::empty())
    } else {
        recent_step(recent_fold(cands.drop_last(), limit), cands.last().0, cands.last().1, limit)
    }
}

/// How many sets are listed for a requested `limit`: between 1 and 20.
pub open spec fn clamp_recent_limit(limit: int) -> nat {
    if limit < 1 {
        1
    } else if limit > 20 {
        20
    } else {
        limit as nat
    }
}

fn strings_contain_chars(v: &Vec<String>, x: &[char]) -> (r: bool)
    ensures
        r == string_views(v@).contains(x@),
{
    let mut i: usize = 0;
    while i < v.len()
        invariant
            i <= v@.len(),
            forall|j: int| 0 <= j < i ==> v@[j]@ != x@,
        decreases v@.len() - i,
    {
        let c = chars_of(v[i].as_str());
        if chars_eq(c.as_slice(), x) {
            assert(string_views(v@)[i as int] == x@);
            return true;
        }
        i = i + 1;
    }
    proof {
        if string_views(v@).contains(x@) {
            let j = choose|j: int| 0 <= j < v@.len() && #[trigger] string_views(v@)[j] == x@;
            assert(v@[j]@ == x@);
        }
    }
    false
}

pub open spec fn sets_view(v: Seq<RecentAbletonSet>) -> Seq<(Seq<char>, Seq<char>)> {
    v.map_values(|s: RecentAbletonSet| s@)
}

/// Adds `path` to the recent list when it belongs there (see [`recent_step`]).
pub fn push_recent(
    out: &mut Vec<RecentAbletonSet>,
    seen: &mut Vec<String>,
    path: &str,
    is_file: bool,
    limit: usize,
)
    ensures
        (sets_view(final(out)@), string_views(final(seen)@)) == recent_step(
            (sets_view(old(out)@), string_views(old(seen)@)),
            path@,
            is_file,
            limit as nat,
        ),
{
    if out.len() >= limit || !is_file {
        return;
    }
    let p = chars_of(path);
    let is_als = match extension_of_path(p.as_slice()) {
        Some(e) => chars_eq_str(e.as_slice(), "als"),
        None => false,
    };
    if !is_als {
        return;
    }
    let key = normalize_path_key(path);
    let kv = chars_of(key.as_str());
    if strings_contain_chars(seen, kv.as_slice()) {
        return;
    }
    let stem = match file_stem_of(p.as_slice()) {
        Some(s) => s,
        None => chars_of("Proyecto"),
    };
    let name = trim_chars(stem.as_slice(), TrimClass::Whitespace);
    let ghost old_out = sets_view(out@);
    let ghost old_seen = string_views(seen@);
    seen.push(key);
    out.push(RecentAbletonSet { path: string_of(p.as_slice()), name: string_of(name.as_slice()) });
    assert(sets_view(out@) =~= old_out.push((path@, spec_recent_name(path@))));
    assert(string_views(seen@) =~= old_seen.push(spec_path_key(path@)));
}

/// The recent sets to show, from candidate paths in priority order (the
/// app's own history, then Live's preferences, then known projects), each
/// with whether it is an existing file: at most `limit` sets (clamped to
/// 1..=20), `.als` files only, no two with the same key.
pub fn select_recent_sets(limit: usize, candidates: &[(String, bool)]) -> (r: Vec<RecentAbletonSet>)
    ensures
        sets_view(r@) == recent_fold(
            candidates@.map_values(|c: (String, bool)| candidate_view(c)),
            clamp_recent_limit(limit as int),
        ).0,
{
    let lim: usize = if limit < 1 {
        1
    } else if limit > 20 {
        20
    } else {
        limit
    };
    let ghost cv = candidates@.map_values(|c: (String, bool)| candidate_view(c));
    let mut out: Vec<RecentAbletonSet> = Vec::new();
    let mut seen: Vec<String> = Vec::new();
    let mut i: usize = 0;
    while i < candidates.len()
        invariant
            i <= candidates@.len(),
            lim as nat == clamp_recent_limit(limit as int),
            cv == candidates@.map_values(|c: (String, bool)| candidate_view(c)),
            (sets_view(out@), string_views(seen@)) == recent_fold(
                cv.take(i as int),
                lim as nat,
            ),
        decreases candidates@.len() - i,
    {
        let (ref path, is_file) = candidates[i];
        assert(cv.take(i + 1).drop_last() =~= cv.take(i as int));
        push_recent(&mut out, &mut seen, path.as_str(), is_file, lim);
        i = i + 1;
    }
    assert(cv.take(candidates@.len() as int) =~= cv);
    out
}

/// Listing never shows more sets than asked (at most 20), and never the same
/// set twice.
pub proof fn law_recent_list_bounded_and_unique(cands: Seq<(Seq<char>, bool)>, limit: nat)
    ensures
        recent_fold(cands, limit).0.len() <= limit,
        recent_fold(cands, limit).0.len() == recent_fold(cands, limit).1.len(),
        forall|i: int, j: int|
            0 <= i < j < recent_fold(cands, limit).1.len() ==> recent_fold(cands, limit).1[i]
                != recent_fold(cands, limit).1[j],
        forall|i: int|
            0 <= i < recent_fold(cands, limit).0.len() ==> recent_fold(cands, limit).1[i]
                == spec_path_key(#[trigger] recent_fold(cands, limit).0[i].0),
    decreases cands.len(),
{
    if cands.len() > 0 {
        law_recent_list_bounded_and_unique(cands.drop_last(), limit);
        let prev = recent_fold(cands.drop_last(), limit);
        let cur = recent_fold(cands, limit);
        if cur != prev {
            assert(cur.1 == prev.1.push(spec_path_key(cands.last().0)));
            assert forall|i: int, j: int| 0 <= i < j < cur.1.len() implies cur.1[i] != cur.1[j] by {
                if j == cur.1.len() - 1 {
                    assert(prev.1[i] == cur.1[i]);
                    assert(!prev.1.contains(spec_path_key(cands.last().0)));
                }
            }
        }
    }
}

/// How many opened sets the library remembers.
pub const MAX_STORED_RECENT: usize = 12;

/// The remembered paths without those naming `opened`, in order.
pub open spec fn spec_without_path(paths: Seq<Seq<char>>, opened: Seq<char>) -> Seq<Seq<char>>
    decreases paths.len(),
{
    if paths.len() == 0 {
        paths
    } else {
        let r = spec_without_path(paths.drop_last(), opened);
        if same_path_components(paths.last(), opened) {
            r
        } else {
            r.push(paths.last())
        }
    }
}

/// The remembered paths after `opened` was opened: it goes first, any other
/// entry naming it is dropped, and at most `MAX_STORED_RECENT` are kept.
pub open spec fn spec_updated_recent_paths(paths: Seq<Seq<char>>, opened: Seq<char>) -> Seq<
    Seq<char>,
> {
    let r = seq![opened] + spec_without_path(paths, opened);
    if r.len() > MAX_STORED_RECENT {
        r.take(MAX_STORED_RECENT as int)
    } else {
        r
    }
}

/// The list of recently opened sets after opening `opened`.
pub fn updated_recent_paths(paths: Vec<String>, opened: &str) -> (r: Vec<String>)
    ensures
        string_views(r@) == spec_updated_recent_paths(string_views(paths@), opened@),
{
    let ghost all = string_views(paths@);
    let mut kept: Vec<String> = Vec::new();
    kept.push(crate::error::copy_string(opened));
    let mut i: usize = 0;
    while i < paths.len()
        invariant
            0 <= i <= paths@.len(),
            all == string_views(paths@),
            string_views(kept@) == seq![opened@] + spec_without_path(all.take(i as int), opened@),
        decreases paths@.len() - i,
    {
        assert(all.take(i as int + 1).drop_last() =~= all.take(i as int));
        assert(all.take(i as int + 1).last() == paths@[i as int]@);
        if !paths_equal(paths[i].as_str(), opened) {
            let ghost k0 = kept@;
            kept.push(crate::error::copy_string(paths[i].as_str()));
            assert(string_views(kept@) =~= string_views(k0).push(paths@[i as int]@));
        }
        i = i + 1;
    }
    assert(all.take(i as int) =~= all);
    if kept.len() > MAX_STORED_RECENT {
        kept.truncate(MAX_STORED_RECENT);
        assert(string_views(kept@) =~= (seq![opened@] + spec_without_path(all, opened@)).take(
            MAX_STORED_RECENT as int,
        ));
    }
    kept
}

proof fn lemma_without_path(paths: Seq<Seq<char>>, opened: Seq<char>)
    ensures
        forall|k: int|
            0 <= k < spec_without_path(paths, opened).len() ==> !same_path_components(
                #[trigger] spec_without_path(paths, opened)[k],
                opened,
            ),
    decreases paths.len(),
{
    if paths.len() > 0 {
        let prev = spec_without_path(paths.drop_last(), opened);
        lemma_without_path(paths.drop_last(), opened);
        let w = spec_without_path(paths, opened);
        assert forall|k: int| 0 <= k < w.len() implies !same_path_components(#[trigger] w[k], opened) by {
            if k < prev.len() {
                assert(w[k] == prev[k]);
            }
        }
    }
}

/// Opening a set puts it first, once: the updated list starts with it, holds
/// no other entry naming the same path, and never exceeds the limit.
pub proof fn law_opened_set_is_first_and_once(paths: Seq<Seq<char>>, opened: Seq<char>)
    ensures
        spec_updated_recent_paths(paths, opened).len() >= 1,
        spec_updated_recent_paths(paths, opened)[0] == opened,
        spec_updated_recent_paths(paths, opened).len() <= MAX_STORED_RECENT,
        forall|k: int|
            1 <= k < spec_updated_recent_paths(paths, opened).len() ==> !same_path_components(
                #[trigger] spec_updated_recent_paths(paths, opened)[k],
                opened,
            ),
{
    lemma_without_path(paths, opened);
    let w = spec_without_path(paths, opened);
    let r = seq![opened] + w;
    assert forall|k: int|
        1 <= k < spec_updated_recent_paths(paths, opened).len() implies !same_path_components(
        #[trigger] spec_updated_recent_paths(paths, opened)[k],
        opened,
    ) by {
        assert(r[k] == w[k - 1]);
    }
}

} // verus!
