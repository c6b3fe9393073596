//! Character-level building blocks shared by the naming, path and parsing code.
//!
//! Strings are handled as `Vec<char>` inside the library: a `&str` is turned into
//! its characters once, and a `String` is rebuilt from characters at the end.
use vstd::prelude::*;

verus! {

// ---------------------------------------------------------------------------
// Character classes
// ---------------------------------------------------------------------------

/// Unicode general category Cc: U+0000..=U+001F and U+007F..=U+009F.
pub open spec fn is_control(c: char) -> bool {
    (c as u32) < 0x20 || (0x7f <= (c as u32) && (c as u32) <= 0x9f)
}

/// The Unicode `White_Space` property (what `char::is_whitespace` tests).
pub open spec fn is_whitespace(c: char) -> bool {
    let u = c as u32;
    (0x09 <= u && u <= 0x0d) || u == 0x20 || u == 0x85 || u == 0xa0 || u == 0x1680 || (0x2000
        <= u && u <= 0x200a) || u == 0x2028 || u == 0x2029 || u == 0x202f || u == 0x205f || u
        == 0x3000
}

pub open spec fn is_ascii_digit(c: char) -> bool {
    '0' <= c && c <= '9'
}

pub open spec fn is_ascii_upper(c: char) -> bool {
    'A' <= c && c <= 'Z'
}

pub open spec fn is_ascii_lower(c: char) -> bool {
    'a' <= c && c <= 'z'
}

pub open spec fn is_ascii_alphanumeric(c: char) -> bool {
    is_ascii_digit(c) || is_ascii_upper(c) || is_ascii_lower(c)
}

pub open spec fn is_ascii(c: char) -> bool {
    (c as u32) < 0x80
}

pub open spec fn ascii_lower(c: char) -> char {
    if is_ascii_upper(c) {
        ((c as u32) + 32) as char
    } else {
        c
    }
}

pub open spec fn ascii_upper(c: char) -> char {
    if is_ascii_lower(c) {
        ((c as u32) - 32) as char
    } else {
        c
    }
}

pub open spec fn ascii_lower_seq(s: Seq<char>) -> Seq<char> {
    s.map_values(|c: char| ascii_lower(c))
}

pub fn char_is_control(c: char) -> (r: bool)
    ensures
        r == is_control(c),
{
    let u = c as u32;
    u < 0x20 || (0x7f <= u && u <= 0x9f)
}

pub fn char_is_whitespace(c: char) -> (r: bool)
    ensures
        r == is_whitespace(c),
{
    let u = c as u32;
    (0x09 <= u && u <= 0x0d) || u == 0x20 || u == 0x85 || u == 0xa0 || u == 0x1680 || (0x2000
        <= u && u <= 0x200a) || u == 0x2028 || u == 0x2029 || u == 0x202f || u == 0x205f || u
        == 0x3000
}

pub fn char_is_ascii_digit(c: char) -> (r: bool)
    ensures
        r == is_ascii_digit(c),
{
    '0' <= c && c <= '9'
}

pub fn char_is_ascii_alphanumeric(c: char) -> (r: bool)
    ensures
        r == is_ascii_alphanumeric(c),
{
    ('0' <= c && c <= '9') || ('A' <= c && c <= 'Z') || ('a' <= c && c <= 'z')
}

pub fn char_ascii_lower(c: char) -> (r: char)
    ensures
        r == ascii_lower(c),
{
    if 'A' <= c && c <= 'Z' {
        let u = (c as u32) + 32;
        assert(u < 0xd800);
        char_from_ascii_code(u)
    } else {
        c
    }
}

pub fn char_ascii_upper(c: char) -> (r: char)
    ensures
        r == ascii_upper(c),
{
    if 'a' <= c && c <= 'z' {
        let u = (c as u32) - 32;
        char_from_ascii_code(u)
    } else {
        c
    }
}

/// The character whose code point is `u`, for an ASCII code.
fn char_from_ascii_code(u: u32) -> (r: char)
    requires
        u < 0x80,
    ensures
        r == u as char,
{
    let b: u8 = u as u8;
    b as char
}

// ---------------------------------------------------------------------------
// Conversions between `str`/`String` and characters
// ---------------------------------------------------------------------------

/// The characters of `s`, in order.
pub fn chars_of(s: &str) -> (v: Vec<char>)
    ensures
        v@ == s@,
{
    let mut v: Vec<char> = Vec::new();
    for c in it: s.chars()
        invariant
            v@ == it.seq().take(it.index() as int),
            it.seq() == s@,
    {
        v.push(c);
    }
    v
}

/// Appends one character to a string (`String::push`).
#[verifier::external_body]
fn string_push(s: &mut String, c: char)
    ensures
        final(s)@ == old(s)@.push(c),
{
    s.push(c);
}

/// A string made of the characters of `v`.
pub fn string_of(v: &[char]) -> (s: String)
    ensures
        s@ == v@,
{
    let mut s = String::new();
    let mut i: usize = 0;
    while i < v.len()
        invariant
            i <= v@.len(),
            s@ == v@.take(i as int),
        decreases v@.len() - i,
    {
        string_push(&mut s, v[i]);
        i = i + 1;
        assert(s@ =~= v@.take(i as int));
    }
    assert(v@.take(v@.len() as int) =~= v@);
    s
}

/// Equality of two character sequences.
pub fn chars_eq(a: &[char], b: &[char]) -> (r: bool)
    ensures
        r == (a@ == b@),
{
    if a.len() != b.len() {
        return false;
    }
    let mut i: usize = 0;
    while i < a.len()
        invariant
            a@.len() == b@.len(),
            i <= a@.len(),
            forall|j: int| 0 <= j < i ==> a@[j] == b@[j],
        decreases a@.len() - i,
    {
        if a[i] != b[i] {
            return false;
        }
        i = i + 1;
    }
    assert(a@ =~= b@);
    true
}

/// Equality of a character sequence and a string.
pub fn chars_eq_str(a: &[char], b: &str) -> (r: bool)
    ensures
        r == (a@ == b@),
{
    let bv = chars_of(b);
    chars_eq(a, bv.as_slice())
}

/// Equality of two strings.
pub fn str_eq(a: &str, b: &str) -> (r: bool)
    ensures
        r == (a@ == b@),
{
    let av = chars_of(a);
    chars_eq_str(av.as_slice(), b)
}

/// Whether `v` contains `c`.
pub fn chars_contain(v: &[char], c: char) -> (r: bool)
    ensures
        r == v@.contains(c),
{
    let mut i: usize = 0;
    while i < v.len()
        invariant
            i <= v@.len(),
            forall|j: int| 0 <= j < i ==> v@[j] != c,
        decreases v@.len() - i,
    {
        if v[i] == c {
            assert(v@[i as int] == c);
            return true;
        }
        i = i + 1;
    }
    false
}

/// `s` followed by `t`.
pub fn concat_chars(s: &[char], t: &[char]) -> (r: Vec<char>)
    ensures
        r@ == s@ + t@,
{
    let mut r: Vec<char> = Vec::new();
    let mut i: usize = 0;
    while i < s.len()
        invariant
            i <= s@.len(),
            r@ == s@.take(i as int),
        decreases s@.len() - i,
    {
        r.push(s[i]);
        i = i + 1;
        assert(r@ =~= s@.take(i as int));
    }
    let mut j: usize = 0;
    while j < t.len()
        invariant
            i == s@.len(),
            j <= t@.len(),
            r@ == s@ + t@.take(j as int),
        decreases t@.len() - j,
    {
        r.push(t[j]);
        j = j + 1;
        assert(r@ =~= s@ + t@.take(j as int));
    }
    assert(t@.take(t@.len() as int) =~= t@);
    r
}

/// `a` followed by `b`, as a new string.
pub fn concat_str(a: &str, b: &str) -> (r: String)
    ensures
        r@ == a@ + b@,
{
    let av = chars_of(a);
    let bv = chars_of(b);
    let v = concat_chars(av.as_slice(), bv.as_slice());
    string_of(v.as_slice())
}

/// The characters of `s` in the index range `[lo, hi)`.
pub fn slice_chars(s: &[char], lo: usize, hi: usize) -> (r: Vec<char>)
    requires
        lo <= hi <= s@.len(),
    ensures
        r@ == s@.subrange(lo as int, hi as int),
{
    let mut r: Vec<char> = Vec::new();
    let mut i: usize = lo;
    while i < hi
        invariant
            lo <= i <= hi,
            hi <= s@.len(),
            r@ == s@.subrange(lo as int, i as int),
        decreases hi - i,
    {
        r.push(s[i]);
        i = i + 1;
        assert(r@ =~= s@.subrange(lo as int, i as int));
    }
    r
}

/// `s` with every ASCII letter lowered.
pub fn ascii_lowercase(s: &[char]) -> (r: Vec<char>)
    ensures
        r@ == ascii_lower_seq(s@),
{
    let mut r: Vec<char> = Vec::new();
    let mut i: usize = 0;
    while i < s.len()
        invariant
            i <= s@.len(),
            r@ == ascii_lower_seq(s@.take(i as int)),
        decreases s@.len() - i,
    {
        let c = char_ascii_lower(s[i]);
        r.push(c);
        i = i + 1;
        assert(r@ =~= ascii_lower_seq(s@.take(i as int)));
    }
    assert(s@.take(s@.len() as int) =~= s@);
    r
}

// ---------------------------------------------------------------------------
// Prefixes, suffixes, searching
// ---------------------------------------------------------------------------

pub open spec fn has_suffix(s: Seq<char>, t: Seq<char>) -> bool {
    t.len() <= s.len() && s.subrange(s.len() - t.len(), s.len() as int) == t
}

pub fn chars_ends_with(s: &[char], t: &str) -> (r: bool)
    ensures
        r == has_suffix(s@, t@),
{
    let tv = chars_of(t);
    if tv.len() > s.len() {
        return false;
    }
    let tail = slice_chars(s, s.len() - tv.len(), s.len());
    chars_eq(tail.as_slice(), tv.as_slice())
}

/// Index of the last occurrence of `c` in `s`, or -1.
pub open spec fn last_index_of(s: Seq<char>, c: char) -> int
    decreases s.len(),
{
    if s.len() == 0 {
        -1
    } else if s.last() == c {
        s.len() - 1
    } else {
        last_index_of(s.drop_last(), c)
    }
}

pub proof fn lemma_last_index_of(s: Seq<char>, c: char)
    ensures
        -1 <= last_index_of(s, c) < s.len(),
        last_index_of(s, c) >= 0 ==> s[last_index_of(s, c)] == c,
        forall|j: int| last_index_of(s, c) < j < s.len() ==> s[j] != c,
    decreases s.len(),
{
    if s.len() > 0 && s.last() != c {
        lemma_last_index_of(s.drop_last(), c);
        assert forall|j: int| last_index_of(s, c) < j < s.len() implies s[j] != c by {
            if j < s.len() - 1 {
                assert(s[j] == s.drop_last()[j]);
            }
        }
    }
}

/// Characterises `last_index_of` by its defining property.
pub proof fn lemma_last_index_of_unique(s: Seq<char>, c: char, k: int)
    requires
        -1 <= k < s.len(),
        k >= 0 ==> s[k] == c,
        forall|j: int| k < j < s.len() ==> s[j] != c,
    ensures
        last_index_of(s, c) == k,
    decreases s.len(),
{
    if s.len() > 0 && s.last() != c {
        lemma_last_index_of_unique(s.drop_last(), c, k);
    }
}

/// The last index of `c` in `s[..end]`, if any.
pub fn rfind_char(s: &[char], end: usize, c: char) -> (r: Option<usize>)
    requires
        end <= s@.len(),
    ensures
        match r {
            Some(i) => i < end && s@[i as int] == c && i as int == last_index_of(
                s@.subrange(0, end as int),
                c,
            ),
            None => last_index_of(s@.subrange(0, end as int), c) == -1,
        },
{
    let mut i: usize = end;
    while i > 0
        invariant
            i <= end <= s@.len(),
            forall|j: int| i <= j < end ==> s@[j] != c,
        decreases i,
    {
        if s[i - 1] == c {
            proof {
                lemma_last_index_of_unique(s@.subrange(0, end as int), c, i - 1);
            }
            return Some(i - 1);
        }
        i = i - 1;
    }
    proof {
        lemma_last_index_of_unique(s@.subrange(0, end as int), c, -1);
    }
    None
}

// ---------------------------------------------------------------------------
// Trimming
// ---------------------------------------------------------------------------

/// Character classes used when trimming.
#[derive(Clone, Copy, Debug, PartialEq, Eq)]
pub enum TrimClass {
    /// Unicode white space.
    Whitespace,
    /// `.` and ` `.
    DotSpace,
    /// `.`, ` ` and `_`.
    DotSpaceUnderscore,
    /// `.` only.
    Dot,
    /// `_` only.
    Underscore,
}

pub open spec fn in_trim_class(c: char, k: TrimClass) -> bool {
    match k {
        TrimClass::Whitespace => is_whitespace(c),
        TrimClass::DotSpace => c == '.' || c == ' ',
        TrimClass::DotSpaceUnderscore => c == '.' || c == ' ' || c == '_',
        TrimClass::Dot => c == '.',
        TrimClass::Underscore => c == '_',
    }
}

pub fn char_in_trim_class(c: char, k: TrimClass) -> (r: bool)
    ensures
        r == in_trim_class(c, k),
{
    match k {
        TrimClass::Whitespace => char_is_whitespace(c),
        TrimClass::DotSpace => c == '.' || c == ' ',
        TrimClass::DotSpaceUnderscore => c == '.' || c == ' ' || c == '_',
        TrimClass::Dot => c == '.',
        TrimClass::Underscore => c == '_',
    }
}

/// `s` without its leading characters of class `k`.
pub open spec fn trim_start(s: Seq<char>, k: TrimClass) -> Seq<char>
    decreases s.len(),
{
    if s.len() > 0 && in_trim_class(s[0], k) {
        trim_start(s.drop_first(), k)
    } else {
        s
    }
}

/// `s` without its trailing characters of class `k`.
pub open spec fn trim_end(s: Seq<char>, k: TrimClass) -> Seq<char>
    decreases s.len(),
{
    if s.len() > 0 && in_trim_class(s.last(), k) {
        trim_end(s.drop_last(), k)
    } else {
        s
    }
}

/// `s` without leading and trailing characters of class `k`.
pub open spec fn trim(s: Seq<char>, k: TrimClass) -> Seq<char> {
    trim_end(trim_start(s, k), k)
}

proof fn lemma_trim_start_skip(s: Seq<char>, k: TrimClass, i: int)
    requires
        0 <= i <= s.len(),
        forall|j: int| 0 <= j < i ==> in_trim_class(s[j], k),
    ensures
        trim_start(s, k) == trim_start(s.subrange(i, s.len() as int), k),
    decreases i,
{
    if i > 0 {
        assert(s.drop_first().subrange(i - 1, s.drop_first().len() as int) =~= s.subrange(
            i,
            s.len() as int,
        ));
        lemma_trim_start_skip(s.drop_first(), k, i - 1);
    } else {
        assert(s.subrange(0, s.len() as int) =~= s);
    }
}

proof fn lemma_trim_end_skip(s: Seq<char>, k: TrimClass, e: int)
    requires
        0 <= e <= s.len(),
        forall|j: int| e <= j < s.len() ==> in_trim_class(s[j], k),
    ensures
        trim_end(s, k) == trim_end(s.subrange(0, e), k),
    decreases s.len() - e,
{
    if e < s.len() {
        assert(s.drop_last().subrange(0, e) =~= s.subrange(0, e));
        lemma_trim_end_skip(s.drop_last(), k, e);
    } else {
        assert(s.subrange(0, e) =~= s);
    }
}

/// `s` without leading characters of class `k`.
pub fn trim_start_chars(s: &[char], k: TrimClass) -> (r: Vec<char>)
    ensures
        r@ == trim_start(s@, k),
{
    let mut i: usize = 0;
    while i < s.len() && char_in_trim_class(s[i], k)
        invariant
            i <= s@.len(),
            forall|j: int| 0 <= j < i ==> in_trim_class(s@[j], k),
        decreases s@.len() - i,
    {
        i = i + 1;
    }
    proof {
        lemma_trim_start_skip(s@, k, i as int);
    }
    slice_chars(s, i, s.len())
}

/// `s` without trailing characters of class `k`.
pub fn trim_end_chars(s: &[char], k: TrimClass) -> (r: Vec<char>)
    ensures
        r@ == trim_end(s@, k),
{
    let mut e: usize = s.len();
    while e > 0 && char_in_trim_class(s[e - 1], k)
        invariant
            e <= s@.len(),
            forall|j: int| e <= j < s@.len() ==> in_trim_class(s@[j], k),
        decreases e,
    {
        e = e - 1;
    }
    proof {
        lemma_trim_end_skip(s@, k, e as int);
    }
    slice_chars(s, 0, e)
}

/// `s` without leading and trailing characters of class `k`.
pub fn trim_chars(s: &[char], k: TrimClass) -> (r: Vec<char>)
    ensures
        r@ == trim(s@, k),
{
    let a = trim_start_chars(s, k);
    trim_end_chars(a.as_slice(), k)
}

pub proof fn lemma_trim_start_len(s: Seq<char>, k: TrimClass)
    ensures
        trim_start(s, k).len() <= s.len(),
        trim_start(s, k).len() > 0 ==> !in_trim_class(trim_start(s, k)[0], k),
    decreases s.len(),
{
    if s.len() > 0 && in_trim_class(s[0], k) {
        lemma_trim_start_len(s.drop_first(), k);
    }
}

pub proof fn lemma_trim_end_len(s: Seq<char>, k: TrimClass)
    ensures
        trim_end(s, k).len() <= s.len(),
        trim_end(s, k) == s.subrange(0, trim_end(s, k).len() as int),
        trim_end(s, k).len() > 0 ==> !in_trim_class(trim_end(s, k).last(), k),
    decreases s.len(),
{
    if s.len() > 0 && in_trim_class(s.last(), k) {
        lemma_trim_end_len(s.drop_last(), k);
        assert(s.drop_last().subrange(0, trim_end(s, k).len() as int) =~= s.subrange(
            0,
            trim_end(s, k).len() as int,
        ));
    } else {
        assert(s.subrange(0, s.len() as int) =~= s);
    }
}

/// Trimming only removes characters: a property of every character of `s`
/// holds of every character left by `trim_start`.
pub proof fn lemma_trim_start_keeps(s: Seq<char>, k: TrimClass, p: spec_fn(char) -> bool)
    requires
        forall|j: int| 0 <= j < s.len() ==> p(#[trigger] s[j]),
    ensures
        forall|i: int| 0 <= i < trim_start(s, k).len() ==> p(#[trigger] trim_start(s, k)[i]),
    decreases s.len(),
{
    if s.len() > 0 && in_trim_class(s[0], k) {
        let t = s.drop_first();
        assert forall|j: int| 0 <= j < t.len() implies p(#[trigger] t[j]) by {
            assert(t[j] == s[j + 1]);
        }
        lemma_trim_start_keeps(t, k, p);
        assert(trim_start(s, k) == trim_start(t, k));
    } else {
        assert(trim_start(s, k) == s);
    }
}

/// The same for `trim_end`.
pub proof fn lemma_trim_end_keeps(s: Seq<char>, k: TrimClass, p: spec_fn(char) -> bool)
    requires
        forall|j: int| 0 <= j < s.len() ==> p(#[trigger] s[j]),
    ensures
        forall|i: int| 0 <= i < trim_end(s, k).len() ==> p(#[trigger] trim_end(s, k)[i]),
{
    lemma_trim_end_len(s, k);
    let t = trim_end(s, k);
    assert forall|i: int| 0 <= i < t.len() implies p(#[trigger] t[i]) by {
        assert(t[i] == s[i]);
    }
}

/// The same for `trim`.
pub proof fn lemma_trim_keeps(s: Seq<char>, k: TrimClass, p: spec_fn(char) -> bool)
    requires
        forall|j: int| 0 <= j < s.len() ==> p(#[trigger] s[j]),
    ensures
        forall|i: int| 0 <= i < trim(s, k).len() ==> p(#[trigger] trim(s, k)[i]),
{
    lemma_trim_start_keeps(s, k, p);
    lemma_trim_end_keeps(trim_start(s, k), k, p);
}

// ---------------------------------------------------------------------------
// Substrings
// ---------------------------------------------------------------------------

/// `t` occurs in `s` at index `i`.
pub open spec fn occurs_at<T>(s: Seq<T>, t: Seq<T>, i: int) -> bool {
    0 <= i && i + t.len() <= s.len() && s.subrange(i, i + t.len()) == t
}

/// `t` occurs somewhere in `s`.
pub open spec fn contains_seq<T>(s: Seq<T>, t: Seq<T>) -> bool {
    exists|i: int| occurs_at(s, t, i)
}

/// Whether `t` occurs in `s` at index `i` (which must leave room for it).
fn chars_occur_at(s: &[char], t: &[char], i: usize) -> (r: bool)
    requires
        i + t@.len() <= s@.len(),
    ensures
        r == occurs_at(s@, t@, i as int),
{
    let n = s.len();
    let mut k: usize = 0;
    while k < t.len()
        invariant
            n == s@.len(),
            i + t@.len() <= s@.len(),
            k <= t@.len(),
            forall|j: int| 0 <= j < k ==> s@[i + j] == t@[j],
        decreases t@.len() - k,
    {
        assert(i + k < s@.len());
        if s[i + k] != t[k] {
            assert(s@.subrange(i as int, i + t@.len())[k as int] != t@[k as int]);
            return false;
        }
        k = k + 1;
    }
    assert(s@.subrange(i as int, i + t@.len()) =~= t@);
    true
}

/// Whether `t` occurs in `s`.
pub fn chars_contains(s: &[char], t: &[char]) -> (r: bool)
    ensures
        r == contains_seq(s@, t@),
{
    if t.len() > s.len() {
        return false;
    }
    let last = s.len() - t.len();
    let mut i: usize = 0;
    while i <= last
        invariant
            t@.len() <= s@.len(),
            last == s@.len() - t@.len(),
            i <= last + 1,
            forall|j: int| 0 <= j < i ==> !occurs_at(s@, t@, j),
        decreases last + 1 - i,
    {
        if chars_occur_at(s, t, i) {
            return true;
        }
        if i == last {
            return false;
        }
        i = i + 1;
    }
    false
}

// ---------------------------------------------------------------------------
// Decimal numerals
// ---------------------------------------------------------------------------

pub open spec fn digit_char(d: nat) -> char
    recommends
        d < 10,
{
    ((d + 48) as u32) as char
}

/// The decimal numeral of `n`, without leading zeros.
pub open spec fn decimal(n: nat) -> Seq<char>
    decreases n,
{
    if n < 10 {
        seq![digit_char(n)]
    } else {
        decimal(n / 10).push(digit_char(n % 10))
    }
}

/// The decimal numeral of a signed number, with a leading `-` when negative.
pub open spec fn signed_decimal(n: int) -> Seq<char> {
    if n < 0 {
        seq!['-'] + decimal((-n) as nat)
    } else {
        decimal(n as nat)
    }
}

pub proof fn lemma_decimal_len(n: nat)
    ensures
        decimal(n).len() >= 1,
        n >= 10 ==> decimal(n).len() >= 2,
    decreases n,
{
    if n >= 10 {
        lemma_decimal_len(n / 10);
    }
}

/// Different numbers have different numerals.
pub proof fn lemma_decimal_injective(a: nat, b: nat)
    requires
        decimal(a) == decimal(b),
    ensures
        a == b,
    decreases a,
{
    lemma_decimal_len(a);
    lemma_decimal_len(b);
    if a >= 10 && b >= 10 {
        assert(decimal(a).drop_last() =~= decimal(a / 10));
        assert(decimal(b).drop_last() =~= decimal(b / 10));
        lemma_decimal_injective(a / 10, b / 10);
        assert(decimal(a).last() == digit_char(a % 10));
        assert(decimal(b).last() == digit_char(b % 10));
    } else if a < 10 && b < 10 {
        assert(decimal(a)[0] == digit_char(a));
        assert(decimal(b)[0] == digit_char(b));
    }
}

/// The lowercase hexadecimal digit for a value below 16.
pub fn char_from_nibble(n: u8) -> (c: char)
    requires
        n < 16,
    ensures
        c == (if n < 10 {
            ((n + 48) as u32) as char
        } else {
            ((n + 87) as u32) as char
        }),
{
    if n < 10 {
        char_from_ascii_code((n + 48) as u32)
    } else {
        char_from_ascii_code((n + 87) as u32)
    }
}

fn digit(d: u64) -> (c: char)
    requires
        d < 10,
    ensures
        c == digit_char(d as nat),
{
    char_from_ascii_code((d + 48) as u32)
}

/// The decimal numeral of `n`.
pub fn decimal_chars(n: u64) -> (r: Vec<char>)
    ensures
        r@ == decimal(n as nat),
    decreases n,
{
    if n < 10 {
        let mut v: Vec<char> = Vec::new();
        v.push(digit(n));
        assert(v@ =~= seq![digit_char(n as nat)]);
        v
    } else {
        let mut v = decimal_chars(n / 10);
        v.push(digit(n % 10));
        v
    }
}

/// The decimal numeral of a signed number.
pub fn signed_decimal_chars(n: i64) -> (r: Vec<char>)
    requires
        n > i64::MIN,
    ensures
        r@ == signed_decimal(n as int),
{
    if n < 0 {
        let mut v: Vec<char> = Vec::new();
        v.push('-');
        let d = decimal_chars((-n) as u64);
        let r = concat_chars(v.as_slice(), d.as_slice());
        assert(v@ =~= seq!['-']);
        r
    } else {
        decimal_chars(n as u64)
    }
}

// ---------------------------------------------------------------------------
// UTF-8 lengths
// ---------------------------------------------------------------------------

/// Number of bytes of the UTF-8 encoding of `c`.
pub open spec fn char_utf8_len(c: char) -> nat {
    let u = c as u32;
    if u < 0x80 {
        1
    } else if u < 0x800 {
        2
    } else if u < 0x10000 {
        3
    } else {
        4
    }
}

/// Number of bytes of the UTF-8 encoding of `s`.
pub open spec fn utf8_len(s: Seq<char>) -> nat
    decreases s.len(),
{
    if s.len() == 0 {
        0
    } else {
        utf8_len(s.drop_last()) + char_utf8_len(s.last())
    }
}

pub fn char_utf8_len_exec(c: char) -> (r: usize)
    ensures
        r == char_utf8_len(c),
{
    let u = c as u32;
    if u < 0x80 {
        1
    } else if u < 0x800 {
        2
    } else if u < 0x10000 {
        3
    } else {
        4
    }
}

/// The bytes of `s` in the index range `[lo, hi)`.
pub fn slice_bytes(s: &[u8], lo: usize, hi: usize) -> (r: Vec<u8>)
    requires
        lo <= hi <= s@.len(),
    ensures
        r@ == s@.subrange(lo as int, hi as int),
{
    let mut r: Vec<u8> = Vec::new();
    let mut i: usize = lo;
    while i < hi
        invariant
            lo <= i <= hi,
            hi <= s@.len(),
            r@ == s@.subrange(lo as int, i as int),
        decreases hi - i,
    {
        r.push(s[i]);
        i = i + 1;
        assert(r@ =~= s@.subrange(lo as int, i as int));
    }
    r
}

pub proof fn lemma_utf8_len_take(s: Seq<char>, k: int)
    requires
        0 <= k < s.len(),
    ensures
        utf8_len(s.take(k + 1)) == utf8_len(s.take(k)) + char_utf8_len(s[k]),
{
    assert(s.take(k + 1).drop_last() =~= s.take(k));
}

pub proof fn lemma_utf8_len_take_mono(s: Seq<char>, j: int, k: int)
    requires
        0 <= j <= k <= s.len(),
    ensures
        utf8_len(s.take(j)) + (k - j) <= utf8_len(s.take(k)),
    decreases k - j,
{
    if j < k {
        lemma_utf8_len_take_mono(s, j, k - 1);
        lemma_utf8_len_take(s, k - 1);
    }
}

/// Whether the UTF-8 encoding of `s` takes at most `max_len` bytes.
pub fn utf8_len_at_most(s: &[char], max_len: usize) -> (r: bool)
    ensures
        r == (utf8_len(s@) <= max_len),
{
    let mut k: usize = 0;
    let mut total: usize = 0;
    assert(s@.take(0) =~= Seq::<char>::empty());
    while k < s.len()
        invariant
            k <= s@.len(),
            total == utf8_len(s@.take(k as int)),
            total <= max_len,
        decreases s@.len() - k,
    {
        proof {
            lemma_utf8_len_take(s@, k as int);
        }
        let w = char_utf8_len_exec(s[k]);
        if w > max_len - total {
            proof {
                lemma_utf8_len_take_mono(s@, k as int + 1, s@.len() as int);
                assert(s@.take(s@.len() as int) =~= s@);
            }
            return false;
        }
        total = total + w;
        k = k + 1;
    }
    assert(s@.take(s@.len() as int) =~= s@);
    true
}


} // verus!
