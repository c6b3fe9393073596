//! Path names as character sequences, with the meaning `std::path::Path` gives
//! them on Unix: `/` separates components, empty and `.` components vanish,
//! a trailing `..` has no file name.
use vstd::prelude::*;

use crate::text::{
    concat_chars, last_index_of, lemma_last_index_of, lemma_last_index_of_unique, rfind_char,
    slice_chars,
};

verus! {

/// The last component of a path, as `Path::file_name` returns it.
pub open spec fn path_file_name(s: Seq<char>) -> Option<Seq<char>>
    decreases s.len(),
{
    if s.len() == 0 {
        None
    } else {
        let i = last_index_of(s, '/');
        let seg = s.subrange(i + 1, s.len() as int);
        if seg.len() == 0 || seg == seq!['.'] {
            if i < 0 {
                None
            } else {
                proof {
                    lemma_last_index_of(s, '/');
                }
                path_file_name(s.subrange(0, i))
            }
        } else if seg == seq!['.', '.'] {
            None
        } else {
            Some(seg)
        }
    }
}

/// A file name split at its last dot, as `Path::file_stem` / `Path::extension` do:
/// no extension when there is no dot, or when the only dot is the first character.
pub open spec fn split_at_last_dot(name: Seq<char>) -> (Seq<char>, Option<Seq<char>>) {
    let i = last_index_of(name, '.');
    if name == seq!['.', '.'] || i <= 0 {
        (name, None)
    } else {
        (name.subrange(0, i), Some(name.subrange(i + 1, name.len() as int)))
    }
}

/// `Path::extension`.
pub open spec fn path_extension(s: Seq<char>) -> Option<Seq<char>> {
    match path_file_name(s) {
        Some(n) => split_at_last_dot(n).1,
        None => None,
    }
}

/// `Path::file_stem`.
pub open spec fn path_file_stem(s: Seq<char>) -> Option<Seq<char>> {
    match path_file_name(s) {
        Some(n) => Some(split_at_last_dot(n).0),
        None => None,
    }
}

/// `base` joined with `c` as `Path::join` does it: an absolute `c` replaces
/// `base`, otherwise a `/` is put between them unless `base` is empty or
/// already ends with one.
pub open spec fn path_join(base: Seq<char>, c: Seq<char>) -> Seq<char> {
    if c.len() > 0 && c[0] == '/' {
        c
    } else if base.len() == 0 || base.last() == '/' {
        base + c
    } else {
        base + seq!['/'] + c
    }
}

/// A non-empty name without `/` and without `.` is its own file name and has
/// no extension.
pub proof fn lemma_plain_name(s: Seq<char>)
    requires
        s.len() > 0,
        forall|j: int| 0 <= j < s.len() ==> s[j] != '/' && s[j] != '.',
    ensures
        path_file_name(s) == Some(s),
        path_extension(s) is None,
{
    lemma_last_index_of_unique(s, '/', -1);
    lemma_last_index_of_unique(s, '.', -1);
    assert(s.subrange(0, s.len() as int) =~= s);
    assert(s != seq!['.']) by {
        if s == seq!['.'] {
            assert(s[0] == '.');
        }
    }
    assert(s != seq!['.', '.']) by {
        if s == seq!['.', '.'] {
            assert(s[0] == '.');
        }
    }
}

/// Index range of the file name of `s`.
pub fn file_name_range(s: &[char]) -> (r: Option<(usize, usize)>)
    ensures
        match r {
            Some((a, b)) => a <= b <= s@.len() && path_file_name(s@) == Some(
                s@.subrange(a as int, b as int),
            ),
            None => path_file_name(s@).is_none(),
        },
{
    let mut end: usize = s.len();
    assert(s@.subrange(0, end as int) =~= s@);
    loop
        invariant
            end <= s@.len(),
            path_file_name(s@) == path_file_name(s@.subrange(0, end as int)),
        decreases end,
    {
        let ghost t = s@.subrange(0, end as int);
        if end == 0 {
            return None;
        }
        let found = rfind_char(s, end, '/');
        let start: usize = match found {
            Some(i) => i + 1,
            None => 0,
        };
        proof {
            lemma_last_index_of(t, '/');
            assert(t.subrange(last_index_of(t, '/') + 1, t.len() as int) =~= s@.subrange(
                start as int,
                end as int,
            ));
        }
        let len = end - start;
        if len == 0 || (len == 1 && s[start] == '.') {
            match found {
                None => {
                    proof {
                        if len == 1 {
                            assert(s@.subrange(start as int, end as int) =~= seq!['.']);
                        }
                    }
                    return None;
                },
                Some(i) => {
                    proof {
                        if len == 1 {
                            assert(s@.subrange(start as int, end as int) =~= seq!['.']);
                        }
                        assert(t.subrange(0, i as int) =~= s@.subrange(0, i as int));
                    }
                    end = i;
                },
            }
        } else if len == 2 && s[start] == '.' && s[start + 1] == '.' {
            proof {
                assert(s@.subrange(start as int, end as int) =~= seq!['.', '.']);
            }
            return None;
        } else {
            proof {
                if len == 1 {
                    assert(s@.subrange(start as int, end as int) != seq!['.']) by {
                        assert(s@.subrange(start as int, end as int)[0] == s@[start as int]);
                    }
                }
                if len == 2 {
                    assert(s@.subrange(start as int, end as int) != seq!['.', '.']) by {
                        assert(s@.subrange(start as int, end as int)[0] == s@[start as int]);
                        assert(s@.subrange(start as int, end as int)[1] == s@[start + 1]);
                    }
                }
            }
            return Some((start, end));
        }
    }
}

/// `Path::file_name`.
pub fn file_name_of(s: &[char]) -> (r: Option<Vec<char>>)
    ensures
        match r {
            Some(v) => path_file_name(s@) == Some(v@),
            None => path_file_name(s@).is_none(),
        },
{
    match file_name_range(s) {
        Some((a, b)) => Some(slice_chars(s, a, b)),
        None => None,
    }
}

/// Splits a file name at its last dot (see [`split_at_last_dot`]).
pub fn split_name_at_last_dot(name: &[char]) -> (r: (Vec<char>, Option<Vec<char>>))
    ensures
        r.0@ == split_at_last_dot(name@).0,
        match r.1 {
            Some(e) => split_at_last_dot(name@).1 == Some(e@),
            None => split_at_last_dot(name@).1.is_none(),
        },
{
    let n = name.len();
    let dotdot = n == 2 && name[0] == '.' && name[1] == '.';
    proof {
        assert(name@ =~= name@.subrange(0, n as int));
        if n == 2 && name@[0] == '.' && name@[1] == '.' {
            assert(name@ =~= seq!['.', '.']);
        }
        if name@ == seq!['.', '.'] {
            assert(name@[0] == '.' && name@[1] == '.');
        }
    }
    let found = rfind_char(name, n, '.');
    match found {
        Some(i) => {
            if dotdot || i == 0 {
                (slice_chars(name, 0, n), None)
            } else {
                (slice_chars(name, 0, i), Some(slice_chars(name, i + 1, n)))
            }
        },
        None => (slice_chars(name, 0, n), None),
    }
}

/// `Path::extension`.
pub fn extension_of_path(s: &[char]) -> (r: Option<Vec<char>>)
    ensures
        match r {
            Some(v) => path_extension(s@) == Some(v@),
            None => path_extension(s@).is_none(),
        },
{
    match file_name_of(s) {
        Some(n) => {
            let (_, e) = split_name_at_last_dot(n.as_slice());
            e
        },
        None => None,
    }
}

/// `Path::file_stem`.
pub fn file_stem_of(s: &[char]) -> (r: Option<Vec<char>>)
    ensures
        match r {
            Some(v) => path_file_stem(s@) == Some(v@),
            None => path_file_stem(s@).is_none(),
        },
{
    match file_name_of(s) {
        Some(n) => {
            let (stem, _) = split_name_at_last_dot(n.as_slice());
            Some(stem)
        },
        None => None,
    }
}

/// `Path::join` (see [`path_join`]).
pub fn join_path(base: &[char], c: &[char]) -> (r: Vec<char>)
    ensures
        r@ == path_join(base@, c@),
{
    if c.len() > 0 && c[0] == '/' {
        slice_chars(c, 0, c.len())
    } else if base.len() == 0 || base[base.len() - 1] == '/' {
        concat_chars(base, c)
    } else {
        let mut b = slice_chars(base, 0, base.len());
        b.push('/');
        concat_chars(b.as_slice(), c)
    }
}

/// What `Path::eq` says of two paths: whether their components are equal.
pub uninterp spec fn same_path_components(a: Seq<char>, b: Seq<char>) -> bool;

/// `Path::eq`: paths compare equal when their components do (so `a//b` and
/// `a/b/` name the same path as `a/b`). The contract names the result and,
/// since `Path` is `Eq`, states that a path equals itself.
#[verifier::external_body]
pub(crate) fn paths_equal(a: &str, b: &str) -> (r: bool)
    ensures
        r == same_path_components(a@, b@),
        a@ == b@ ==> r,
{
    std::path::Path::new(a) == std::path::Path::new(b)
}

/// What `Path::with_file_name` returns for a path and a new file name.
pub uninterp spec fn path_with_file_name(path: Seq<char>, name: Seq<char>) -> Seq<char>;

/// `Path::with_file_name`: `path` with its last component replaced by `name`
/// (or `name` pushed, when `path` has no file name). Both inputs are UTF-8,
/// so the result is too and its text is taken whole.
#[verifier::external_body]
pub(crate) fn with_file_name(path: &str, name: &str) -> (r: String)
    ensures
        r@ == path_with_file_name(path@, name@),
{
    std::path::Path::new(path).with_file_name(name).to_string_lossy().into_owned()
}

} // verus!
