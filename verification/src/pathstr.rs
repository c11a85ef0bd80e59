//! A model of file paths as plain strings.
//!
//! A path is a string whose segments are separated by `/`. The file name of a
//! path is everything after its last `/`; the extension is everything after
//! the last `.` of the file name, provided that dot is not the file name's
//! first character (so hidden files such as `.bashrc` carry no extension).

use vstd::prelude::*;

verus! {

/// Index of the last occurrence of `c` in `s`, or `-1` when `c` does not occur.
pub open spec fn last_index_of(s: Seq<char>, c: char) -> int
    decreases s.len(),
{
    if s.len() == 0 {
        -1
    } else if s.last() == c {
        s.len() - 1
    } else {
        last_index_of(s.drop_last(), c)
    }
}

pub proof fn lemma_last_index_of(s: Seq<char>, c: char)
    ensures
        -1 <= last_index_of(s, c) < s.len(),
        last_index_of(s, c) >= 0 ==> s[last_index_of(s, c)] == c,
        forall|i: int| last_index_of(s, c) < i < s.len() ==> s[i] != c,
    decreases s.len(),
{
    if s.len() == 0 {
    } else if s.last() == c {
    } else {
        let r = last_index_of(s.drop_last(), c);
        lemma_last_index_of(s.drop_last(), c);
        if r >= 0 {
            assert(s.drop_last()[r] == s[r]);
        }
        assert forall|i: int| r < i < s.len() implies s[i] != c by {
            if i < s.len() - 1 {
                assert(s.drop_last()[i] == s[i]);
            }
        }
    }
}

pub proof fn lemma_last_index_of_at(s: Seq<char>, c: char, i: int)
    requires
        0 <= i < s.len(),
        s[i] == c,
        forall|j: int| i < j < s.len() ==> s[j] != c,
    ensures
        last_index_of(s, c) == i,
    decreases s.len(),
{
    if i == s.len() - 1 {
        assert(s.last() == c);
    } else {
        assert(s.last() != c);
        assert(s.drop_last()[i] == s[i]);
        assert forall|j: int| i < j < s.drop_last().len() implies s.drop_last()[j] != c by {
            assert(s.drop_last()[j] == s[j]);
        }
        lemma_last_index_of_at(s.drop_last(), c, i);
    }
}

pub proof fn lemma_last_index_of_absent(s: Seq<char>, c: char)
    requires
        forall|j: int| 0 <= j < s.len() ==> s[j] != c,
    ensures
        last_index_of(s, c) == -1,
    decreases s.len(),
{
    if s.len() > 0 {
        assert(s.last() != c);
        assert forall|j: int| 0 <= j < s.drop_last().len() implies s.drop_last()[j] != c by {
            assert(s.drop_last()[j] == s[j]);
        }
        lemma_last_index_of_absent(s.drop_last(), c);
    }
}

/// Position of the last occurrence of `c` among the characters of `s`.
pub fn find_last(s: &str, c: char) -> (r: Option<usize>)
    ensures
        (match r {
            Some(i) => 0 <= i < s@.len() && last_index_of(s@, c) == i,
            None => last_index_of(s@, c) == -1,
        }),
{
    let n: usize = s.unicode_len();
    let mut i: usize = n;
    while i > 0
        invariant
            i <= n,
            n == s@.len(),
            forall|j: int| i <= j < n ==> s@[j] != c,
        decreases i,
    {
        i = i - 1;
        if s.get_char(i) == c {
            proof {
                lemma_last_index_of_at(s@, c, i as int);
            }
            return Some(i);
        }
    }
    proof {
        lemma_last_index_of_absent(s@, c);
    }
    None
}

/// The file-name part of `p`: everything after the last `/`.
pub open spec fn file_name_spec(p: Seq<char>) -> Seq<char> {
    p.subrange(last_index_of(p, '/') + 1, p.len() as int)
}

/// The extension of `p`'s file name, or `None` when the file name holds no
/// `.`, or when its only `.` is the leading character.
pub open spec fn extension_spec(p: Seq<char>) -> Option<Seq<char>> {
    let f = file_name_spec(p);
    let d = last_index_of(f, '.');
    if d <= 0 {
        None
    } else {
        Some(f.subrange(d + 1, f.len() as int))
    }
}

/// `p` with its extension replaced by `e`: the part of the file name from its
/// extension dot onward (if any) is cut off, then `.` and `e` are appended.
pub open spec fn with_extension_spec(p: Seq<char>, e: Seq<char>) -> Seq<char> {
    let f = file_name_spec(p);
    let d = last_index_of(f, '.');
    let stem = if d <= 0 {
        p
    } else {
        p.subrange(0, p.len() - f.len() + d)
    };
    stem + seq!['.'] + e
}

/// `dir` and `name` joined with a `/` separator; no separator is doubled and
/// an empty `dir` adds none.
pub open spec fn join_spec(dir: Seq<char>, name: Seq<char>) -> Seq<char> {
    if dir.len() == 0 {
        name
    } else if dir.last() == '/' {
        dir + name
    } else {
        dir + seq!['/'] + name
    }
}

/// An extension usable for matching and replacement: non-empty, and free of
/// the `/` and `.` that the path model gives meaning to.
pub open spec fn ext_wf(e: Seq<char>) -> bool {
    e.len() > 0 && !e.contains('/') && !e.contains('.')
}

/// The position right after the last `/` of `s` (0 when there is none).
fn file_name_start(s: &str) -> (r: usize)
    ensures
        r == last_index_of(s@, '/') + 1,
        r <= s@.len(),
{
    let n: usize = s.unicode_len();
    proof {
        lemma_last_index_of(s@, '/');
    }
    match find_last(s, '/') {
        Some(i) => i + 1,
        None => 0,
    }
}

pub fn file_name_of(p: &str) -> (r: String)
    ensures
        r@ == file_name_spec(p@),
{
    let n: usize = p.unicode_len();
    let start: usize = file_name_start(p);
    p.substring_char(start, n).to_owned()
}

pub fn extension_of(p: &str) -> (r: Option<String>)
    ensures
        (r is Some) == (extension_spec(p@) is Some),
        r is Some ==> r.unwrap()@ == extension_spec(p@).unwrap(),
{
    let n: usize = p.unicode_len();
    let start: usize = file_name_start(p);
    let f: &str = p.substring_char(start, n);
    let fl: usize = f.unicode_len();
    match find_last(f, '.') {
        Some(d) => {
            if d > 0 {
                Some(f.substring_char(d + 1, fl).to_owned())
            } else {
                None
            }
        },
        None => None,
    }
}

/// Whether `p`'s file name carries exactly the extension `e`.
pub fn has_extension(p: &str, e: &str) -> (r: bool)
    ensures
        r == (extension_spec(p@) == Some(e@)),
{
    match extension_of(p) {
        Some(x) => {
            proof {
                assert(extension_spec(p@) == Some(extension_spec(p@).unwrap()));
            }
            str_eq(x.as_str(), e)
        },
        None => false,
    }
}

pub fn with_extension(p: &str, e: &str) -> (r: String)
    ensures
        r@ == with_extension_spec(p@, e@),
{
    let n: usize = p.unicode_len();
    let start: usize = file_name_start(p);
    let f: &str = p.substring_char(start, n);
    let dot = find_last(f, '.');
    let stem: &str = if let Some(d) = dot {
        if d > 0 {
            p.substring_char(0, start + d)
        } else {
            p
        }
    } else {
        p
    };
    let mut r: String = stem.to_owned();
    r.append(".");
    r.append(e);
    proof {
        reveal_strlit(".");
        assert(r@ =~= with_extension_spec(p@, e@));
    }
    r
}

pub fn join(dir: &str, name: &str) -> (r: String)
    ensures
        r@ == join_spec(dir@, name@),
{
    let dl: usize = dir.unicode_len();
    if dl == 0 {
        name.to_owned()
    } else if dir.get_char(dl - 1) == '/' {
        dir.to_owned().concat(name)
    } else {
        let mut r: String = dir.to_owned();
        r.append("/");
        r.append(name);
        proof {
            reveal_strlit("/");
            assert(r@ =~= join_spec(dir@, name@));
        }
        r
    }
}

/// Character-by-character equality of two strings.
pub fn str_eq(a: &str, b: &str) -> (r: bool)
    ensures
        r == (a@ == b@),
{
    let la: usize = a.unicode_len();
    let lb: usize = b.unicode_len();
    if la != lb {
        return false;
    }
    let mut i: usize = 0;
    while i < la
        invariant
            i <= la,
            la == a@.len(),
            la == b@.len(),
            forall|j: int| 0 <= j < i ==> a@[j] == b@[j],
        decreases la - i,
    {
        if s_ne(a, b, i) {
            return false;
        }
        i = i + 1;
    }
    proof {
        assert(a@ =~= b@);
    }
    true
}

/// Whether the characters of `a` and `b` differ at position `i`.
fn s_ne(a: &str, b: &str, i: usize) -> (r: bool)
    requires
        i < a@.len(),
        i < b@.len(),
    ensures
        r == (a@[i as int] != b@[i as int]),
{
    a.get_char(i) != b.get_char(i)
}

/// Whether `e` is usable as an extension (see [`ext_wf`]).
pub fn check_ext(e: &str) -> (r: bool)
    ensures
        r == ext_wf(e@),
{
    let n: usize = e.unicode_len();
    if n == 0 {
        return false;
    }
    let mut i: usize = 0;
    while i < n
        invariant
            i <= n,
            n == e@.len(),
            forall|j: int| 0 <= j < i ==> e@[j] != '/' && e@[j] != '.',
        decreases n - i,
    {
        let c = e.get_char(i);
        if c == '/' || c == '.' {
            assert(e@.contains(c));
            return false;
        }
        i = i + 1;
    }
    assert(!e@.contains('/'));
    assert(!e@.contains('.'));
    true
}

} // verus!
