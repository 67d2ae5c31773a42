//! Path strings, modelled as `/`-separated text: the file name, its
//! extension, the parent directory, and joining. The engine carries
//! paths as plain strings; only the host environment touches the
//! filesystem they name.

use vstd::prelude::*;

verus! {

/// The index of the last occurrence of `c` in `s`, or -1 if there is
/// none.
pub open spec fn last_index_of(s: Seq<char>, c: char) -> int
    decreases s.len(),
{
    if s.len() == 0 {
        -1
    } else if s.last() == c {
        s.len() - 1
    } else {
        last_index_of(s.drop_last(), c)
    }
}

pub proof fn lemma_last_index_bounds(s: Seq<char>, c: char)
    ensures
        -1 <= last_index_of(s, c) < s.len(),
        last_index_of(s, c) >= 0 ==> s[last_index_of(s, c)] == c,
        forall|k: int| last_index_of(s, c) < k < s.len() ==> s[k] != c,
    decreases s.len(),
{
    if s.len() > 0 && s.last() != c {
        lemma_last_index_bounds(s.drop_last(), c);
        assert forall|k: int| last_index_of(s, c) < k < s.len() implies s[k] != c by {
            if k < s.len() - 1 {
                assert(s[k] == s.drop_last()[k]);
            }
        }
    }
}

/// If `m` holds `c` and nothing after `m` does, then `m` is the last
/// occurrence; if nothing holds `c` at all, there is none.
pub proof fn lemma_last_index_is(s: Seq<char>, c: char, m: int)
    requires
        -1 <= m < s.len(),
        m >= 0 ==> s[m] == c,
        forall|k: int| m < k < s.len() ==> s[k] != c,
    ensures
        last_index_of(s, c) == m,
    decreases s.len(),
{
    if s.len() > 0 && s.last() != c {
        lemma_last_index_is(s.drop_last(), c, m);
    }
}

/// The final component of a path: everything after its last slash.
pub open spec fn file_name_of(p: Seq<char>) -> Seq<char> {
    p.skip(last_index_of(p, '/') + 1)
}

/// The extension of a path's file name: what follows the last dot,
/// unless that dot starts the name (a hidden file) or the name holds
/// no dot at all.
pub open spec fn extension_of_spec(p: Seq<char>) -> Option<Seq<char>> {
    let name = file_name_of(p);
    let d = last_index_of(name, '.');
    if d <= 0 {
        None
    } else {
        Some(name.skip(d + 1))
    }
}

/// Finds the last occurrence of `c`, matching `last_index_of`; `None`
/// stands for "absent".
fn rfind_char(s: &str, c: char) -> (r: Option<usize>)
    ensures
        match r {
            Some(i) => i < s@.len() && last_index_of(s@, c) == i,
            None => last_index_of(s@, c) == -1,
        },
{
    let n = s.unicode_len();
    let mut j: usize = n;
    while j > 0
        invariant
            0 <= j <= n,
            n == s@.len(),
            forall|k: int| j <= k < n ==> s@[k] != c,
        decreases j,
    {
        if s.get_char(j - 1) == c {
            proof {
                lemma_last_index_is(s@, c, j - 1);
            }
            return Some(j - 1);
        }
        j = j - 1;
    }
    proof {
        lemma_last_index_is(s@, c, -1);
    }
    None
}

/// The extension of the path's file name, matching
/// `extension_of_spec`.
pub fn extension_of(path: &str) -> (r: Option<String>)
    ensures
        match r {
            Some(e) => extension_of_spec(path@) matches Some(v) && e@ == v,
            None => extension_of_spec(path@) is None,
        },
{
    let n = path.unicode_len();
    let start = match rfind_char(path, '/') {
        Some(i) => i + 1,
        None => 0,
    };
    let name = path.substring_char(start, n);
    proof {
        lemma_last_index_bounds(path@, '/');
        assert(name@ =~= file_name_of(path@));
    }
    match rfind_char(name, '.') {
        Some(d) => {
            if d == 0 {
                None
            } else {
                let nn = name.unicode_len();
                let ext = String::from_str(name.substring_char(d + 1, nn));
                proof {
                    lemma_last_index_bounds(name@, '.');
                    assert(ext@ =~= name@.skip(d + 1));
                }
                Some(ext)
            }
        },
        None => None,
    }
}

/// The directory a path lies in: the path up to its last slash; the
/// root keeps itself as `"/"`, and a bare name has no parent.
pub open spec fn parent_of_spec(p: Seq<char>) -> Option<Seq<char>> {
    let i = last_index_of(p, '/');
    if i == -1 {
        None
    } else if i == 0 {
        if p.len() == 1 {
            None
        } else {
            Some(seq!['/'])
        }
    } else {
        Some(p.take(i))
    }
}

/// The parent directory of a path, matching `parent_of_spec`.
pub fn parent_of(path: &str) -> (r: Option<String>)
    ensures
        match r {
            Some(d) => parent_of_spec(path@) matches Some(v) && d@ == v,
            None => parent_of_spec(path@) is None,
        },
{
    proof {
        reveal_strlit("/");
    }
    match rfind_char(path, '/') {
        Some(i) => {
            if i == 0 {
                if path.unicode_len() == 1 {
                    None
                } else {
                    Some(String::from_str("/"))
                }
            } else {
                let d = String::from_str(path.substring_char(0, i));
                proof {
                    lemma_last_index_bounds(path@, '/');
                    assert(d@ =~= path@.take(i as int));
                }
                Some(d)
            }
        },
        None => None,
    }
}

/// A directory path joined with a child name: a slash between them,
/// unless the directory already ends with one.
pub open spec fn join_spec(dir: Seq<char>, name: Seq<char>) -> Seq<char> {
    if dir.len() > 0 && dir.last() == '/' {
        dir + name
    } else {
        dir + seq!['/'] + name
    }
}

/// Joins a directory path and a child name, matching `join_spec`.
pub fn join_path(dir: &str, name: &str) -> (r: String)
    ensures
        r@ == join_spec(dir@, name@),
{
    proof {
        reveal_strlit("/");
    }
    let n = dir.unicode_len();
    let mut r = String::from_str(dir);
    if n == 0 || !(dir.get_char(n - 1) == '/') {
        r.append("/");
    }
    r.append(name);
    proof {
        assert(r@ =~= join_spec(dir@, name@));
    }
    r
}

} // verus!
