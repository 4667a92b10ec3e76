//! A string model of file paths: the file name starts after the last
//! slash, and the extension after the last dot of the name, provided that
//! dot is not the name's first character.

use vstd::prelude::*;

use crate::text::rfind_char;

verus! {

/// The index where the file name begins: just after the last `/`, or
/// zero when the path has none.
pub open spec fn name_start(p: Seq<char>) -> int
    decreases p.len(),
{
    if p.len() == 0 {
        0
    } else if p.last() == '/' {
        p.len() as int
    } else {
        name_start(p.drop_last())
    }
}

/// The directory part, trailing slash included.
pub open spec fn dir_prefix(p: Seq<char>) -> Seq<char> {
    p.subrange(0, name_start(p))
}

/// The file name: everything after the last slash.
pub open spec fn file_name_spec(p: Seq<char>) -> Seq<char> {
    p.subrange(name_start(p), p.len() as int)
}

/// The parent directory: the part before the last slash; a path without
/// a slash has the empty parent, and a name directly under the root
/// keeps the root slash.
pub open spec fn parent_spec(p: Seq<char>) -> Seq<char> {
    if name_start(p) == 0 {
        Seq::empty()
    } else if name_start(p) == 1 {
        p.subrange(0, 1)
    } else {
        p.subrange(0, name_start(p) - 1)
    }
}

/// The index of the last dot at or after `from`, scanning backward and
/// stopping at a slash; `-1` when there is none.
pub open spec fn last_dot_from_end(p: Seq<char>) -> int
    decreases p.len(),
{
    if p.len() == 0 {
        -1
    } else if p.last() == '.' {
        p.len() - 1
    } else if p.last() == '/' {
        -1
    } else {
        last_dot_from_end(p.drop_last())
    }
}

/// The index of the dot that begins the extension, or `-1` when the file
/// name has no extension (a dot that starts the name does not count).
pub open spec fn ext_dot(p: Seq<char>) -> int {
    if last_dot_from_end(p) > name_start(p) {
        last_dot_from_end(p)
    } else {
        -1
    }
}

/// The extension, without its dot.
pub open spec fn extension_spec(p: Seq<char>) -> Option<Seq<char>> {
    if ext_dot(p) >= 0 {
        Some(p.subrange(ext_dot(p) + 1, p.len() as int))
    } else {
        None
    }
}

/// The file name with its extension (and the dot) removed.
pub open spec fn stem_spec(p: Seq<char>) -> Seq<char> {
    if ext_dot(p) >= 0 {
        p.subrange(name_start(p), ext_dot(p))
    } else {
        file_name_spec(p)
    }
}

/// The path with its extension replaced by `e`; an empty `e` strips the
/// extension and its dot.
pub open spec fn with_extension_spec(p: Seq<char>, e: Seq<char>) -> Seq<char> {
    let base = if ext_dot(p) >= 0 {
        p.subrange(0, ext_dot(p))
    } else {
        p
    };
    if e.len() == 0 {
        base
    } else {
        base + seq!['.'] + e
    }
}

/// The path with its file name replaced by `n`.
pub open spec fn with_file_name_spec(p: Seq<char>, n: Seq<char>) -> Seq<char> {
    dir_prefix(p) + n
}

pub proof fn lemma_name_start(p: Seq<char>)
    ensures
        0 <= name_start(p) <= p.len(),
        name_start(p) > 0 ==> p[name_start(p) - 1] == '/',
        forall|j: int| name_start(p) <= j < p.len() ==> p[j] != '/',
    decreases p.len(),
{
    if p.len() > 0 && p.last() != '/' {
        lemma_name_start(p.drop_last());
        assert forall|j: int| name_start(p) <= j < p.len() implies p[j] != '/' by {
            if j < p.len() - 1 {
                assert(p.drop_last()[j] == p[j]);
            }
        }
    }
}

pub proof fn lemma_last_dot(p: Seq<char>)
    ensures
        last_dot_from_end(p) < p.len(),
        last_dot_from_end(p) >= 0 ==> p[last_dot_from_end(p)] == '.',
        last_dot_from_end(p) >= 0 ==> forall|j: int|
            last_dot_from_end(p) < j < p.len() ==> p[j] != '.' && p[j] != '/',
        last_dot_from_end(p) < 0 ==> forall|j: int|
            name_start(p) <= j < p.len() ==> p[j] != '.',
    decreases p.len(),
{
    lemma_name_start(p);
    if p.len() == 0 {
    } else if p.last() == '.' {
    } else if p.last() == '/' {
    } else {
        lemma_last_dot(p.drop_last());
        lemma_name_start(p.drop_last());
        if last_dot_from_end(p) >= 0 {
            assert forall|j: int| last_dot_from_end(p) < j < p.len() implies p[j] != '.' && p[j]
                != '/' by {
                if j < p.len() - 1 {
                    assert(p.drop_last()[j] == p[j]);
                }
            }
        } else {
            assert(name_start(p) == name_start(p.drop_last()));
            assert forall|j: int| name_start(p) <= j < p.len() implies p[j] != '.' by {
                if j < p.len() - 1 {
                    assert(p.drop_last()[j] == p[j]);
                }
            }
        }
    }
}

/// Where the file name begins in `s`.
pub fn name_start_exec(s: &str) -> (r: usize)
    ensures
        r == name_start(s@),
{
    proof {
        lemma_name_start(s@);
    }
    let n = s.unicode_len();
    match rfind_char(s, '/') {
        Some(i) => {
            proof {
                if name_start(s@) <= i {
                    assert(s@[i as int] != '/');
                }
            }
            i + 1
        },
        None => {
            proof {
                if name_start(s@) > 0 {
                    assert(s@[name_start(s@) - 1] == '/');
                }
            }
            0
        },
    }
}

/// The index of the extension's dot, if the file name has one.
pub fn ext_dot_exec(s: &str) -> (r: Option<usize>)
    ensures
        r matches Some(i) ==> i == ext_dot(s@),
        r is None ==> ext_dot(s@) == -1,
{
    proof {
        lemma_name_start(s@);
        lemma_last_dot(s@);
    }
    let ns = name_start_exec(s);
    match rfind_char(s, '.') {
        Some(i) => {
            proof {
                if last_dot_from_end(s@) >= 0 {
                    if i < last_dot_from_end(s@) {
                        assert(s@[last_dot_from_end(s@)] == '.');
                    }
                    if i > last_dot_from_end(s@) {
                        if i >= name_start(s@) {
                            assert(s@[i as int] != '.');
                        } else {
                            assert(name_start(s@) > 0);
                            assert(last_dot_from_end(s@) < name_start(s@));
                            assert(s@[name_start(s@) - 1] == '/');
                            assert(i as int != name_start(s@) - 1);
                            assert(s@[i as int] == '.');
                            assert(false);
                        }
                    }
                    assert(i == last_dot_from_end(s@));
                } else {
                    // A dot exists, yet the backward scan found none: the
                    // dot must lie before the file name.
                    if i >= name_start(s@) {
                        assert(s@[i as int] != '.');
                    }
                }
            }
            if i > ns {
                Some(i)
            } else {
                proof {
                    if ext_dot(s@) >= 0 {
                        assert(last_dot_from_end(s@) > name_start(s@));
                        if last_dot_from_end(s@) > i {
                            assert(s@[last_dot_from_end(s@)] != '.');
                        }
                    }
                }
                None
            }
        },
        None => {
            proof {
                if ext_dot(s@) >= 0 {
                    assert(s@[last_dot_from_end(s@)] == '.');
                }
            }
            None
        },
    }
}

/// The file name: everything after the last slash.
pub fn file_name_of(s: &str) -> (r: String)
    ensures
        r@ == file_name_spec(s@),
{
    proof {
        lemma_name_start(s@);
    }
    let ns = name_start_exec(s);
    let n = s.unicode_len();
    String::from_str(s.substring_char(ns, n))
}

/// The parent directory of the path.
pub fn parent_of(s: &str) -> (r: String)
    ensures
        r@ == parent_spec(s@),
{
    proof {
        lemma_name_start(s@);
        reveal_strlit("");
    }
    let ns = name_start_exec(s);
    if ns == 0 {
        let r = String::from_str("");
        proof {
            assert(r@ =~= parent_spec(s@));
        }
        r
    } else if ns == 1 {
        String::from_str(s.substring_char(0, 1))
    } else {
        String::from_str(s.substring_char(0, ns - 1))
    }
}

/// The path with its file name replaced.
pub fn with_file_name(s: &str, n: &str) -> (r: String)
    ensures
        r@ == with_file_name_spec(s@, n@),
{
    proof {
        lemma_name_start(s@);
    }
    let ns = name_start_exec(s);
    let mut r = String::from_str(s.substring_char(0, ns));
    r.append(n);
    r
}

/// The extension of the file name, without its dot.
pub fn extension_of(s: &str) -> (r: Option<String>)
    ensures
        r matches Some(e) ==> extension_spec(s@) == Some(e@),
        r is None ==> extension_spec(s@) is None,
{
    proof {
        lemma_name_start(s@);
        lemma_last_dot(s@);
    }
    let n = s.unicode_len();
    match ext_dot_exec(s) {
        Some(i) => Some(String::from_str(s.substring_char(i + 1, n))),
        None => None,
    }
}

/// The file name with its extension removed.
pub fn file_stem_of(s: &str) -> (r: String)
    ensures
        r@ == stem_spec(s@),
{
    proof {
        lemma_name_start(s@);
        lemma_last_dot(s@);
    }
    let ns = name_start_exec(s);
    let n = s.unicode_len();
    match ext_dot_exec(s) {
        Some(i) => String::from_str(s.substring_char(ns, i)),
        None => String::from_str(s.substring_char(ns, n)),
    }
}

/// The path with its extension replaced by `e`; an empty `e` strips it.
pub fn with_extension(s: &str, e: &str) -> (r: String)
    ensures
        r@ == with_extension_spec(s@, e@),
{
    proof {
        lemma_name_start(s@);
        lemma_last_dot(s@);
        reveal_strlit(".");
    }
    let n = s.unicode_len();
    let mut base = match ext_dot_exec(s) {
        Some(i) => String::from_str(s.substring_char(0, i)),
        None => String::from_str(s),
    };
    if e.unicode_len() == 0 {
        base
    } else {
        base.append(".");
        base.append(e);
        proof {
            assert(base@ =~= with_extension_spec(s@, e@));
        }
        base
    }
}

} // verus!
