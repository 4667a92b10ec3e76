//! A parser for the decoder's listing output: it finds the first entry
//! that is a real file, to give the password test a cheap target.
//!
//! A listing line is `<10 chars> <8 chars> <5-char attributes>` followed
//! by a space-padded size column, an optional packed-size column, and
//! the entry name; the entry table is fenced by dashed delimiter lines.

use vstd::prelude::*;

use crate::sevenz::trim_exec;
use crate::sevenz::trim_spec;
use crate::text::is_digit_char;
use crate::text::split_on;
use crate::text::split_str;
use crate::text::strip_cr;
use crate::text::strip_cr_exec;

verus! {

/// The first position at or after `i` that is not a space.
pub open spec fn skip_spaces(l: Seq<char>, i: int) -> int
    decreases l.len() - i,
{
    if i < 0 || i >= l.len() {
        l.len() as int
    } else if l[i] == ' ' {
        skip_spaces(l, i + 1)
    } else {
        i
    }
}

/// The first position at or after `i` that is not a digit.
pub open spec fn skip_digits(l: Seq<char>, i: int) -> int
    decreases l.len() - i,
{
    if i < 0 || i >= l.len() {
        l.len() as int
    } else if is_digit_char(l[i]) {
        skip_digits(l, i + 1)
    } else {
        i
    }
}

fn skip_spaces_exec(l: &str, i: usize) -> (r: usize)
    requires
        i <= l@.len(),
    ensures
        r == skip_spaces(l@, i as int),
        i <= r <= l@.len(),
    decreases l@.len() - i,
{
    let n = l.unicode_len();
    if i >= n {
        n
    } else if l.get_char(i) == ' ' {
        skip_spaces_exec(l, i + 1)
    } else {
        i
    }
}

fn skip_digits_exec(l: &str, i: usize) -> (r: usize)
    requires
        i <= l@.len(),
    ensures
        r == skip_digits(l@, i as int),
        i <= r <= l@.len(),
    decreases l@.len() - i,
{
    let n = l.unicode_len();
    if i >= n {
        n
    } else {
        let c = l.get_char(i);
        let cv = c as u32;
        if 48 <= cv && cv <= 57 {
            skip_digits_exec(l, i + 1)
        } else {
            i
        }
    }
}

/// A fence around the entry table: nineteen dashes, a space, a dash.
pub open spec fn is_delim_line(l: Seq<char>) -> bool {
    l.len() >= 21 && (forall|i: int| 0 <= i < 19 ==> l[i] == '-') && l[19] == ' ' && l[20] == '-'
}

fn is_delim_line_exec(l: &str) -> (r: bool)
    ensures
        r == is_delim_line(l@),
{
    let n = l.unicode_len();
    if n < 21 {
        return false;
    }
    let mut i: usize = 0;
    while i < 19
        invariant
            n == l@.len() >= 21,
            0 <= i <= 19,
            forall|j: int| 0 <= j < i ==> l@[j] == '-',
        decreases 19 - i,
    {
        if l.get_char(i) != '-' {
            return false;
        }
        i = i + 1;
    }
    l.get_char(19) == ' ' && l.get_char(20) == '-'
}

/// The file name a listing line contributes: the line must carry the
/// fixed-width date, time, and attribute columns, a non-zero size, and a
/// name; directory entries (attributes starting with `D`) and
/// zero-sized entries yield nothing.
pub open spec fn listing_entry(l: Seq<char>) -> Option<Seq<char>> {
    if l.len() < 26 || l[10] != ' ' || l[19] != ' ' || l[25] != ' ' || l[20] == 'D' {
        None
    } else {
        let j = skip_spaces(l, 25);
        if j >= l.len() || !is_digit_char(l[j]) {
            None
        } else {
            let k = skip_digits(l, j);
            let m = skip_spaces(l, k);
            if m == k || l.subrange(j, k) == seq!['0'] {
                None
            } else if m < l.len() && is_digit_char(l[m]) && skip_digits(l, m) + 2 <= l.len() && l[
                skip_digits(l, m)
            ] == ' ' && l[skip_digits(l, m) + 1] == ' ' && skip_digits(l, m) + 2 < l.len() {
                Some(trim_spec(l.subrange(skip_digits(l, m) + 2, l.len() as int)))
            } else if m - k >= 3 && m < l.len() {
                Some(trim_spec(l.subrange(m, l.len() as int)))
            } else {
                None
            }
        }
    }
}

/// Parses one listing line.
fn parse_entry_line(l: &str) -> (r: Option<String>)
    ensures
        r matches Some(s) ==> listing_entry(l@) == Some(s@),
        r is None ==> listing_entry(l@) is None,
{
    let n = l.unicode_len();
    if n < 26 || l.get_char(10) != ' ' || l.get_char(19) != ' ' || l.get_char(25) != ' '
        || l.get_char(20) == 'D' {
        return None;
    }
    let j = skip_spaces_exec(l, 25);
    if j >= n {
        return None;
    }
    let cj = l.get_char(j) as u32;
    if cj < 48 || cj > 57 {
        return None;
    }
    let k = skip_digits_exec(l, j);
    let m = skip_spaces_exec(l, k);
    if m == k {
        return None;
    }
    if k == j + 1 && l.get_char(j) == '0' {
        proof {
            assert(l@.subrange(j as int, k as int) =~= seq!['0']);
        }
        return None;
    }
    proof {
        if l@.subrange(j as int, k as int) == seq!['0'] {
            assert(l@.subrange(j as int, k as int).len() == 1);
            assert(l@.subrange(j as int, k as int)[0] == l@[j as int]);
        }
    }
    if m < n {
        let cm = l.get_char(m) as u32;
        if 48 <= cm && cm <= 57 {
            let q = skip_digits_exec(l, m);
            if n - q > 2 && l.get_char(q) == ' ' && l.get_char(q + 1) == ' ' {
                return Some(trim_exec(l.substring_char(q + 2, n)));
            }
        }
    }
    if m - k >= 3 && m < n {
        return Some(trim_exec(l.substring_char(m, n)));
    }
    None
}

/// The first real file among the listing's lines: delimiter lines fence
/// the entry table, and the first in-table line that names a non-empty
/// file wins; an exhausted listing yields the empty name.
pub open spec fn first_file_lines(ls: Seq<Seq<char>>, in_list: bool) -> Seq<char>
    decreases ls.len(),
{
    if ls.len() == 0 {
        Seq::empty()
    } else if is_delim_line(ls[0]) {
        first_file_lines(ls.drop_first(), !in_list)
    } else if in_list && listing_entry(ls[0]) is Some {
        listing_entry(ls[0]).unwrap()
    } else {
        first_file_lines(ls.drop_first(), in_list)
    }
}

/// What scanning a whole listing yields.
pub open spec fn find_first_file_spec(stdout: Seq<char>) -> Seq<char> {
    first_file_lines(split_on(stdout, '\n').map_values(|l: Seq<char>| strip_cr(l)), false)
}

/// Finds the first real file named by the decoder's listing output; a
/// failed listing (file names encrypted, say) yields the empty name.
pub fn find_first_file(success: bool, stdout: &str) -> (r: String)
    ensures
        success ==> r@ == find_first_file_spec(stdout@),
        !success ==> r@ == Seq::<char>::empty(),
{
    proof {
        reveal_strlit("");
    }
    if !success {
        return String::from_str("");
    }
    let raw_lines = split_str(stdout, '\n');
    let ghost lns = split_on(stdout@, '\n').map_values(|l: Seq<char>| strip_cr(l));
    let mut in_list = false;
    let mut i: usize = 0;
    proof {
        assert(lns.subrange(0, lns.len() as int) =~= lns);
    }
    while i < raw_lines.len()
        invariant
            success,
            0 <= i <= lns.len(),
            raw_lines@.map_values(|l: String| l@) == split_on(stdout@, '\n'),
            lns == split_on(stdout@, '\n').map_values(|l: Seq<char>| strip_cr(l)),
            find_first_file_spec(stdout@) == first_file_lines(
                lns.subrange(i as int, lns.len() as int),
                in_list,
            ),
        decreases lns.len() - i,
    {
        let ghost tail = lns.subrange(i as int, lns.len() as int);
        proof {
            assert(tail[0] == lns[i as int]);
            assert(tail.drop_first() =~= lns.subrange(i + 1, lns.len() as int));
        }
        let line = strip_cr_exec(raw_lines[i].as_str());
        if is_delim_line_exec(line.as_str()) {
            in_list = !in_list;
        } else if in_list {
            match parse_entry_line(line.as_str()) {
                Some(name) => {
                    return name;
                },
                None => {},
            }
        }
        i = i + 1;
    }
    proof {
        assert(lns.subrange(lns.len() as int, lns.len() as int) =~= Seq::<Seq<char>>::empty());
    }
    String::from_str("")
}

} // verus!
