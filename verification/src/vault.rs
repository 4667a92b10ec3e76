//! The password vault: a ranked list of remembered passwords with a
//! bounded most-recently-used cache, and the promotion algorithm that
//! reorders the ranking after a successful guess.

use vstd::prelude::*;

use crate::text::dec_digits;
use crate::text::find_char;
use crate::text::find_from;
use crate::text::parse_u32;
use crate::text::parse_u32_spec;
use crate::text::split_on;
use crate::text::split_str;
use crate::text::strip_cr;
use crate::text::strip_cr_exec;
use crate::text::u32_to_string;
use crate::text::u64_to_string;

verus! {

/// The capacity of the recency cache.
pub const VAULT_CACHE_SIZE: usize = 3;

/// One remembered password and how often it has succeeded.
pub struct Record {
    pub freq: u32,
    pub pwd: String,
}

/// The in-memory vault: ranked records, most frequent first, plus the
/// indices of the records that succeeded most recently.
pub struct VaultData {
    /// Indices into `records`, most recently successful first.
    pub cache: Vec<usize>,
    /// The ranked password records; the file's rank order.
    pub records: Vec<Record>,
}

/// Records are ordered by frequency, descending.
pub open spec fn sorted_by_freq(rs: Seq<Record>) -> bool {
    forall|i: int, j: int| 0 <= i < j < rs.len() ==> #[trigger] rs[i].freq >= #[trigger] rs[j].freq
}

/// `s` with the first occurrence of `v` dropped.
pub open spec fn remove_first(s: Seq<usize>, v: usize) -> Seq<usize>
    decreases s.len(),
{
    if s.len() == 0 {
        s
    } else if s[0] == v {
        s.drop_first()
    } else {
        seq![s[0]] + remove_first(s.drop_first(), v)
    }
}

/// `s` cut down to the cache capacity.
pub open spec fn capped(s: Seq<usize>) -> Seq<usize> {
    if s.len() <= VAULT_CACHE_SIZE {
        s
    } else {
        s.subrange(0, VAULT_CACHE_SIZE as int)
    }
}

/// The recency cache after a success at record index `j`: any old entry
/// for `j` is dropped, `j` moves to the front, and the result is cut to
/// capacity.
pub open spec fn cache_after(old_c: Seq<usize>, j: usize) -> Seq<usize> {
    capped(seq![j] + remove_first(old_c, j))
}

/// How the record list changes when the record at `i` is promoted: its
/// frequency grows by one and it moves up to `j`, the highest slot whose
/// predecessor's frequency still exceeds the new value; everything else
/// keeps its relative order.
pub open spec fn promote_shape(old_rs: Seq<Record>, new_rs: Seq<Record>, i: int, j: int) -> bool {
    let f = old_rs[i].freq + 1;
    &&& 0 <= j <= i < old_rs.len()
    &&& new_rs.len() == old_rs.len()
    &&& new_rs[j].freq == f
    &&& new_rs[j].pwd == old_rs[i].pwd
    &&& (forall|k: int| 0 <= k < j ==> new_rs[k] == old_rs[k])
    &&& (forall|k: int| j < k <= i ==> new_rs[k] == old_rs[k - 1])
    &&& (forall|k: int| i < k < old_rs.len() ==> new_rs[k] == old_rs[k])
    &&& (j == 0 || old_rs[j - 1].freq > f)
    &&& (forall|k: int| j <= k < i ==> #[trigger] old_rs[k].freq <= f)
}

impl VaultData {
    /// Every cache entry points at a record, and no record is cached twice.
    pub open spec fn wf(self) -> bool {
        &&& self.cache@.len() <= VAULT_CACHE_SIZE
        &&& (forall|i: int| 0 <= i < self.cache@.len() ==> (#[trigger] self.cache@[i]) < self.records@.len())
        &&& (forall|i: int, j: int| 0 <= i < j < self.cache@.len() ==> self.cache@[i] != self.cache@[j])
    }

    /// Promotes the record at `i` after a successful guess: bumps its
    /// frequency by one, moves it ahead of every equal-or-lower-frequency
    /// predecessor (ties break toward the recent record), and installs its
    /// new index at the front of the recency cache.
    pub fn update(&mut self, i: usize)
        requires
            old(self).wf(),
            i < old(self).records@.len(),
            old(self).records@[i as int].freq < u32::MAX,
        ensures
            final(self).wf(),
            final(self).records@.len() == old(self).records@.len(),
            exists|j: usize|
                #[trigger] promote_shape(old(self).records@, final(self).records@, i as int, j as int)
                    && final(self).cache@ == cache_after(old(self).cache@, j),
            sorted_by_freq(old(self).records@) ==> sorted_by_freq(final(self).records@),
    {
        let ghost old_rs = self.records@;
        let f: u32 = self.records[i].freq + 1;

        // Find the slot the promoted record moves up to.
        let mut j: usize = i;
        while j > 0 && self.records[j - 1].freq <= f
            invariant
                0 <= j <= i < self.records@.len(),
                self.records@ == old_rs,
                forall|k: int| j <= k < i ==> #[trigger] old_rs[k].freq <= f,
                f == old_rs[i as int].freq + 1,
            decreases j,
        {
            j = j - 1;
        }

        let mut rec = self.records.remove(i);
        rec.freq = f;
        self.records.insert(j, rec);
        proof {
            let new_rs = self.records@;
            assert forall|k: int| 0 <= k < j implies new_rs[k] == old_rs[k] by {
                assert(new_rs[k] == old_rs.remove(i as int)[k]);
            }
            assert forall|k: int| j < k <= i implies new_rs[k] == old_rs[k - 1] by {
                assert(new_rs[k] == old_rs.remove(i as int)[k - 1]);
            }
            assert forall|k: int| i < k < old_rs.len() implies new_rs[k] == old_rs[k] by {
                assert(new_rs[k] == old_rs.remove(i as int)[k - 1]);
            }
            assert(promote_shape(old_rs, new_rs, i as int, j as int));
            if sorted_by_freq(old_rs) {
                assert forall|a: int, b: int| 0 <= a < b < new_rs.len() implies new_rs[a].freq
                    >= new_rs[b].freq by {
                    if a == j && j > 0 {
                        assert(old_rs[j - 1].freq > f);
                    }
                    if b == j && j > 0 {
                        assert(old_rs[a].freq >= old_rs[j - 1].freq);
                    }
                }
            }
        }

        // Move the promoted record's new index to the front of the cache.
        let ghost old_c = self.cache@;
        let mut rest: Vec<usize> = Vec::new();
        let mut p: usize = 0;
        let mut found = false;
        proof {
            assert(old_c.subrange(0, old_c.len() as int) =~= old_c);
            assert(rest@ + remove_first(old_c, j) =~= remove_first(old_c, j));
            assert(rest@ =~= old_c.subrange(0, 0));
        }
        while p < self.cache.len()
            invariant
                0 <= p <= self.cache@.len(),
                self.cache@ == old_c,
                remove_first(old_c, j) == if found {
                    rest@ + old_c.subrange(p as int, old_c.len() as int)
                } else {
                    rest@ + remove_first(old_c.subrange(p as int, old_c.len() as int), j)
                },
                !found ==> rest@ == old_c.subrange(0, p as int),
                found ==> rest@.len() == p - 1,
            decreases self.cache@.len() - p,
        {
            let x = self.cache[p];
            proof {
                let tail = old_c.subrange(p as int, old_c.len() as int);
                let tail2 = old_c.subrange(p + 1, old_c.len() as int);
                assert(tail.drop_first() =~= tail2);
                assert(tail[0] == x);
            }
            if x == j && !found {
                found = true;
            } else {
                proof {
                    let tail = old_c.subrange(p as int, old_c.len() as int);
                    let tail2 = old_c.subrange(p + 1, old_c.len() as int);
                    if found {
                        assert(rest@.push(x) + tail2 =~= rest@ + tail);
                    } else {
                        assert(rest@.push(x) + remove_first(tail2, j) =~= rest@ + (seq![x]
                            + remove_first(tail2, j)));
                        assert(rest@.push(x) =~= old_c.subrange(0, p + 1));
                    }
                }
                rest.push(x);
            }
            p = p + 1;
        }
        proof {
            assert(old_c.subrange(old_c.len() as int, old_c.len() as int)
                =~= Seq::<usize>::empty());
            assert(rest@ + Seq::<usize>::empty() =~= rest@);
            if !found {
                assert(remove_first(Seq::<usize>::empty(), j) =~= Seq::<usize>::empty());
            }
            assert(remove_first(old_c, j) == rest@);
        }

        let mut new_cache: Vec<usize> = Vec::new();
        new_cache.push(j);
        let mut q: usize = 0;
        proof {
            assert(new_cache@ =~= (seq![j] + rest@.subrange(0, 0)));
        }
        while q < rest.len() && new_cache.len() < VAULT_CACHE_SIZE
            invariant
                0 <= q <= rest@.len(),
                new_cache@.len() == q + 1,
                new_cache@.len() <= VAULT_CACHE_SIZE,
                new_cache@ == seq![j] + rest@.subrange(0, q as int),
                q + 1 < VAULT_CACHE_SIZE || q == rest@.len() || new_cache@.len()
                    == VAULT_CACHE_SIZE,
            decreases rest@.len() - q,
        {
            proof {
                assert((seq![j] + rest@.subrange(0, q as int)).push(rest@[q as int]) =~= seq![j]
                    + rest@.subrange(0, q + 1));
            }
            new_cache.push(rest[q]);
            q = q + 1;
        }
        proof {
            let c2 = seq![j] + rest@;
            if q == rest@.len() {
                assert(rest@.subrange(0, q as int) =~= rest@);
                assert(new_cache@ == c2);
                assert(capped(c2) == c2);
            } else {
                assert(new_cache@.len() == VAULT_CACHE_SIZE);
                assert(new_cache@ =~= c2.subrange(0, VAULT_CACHE_SIZE as int));
            }
            assert(new_cache@ == cache_after(old_c, j));
        }
        self.cache = new_cache;

        proof {
            lemma_remove_first_sub(old_c, j);
            lemma_remove_first_unique(old_c, j);
            let rem = remove_first(old_c, j);
            // Well-formedness of the new cache follows from the old one's.
            assert forall|a: int| 0 <= a < self.cache@.len() implies (#[trigger] self.cache@[a])
                < self.records@.len() by {
                if a > 0 {
                    assert(rem[a - 1] == self.cache@[a]);
                }
            }
            assert forall|a: int, b: int| 0 <= a < b < self.cache@.len() implies self.cache@[a]
                != self.cache@[b] by {
                if a > 0 {
                    assert(rem[a - 1] == self.cache@[a]);
                    assert(rem[b - 1] == self.cache@[b]);
                } else {
                    assert(rem[b - 1] == self.cache@[b]);
                }
            }
        }
    }
}

/// Every element of `remove_first(s, v)` comes from `s`.
proof fn lemma_remove_first_sub(s: Seq<usize>, v: usize)
    ensures
        forall|a: int|
            0 <= a < remove_first(s, v).len() ==> exists|b: int|
                0 <= b < s.len() && s[b] == #[trigger] remove_first(s, v)[a],
    decreases s.len(),
{
    if s.len() == 0 {
    } else if s[0] == v {
        assert forall|a: int| 0 <= a < remove_first(s, v).len() implies exists|b: int|
            0 <= b < s.len() && s[b] == #[trigger] remove_first(s, v)[a] by {
            assert(s[a + 1] == remove_first(s, v)[a]);
        }
    } else {
        let t = s.drop_first();
        lemma_remove_first_sub(t, v);
        assert forall|a: int| 0 <= a < remove_first(s, v).len() implies exists|b: int|
            0 <= b < s.len() && s[b] == #[trigger] remove_first(s, v)[a] by {
            if a == 0 {
                assert(s[0] == remove_first(s, v)[0]);
            } else {
                assert(remove_first(s, v)[a] == remove_first(t, v)[a - 1]);
                let b = choose|b: int| 0 <= b < t.len() && t[b] == remove_first(t, v)[a - 1];
                assert(s[b + 1] == t[b]);
            }
        }
    }
}

/// If `s` has no duplicates, dropping the first occurrence of `v` leaves
/// no element equal to `v`, and the rest stay pairwise distinct.
proof fn lemma_remove_first_unique(s: Seq<usize>, v: usize)
    requires
        forall|a: int, b: int| 0 <= a < b < s.len() ==> s[a] != s[b],
    ensures
        forall|a: int| 0 <= a < remove_first(s, v).len() ==> #[trigger] remove_first(s, v)[a] != v,
        forall|a: int, b: int|
            0 <= a < b < remove_first(s, v).len() ==> #[trigger] remove_first(s, v)[a]
                != #[trigger] remove_first(s, v)[b],
    decreases s.len(),
{
    if s.len() == 0 {
    } else {
        let t = s.drop_first();
        assert forall|a: int, b: int| 0 <= a < b < t.len() implies t[a] != t[b] by {
            assert(s[a + 1] == t[a]);
            assert(s[b + 1] == t[b]);
        }
        if s[0] == v {
            assert forall|a: int| 0 <= a < remove_first(s, v).len() implies #[trigger] remove_first(
                s,
                v,
            )[a] != v by {
                assert(s[a + 1] == remove_first(s, v)[a]);
                assert(s[0] != s[a + 1]);
            }
        } else {
            lemma_remove_first_unique(t, v);
            lemma_remove_first_sub(t, v);
            let r = remove_first(s, v);
            let rt = remove_first(t, v);
            assert forall|a: int| 0 <= a < r.len() implies #[trigger] r[a] != v by {
                if a > 0 {
                    assert(r[a] == rt[a - 1]);
                }
            }
            assert forall|a: int, b: int| 0 <= a < b < r.len() implies #[trigger] r[a]
                != #[trigger] r[b] by {
                assert(r[b] == rt[b - 1]);
                if a == 0 {
                    let w = choose|w: int| 0 <= w < t.len() && t[w] == rt[b - 1];
                    assert(s[w + 1] == t[w]);
                    assert(s[0] != s[w + 1]);
                } else {
                    assert(r[a] == rt[a - 1]);
                }
            }
        }
    }
}

/// What one record line holds: a decimal frequency, the first comma, and
/// the password verbatim (later commas belong to the password).
pub open spec fn parse_record_line(l: Seq<char>) -> Option<(u32, Seq<char>)> {
    let i = find_from(l, ',', 0);
    if i < l.len() && parse_u32_spec(l.subrange(0, i)) is Some {
        Some((parse_u32_spec(l.subrange(0, i)).unwrap(), l.subrange(i + 1, l.len() as int)))
    } else {
        None
    }
}

/// The records read from a sequence of lines; lines that are not a valid
/// record line are skipped.
pub open spec fn records_of_lines(ls: Seq<Seq<char>>) -> Seq<(u32, Seq<char>)>
    decreases ls.len(),
{
    if ls.len() == 0 {
        Seq::empty()
    } else {
        match parse_record_line(ls[0]) {
            Some(p) => seq![p] + records_of_lines(ls.drop_first()),
            None => records_of_lines(ls.drop_first()),
        }
    }
}

/// The first `k` integers among the given pieces; pieces that do not
/// parse are skipped.
pub open spec fn ints_take(ts: Seq<Seq<char>>, k: int) -> Seq<u32>
    decreases ts.len(),
{
    if ts.len() == 0 || k <= 0 {
        Seq::empty()
    } else {
        match parse_u32_spec(ts[0]) {
            Some(v) => seq![v] + ints_take(ts.drop_first(), k - 1),
            None => ints_take(ts.drop_first(), k),
        }
    }
}

/// Keeps the entries that index one of `n` records, dropping duplicates;
/// `seen` carries the entries already kept.
pub open spec fn dedup_valid(raw: Seq<u32>, n: int, seen: Seq<usize>) -> Seq<usize>
    decreases raw.len(),
{
    if raw.len() == 0 {
        Seq::empty()
    } else {
        let x = raw[0] as usize;
        if (raw[0] as int) < n && !seen.contains(x) {
            seq![x] + dedup_valid(raw.drop_first(), n, seen.push(x))
        } else {
            dedup_valid(raw.drop_first(), n, seen)
        }
    }
}

/// The lines of a vault file: split on newlines, trailing carriage
/// returns dropped.
pub open spec fn vault_lines(text: Seq<char>) -> Seq<Seq<char>> {
    split_on(text, '\n').map_values(|l: Seq<char>| strip_cr(l))
}

/// The record pairs a parsed vault holds.
pub open spec fn vault_records_of(text: Seq<char>) -> Seq<(u32, Seq<char>)> {
    records_of_lines(vault_lines(text).drop_first())
}

/// The recency cache a parsed vault holds, given its record count.
pub open spec fn vault_cache_of(text: Seq<char>, n: int) -> Seq<usize> {
    dedup_valid(
        ints_take(split_on(vault_lines(text)[0], ' '), VAULT_CACHE_SIZE as int),
        n,
        Seq::empty(),
    )
}

proof fn lemma_ints_take_len(ts: Seq<Seq<char>>, k: int)
    ensures
        ints_take(ts, k).len() <= (if k >= 0 { k } else { 0 }),
    decreases ts.len(),
{
    if ts.len() == 0 || k <= 0 {
    } else {
        match parse_record_line(ts[0]) {
            _ => {
                lemma_ints_take_len(ts.drop_first(), k - 1);
                lemma_ints_take_len(ts.drop_first(), k);
            },
        }
    }
}

proof fn lemma_dedup_valid(raw: Seq<u32>, n: int, seen: Seq<usize>)
    ensures
        dedup_valid(raw, n, seen).len() <= raw.len(),
        forall|a: int|
            0 <= a < dedup_valid(raw, n, seen).len() ==> (#[trigger] dedup_valid(raw, n, seen)[a]
                as int) < n,
        forall|a: int|
            0 <= a < dedup_valid(raw, n, seen).len() ==> !seen.contains(
                #[trigger] dedup_valid(raw, n, seen)[a],
            ),
        forall|a: int, b: int|
            0 <= a < b < dedup_valid(raw, n, seen).len() ==> #[trigger] dedup_valid(raw, n, seen)[a]
                != #[trigger] dedup_valid(raw, n, seen)[b],
    decreases raw.len(),
{
    if raw.len() == 0 {
    } else {
        let x = raw[0] as usize;
        let d = dedup_valid(raw, n, seen);
        if (raw[0] as int) < n && !seen.contains(x) {
            lemma_dedup_valid(raw.drop_first(), n, seen.push(x));
            let dt = dedup_valid(raw.drop_first(), n, seen.push(x));
            assert forall|a: int| 0 <= a < d.len() implies !seen.contains(#[trigger] d[a]) by {
                if a > 0 {
                    assert(d[a] == dt[a - 1]);
                    assert(!seen.push(x).contains(dt[a - 1]));
                    if seen.contains(dt[a - 1]) {
                        let w = choose|w: int| 0 <= w < seen.len() && seen[w] == dt[a - 1];
                        assert(seen.push(x)[w] == dt[a - 1]);
                    }
                }
            }
            assert forall|a: int, b: int| 0 <= a < b < d.len() implies #[trigger] d[a]
                != #[trigger] d[b] by {
                assert(d[b] == dt[b - 1]);
                if a == 0 {
                    assert(!seen.push(x).contains(dt[b - 1]));
                    assert(seen.push(x)[seen.len() as int] == x);
                    if dt[b - 1] == x {
                        assert(seen.push(x).contains(dt[b - 1]));
                    }
                } else {
                    assert(d[a] == dt[a - 1]);
                }
            }
        } else {
            lemma_dedup_valid(raw.drop_first(), n, seen);
        }
    }
}

/// True of a vector and value exactly when the value occurs.
pub fn vec_contains_usize(v: &Vec<usize>, x: usize) -> (r: bool)
    ensures
        r == v@.contains(x),
{
    let mut i: usize = 0;
    while i < v.len()
        invariant
            0 <= i <= v@.len(),
            forall|j: int| 0 <= j < i ==> v@[j] != x,
        decreases v@.len() - i,
    {
        if v[i] == x {
            return true;
        }
        i = i + 1;
    }
    false
}

/// Parses vault file text: the first line is the recency cache (up to
/// three unsigned integers; unparsable, out-of-range, and duplicate
/// entries are skipped), and every later `frequency,password` line is a
/// record, in file order.
pub fn parse_vault(text: &str) -> (d: VaultData)
    ensures
        d.wf(),
        d.records@.map_values(|r: Record| (r.freq, r.pwd@)) == vault_records_of(text@),
        d.cache@ == vault_cache_of(text@, d.records@.len() as int),
{
    let raw_lines = split_str(text, '\n');
    let mut lines: Vec<String> = Vec::new();
    let mut i: usize = 0;
    while i < raw_lines.len()
        invariant
            0 <= i <= raw_lines@.len(),
            raw_lines@.map_values(|l: String| l@) == split_on(text@, '\n'),
            lines@.map_values(|l: String| l@) =~= split_on(text@, '\n').map_values(
                |l: Seq<char>| strip_cr(l),
            ).subrange(0, i as int),
        decreases raw_lines@.len() - i,
    {
        let stripped = strip_cr_exec(raw_lines[i].as_str());
        proof {
            let m = split_on(text@, '\n').map_values(|l: Seq<char>| strip_cr(l));
            assert((lines@.push(stripped)).map_values(|l: String| l@) =~= lines@.map_values(
                |l: String| l@,
            ).push(stripped@));
            assert(lines@.map_values(|l: String| l@).push(stripped@) =~= m.subrange(0, i + 1));
        }
        lines.push(stripped);
        i = i + 1;
    }
    let ghost lns = vault_lines(text@);
    proof {
        assert(lines@.map_values(|l: String| l@) =~= lns);
        assert(split_on(text@, '\n').len() > 0);
    }

    // Records: every line after the first.
    let mut records: Vec<Record> = Vec::new();
    let mut li: usize = 1;
    proof {
        assert(lns.subrange(1, lns.len() as int) =~= lns.drop_first());
        assert(records@.map_values(|r: Record| (r.freq, r.pwd@)) + records_of_lines(
            lns.drop_first(),
        ) =~= records_of_lines(lns.drop_first()));
    }
    while li < lines.len()
        invariant
            1 <= li <= lines@.len(),
            lines@.map_values(|l: String| l@) == lns,
            records_of_lines(lns.drop_first()) == records@.map_values(
                |r: Record| (r.freq, r.pwd@),
            ) + records_of_lines(lns.subrange(li as int, lns.len() as int)),
        decreases lines@.len() - li,
    {
        let line = &lines[li];
        let ghost tail = lns.subrange(li as int, lns.len() as int);
        proof {
            assert(tail[0] == line@);
            assert(tail.drop_first() =~= lns.subrange(li + 1, lns.len() as int));
        }
        let n = line.as_str().unicode_len();
        match find_char(line.as_str(), ',') {
            Some(ci) => {
                match parse_u32(line.as_str().substring_char(0, ci)) {
                    Some(f) => {
                        let pwd = String::from_str(line.as_str().substring_char(ci + 1, n));
                        let rec = Record { freq: f, pwd };
                        proof {
                            let prev = records@.map_values(|r: Record| (r.freq, r.pwd@));
                            assert((records@.push(rec)).map_values(|r: Record| (r.freq, r.pwd@))
                                =~= prev.push((f, rec.pwd@)));
                            assert(parse_record_line(tail[0]) == Some::<(u32, Seq<char>)>(
                                (f, rec.pwd@),
                            ));
                            assert(prev.push((f, rec.pwd@)) + records_of_lines(tail.drop_first())
                                =~= prev + (seq![(f, rec.pwd@)] + records_of_lines(
                                tail.drop_first(),
                            )));
                        }
                        records.push(rec);
                    },
                    None => {
                        proof {
                            assert(parse_record_line(tail[0]) is None);
                        }
                    },
                }
            },
            None => {
                proof {
                    assert(parse_record_line(tail[0]) is None);
                }
            },
        }
        li = li + 1;
    }
    proof {
        assert(lns.subrange(lns.len() as int, lns.len() as int) =~= Seq::<Seq<char>>::empty());
        assert(records@.map_values(|r: Record| (r.freq, r.pwd@)) + Seq::<(u32,
            Seq<char>,
        )>::empty() =~= records@.map_values(|r: Record| (r.freq, r.pwd@)));
    }

    // The recency cache from the first line.
    let toks = split_str(lines[0].as_str(), ' ');
    let ghost tks = split_on(lns[0], ' ');
    let mut raw: Vec<u32> = Vec::new();
    let mut ti: usize = 0;
    proof {
        assert(tks.subrange(0, tks.len() as int) =~= tks);
        assert(raw@ + ints_take(tks, VAULT_CACHE_SIZE as int) =~= ints_take(
            tks,
            VAULT_CACHE_SIZE as int,
        ));
    }
    while ti < toks.len() && raw.len() < VAULT_CACHE_SIZE
        invariant
            0 <= ti <= tks.len(),
            toks@.map_values(|l: String| l@) == tks,
            raw@.len() <= VAULT_CACHE_SIZE,
            ints_take(tks, VAULT_CACHE_SIZE as int) == raw@ + ints_take(
                tks.subrange(ti as int, tks.len() as int),
                VAULT_CACHE_SIZE - raw@.len(),
            ),
        decreases tks.len() - ti,
    {
        let ghost tail = tks.subrange(ti as int, tks.len() as int);
        proof {
            assert(tail[0] == toks@[ti as int]@);
            assert(tail.drop_first() =~= tks.subrange(ti + 1, tks.len() as int));
        }
        match parse_u32(toks[ti].as_str()) {
            Some(v) => {
                proof {
                    assert(raw@.push(v) + ints_take(tail.drop_first(), VAULT_CACHE_SIZE - raw@.len()
                        - 1) =~= raw@ + (seq![v] + ints_take(
                        tail.drop_first(),
                        VAULT_CACHE_SIZE - raw@.len() - 1,
                    )));
                }
                raw.push(v);
            },
            None => {},
        }
        ti = ti + 1;
    }
    proof {
        if raw@.len() < VAULT_CACHE_SIZE {
            assert(tks.subrange(tks.len() as int, tks.len() as int) =~= Seq::<Seq<char>>::empty());
        }
        assert(raw@ + Seq::<u32>::empty() =~= raw@);
        assert(raw@ == ints_take(tks, VAULT_CACHE_SIZE as int));
    }

    // Validity and duplicate filtering.
    let mut cache: Vec<usize> = Vec::new();
    let nrec = records.len();
    let mut ri: usize = 0;
    proof {
        assert(raw@.subrange(0, raw@.len() as int) =~= raw@);
        assert(cache@ + dedup_valid(raw@, nrec as int, cache@) =~= dedup_valid(
            raw@,
            nrec as int,
            Seq::empty(),
        ));
    }
    while ri < raw.len()
        invariant
            0 <= ri <= raw@.len(),
            nrec == records@.len(),
            dedup_valid(raw@, nrec as int, Seq::empty()) == cache@ + dedup_valid(
                raw@.subrange(ri as int, raw@.len() as int),
                nrec as int,
                cache@,
            ),
        decreases raw@.len() - ri,
    {
        let ghost tail = raw@.subrange(ri as int, raw@.len() as int);
        proof {
            assert(tail[0] == raw@[ri as int]);
            assert(tail.drop_first() =~= raw@.subrange(ri + 1, raw@.len() as int));
        }
        let xv = raw[ri];
        let x = xv as usize;
        if x < nrec && !vec_contains_usize(&cache, x) {
            proof {
                assert(cache@.push(x) + dedup_valid(tail.drop_first(), nrec as int, cache@.push(x))
                    =~= cache@ + (seq![x] + dedup_valid(
                    tail.drop_first(),
                    nrec as int,
                    cache@.push(x),
                )));
            }
            cache.push(x);
        }
        ri = ri + 1;
    }
    proof {
        assert(raw@.subrange(raw@.len() as int, raw@.len() as int) =~= Seq::<u32>::empty());
        assert(cache@ + Seq::<usize>::empty() =~= cache@);
        assert(cache@ == dedup_valid(raw@, nrec as int, Seq::empty()));
        lemma_dedup_valid(raw@, nrec as int, Seq::empty());
        lemma_ints_take_len(tks, VAULT_CACHE_SIZE as int);
    }

    VaultData { cache, records }
}

/// The first line of the vault file: the cache entries, space-separated.
pub open spec fn render_cache_line(c: Seq<usize>) -> Seq<char>
    decreases c.len(),
{
    if c.len() == 0 {
        Seq::empty()
    } else if c.len() == 1 {
        dec_digits(c[0] as nat)
    } else {
        dec_digits(c[0] as nat) + seq![' '] + render_cache_line(c.drop_first())
    }
}

/// The record lines of the vault file, one `frequency,password` line per
/// record, in rank order.
pub open spec fn render_records(rs: Seq<Record>) -> Seq<char>
    decreases rs.len(),
{
    if rs.len() == 0 {
        Seq::empty()
    } else {
        dec_digits(rs[0].freq as nat) + seq![','] + rs[0].pwd@ + seq!['\n'] + render_records(
            rs.drop_first(),
        )
    }
}

/// The full vault file text for a vault state.
pub open spec fn render_vault_spec(d: VaultData) -> Seq<char> {
    render_cache_line(d.cache@) + seq!['\n'] + render_records(d.records@)
}

/// Renders a vault state back into file text, cache line first, records
/// in rank order.
pub fn render_vault(d: &VaultData) -> (r: String)
    ensures
        r@ == render_vault_spec(*d),
{
    proof {
        reveal_strlit(" ");
        reveal_strlit(",");
        reveal_strlit("\n");
    }
    let mut out = String::new();
    let mut i: usize = 0;
    proof {
        assert(d.cache@.subrange(0, d.cache@.len() as int) =~= d.cache@);
        assert(out@ + render_cache_line(d.cache@) =~= render_cache_line(d.cache@));
    }
    while i < d.cache.len()
        invariant
            0 <= i <= d.cache@.len(),
            render_cache_line(d.cache@) == out@ + render_cache_line(
                d.cache@.subrange(i as int, d.cache@.len() as int),
            ),
        decreases d.cache@.len() - i,
    {
        let ghost tail = d.cache@.subrange(i as int, d.cache@.len() as int);
        proof {
            assert(tail[0] == d.cache@[i as int]);
            assert(tail.drop_first() =~= d.cache@.subrange(i + 1, d.cache@.len() as int));
        }
        let digits = u64_to_string(d.cache[i] as u64);
        proof {
            reveal_strlit(" ");
            assert((d.cache@[i as int] as u64) as nat == d.cache@[i as int] as nat);
            assert(digits@ == dec_digits(d.cache@[i as int] as nat));
        }
        out.append(digits.as_str());
        if i + 1 < d.cache.len() {
            out.append(" ");
        }
        proof {
            if tail.len() == 1 {
                assert(tail.drop_first() =~= Seq::<usize>::empty());
                assert(render_cache_line(tail.drop_first()) =~= Seq::<char>::empty());
            }
            assert(out@ + render_cache_line(tail.drop_first()) =~= render_cache_line(d.cache@));
        }
        i = i + 1;
    }
    out.append("\n");
    let ghost mid = out@;
    proof {
        assert(render_cache_line(Seq::<usize>::empty()) =~= Seq::<char>::empty());
        assert(mid =~= render_cache_line(d.cache@) + seq!['\n']);
        assert(d.records@.subrange(0, d.records@.len() as int) =~= d.records@);
        assert(mid + render_records(d.records@) =~= render_vault_spec(*d));
    }
    let mut j: usize = 0;
    while j < d.records.len()
        invariant
            0 <= j <= d.records@.len(),
            render_vault_spec(*d) == out@ + render_records(
                d.records@.subrange(j as int, d.records@.len() as int),
            ),
        decreases d.records@.len() - j,
    {
        proof {
            reveal_strlit(",");
            reveal_strlit("\n");
        }
        let ghost tail = d.records@.subrange(j as int, d.records@.len() as int);
        proof {
            assert(tail[0] == d.records@[j as int]);
            assert(tail.drop_first() =~= d.records@.subrange(j + 1, d.records@.len() as int));
        }
        let digits = u32_to_string(d.records[j].freq);
        out.append(digits.as_str());
        out.append(",");
        out.append(d.records[j].pwd.as_str());
        out.append("\n");
        proof {
            assert(out@ + render_records(tail.drop_first()) =~= render_vault_spec(*d));
        }
        j = j + 1;
    }
    proof {
        assert(d.records@.subrange(d.records@.len() as int, d.records@.len() as int)
            =~= Seq::<Record>::empty());
        assert(render_records(Seq::<Record>::empty()) =~= Seq::<char>::empty());
        assert(out@ + Seq::<char>::empty() =~= out@);
    }
    out
}

/// A password that the line-oriented file format can carry verbatim.
pub open spec fn line_safe(s: Seq<char>) -> bool {
    !s.contains('\n') && !s.contains('\r')
}

/// The text of one record line, before its newline.
pub open spec fn record_line(r: Record) -> Seq<char> {
    dec_digits(r.freq as nat) + seq![','] + r.pwd@
}

proof fn lemma_digits_are_plain(n: nat)
    ensures
        forall|i: int|
            0 <= i < dec_digits(n).len() ==> #[trigger] dec_digits(n)[i] != ','
                && dec_digits(n)[i] != ' ' && dec_digits(n)[i] != '\n' && dec_digits(n)[i] != '\r',
{
    crate::text::lemma_dec_digits_val(n);
    assert forall|i: int| 0 <= i < dec_digits(n).len() implies #[trigger] dec_digits(n)[i] != ','
        && dec_digits(n)[i] != ' ' && dec_digits(n)[i] != '\n' && dec_digits(n)[i] != '\r' by {
        assert(crate::text::is_digit_char(dec_digits(n)[i]));
    }
}

proof fn lemma_record_line_plain(r: Record)
    requires
        line_safe(r.pwd@),
    ensures
        forall|i: int|
            0 <= i < record_line(r).len() ==> #[trigger] record_line(r)[i] != '\n' && record_line(
                r,
            )[i] != '\r',
{
    lemma_digits_are_plain(r.freq as nat);
    let l = record_line(r);
    let dl = dec_digits(r.freq as nat).len() as int;
    assert forall|i: int| 0 <= i < l.len() implies #[trigger] l[i] != '\n' && l[i] != '\r' by {
        if i < dl {
            assert(l[i] == dec_digits(r.freq as nat)[i]);
        } else if i == dl {
        } else {
            assert(l[i] == r.pwd@[i - dl - 1]);
            if l[i] == '\n' {
                assert(r.pwd@.contains('\n'));
            }
            if l[i] == '\r' {
                assert(r.pwd@.contains('\r'));
            }
        }
    }
}

proof fn lemma_cache_line_plain(c: Seq<usize>)
    ensures
        forall|i: int|
            0 <= i < render_cache_line(c).len() ==> #[trigger] render_cache_line(c)[i] != '\n'
                && render_cache_line(c)[i] != '\r',
    decreases c.len(),
{
    if c.len() == 0 {
    } else if c.len() == 1 {
        lemma_digits_are_plain(c[0] as nat);
    } else {
        lemma_digits_are_plain(c[0] as nat);
        lemma_cache_line_plain(c.drop_first());
        let l = render_cache_line(c);
        let dl = dec_digits(c[0] as nat).len() as int;
        assert forall|i: int| 0 <= i < l.len() implies #[trigger] l[i] != '\n' && l[i]
            != '\r' by {
            if i < dl {
                assert(l[i] == dec_digits(c[0] as nat)[i]);
            } else if i > dl {
                assert(l[i] == render_cache_line(c.drop_first())[i - dl - 1]);
            }
        }
    }
}

proof fn lemma_render_records_split(rs: Seq<Record>)
    requires
        forall|i: int| 0 <= i < rs.len() ==> line_safe(#[trigger] rs[i].pwd@),
    ensures
        split_on(render_records(rs), '\n') == rs.map_values(|r: Record| record_line(r)).push(
            Seq::<char>::empty(),
        ),
    decreases rs.len(),
{
    if rs.len() == 0 {
        crate::text::lemma_split_whole(Seq::<char>::empty(), '\n');
        assert(rs.map_values(|r: Record| record_line(r)).push(Seq::<char>::empty())
            =~= seq![Seq::<char>::empty()]);
        assert(render_records(rs) =~= Seq::<char>::empty());
    } else {
        let line = record_line(rs[0]);
        let rest = render_records(rs.drop_first());
        assert(render_records(rs) =~= line + seq!['\n'] + rest);
        lemma_record_line_plain(rs[0]);
        crate::text::lemma_split_concat(line, rest, '\n');
        assert forall|i: int| 0 <= i < rs.drop_first().len() implies line_safe(
            #[trigger] rs.drop_first()[i].pwd@,
        ) by {
            assert(rs.drop_first()[i] == rs[i + 1]);
        }
        lemma_render_records_split(rs.drop_first());
        assert(seq![line] + rs.drop_first().map_values(|r: Record| record_line(r)).push(
            Seq::<char>::empty(),
        ) =~= rs.map_values(|r: Record| record_line(r)).push(Seq::<char>::empty()));
    }
}

proof fn lemma_record_line_parses(r: Record)
    ensures
        parse_record_line(record_line(r)) == Some((r.freq, r.pwd@)),
{
    let l = record_line(r);
    let digits = dec_digits(r.freq as nat);
    let dl = digits.len() as int;
    crate::text::lemma_dec_digits_val(r.freq as nat);
    lemma_digits_are_plain(r.freq as nat);
    crate::text::lemma_find_from(l, ',', 0);
    let f = find_from(l, ',', 0);
    assert(l[dl] == ',');
    if f < dl {
        assert(l[f] == digits[f]);
        assert(false);
    }
    if f > dl {
        assert(l[dl] != ',');
        assert(false);
    }
    assert(l.subrange(0, dl) =~= digits);
    assert(l.subrange(dl + 1, l.len() as int) =~= r.pwd@);
    assert(parse_u32_spec(digits) == Some(r.freq));
}

proof fn lemma_records_parse_back(rs: Seq<Record>)
    ensures
        records_of_lines(rs.map_values(|r: Record| record_line(r)).push(Seq::<char>::empty()))
            == rs.map_values(|r: Record| (r.freq, r.pwd@)),
    decreases rs.len(),
{
    let ls = rs.map_values(|r: Record| record_line(r)).push(Seq::<char>::empty());
    if rs.len() == 0 {
        assert(ls[0] =~= Seq::<char>::empty());
        assert(parse_record_line(ls[0]) is None);
        assert(ls.drop_first() =~= Seq::<Seq<char>>::empty());
        assert(records_of_lines(Seq::<Seq<char>>::empty()) =~= Seq::<(u32, Seq<char>)>::empty());
        assert(records_of_lines(ls) =~= Seq::<(u32, Seq<char>)>::empty());
        assert(rs.map_values(|r: Record| (r.freq, r.pwd@)) =~= Seq::<(u32, Seq<char>)>::empty());
    } else {
        assert(ls[0] == record_line(rs[0]));
        lemma_record_line_parses(rs[0]);
        assert(records_of_lines(ls) == seq![(rs[0].freq, rs[0].pwd@)] + records_of_lines(
            ls.drop_first(),
        ));
        assert(ls.drop_first() =~= rs.drop_first().map_values(|r: Record| record_line(r)).push(
            Seq::<char>::empty(),
        ));
        lemma_records_parse_back(rs.drop_first());
        assert(seq![(rs[0].freq, rs[0].pwd@)] + rs.drop_first().map_values(
            |r: Record| (r.freq, r.pwd@),
        ) =~= rs.map_values(|r: Record| (r.freq, r.pwd@)));
    }
}

proof fn lemma_render_cache_split(c: Seq<usize>)
    ensures
        split_on(render_cache_line(c), ' ') == (if c.len() == 0 {
            seq![Seq::<char>::empty()]
        } else {
            c.map_values(|x: usize| dec_digits(x as nat))
        }),
    decreases c.len(),
{
    if c.len() == 0 {
        crate::text::lemma_split_whole(Seq::<char>::empty(), ' ');
        assert(render_cache_line(c) =~= Seq::<char>::empty());
    } else if c.len() == 1 {
        lemma_digits_are_plain(c[0] as nat);
        crate::text::lemma_split_whole(dec_digits(c[0] as nat), ' ');
        assert(c.map_values(|x: usize| dec_digits(x as nat)) =~= seq![dec_digits(c[0] as nat)]);
    } else {
        lemma_digits_are_plain(c[0] as nat);
        assert(render_cache_line(c) =~= dec_digits(c[0] as nat) + seq![' '] + render_cache_line(
            c.drop_first(),
        ));
        crate::text::lemma_split_concat(
            dec_digits(c[0] as nat),
            render_cache_line(c.drop_first()),
            ' ',
        );
        lemma_render_cache_split(c.drop_first());
        assert(c.drop_first().len() > 0);
        assert(seq![dec_digits(c[0] as nat)] + c.drop_first().map_values(
            |x: usize| dec_digits(x as nat),
        ) =~= c.map_values(|x: usize| dec_digits(x as nat)));
    }
}

proof fn lemma_ints_take_digits(c: Seq<usize>, k: int)
    requires
        c.len() <= k,
        forall|i: int| 0 <= i < c.len() ==> (#[trigger] c[i]) <= u32::MAX,
    ensures
        ints_take(c.map_values(|x: usize| dec_digits(x as nat)), k) == c.map_values(
            |x: usize| x as u32,
        ),
    decreases c.len(),
{
    let ts = c.map_values(|x: usize| dec_digits(x as nat));
    if c.len() == 0 {
        assert(c.map_values(|x: usize| x as u32) =~= Seq::<u32>::empty());
    } else {
        crate::text::lemma_dec_digits_val(c[0] as nat);
        assert(ts[0] == dec_digits(c[0] as nat));
        assert(parse_u32_spec(ts[0]) == Some(c[0] as u32));
        assert(ts.drop_first() =~= c.drop_first().map_values(|x: usize| dec_digits(x as nat)));
        assert forall|i: int| 0 <= i < c.drop_first().len() implies (#[trigger] c.drop_first()[i])
            <= u32::MAX by {
            assert(c.drop_first()[i] == c[i + 1]);
        }
        lemma_ints_take_digits(c.drop_first(), k - 1);
        assert(seq![c[0] as u32] + c.drop_first().map_values(|x: usize| x as u32) =~= c.map_values(
            |x: usize| x as u32,
        ));
    }
}

proof fn lemma_dedup_distinct(raw: Seq<u32>, n: int, seen: Seq<usize>)
    requires
        forall|i: int| 0 <= i < raw.len() ==> ((#[trigger] raw[i]) as int) < n,
        forall|i: int, j: int| 0 <= i < j < raw.len() ==> raw[i] != raw[j],
        forall|i: int| 0 <= i < raw.len() ==> !seen.contains((#[trigger] raw[i]) as usize),
    ensures
        dedup_valid(raw, n, seen) == raw.map_values(|x: u32| x as usize),
    decreases raw.len(),
{
    if raw.len() == 0 {
        assert(raw.map_values(|x: u32| x as usize) =~= Seq::<usize>::empty());
    } else {
        let x = raw[0] as usize;
        let t = raw.drop_first();
        assert forall|i: int| 0 <= i < t.len() implies ((#[trigger] t[i]) as int) < n by {
            assert(t[i] == raw[i + 1]);
        }
        assert forall|i: int, j: int| 0 <= i < j < t.len() implies t[i] != t[j] by {
            assert(t[i] == raw[i + 1]);
            assert(t[j] == raw[j + 1]);
        }
        assert forall|i: int| 0 <= i < t.len() implies !seen.push(x).contains(
            (#[trigger] t[i]) as usize,
        ) by {
            assert(t[i] == raw[i + 1]);
            if seen.push(x).contains(t[i] as usize) {
                let w = choose|w: int|
                    0 <= w < seen.push(x).len() && seen.push(x)[w] == t[i] as usize;
                if w < seen.len() {
                    assert(seen[w] == t[i] as usize);
                    assert(seen.contains(raw[i + 1] as usize));
                } else {
                    assert(t[i] as usize == x);
                    assert(raw[i + 1] != raw[0]);
                    assert(raw[i + 1] as usize == raw[0] as usize);
                    assert(false);
                }
            }
        }
        lemma_dedup_distinct(t, n, seen.push(x));
        assert(seq![x] + t.map_values(|y: u32| y as usize) =~= raw.map_values(
            |y: u32| y as usize,
        ));
    }
}

/// Saving a vault and loading it again reproduces it exactly: the
/// record list keeps its rank order and the recency cache survives, so
/// a caller never needs to sort after loading. Passwords must fit the
/// line format: no newline or carriage return.
pub proof fn lemma_save_load_round_trip(d: VaultData)
    requires
        d.wf(),
        d.records@.len() <= u32::MAX,
        forall|i: int| 0 <= i < d.records@.len() ==> line_safe(#[trigger] d.records@[i].pwd@),
    ensures
        vault_records_of(render_vault_spec(d)) == d.records@.map_values(
            |r: Record| (r.freq, r.pwd@),
        ),
        vault_cache_of(render_vault_spec(d), d.records@.len() as int) == d.cache@,
{
    let text = render_vault_spec(d);
    let cl = render_cache_line(d.cache@);
    let rr = render_records(d.records@);
    let rs = d.records@;
    lemma_cache_line_plain(d.cache@);
    assert(text =~= cl + seq!['\n'] + rr);
    crate::text::lemma_split_concat(cl, rr, '\n');
    lemma_render_records_split(rs);
    let pieces = split_on(text, '\n');
    let rec_lines = rs.map_values(|r: Record| record_line(r));
    assert(pieces == seq![cl] + rec_lines.push(Seq::<char>::empty()));

    // No line ends in a carriage return, so stripping changes nothing.
    let lns = vault_lines(text);
    assert forall|i: int| 0 <= i < pieces.len() implies strip_cr(#[trigger] pieces[i])
        == pieces[i] by {
        if i == 0 {
            if cl.len() > 0 && cl.last() == '\r' {
                assert(cl[cl.len() - 1] == '\r');
            }
        } else if i <= rs.len() {
            let l = rec_lines[i - 1];
            assert(l == record_line(rs[i - 1]));
            lemma_record_line_plain(rs[i - 1]);
            if l.len() > 0 && l.last() == '\r' {
                assert(l[l.len() - 1] == '\r');
            }
        } else {
            assert(pieces[i] =~= Seq::<char>::empty());
        }
    }
    assert(lns =~= pieces);

    // The record lines parse back to the records, in order.
    assert(lns.drop_first() =~= rec_lines.push(Seq::<char>::empty()));
    lemma_records_parse_back(rs);

    // The cache line parses back to the cache.
    assert(lns[0] == cl);
    lemma_render_cache_split(d.cache@);
    let n = rs.len() as int;
    if d.cache@.len() == 0 {
        let toks = split_on(cl, ' ');
        assert(toks == seq![Seq::<char>::empty()]);
        assert(parse_u32_spec(toks[0]) is None);
        assert(toks.drop_first() =~= Seq::<Seq<char>>::empty());
        assert(ints_take(Seq::<Seq<char>>::empty(), VAULT_CACHE_SIZE as int)
            =~= Seq::<u32>::empty());
        assert(ints_take(toks, VAULT_CACHE_SIZE as int) =~= Seq::<u32>::empty());
        assert(dedup_valid(Seq::<u32>::empty(), n, Seq::empty()) =~= Seq::<usize>::empty());
        assert(vault_cache_of(text, n) =~= d.cache@);
    } else {
        assert forall|i: int| 0 <= i < d.cache@.len() implies (#[trigger] d.cache@[i])
            <= u32::MAX by {
            assert(d.cache@[i] < rs.len());
        }
        lemma_ints_take_digits(d.cache@, VAULT_CACHE_SIZE as int);
        let raw = d.cache@.map_values(|x: usize| x as u32);
        assert forall|i: int| 0 <= i < raw.len() implies ((#[trigger] raw[i]) as int) < n by {
            assert(raw[i] == d.cache@[i] as u32);
        }
        assert forall|i: int, j: int| 0 <= i < j < raw.len() implies raw[i] != raw[j] by {
            assert(raw[i] == d.cache@[i] as u32);
            assert(raw[j] == d.cache@[j] as u32);
            assert(d.cache@[i] != d.cache@[j]);
        }
        lemma_dedup_distinct(raw, n, Seq::empty());
        assert(raw.map_values(|x: u32| x as usize) =~= d.cache@);
        assert(vault_cache_of(text, n) == d.cache@);
    }
}

/// The line that registering a password appends to the vault file: a
/// fresh record with frequency zero.
pub fn add_record_line(pwd: &str) -> (r: String)
    ensures
        r@ == seq!['0', ','] + pwd@ + seq!['\n'],
{
    proof {
        reveal_strlit("0,");
        reveal_strlit("\n");
        assert("0,"@ =~= seq!['0', ',']);
    }
    let mut out = String::from_str("0,");
    out.append(pwd);
    out.append("\n");
    out
}

/// The vault's location on disk.
pub struct Vault {
    pub path: String,
}

impl Vault {
    /// A vault handle for the file at `path`.
    pub fn new(path: String) -> (v: Vault)
        ensures
            v.path@ == path@,
    {
        Vault { path }
    }

    /// Where this vault lives.
    pub fn path(&self) -> (r: &String)
        ensures
            r@ == self.path@,
    {
        &self.path
    }
}

} // verus!
