//! The per-snapshot histogram of backing-file occurrence counts: how
//! many parsed records of one snapshot share each backing label.

use vstd::prelude::*;
use crate::record::{parse_line, spec_parse_line};
use crate::textops::str_eq;

verus! {

/// One when the line parses into a record backed by `p`, else zero.
pub open spec fn line_backed_by(line: Seq<char>, p: Seq<char>) -> nat {
    if spec_parse_line(line) is Some && spec_parse_line(line).unwrap().backing == Some(p) {
        1nat
    } else {
        0nat
    }
}

/// Number of records among the first `n` lines that are backed by `p`.
pub open spec fn backing_count_upto(lines: Seq<Seq<char>>, p: Seq<char>, n: int) -> nat
    decreases n,
{
    if n <= 0 {
        0
    } else {
        backing_count_upto(lines, p, n - 1) + line_backed_by(lines[n - 1], p)
    }
}

/// Number of records in the whole snapshot that are backed by `p`.
pub open spec fn backing_count(lines: Seq<Seq<char>>, p: Seq<char>) -> nat {
    backing_count_upto(lines, p, lines.len() as int)
}

proof fn lemma_backing_count_upto_bound(lines: Seq<Seq<char>>, p: Seq<char>, n: int)
    requires
        n >= 0,
    ensures
        backing_count_upto(lines, p, n) <= n,
    decreases n,
{
    if n > 0 {
        lemma_backing_count_upto_bound(lines, p, n - 1);
    }
}

/// Count stored for `p`: the value of the first entry keyed `p`, or
/// zero when there is none.
spec fn entries_count(s: Seq<(String, u64)>, p: Seq<char>) -> nat
    decreases s.len(),
{
    if s.len() == 0 {
        0
    } else if s[0].0@ == p {
        s[0].1 as nat
    } else {
        entries_count(s.drop_first(), p)
    }
}

/// Updating the first entry with a given key sets the count stored for
/// that key and leaves every other key's count alone.
proof fn lemma_entries_count_update(s: Seq<(String, u64)>, j: int, v: u64, q: Seq<char>)
    requires
        0 <= j < s.len(),
        forall|k: int| 0 <= k < j ==> (#[trigger] s[k]).0@ != s[j].0@,
    ensures
        entries_count(s.update(j, (s[j].0, v)), q) == if q == s[j].0@ {
            v as nat
        } else {
            entries_count(s, q)
        },
    decreases j,
{
    let t = s.update(j, (s[j].0, v));
    if j == 0 {
        assert(t[0] == (s[0].0, v));
        assert(t.drop_first() =~= s.drop_first());
    } else {
        assert(t[0] == s[0]);
        assert(s[0].0@ != s[j].0@);
        assert(t.drop_first() =~= s.drop_first().update(j - 1, (s[j].0, v)));
        assert(s.drop_first()[j - 1] == s[j]);
        lemma_entries_count_update(s.drop_first(), j - 1, v, q);
    }
}

/// The count stored for the key of the first entry holding it is that
/// entry's value.
proof fn lemma_entries_count_first(s: Seq<(String, u64)>, j: int)
    requires
        0 <= j < s.len(),
        forall|k: int| 0 <= k < j ==> (#[trigger] s[k]).0@ != s[j].0@,
    ensures
        entries_count(s, s[j].0@) == s[j].1 as nat,
    decreases j,
{
    if j > 0 {
        assert(s.drop_first()[j - 1] == s[j]);
        lemma_entries_count_first(s.drop_first(), j - 1);
    }
}

/// A key held by no entry has count zero.
proof fn lemma_entries_count_absent(s: Seq<(String, u64)>, p: Seq<char>)
    requires
        forall|k: int| 0 <= k < s.len() ==> (#[trigger] s[k]).0@ != p,
    ensures
        entries_count(s, p) == 0,
    decreases s.len(),
{
    if s.len() > 0 {
        lemma_entries_count_absent(s.drop_first(), p);
    }
}

/// Appending an entry with a fresh key records its value under that
/// key and changes no other key's count.
proof fn lemma_entries_count_push(s: Seq<(String, u64)>, e: (String, u64), q: Seq<char>)
    requires
        forall|k: int| 0 <= k < s.len() ==> (#[trigger] s[k]).0@ != e.0@,
    ensures
        entries_count(s.push(e), q) == if q == e.0@ {
            e.1 as nat
        } else {
            entries_count(s, q)
        },
    decreases s.len(),
{
    if s.len() == 0 {
        assert(s.push(e)[0] == e);
        assert(s.push(e).drop_first() =~= Seq::<(String, u64)>::empty());
        assert(entries_count(Seq::<(String, u64)>::empty(), q) == 0);
    } else {
        assert(s.push(e)[0] == s[0]);
        assert(s[0].0@ != e.0@);
        assert(s.push(e).drop_first() =~= s.drop_first().push(e));
        assert(forall|k: int|
            0 <= k < s.drop_first().len() ==> (#[trigger] s.drop_first()[k]).0@ != e.0@);
        lemma_entries_count_push(s.drop_first(), e, q);
    }
}

/// Position of the first entry keyed like `path`, if any.
fn find_entry(entries: &Vec<(String, u64)>, path: &str) -> (r: Option<usize>)
    ensures
        match r {
            Some(j) => j < entries@.len() && entries@[j as int].0@ == path@ && (forall|k: int|
                0 <= k < j ==> (#[trigger] entries@[k]).0@ != path@),
            None => forall|k: int|
                0 <= k < entries@.len() ==> (#[trigger] entries@[k]).0@ != path@,
        },
{
    let mut j: usize = 0;
    while j < entries.len()
        invariant
            j <= entries@.len(),
            forall|k: int| 0 <= k < j ==> (#[trigger] entries@[k]).0@ != path@,
        decreases entries@.len() - j,
    {
        if str_eq(entries[j].0.as_str(), path) {
            return Some(j);
        }
        j = j + 1;
    }
    None
}

/// A mapping from backing label to its occurrence count across all
/// parsed records of one snapshot.
pub struct BackingFileHistogram {
    entries: Vec<(String, u64)>,
}

impl BackingFileHistogram {
    /// The count recorded for a backing label; zero when the label
    /// backs no record.
    pub closed spec fn spec_count(self, p: Seq<char>) -> nat {
        entries_count(self.entries@, p)
    }

    /// Scans every line once and counts, for each backing label, the
    /// records backed by it; unparsable lines and records without a
    /// backing are skipped.
    pub fn build(lines: &Vec<String>) -> (h: BackingFileHistogram)
        ensures
            forall|p: Seq<char>| h.spec_count(p) == backing_count(lines.deep_view(), p),
    {
        let ghost dv = lines.deep_view();
        let mut entries: Vec<(String, u64)> = Vec::new();
        let mut i: usize = 0;
        while i < lines.len()
            invariant
                i <= lines.len(),
                dv == lines.deep_view(),
                dv.len() == lines@.len(),
                forall|p: Seq<char>| entries_count(entries@, p) == backing_count_upto(
                    dv,
                    p,
                    i as int,
                ),
                forall|j: int| 0 <= j < entries@.len() ==> (#[trigger] entries@[j]).1 <= i,
            decreases lines.len() - i,
        {
            let ghost entries_before = entries@;
            proof {
                assert(dv[i as int] == lines@[i as int]@);
            }
            match parse_line(lines[i].as_str()) {
                Some(rec) => {
                    match rec.backing {
                        Some(path) => {
                            match find_entry(&entries, path.as_str()) {
                                Some(j) => {
                                    let value = entries[j].1;
                                    let key = entries[j].0.clone();
                                    proof {
                                        lemma_entries_count_first(entries@, j as int);
                                        lemma_backing_count_upto_bound(dv, path@, i as int);
                                    }
                                    entries[j] = (key, value + 1);
                                    proof {
                                        assert(entries@ =~= entries_before.update(
                                            j as int,
                                            (entries_before[j as int].0, (value + 1) as u64),
                                        ));
                                        assert forall|p: Seq<char>|
                                            entries_count(entries@, p) == backing_count_upto(
                                                dv,
                                                p,
                                                i + 1,
                                            ) by {
                                            lemma_entries_count_update(
                                                entries_before,
                                                j as int,
                                                (value + 1) as u64,
                                                p,
                                            );
                                            assert(backing_count_upto(dv, p, i + 1)
                                                == backing_count_upto(dv, p, i as int)
                                                + line_backed_by(dv[i as int], p));
                                            assert(entries_before[j as int].0@ == path@);
                                        }
                                    }
                                },
                                None => {
                                    let count: u64 = 1;
                                    let ghost new_entry = (path, count);
                                    entries.push((path, count));
                                    proof {
                                        assert(entries@ =~= entries_before.push(new_entry));
                                        assert forall|p: Seq<char>|
                                            entries_count(entries@, p) == backing_count_upto(
                                                dv,
                                                p,
                                                i + 1,
                                            ) by {
                                            lemma_entries_count_push(entries_before, new_entry, p);
                                            lemma_entries_count_absent(entries_before, path@);
                                            assert(backing_count_upto(dv, p, i + 1)
                                                == backing_count_upto(dv, p, i as int)
                                                + line_backed_by(dv[i as int], p));
                                        }
                                    }
                                },
                            }
                        },
                        None => {
                            proof {
                                assert(forall|p: Seq<char>|
                                    line_backed_by(dv[i as int], p) == 0nat);
                            }
                        },
                    }
                },
                None => {
                    proof {
                        assert(forall|p: Seq<char>| line_backed_by(dv[i as int], p) == 0nat);
                    }
                },
            }
            i = i + 1;
        }
        BackingFileHistogram { entries }
    }

    /// The occurrence count recorded for a backing label.
    pub fn count(&self, path: &str) -> (c: u64)
        ensures
            c as nat == self.spec_count(path@),
    {
        proof {
            assert(self.entries@.skip(0) =~= self.entries@);
        }
        let mut j: usize = 0;
        while j < self.entries.len()
            invariant
                j <= self.entries@.len(),
                entries_count(self.entries@, path@) == entries_count(
                    self.entries@.skip(j as int),
                    path@,
                ),
            decreases self.entries@.len() - j,
        {
            proof {
                assert(self.entries@.skip(j as int)[0] == self.entries@[j as int]);
                assert(self.entries@.skip(j as int).drop_first() =~= self.entries@.skip(j + 1));
            }
            if str_eq(self.entries[j].0.as_str(), path) {
                return self.entries[j].1;
            }
            j = j + 1;
        }
        0
    }
}

} // verus!
