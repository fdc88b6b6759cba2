//! Character-level string predicates used by the classification rules:
//! whole-string equality, substring search and suffix test.

use vstd::prelude::*;

verus! {

/// The needle occurs somewhere in the haystack.
pub open spec fn contains_seq(hay: Seq<char>, needle: Seq<char>) -> bool {
    exists|i: int|
        0 <= i && i + needle.len() <= hay.len() && #[trigger] hay.subrange(i, i + needle.len())
            == needle
}

/// The haystack ends with the needle.
pub open spec fn ends_with_seq(hay: Seq<char>, needle: Seq<char>) -> bool {
    needle.len() <= hay.len() && hay.skip(hay.len() - needle.len()) == needle
}

/// Whether two strings hold the same characters.
pub fn str_eq(a: &str, b: &str) -> (r: bool)
    ensures
        r == (a@ == b@),
{
    let n = a.unicode_len();
    if n != b.unicode_len() {
        return false;
    }
    let mut i: usize = 0;
    while i < n
        invariant
            i <= n,
            n == a@.len(),
            n == b@.len(),
            forall|j: int| 0 <= j < i ==> a@[j] == b@[j],
        decreases n - i,
    {
        if a.get_char(i) != b.get_char(i) {
            return false;
        }
        i = i + 1;
    }
    proof {
        assert(a@ =~= b@);
    }
    true
}

/// Whether the needle occurs somewhere in the haystack.
pub fn str_contains(hay: &str, needle: &str) -> (r: bool)
    ensures
        r == contains_seq(hay@, needle@),
{
    let n = hay.unicode_len();
    let m = needle.unicode_len();
    if m > n {
        return false;
    }
    if m == 0 {
        proof {
            assert(hay@.subrange(0, 0 + needle@.len() as int) =~= needle@);
            assert(contains_seq(hay@, needle@));
        }
        return true;
    }
    let mut i: usize = 0;
    while i <= n - m
        invariant
            1 <= m <= n,
            n == hay@.len(),
            m == needle@.len(),
            i <= n - m + 1,
            forall|k: int| 0 <= k < i ==> #[trigger] hay@.subrange(k, k + m) != needle@,
        decreases n - i,
    {
        let segment = hay.substring_char(i, i + m);
        if str_eq(segment, needle) {
            assert(hay@.subrange(i as int, i + m) == needle@);
            return true;
        }
        i = i + 1;
    }
    false
}

/// Whether the haystack ends with the needle.
pub fn str_ends_with(hay: &str, needle: &str) -> (r: bool)
    ensures
        r == ends_with_seq(hay@, needle@),
{
    let n = hay.unicode_len();
    let m = needle.unicode_len();
    if m > n {
        return false;
    }
    let tail = hay.substring_char(n - m, n);
    let r = str_eq(tail, needle);
    proof {
        assert(tail@ =~= hay@.skip(n - m));
    }
    r
}

} // verus!
