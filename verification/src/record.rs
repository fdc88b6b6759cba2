//! One parsed memory-map record: its address range, permission string
//! and optional backing label.

use vstd::prelude::*;
use crate::fields::{fields_of, split_fields};
use crate::hex::{parse_hex_str, spec_parse_hex_u64};

verus! {

/// One parsed record of the memory map: an address range, the
/// permission string, and the backing file path or pseudo-label when
/// the line carries one.
pub struct MemoryRegionRecord {
    pub start: u64,
    pub end: u64,
    pub permissions: String,
    pub backing: Option<String>,
}

/// The mathematical content of a record: the same fields with the
/// strings as character sequences.
pub struct RecordModel {
    pub start: u64,
    pub end: u64,
    pub permissions: Seq<char>,
    pub backing: Option<Seq<char>>,
}

impl View for MemoryRegionRecord {
    type V = RecordModel;

    open spec fn view(&self) -> RecordModel {
        RecordModel {
            start: self.start,
            end: self.end,
            permissions: self.permissions@,
            backing: match self.backing {
                Some(p) => Some(p@),
                None => None,
            },
        }
    }
}

impl RecordModel {
    /// An address lies in the record's range, inclusive at both ends.
    pub open spec fn contains_address(self, address: u64) -> bool {
        self.start <= address <= self.end
    }
}

impl MemoryRegionRecord {
    /// Whether an address lies in this record's range, inclusive at
    /// both ends.
    pub fn contains_address(&self, address: u64) -> (r: bool)
        ensures
            r == self@.contains_address(address),
    {
        self.start <= address && address <= self.end
    }
}

/// How often a character occurs in a string.
pub open spec fn count_char(s: Seq<char>, c: char) -> nat
    decreases s.len(),
{
    if s.len() == 0 {
        0
    } else {
        count_char(s.drop_last(), c) + if s.last() == c {
            1nat
        } else {
            0nat
        }
    }
}

/// Position of the first occurrence of a character.
pub open spec fn first_index_of(s: Seq<char>, c: char) -> int
    decreases s.len(),
{
    if s.len() == 0 {
        0
    } else if s[0] == c {
        0
    } else {
        1 + first_index_of(s.drop_first(), c)
    }
}

/// What the `start-end` field of a record yields: it must hold exactly
/// one dash, and each side must parse as an unsigned 64-bit base-16
/// number.
pub open spec fn spec_parse_range(f: Seq<char>) -> Option<(u64, u64)> {
    if count_char(f, '-') != 1 {
        None
    } else {
        let k = first_index_of(f, '-');
        match (spec_parse_hex_u64(f.take(k)), spec_parse_hex_u64(f.skip(k + 1))) {
            (Some(a), Some(b)) => Some((a, b)),
            _ => None,
        }
    }
}

/// What parsing a whole line yields: the line must split into at least
/// five whitespace-separated fields; the first field gives the range;
/// the second is the permission string; a sixth field, when present,
/// is the backing label.
pub open spec fn spec_parse_line(line: Seq<char>) -> Option<RecordModel> {
    let fields = fields_of(line);
    if fields.len() < 5 {
        None
    } else {
        match spec_parse_range(fields[0]) {
            None => None,
            Some((a, b)) => Some(
                RecordModel {
                    start: a,
                    end: b,
                    permissions: fields[1],
                    backing: if fields.len() >= 6 {
                        Some(fields[5])
                    } else {
                        None
                    },
                },
            ),
        }
    }
}

/// A line with fewer than five whitespace-separated fields parses to
/// no record, whatever the fields hold.
pub proof fn lemma_few_fields_no_record(line: Seq<char>)
    requires
        fields_of(line).len() < 5,
    ensures
        spec_parse_line(line) is None,
{
}

/// A line whose first field is not two base-16 numbers joined by one
/// dash parses to no record, whatever the other fields hold.
pub proof fn lemma_bad_range_no_record(line: Seq<char>)
    requires
        spec_parse_range(fields_of(line)[0]) is None,
    ensures
        spec_parse_line(line) is None,
{
}

/// A character that occurs nowhere before position `d` and at `d`
/// itself is the first occurrence.
proof fn lemma_first_index_at(s: Seq<char>, c: char, d: int)
    requires
        0 <= d < s.len(),
        s[d] == c,
        forall|k: int| 0 <= k < d ==> s[k] != c,
    ensures
        first_index_of(s, c) == d,
    decreases d,
{
    if d > 0 {
        lemma_first_index_at(s.drop_first(), c, d - 1);
    }
}

/// Splits a `start-end` field at its single dash and parses both
/// halves; fails unless there is exactly one dash and both halves
/// parse.
fn parse_range(f: &str) -> (r: Option<(u64, u64)>)
    ensures
        r == spec_parse_range(f@),
{
    let n = f.unicode_len();
    let mut count: usize = 0;
    let mut first: usize = 0;
    let mut j: usize = 0;
    proof {
        assert(f@.take(0) =~= Seq::<char>::empty());
    }
    while j < n
        invariant
            j <= n,
            n == f@.len(),
            count <= j,
            count as nat == count_char(f@.take(j as int), '-'),
            count > 0 ==> first < j && f@[first as int] == '-' && (forall|k: int|
                0 <= k < first ==> f@[k] != '-'),
            count == 0 ==> forall|k: int| 0 <= k < j ==> f@[k] != '-',
        decreases n - j,
    {
        proof {
            assert(f@.take(j + 1).drop_last() =~= f@.take(j as int));
            assert(f@.take(j + 1).last() == f@[j as int]);
        }
        if f.get_char(j) == '-' {
            if count == 0 {
                first = j;
            }
            count = count + 1;
        }
        j = j + 1;
    }
    proof {
        assert(f@.take(n as int) =~= f@);
    }
    if count != 1 {
        return None;
    }
    proof {
        lemma_first_index_at(f@, '-', first as int);
    }
    let left = f.substring_char(0, first);
    let right = f.substring_char(first + 1, n);
    proof {
        assert(left@ =~= f@.take(first as int));
        assert(right@ =~= f@.skip(first + 1));
    }
    match (parse_hex_str(left), parse_hex_str(right)) {
        (Some(a), Some(b)) => Some((a, b)),
        _ => None,
    }
}

/// Parses one line of the memory map into a record, or nothing when
/// the line is malformed: fewer than five fields, a first field
/// without exactly one dash, or a half of the range that is not an
/// unsigned 64-bit base-16 number.
pub fn parse_line(line: &str) -> (r: Option<MemoryRegionRecord>)
    ensures
        r is Some <==> spec_parse_line(line@) is Some,
        r is Some ==> r.unwrap()@ == spec_parse_line(line@).unwrap(),
{
    let fields = split_fields(line);
    proof {
        assert(forall|i: int|
            0 <= i < fields@.len() ==> #[trigger] fields.deep_view()[i] == fields@[i]@);
    }
    if fields.len() < 5 {
        return None;
    }
    match parse_range(fields[0].as_str()) {
        None => None,
        Some((start, end)) => {
            let permissions = fields[1].clone();
            let backing = if fields.len() >= 6 {
                Some(fields[5].clone())
            } else {
                None
            };
            Some(MemoryRegionRecord { start, end, permissions, backing })
        },
    }
}

} // verus!
