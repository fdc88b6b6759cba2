//! Containment lookup of a query address against a snapshot of
//! memory-map lines, and the classification of the matched region.

use vstd::prelude::*;
use crate::classify::{classify, spec_classify, RegionKind};
use crate::decimal::{dec_digits, u64_to_decimal};
use crate::histogram::{backing_count, BackingFileHistogram};
use crate::record::{parse_line, spec_parse_line};

verus! {

/// The classification of a matched region: its kind, the raw
/// permission string, and a display label for the backing.
pub struct RegionClassification {
    pub kind: RegionKind,
    pub permissions: String,
    pub label: String,
}

/// The mathematical content of a classification result.
pub struct ClassificationModel {
    pub kind: RegionKind,
    pub permissions: Seq<char>,
    pub label: Seq<char>,
}

impl View for RegionClassification {
    type V = ClassificationModel;

    open spec fn view(&self) -> ClassificationModel {
        ClassificationModel {
            kind: self.kind,
            permissions: self.permissions@,
            label: self.label@,
        }
    }
}

/// The display label of a matched record's backing: the literal
/// `anonymous` when there is none, else the path, annotated with its
/// occurrence count when several records share it.
pub open spec fn spec_label(backing: Option<Seq<char>>, count: nat) -> Seq<char> {
    match backing {
        None => "anonymous"@,
        Some(p) => if count > 1 {
            p + " ["@ + dec_digits(count) + "]"@
        } else {
            p
        },
    }
}

/// The line parses into a record whose range holds the address.
pub open spec fn line_matches(line: Seq<char>, address: u64) -> bool {
    spec_parse_line(line) is Some && spec_parse_line(line).unwrap().contains_address(address)
}

/// Position of the first matching line at or after `i`, if any.
pub open spec fn first_match_from(address: u64, lines: Seq<Seq<char>>, i: int) -> Option<int>
    decreases lines.len() - i,
{
    if i < 0 || i >= lines.len() {
        None
    } else if line_matches(lines[i], address) {
        Some(i)
    } else {
        first_match_from(address, lines, i + 1)
    }
}

/// What resolving an address against a snapshot yields: nothing when
/// no line's record holds the address; else the classification of the
/// first matching record, in line order, with its backing label
/// annotated by the snapshot-wide occurrence count.
pub open spec fn spec_resolve(address: u64, lines: Seq<Seq<char>>) -> Option<ClassificationModel> {
    match first_match_from(address, lines, 0) {
        None => None,
        Some(i) => {
            let r = spec_parse_line(lines[i]).unwrap();
            Some(
                ClassificationModel {
                    kind: spec_classify(r.permissions, r.backing),
                    permissions: r.permissions,
                    label: spec_label(
                        r.backing,
                        match r.backing {
                            Some(p) => backing_count(lines, p),
                            None => 0,
                        },
                    ),
                },
            )
        },
    }
}

/// Resolves an address against the lines of one memory-map snapshot.
///
/// Two passes over the same lines: the first builds the histogram of
/// backing-file occurrence counts, the second finds the first record
/// whose range holds the address, inclusive at both ends.  Lines that
/// do not parse are skipped.  Yields nothing when no record matches.
pub fn resolve(address: u64, lines: &Vec<String>) -> (r: Option<RegionClassification>)
    ensures
        r is Some <==> spec_resolve(address, lines.deep_view()) is Some,
        r is Some ==> r.unwrap()@ == spec_resolve(address, lines.deep_view()).unwrap(),
{
    let ghost dv = lines.deep_view();
    let histogram = BackingFileHistogram::build(lines);
    let mut i: usize = 0;
    while i < lines.len()
        invariant
            i <= lines.len(),
            dv == lines.deep_view(),
            dv.len() == lines@.len(),
            forall|p: Seq<char>| histogram.spec_count(p) == backing_count(dv, p),
            first_match_from(address, dv, 0) == first_match_from(address, dv, i as int),
        decreases lines.len() - i,
    {
        proof {
            assert(dv[i as int] == lines@[i as int]@);
        }
        match parse_line(lines[i].as_str()) {
            Some(rec) => {
                if rec.contains_address(address) {
                    proof {
                        assert(line_matches(dv[i as int], address));
                        assert(first_match_from(address, dv, i as int) == Some(i as int));
                    }
                    let kind = match &rec.backing {
                        Some(path) => classify(rec.permissions.as_str(), Some(path.as_str())),
                        None => classify(rec.permissions.as_str(), None),
                    };
                    let label = match &rec.backing {
                        None => String::from_str("anonymous"),
                        Some(path) => {
                            let count = histogram.count(path.as_str());
                            if count > 1 {
                                let mut annotated = path.clone();
                                annotated.append(" [");
                                annotated.append(u64_to_decimal(count).as_str());
                                annotated.append("]");
                                annotated
                            } else {
                                path.clone()
                            }
                        },
                    };
                    return Some(
                        RegionClassification { kind, permissions: rec.permissions, label },
                    );
                }
            },
            None => {},
        }
        proof {
            assert(!line_matches(dv[i as int], address));
        }
        i = i + 1;
    }
    proof {
        assert(first_match_from(address, dv, dv.len() as int) is None);
    }
    None
}

/// Resolving an address yields the same outcome however often it is
/// asked of the same unchanged lines: `resolve` pins its result to
/// `spec_resolve`, a function of the address and the line contents
/// alone.
pub proof fn lemma_resolve_idempotent(
    address: u64,
    lines: Seq<Seq<char>>,
    r1: Option<ClassificationModel>,
    r2: Option<ClassificationModel>,
)
    requires
        r1 == spec_resolve(address, lines),
        r2 == spec_resolve(address, lines),
    ensures
        r1 == r2,
{
}

/// A matching line at or after `j` and no earlier than `i` means the
/// search from `j` finds one.
proof fn lemma_match_found(address: u64, lines: Seq<Seq<char>>, i: int, j: int)
    requires
        0 <= j <= i < lines.len(),
        line_matches(lines[i], address),
    ensures
        first_match_from(address, lines, j) is Some,
    decreases i - j,
{
    if j < i && !line_matches(lines[j], address) {
        lemma_match_found(address, lines, i, j + 1);
    }
}

/// Both ends of a record's range are inclusive: the start address and
/// the end address of any parsed record both resolve to a region.
pub proof fn lemma_boundary_inclusive(lines: Seq<Seq<char>>, i: int)
    requires
        0 <= i < lines.len(),
        spec_parse_line(lines[i]) is Some,
        spec_parse_line(lines[i]).unwrap().start <= spec_parse_line(lines[i]).unwrap().end,
    ensures
        spec_resolve(spec_parse_line(lines[i]).unwrap().start, lines) is Some,
        spec_resolve(spec_parse_line(lines[i]).unwrap().end, lines) is Some,
{
    lemma_match_found(spec_parse_line(lines[i]).unwrap().start, lines, i, 0);
    lemma_match_found(spec_parse_line(lines[i]).unwrap().end, lines, i, 0);
}

proof fn lemma_no_match_from(address: u64, lines: Seq<Seq<char>>, j: int)
    requires
        forall|i: int|
            0 <= i < lines.len() && spec_parse_line(#[trigger] lines[i]) is Some
                ==> !spec_parse_line(lines[i]).unwrap().contains_address(address),
    ensures
        first_match_from(address, lines, j) is None,
    decreases lines.len() - j,
{
    if 0 <= j < lines.len() {
        lemma_no_match_from(address, lines, j + 1);
    }
}

/// An address that lies in no parsed record's range resolves to the
/// not-found outcome, never to a partial classification.
pub proof fn lemma_unmatched_address_not_found(address: u64, lines: Seq<Seq<char>>)
    requires
        forall|i: int|
            0 <= i < lines.len() && spec_parse_line(#[trigger] lines[i]) is Some
                ==> !spec_parse_line(lines[i]).unwrap().contains_address(address),
    ensures
        spec_resolve(address, lines) is None,
{
    lemma_no_match_from(address, lines, 0);
}

} // verus!
