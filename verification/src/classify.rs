//! Classification of a matched region from its permission bits and
//! backing name, by an ordered rule table in which the first matching
//! rule wins.

use vstd::prelude::*;
use crate::textops::{contains_seq, ends_with_seq, str_contains, str_ends_with, str_eq};

verus! {

/// The kinds of region the classifier can report.
#[derive(Clone, Copy, Debug, PartialEq, Eq, Structural)]
pub enum RegionKind {
    Stack,
    Heap,
    ExecutableText,
    SharedLibraryData,
    SharedLibraryReadOnlyData,
    DataOrBss,
    Other,
}

/// The pseudo-label marking the stack region.
pub open spec fn stack_marker() -> Seq<char> {
    "[stack]"@
}

/// The pseudo-label marking the heap region.
pub open spec fn heap_marker() -> Seq<char> {
    "[heap]"@
}

/// The suffix of shared-library file names.
pub open spec fn shared_library_suffix() -> Seq<char> {
    ".so"@
}

/// The read+execute, private permission pattern.
pub open spec fn perm_read_exec_private() -> Seq<char> {
    "r-xp"@
}

/// The read+write, private permission pattern.
pub open spec fn perm_read_write_private() -> Seq<char> {
    "rw-p"@
}

/// The read-only, private permission pattern.
pub open spec fn perm_read_only_private() -> Seq<char> {
    "r--p"@
}

/// The ordered classification rules; the first matching rule wins:
/// a backing holding the stack marker, a backing holding the heap
/// marker, read+execute private permissions, read+write private
/// permissions with a shared-library backing, read-only private
/// permissions with a shared-library backing, read+write private
/// permissions with any backing, and everything else.
pub open spec fn spec_classify(permissions: Seq<char>, backing: Option<Seq<char>>) -> RegionKind {
    if backing is Some && contains_seq(backing.unwrap(), stack_marker()) {
        RegionKind::Stack
    } else if backing is Some && contains_seq(backing.unwrap(), heap_marker()) {
        RegionKind::Heap
    } else if permissions == perm_read_exec_private() {
        RegionKind::ExecutableText
    } else if permissions == perm_read_write_private() && backing is Some && ends_with_seq(
        backing.unwrap(),
        shared_library_suffix(),
    ) {
        RegionKind::SharedLibraryData
    } else if permissions == perm_read_only_private() && backing is Some && ends_with_seq(
        backing.unwrap(),
        shared_library_suffix(),
    ) {
        RegionKind::SharedLibraryReadOnlyData
    } else if permissions == perm_read_write_private() {
        RegionKind::DataOrBss
    } else {
        RegionKind::Other
    }
}

/// An optional backing string as an optional character sequence.
pub open spec fn backing_view(backing: Option<&str>) -> Option<Seq<char>> {
    match backing {
        Some(p) => Some(p@),
        None => None,
    }
}

/// Classifies a region from its permission string and optional
/// backing, by the ordered rule table.
pub fn classify(permissions: &str, backing: Option<&str>) -> (k: RegionKind)
    ensures
        k == spec_classify(permissions@, backing_view(backing)),
{
    if let Some(path) = backing {
        if str_contains(path, "[stack]") {
            return RegionKind::Stack;
        }
        if str_contains(path, "[heap]") {
            return RegionKind::Heap;
        }
    }
    if str_eq(permissions, "r-xp") {
        return RegionKind::ExecutableText;
    }
    let read_write = str_eq(permissions, "rw-p");
    let shared_library = match backing {
        Some(path) => str_ends_with(path, ".so"),
        None => false,
    };
    if read_write && shared_library {
        return RegionKind::SharedLibraryData;
    }
    if str_eq(permissions, "r--p") && shared_library {
        return RegionKind::SharedLibraryReadOnlyData;
    }
    if read_write {
        return RegionKind::DataOrBss;
    }
    RegionKind::Other
}

/// The display name of each region kind.
pub open spec fn spec_kind_label(k: RegionKind) -> Seq<char> {
    match k {
        RegionKind::Stack => "stack"@,
        RegionKind::Heap => "heap"@,
        RegionKind::ExecutableText => "text (executable code)"@,
        RegionKind::SharedLibraryData => "data in shared library"@,
        RegionKind::SharedLibraryReadOnlyData => "read-only data in shared library"@,
        RegionKind::DataOrBss => "data or BSS"@,
        RegionKind::Other => "other"@,
    }
}

impl RegionKind {
    /// The display name of this region kind.
    pub fn name(&self) -> (r: &'static str)
        ensures
            r@ == spec_kind_label(*self),
    {
        match self {
            RegionKind::Stack => "stack",
            RegionKind::Heap => "heap",
            RegionKind::ExecutableText => "text (executable code)",
            RegionKind::SharedLibraryData => "data in shared library",
            RegionKind::SharedLibraryReadOnlyData => "read-only data in shared library",
            RegionKind::DataOrBss => "data or BSS",
            RegionKind::Other => "other",
        }
    }
}

/// The display name of the classification of a region: the rule table
/// applied to the permission string and optional backing.
pub fn determine_region_type(permissions: &str, file_path: Option<&str>) -> (r: &'static str)
    ensures
        r@ == spec_kind_label(spec_classify(permissions@, backing_view(file_path))),
{
    classify(permissions, file_path).name()
}

/// A backing that holds the stack marker always classifies as
/// `Stack`, whatever the permission string says: the rules are
/// ordered and the stack rule stands first.
pub proof fn lemma_stack_rule_wins(permissions: Seq<char>, backing: Seq<char>)
    requires
        contains_seq(backing, stack_marker()),
    ensures
        spec_classify(permissions, Some(backing)) == RegionKind::Stack,
{
}

} // verus!
