use memregion::resolve;
use memregion::RegionKind;

fn shared_library_lines() -> Vec<String> {
    vec![
        "00001000-00002000 r-xp 00000000 fc:01 11 libfoo.so".to_string(),
        "00003000-00004000 rw-p 00001000 fc:01 11 libfoo.so".to_string(),
        "00005000-00006000 r--p 00002000 fc:01 11 libfoo.so".to_string(),
        "00007000-00008000 r-xp 00000000 fc:01 22 libbar.so".to_string(),
    ]
}

#[test]
fn resolve_annotates_shared_backing_with_count() {
    let lines = shared_library_lines();
    let found = resolve(0x1800, &lines).unwrap();
    assert_eq!(found.label, "libfoo.so [3]");
    assert_eq!(found.kind, RegionKind::ExecutableText);
}

#[test]
fn resolve_leaves_unique_backing_unannotated() {
    let lines = shared_library_lines();
    let found = resolve(0x7800, &lines).unwrap();
    assert_eq!(found.label, "libbar.so");
    assert_eq!(found.permissions, "r-xp");
}

#[test]
fn resolve_includes_both_range_ends() {
    let lines = vec!["00001000-00002000 rw-p 00000000 fc:01 33 [heap]".to_string()];
    let at_start = resolve(0x1000, &lines).unwrap();
    assert_eq!(at_start.kind, RegionKind::Heap);
    let at_end = resolve(0x2000, &lines).unwrap();
    assert_eq!(at_end.kind, RegionKind::Heap);
    assert!(resolve(0xfff, &lines).is_none());
    assert!(resolve(0x2001, &lines).is_none());
}

#[test]
fn resolve_outside_all_ranges_is_not_found() {
    let lines = shared_library_lines();
    assert!(resolve(0x0, &lines).is_none());
    assert!(resolve(0xdead_0000, &lines).is_none());
}

#[test]
fn resolve_skips_unparsable_lines() {
    let lines = vec![
        "garbage".to_string(),
        "".to_string(),
        "00001000-00002000 rw-p 00000000 fc:01 44".to_string(),
    ];
    let found = resolve(0x1234, &lines).unwrap();
    assert_eq!(found.kind, RegionKind::DataOrBss);
    assert_eq!(found.label, "anonymous");
    assert_eq!(found.permissions, "rw-p");
}

#[test]
fn resolve_first_matching_record_wins() {
    let lines = vec![
        "00001000-00002000 r-xp 00000000 fc:01 55 libfoo.so".to_string(),
        "00002000-00003000 rw-p 00000000 fc:01 55 libfoo.so".to_string(),
    ];
    let at_boundary = resolve(0x2000, &lines).unwrap();
    assert_eq!(at_boundary.kind, RegionKind::ExecutableText);
}

#[test]
fn resolve_same_input_twice_yields_identical_results() {
    let lines = shared_library_lines();
    let first = resolve(0x3500, &lines).unwrap();
    let second = resolve(0x3500, &lines).unwrap();
    assert_eq!(first.kind, second.kind);
    assert_eq!(first.permissions, second.permissions);
    assert_eq!(first.label, second.label);
    assert!(resolve(0x9000, &lines).is_none());
    assert!(resolve(0x9000, &lines).is_none());
}

#[test]
fn resolve_counts_before_matching() {
    let lines = vec![
        "00001000-00002000 rw-p 00000000 fc:01 66 libqux.so".to_string(),
        "00009000-0000a000 r--p 00000000 fc:01 66 libqux.so".to_string(),
    ];
    let found = resolve(0x1000, &lines).unwrap();
    assert_eq!(found.label, "libqux.so [2]");
    assert_eq!(found.kind, RegionKind::SharedLibraryData);
}
