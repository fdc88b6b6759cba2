use memregion::classify;
use memregion::determine_region_type;
use memregion::RegionKind;

#[test]
fn test_determine_region_type_stack() {
    let permissions = "rw-p";
    let file_path = Some("[stack]");
    assert_eq!(determine_region_type(permissions, file_path), "stack");
}

#[test]
fn test_determine_region_type_heap() {
    let permissions = "rw-p";
    let file_path = Some("[heap]");
    assert_eq!(determine_region_type(permissions, file_path), "heap");
}

#[test]
fn test_determine_region_type_text_executable_code() {
    let permissions = "r-xp";
    assert_eq!(determine_region_type(permissions, None), "text (executable code)");
}

#[test]
fn test_determine_region_type_data_in_shared_library() {
    let permissions = "rw-p";
    assert_eq!(
        determine_region_type(permissions, Some("libexample.so")),
        "data in shared library"
    );
}

#[test]
fn test_determine_region_type_read_only_data_in_shared_library() {
    let permissions = "r--p";
    assert_eq!(
        determine_region_type(permissions, Some("libreadonlydata.so")),
        "read-only data in shared library"
    );
}

#[test]
fn test_determine_region_type_data_or_bss() {
    let permissions = "rw-p";
    assert_eq!(determine_region_type(permissions, None), "data or BSS");
}

#[test]
fn classify_stack_wins_over_later_rules() {
    assert_eq!(classify("rw-p", Some("[stack]")), RegionKind::Stack);
    assert_eq!(classify("r-xp", Some("mapped [stack] copy")), RegionKind::Stack);
}

#[test]
fn classify_heap_wins_over_later_rules() {
    assert_eq!(classify("rw-p", Some("[heap]")), RegionKind::Heap);
}

#[test]
fn classify_each_permission_rule() {
    assert_eq!(classify("r-xp", None), RegionKind::ExecutableText);
    assert_eq!(classify("rw-p", Some("libexample.so")), RegionKind::SharedLibraryData);
    assert_eq!(
        classify("r--p", Some("libreadonlydata.so")),
        RegionKind::SharedLibraryReadOnlyData
    );
    assert_eq!(classify("rw-p", None), RegionKind::DataOrBss);
}

#[test]
fn classify_falls_through_to_other() {
    assert_eq!(classify("r--p", None), RegionKind::Other);
    assert_eq!(classify("---p", Some("/usr/bin/cat")), RegionKind::Other);
}

#[test]
fn classify_needs_shared_library_suffix_at_end() {
    assert_eq!(classify("rw-p", Some("libfoo.so.1")), RegionKind::DataOrBss);
}

#[test]
fn region_kind_names() {
    assert_eq!(RegionKind::Stack.name(), "stack");
    assert_eq!(RegionKind::Other.name(), "other");
}
