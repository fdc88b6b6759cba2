use memregion::parse_hex_str;
use memregion::parse_line;

#[test]
fn test_parse_line_valid() {
    let line = "00400000-0040c000 r-xp 00000000 fc:01 123456 /usr/bin/cat";
    let parsed = parse_line(line).unwrap();
    assert_eq!(parsed.start, 0x400000);
    assert_eq!(parsed.end, 0x40c000);
    assert_eq!(parsed.permissions, "r-xp");
    assert_eq!(parsed.backing, Some("/usr/bin/cat".to_string()));
}

#[test]
fn test_parse_line_invalid_format() {
    let line = "invalid format line";
    assert!(parse_line(line).is_none());
}

#[test]
fn parse_line_four_fields_is_no_record() {
    assert!(parse_line("00400000-0040c000 r-xp 00000000 fc:01").is_none());
}

#[test]
fn parse_line_without_backing_field() {
    let parsed = parse_line("00400000-0040c000 rw-p 00000000 fc:01 123456").unwrap();
    assert_eq!(parsed.start, 0x400000);
    assert_eq!(parsed.end, 0x40c000);
    assert_eq!(parsed.permissions, "rw-p");
    assert_eq!(parsed.backing, None);
}

#[test]
fn parse_line_range_without_dash_is_no_record() {
    assert!(parse_line("00400000 r-xp 00000000 fc:01 123456 /usr/bin/cat").is_none());
}

#[test]
fn parse_line_range_with_two_dashes_is_no_record() {
    assert!(parse_line("1000-2000-3000 r-xp 00000000 fc:01 123456 /usr/bin/cat").is_none());
}

#[test]
fn parse_line_range_with_non_hex_digits_is_no_record() {
    assert!(parse_line("zzz-qqq r-xp 00000000 fc:01 123456 /usr/bin/cat").is_none());
}

#[test]
fn parse_line_takes_only_first_token_of_spaced_path() {
    let parsed = parse_line("00400000-0040c000 r-xp 00000000 fc:01 123456 /usr/my file").unwrap();
    assert_eq!(parsed.backing, Some("/usr/my".to_string()));
}

#[test]
fn parse_line_extra_whitespace_between_fields() {
    let parsed = parse_line("  00400000-0040c000\t r-xp  00000000  fc:01  123456  /usr/bin/cat ")
        .unwrap();
    assert_eq!(parsed.start, 0x400000);
    assert_eq!(parsed.permissions, "r-xp");
    assert_eq!(parsed.backing, Some("/usr/bin/cat".to_string()));
}

#[test]
fn parse_hex_accepts_leading_plus() {
    assert_eq!(parse_hex_str("+1f"), Some(0x1f));
}

#[test]
fn parse_hex_rejects_empty_and_sign_only() {
    assert_eq!(parse_hex_str(""), None);
    assert_eq!(parse_hex_str("+"), None);
}

#[test]
fn parse_hex_mixed_case_digits() {
    assert_eq!(parse_hex_str("DeadBEEF"), Some(0xdead_beef));
}

#[test]
fn parse_hex_largest_value_and_overflow() {
    assert_eq!(parse_hex_str("ffffffffffffffff"), Some(u64::MAX));
    assert_eq!(parse_hex_str("10000000000000000"), None);
}
