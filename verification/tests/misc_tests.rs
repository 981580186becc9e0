use arachne_incremental::bench::{churn_count, is_test_file, reason_hex, test_records};
use arachne_incremental::journal::UsnRecord;
use arachne_incremental::text::{
    decode_utf16_lossy, str_contains, str_eq_ignore_ascii_case, to_ascii_uppercase,
};
use arachne_incremental::volume::drive_letter;

#[test]
fn drive_letters() {
    assert_eq!(drive_letter("\\\\?\\C:\\data").as_deref(), Some("C"));
    assert_eq!(drive_letter("d:/work").as_deref(), Some("D"));
    assert_eq!(drive_letter("/home").as_deref(), Some("/"));
    assert_eq!(drive_letter(""), None);
    assert_eq!(drive_letter("\\\\?\\"), None);
    assert_eq!(drive_letter("\u{e9}:/x").as_deref(), Some("\u{c9}"));
    assert_eq!(drive_letter("\u{df}x").as_deref(), Some("SS"));
}

#[test]
fn churn_is_one_percent_with_a_floor() {
    assert_eq!(churn_count(10000), 100);
    assert_eq!(churn_count(250), 2);
    assert_eq!(churn_count(50), 1);
    assert_eq!(churn_count(0), 1);
}

#[test]
fn test_files_are_recognised() {
    assert!(is_test_file("file_12.txt"));
    assert!(!is_test_file("file_12.md"));
    assert!(!is_test_file("other.txt"));
    let recs: Vec<UsnRecord> = ["file_1.txt", "x", "file_2.txt"]
        .iter()
        .map(|n| UsnRecord { frn: 1, parent_frn: 2, usn: 3, reason: 4, filename: n.to_string() })
        .collect();
    assert_eq!(test_records(&recs), vec![0, 2]);
}

#[test]
fn reasons_in_hexadecimal() {
    assert_eq!(reason_hex(0x100), "0x00000100");
    assert_eq!(reason_hex(0x8000_0002), "0x80000002");
    assert_eq!(reason_hex(0xFFFF_FFFF), "0xffffffff");
    assert_eq!(reason_hex(0), "0x00000000");
}

#[test]
fn utf16_roundtrip() {
    for s in ["", "abc", "päth", "😀x", "\u{FFFF}\u{10000}"] {
        let units: Vec<u16> = s.encode_utf16().collect();
        assert_eq!(decode_utf16_lossy(&units), s);
    }
}

#[test]
fn substring_search() {
    assert!(str_contains("abcabd", "abd"));
    assert!(str_contains("abc", ""));
    assert!(!str_contains("ab", "abc"));
    assert!(!str_contains("abc", "acb"));
}

#[test]
fn ascii_case_folding() {
    assert!(str_eq_ignore_ascii_case("ReNaMeD", "renamed"));
    assert!(!str_eq_ignore_ascii_case("renamed", "renamed_old"));
    assert!(!str_eq_ignore_ascii_case("é", "É"));
    assert_eq!(to_ascii_uppercase("renamed_old"), "RENAMED_OLD");
}
