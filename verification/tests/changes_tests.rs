use arachne_incremental::changes::{
    classify_reason, initial_baseline, process_records, BaselineEntry, CachedBaseline, ChangeOp,
    FileEvent,
};
use arachne_incremental::journal::UsnRecord;
use arachne_incremental::text::sanitize_filename;

fn rec(frn: u64, parent: u64, usn: i64, reason: u32, name: &str) -> UsnRecord {
    UsnRecord { frn, parent_frn: parent, usn, reason, filename: name.to_string() }
}

fn event(op: ChangeOp, path: &str) -> FileEvent {
    FileEvent { op, path: path.to_string(), old_path: None, frn: 1, usn: 1, timestamp: None }
}

#[test]
fn reasons_are_classified() {
    assert_eq!(classify_reason(0x0000_0100), "created");
    assert_eq!(classify_reason(0x0000_0200), "deleted");
    assert_eq!(classify_reason(0x0000_0300), "deleted");
    assert_eq!(classify_reason(0x0000_3000), "renamed");
    assert_eq!(classify_reason(0x0000_1000), "renamed");
    assert_eq!(classify_reason(0x0000_2000), "renamed");
    assert_eq!(classify_reason(0x0000_2100), "renamed");
    assert_eq!(classify_reason(0x0000_0002), "modified");
    assert_eq!(classify_reason(0), "modified");
    assert_eq!(classify_reason(0xFFFF_FFFF), "deleted");
}

#[test]
fn deletion_outweighs_every_other_flag() {
    for other in [0u32, 0x100, 0x1000, 0x2000, 0x3000, 0x3100, 0x8000_0000] {
        assert_eq!(classify_reason(other | 0x200), "deleted");
    }
}

#[test]
fn nul_characters_are_removed() {
    assert_eq!(sanitize_filename("a\0b\0"), "ab");
    assert_eq!(sanitize_filename("plain.txt"), "plain.txt");
    assert_eq!(sanitize_filename("\0\0"), "");
    assert_eq!(sanitize_filename(&sanitize_filename("x\0y")), "xy");
}

#[test]
fn records_become_events_under_the_root() {
    let mut baseline = CachedBaseline::new();
    baseline.last_usn = 42;
    let records = vec![rec(10, 5, 100, 0x100, "dir"), rec(11, 10, 101, 0x2, "f\0.txt")];
    let events = process_records(records, &mut baseline, r"C:\data");
    assert_eq!(events.len(), 2);
    assert_eq!(events[0].op, ChangeOp::Created);
    assert_eq!(events[0].path, r"C:\data\dir");
    assert_eq!(events[0].frn, 10);
    assert_eq!(events[0].usn, 100);
    assert_eq!(events[1].op, ChangeOp::Modified);
    assert_eq!(events[1].path, r"C:\data\dir\f.txt");
    assert!(events[1].timestamp.is_none());
    assert_eq!(baseline.entries.get(&11).unwrap().path, r"C:\data\dir\f.txt");
    assert_eq!(baseline.entries.get(&11).unwrap().parent_frn, 10);
    assert!(baseline.entries.get(&11).unwrap().exists);
    assert_eq!(baseline.last_usn, 42);
}

#[test]
fn only_the_first_record_of_a_file_counts() {
    let mut baseline = CachedBaseline::new();
    let records = vec![rec(10, 5, 100, 0x2, "a"), rec(10, 5, 101, 0x200, "a")];
    let events = process_records(records, &mut baseline, "R");
    assert_eq!(events.len(), 1);
    assert_eq!(events[0].op, ChangeOp::Modified);
    assert!(baseline.entries.get(&10).unwrap().exists);
}

#[test]
fn rename_reports_the_cached_path() {
    let mut baseline = CachedBaseline::new();
    baseline.entries.insert(
        20,
        BaselineEntry { path: r"R\old.txt".to_string(), parent_frn: 5, exists: true },
    );
    let records = vec![rec(20, 5, 7, 0x3000, "new.txt")];
    let events = process_records(records, &mut baseline, "R");
    assert_eq!(events[0].op, ChangeOp::Renamed);
    assert_eq!(events[0].path, r"R\new.txt");
    assert_eq!(events[0].old_path.as_deref(), Some(r"R\old.txt"));
    assert_eq!(baseline.entries.get(&20).unwrap().path, r"R\new.txt");
}

#[test]
fn rename_of_unknown_file_has_no_old_path() {
    let mut baseline = CachedBaseline::new();
    let events = process_records(vec![rec(20, 5, 7, 0x3000, "n")], &mut baseline, "R");
    assert_eq!(events[0].old_path, None);
}

#[test]
fn deletion_marks_entry_gone() {
    let mut baseline = CachedBaseline::new();
    let events = process_records(vec![rec(30, 5, 7, 0x200, "gone")], &mut baseline, "R");
    assert_eq!(events[0].op, ChangeOp::Deleted);
    assert!(!baseline.entries.get(&30).unwrap().exists);
}

#[test]
fn files_under_foreign_parents_are_not_reported() {
    let mut baseline = CachedBaseline::new();
    baseline.entries.insert(
        5,
        BaselineEntry { path: r"D:\elsewhere".to_string(), parent_frn: 1, exists: true },
    );
    let events = process_records(vec![rec(31, 5, 7, 0x2, "x")], &mut baseline, r"C:\data");
    assert!(events.is_empty());
    assert!(baseline.entries.get(&31).is_none());
    assert_eq!(baseline.entries.get(&5).unwrap().path, r"D:\elsewhere");
}

#[test]
fn unreported_entries_are_kept() {
    let mut baseline = CachedBaseline::new();
    baseline.entries.insert(
        99,
        BaselineEntry { path: r"R\keep".to_string(), parent_frn: 1, exists: false },
    );
    process_records(vec![rec(1, 2, 3, 0x2, "a")], &mut baseline, "R");
    let kept = baseline.entries.get(&99).unwrap();
    assert_eq!(kept.path, r"R\keep");
    assert!(!kept.exists);
}

#[test]
fn op_names() {
    assert_eq!(ChangeOp::Created.as_str(), "created");
    assert_eq!(ChangeOp::Modified.as_str(), "modified");
    assert_eq!(ChangeOp::Renamed.as_str(), "renamed");
    assert_eq!(ChangeOp::Deleted.as_str(), "deleted");
    assert_eq!(ChangeOp::from_reason(0x100), ChangeOp::Created);
}

#[test]
fn file_name_of_event_path() {
    assert_eq!(event(ChangeOp::Created, "C:/data/file.txt").filename(), "file.txt");
    assert_eq!(event(ChangeOp::Created, "a/b/").filename(), "b");
    assert_eq!(event(ChangeOp::Created, "a/..").filename(), "");
    assert_eq!(event(ChangeOp::Created, "a/.").filename(), "a");
    assert_eq!(event(ChangeOp::Created, "plain").filename(), "plain");
    assert_eq!(event(ChangeOp::Created, "").filename(), "");
    assert_eq!(event(ChangeOp::Created, "/").filename(), "");
    assert_eq!(event(ChangeOp::Created, ".").filename(), "");
}

#[test]
fn only_renames_report_a_previous_path() {
    let mut baseline = CachedBaseline::new();
    baseline.entries.insert(
        40,
        BaselineEntry { path: r"R\known.txt".to_string(), parent_frn: 5, exists: true },
    );
    let events = process_records(vec![rec(40, 5, 8, 0x2, "known.txt")], &mut baseline, "R");
    assert_eq!(events[0].op, ChangeOp::Modified);
    assert_eq!(events[0].old_path, None);
}

#[test]
fn documented_output_example() {
    let mut baseline = CachedBaseline::new();
    let records = vec![rec(12345, 99, 9876543210, 0x2, "file.txt")];
    let events = process_records(records, &mut baseline, r"C:\data");
    assert_eq!(events.len(), 1);
    assert_eq!(events[0].op.as_str(), "modified");
    assert_eq!(events[0].path, r"C:\data\file.txt");
    assert_eq!(events[0].old_path, None);
    assert_eq!(events[0].frn, 12345);
    assert_eq!(events[0].usn, 9876543210);
    assert_eq!(events[0].timestamp, None);
}

#[test]
fn every_reason_has_a_documented_kind() {
    let kinds = ["created", "modified", "renamed", "deleted"];
    for reason in [0u32, 1, 2, 0x100, 0x200, 0x1000, 0x2000, 0x3000, 0x2100, 0x8000_0000, u32::MAX] {
        assert!(kinds.contains(&classify_reason(reason)));
    }
}

#[test]
fn records_seen_twice_change_nothing() {
    let records = || {
        vec![
            rec(10, 5, 100, 0x100, "dir"),
            rec(11, 10, 101, 0x2, "a.txt"),
            rec(12, 10, 102, 0x200, "b.txt"),
        ]
    };
    let mut once = CachedBaseline::new();
    let first = process_records(records(), &mut once, "R");
    let mut twice = CachedBaseline::new();
    let mut doubled = records();
    doubled.extend(records());
    let second = process_records(doubled, &mut twice, "R");
    assert_eq!(first.len(), second.len());
    for (a, b) in first.iter().zip(second.iter()) {
        assert_eq!((a.op, &a.path, a.frn, a.usn), (b.op, &b.path, b.frn, b.usn));
    }
    assert_eq!(once.entries.len(), twice.entries.len());
    for (k, v) in once.entries.iter() {
        let w = twice.entries.get(k).unwrap();
        assert_eq!((&v.path, v.parent_frn, v.exists), (&w.path, w.parent_frn, w.exists));
    }
}

#[test]
fn one_event_per_distinct_file_under_the_root() {
    let mut baseline = CachedBaseline::new();
    baseline.entries.insert(
        5,
        BaselineEntry { path: r"R\sub".to_string(), parent_frn: 1, exists: true },
    );
    let records = vec![
        rec(10, 5, 1, 0x2, "a"),
        rec(11, 77, 2, 0x100, "b"),
        rec(10, 5, 3, 0x200, "a"),
        rec(12, 10, 4, 0x2, "c"),
    ];
    let events = process_records(records, &mut baseline, "R");
    assert_eq!(events.len(), 3);
    assert_eq!(events[0].path, r"R\sub\a");
    assert_eq!(events[1].path, r"R\b");
    assert_eq!(events[2].path, r"R\sub\a\c");
    assert!(baseline.entries.values().all(|e| e.path.starts_with("R")));
}

#[test]
fn a_first_scan_starts_at_the_bootstrap_cursor() {
    let fresh = initial_baseline(None, 4242);
    assert_eq!(fresh.last_usn, 4242);
    assert!(fresh.entries.is_empty());
    let mut stored = CachedBaseline::starting_at(10);
    stored.entries.insert(
        1,
        BaselineEntry { path: r"R\x".to_string(), parent_frn: 0, exists: true },
    );
    let kept = initial_baseline(Some(stored), 4242);
    assert_eq!(kept.last_usn, 10);
    assert_eq!(kept.entries.get(&1).unwrap().path, r"R\x");
}
