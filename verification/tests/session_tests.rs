use arachne_incremental::changes::{CachedBaseline, ChangeOp, FileEvent};
use arachne_incremental::filter::EventFilter;
use arachne_incremental::journal::{
    read_usn_deltas, ReadReply, ReadStep, UsnError, UsnReader, UsnRecord,
};
use arachne_incremental::session::{
    apply_deltas, check_journal_id, create_summary, format_log_line, remaining_wait,
    select_events, watch_poll, ScanError, WatchOutcome,
};

fn rec(frn: u64, parent: u64, usn: i64, reason: u32, name: &str) -> UsnRecord {
    UsnRecord { frn, parent_frn: parent, usn, reason, filename: name.to_string() }
}

fn event(op: ChangeOp, path: &str) -> FileEvent {
    FileEvent { op, path: path.to_string(), old_path: None, frn: 1, usn: 1, timestamp: None }
}

#[test]
fn journal_identity_must_match() {
    assert!(check_journal_id(7, 7).is_ok());
    match check_journal_id(7, 8) {
        Err(ScanError::JournalChanged { expected, live }) => {
            assert_eq!(expected, 7);
            assert_eq!(live, 8);
        }
        Ok(()) => panic!("a changed journal must be refused"),
    }
}

#[test]
fn cursor_advances_even_when_nothing_passes_the_filter() {
    let mut baseline = CachedBaseline::new();
    let filter = EventFilter::new(Some(vec!["deleted".to_string()]), None, None).unwrap();
    let events = apply_deltas(
        &mut baseline,
        vec![rec(1, 2, 10, 0x100, "a"), rec(3, 2, 11, 0x2, "b")],
        500,
        "R",
        &filter,
    );
    assert!(events.is_empty());
    assert_eq!(baseline.last_usn, 500);
    assert_eq!(baseline.entries.len(), 2);
}

#[test]
fn selection_keeps_order() {
    let filter = EventFilter::new(None, Some(vec!["*.txt".to_string()]), None).unwrap();
    let events = vec![
        event(ChangeOp::Created, "R/1.txt"),
        event(ChangeOp::Created, "R/2.md"),
        event(ChangeOp::Deleted, "R/3.txt"),
    ];
    let kept = select_events(events, &filter);
    assert_eq!(kept.len(), 2);
    assert_eq!(kept[0].path, "R/1.txt");
    assert_eq!(kept[1].path, "R/3.txt");
}

#[test]
fn failed_read_leaves_cache_alone() {
    let mut baseline = CachedBaseline::new();
    baseline.last_usn = 9;
    let filter = EventFilter::new(None, None, None).unwrap();
    match watch_poll(&mut baseline, Err(UsnError::JournalWrapped), "R", &filter) {
        WatchOutcome::ReadFailed(UsnError::JournalWrapped) => {}
        _ => panic!("expected the failure to be reported"),
    }
    assert_eq!(baseline.last_usn, 9);
    assert!(baseline.entries.is_empty());
}

#[test]
fn successful_read_reports_and_advances() {
    let mut baseline = CachedBaseline::new();
    let filter = EventFilter::new(None, None, None).unwrap();
    match watch_poll(&mut baseline, Ok((vec![rec(1, 2, 3, 0x200, "x")], 77)), "R", &filter) {
        WatchOutcome::Report(events) => {
            assert_eq!(events.len(), 1);
            assert_eq!(events[0].path, r"R\x");
            assert_eq!(events[0].op, ChangeOp::Deleted);
        }
        WatchOutcome::ReadFailed(_) => panic!("expected events"),
    }
    assert_eq!(baseline.last_usn, 77);
}

#[test]
fn wait_is_what_remains_of_the_interval() {
    assert_eq!(remaining_wait(2, 5), 3);
    assert_eq!(remaining_wait(5, 5), 0);
    assert_eq!(remaining_wait(9, 5), 0);
}

#[test]
fn summary_counts_by_kind() {
    let events = vec![
        event(ChangeOp::Created, "a"),
        event(ChangeOp::Created, "b"),
        event(ChangeOp::Modified, "c"),
        event(ChangeOp::Renamed, "d"),
        event(ChangeOp::Renamed, "e"),
        event(ChangeOp::Deleted, "f"),
    ];
    let s = create_summary(&events, 12);
    assert_eq!(s.total_events, 6);
    assert_eq!(s.created, 2);
    assert_eq!(s.modified, 1);
    assert_eq!(s.renamed, 2);
    assert_eq!(s.deleted, 1);
    assert_eq!(s.scan_time_ms, 12);
    assert_eq!(s.created + s.modified + s.renamed + s.deleted, s.total_events);
}

#[test]
fn log_lines() {
    let mut e = event(ChangeOp::Renamed, r"R\n.txt");
    assert_eq!(format_log_line(&e), r"[?] RENAMED: R\n.txt");
    e.timestamp = Some("2024-01-01T00:00:00.000+0000".to_string());
    assert_eq!(format_log_line(&e), r"[2024-01-01T00:00:00.000+0000] RENAMED: R\n.txt");
}

fn record(frn: u64, parent: u64, usn: i64, reason: u32, name: &str) -> Vec<u8> {
    let units: Vec<u16> = name.encode_utf16().collect();
    let mut b = Vec::new();
    b.extend_from_slice(&((60 + 2 * units.len()) as u32).to_le_bytes());
    b.extend_from_slice(&[2, 0, 0, 0]);
    b.extend_from_slice(&frn.to_le_bytes());
    b.extend_from_slice(&parent.to_le_bytes());
    b.extend_from_slice(&usn.to_le_bytes());
    b.extend_from_slice(&0i64.to_le_bytes());
    b.extend_from_slice(&reason.to_le_bytes());
    b.extend_from_slice(&[0u8; 12]);
    b.extend_from_slice(&((2 * units.len()) as u16).to_le_bytes());
    b.extend_from_slice(&60u16.to_le_bytes());
    for u in units {
        b.extend_from_slice(&u.to_le_bytes());
    }
    b
}

#[test]
fn batch_to_summary() {
    let mut buf = 300i64.to_le_bytes().to_vec();
    buf.extend(record(100, 5, 201, 0x100, "dir"));
    buf.extend(record(101, 100, 202, 0x100, "a.txt"));
    buf.extend(record(102, 100, 203, 0x200, "b.log"));
    let mut reader = UsnReader::new("C", 200, 1);
    let step = read_usn_deltas(&mut reader, &ReadReply::Returned(buf.len() as u32), &buf);
    assert!(matches!(step, ReadStep::Continue));
    let (records, next) = reader.finish();
    assert_eq!(next, 300);

    let mut baseline = CachedBaseline::new();
    let filter = EventFilter::new(None, None, Some(vec!["*.log".to_string()])).unwrap();
    let events = apply_deltas(&mut baseline, records, next, r"C:\root", &filter);
    assert_eq!(events.len(), 2);
    assert_eq!(events[0].path, r"C:\root\dir");
    assert_eq!(events[1].path, r"C:\root\dir\a.txt");
    assert_eq!(baseline.last_usn, 300);
    assert!(!baseline.entries.get(&102).unwrap().exists);

    let s = create_summary(&events, 0);
    assert_eq!((s.total_events, s.created, s.deleted), (2, 2, 0));
}

#[test]
fn watch_reports_only_listed_kinds() {
    let mut baseline = CachedBaseline::new();
    let filter = EventFilter::new(Some(vec!["CREATED".to_string()]), None, None).unwrap();
    let read = Ok((vec![rec(1, 2, 3, 0x100, "new"), rec(4, 2, 5, 0x2, "old")], 6));
    match watch_poll(&mut baseline, read, "R", &filter) {
        WatchOutcome::Report(events) => {
            assert_eq!(events.len(), 1);
            assert_eq!(events[0].op, ChangeOp::Created);
            assert_eq!(events[0].path, r"R\new");
        }
        WatchOutcome::ReadFailed(_) => panic!("expected events"),
    }
    assert_eq!(baseline.last_usn, 6);
    assert_eq!(baseline.entries.len(), 2);
}

#[test]
fn selection_by_file_name_on_windows_style_roots() {
    let filter =
        EventFilter::new(None, Some(vec!["*.txt".to_string()]), Some(vec!["*.tmp".to_string()]))
            .unwrap();
    let events = vec![
        event(ChangeOp::Created, r"C:\data\a.txt"),
        event(ChangeOp::Created, r"C:\data\b.tmp"),
        event(ChangeOp::Created, r"C:\data\c.md"),
    ];
    let kept = select_events(events, &filter);
    assert_eq!(kept.len(), 1);
    assert_eq!(kept[0].path, r"C:\data\a.txt");
}
