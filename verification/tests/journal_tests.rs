use arachne_incremental::journal::{
    parse_usn_batch, query_usn_journal, read_usn_deltas, volume_device_path, QueryReply,
    ReadReply, ReadStep, UsnError, UsnReader, ERROR_HANDLE_EOF, ERROR_JOURNAL_ENTRY_DELETED,
    ERROR_JOURNAL_NOT_ACTIVE,
};

fn utf16(s: &str) -> Vec<u16> {
    s.encode_utf16().collect()
}

fn record_bytes(frn: u64, parent: u64, usn: i64, reason: u32, name: &[u16]) -> Vec<u8> {
    let name_len = 2 * name.len();
    let record_len = 60 + name_len;
    let mut b = Vec::new();
    b.extend_from_slice(&(record_len as u32).to_le_bytes());
    b.extend_from_slice(&2u16.to_le_bytes());
    b.extend_from_slice(&0u16.to_le_bytes());
    b.extend_from_slice(&frn.to_le_bytes());
    b.extend_from_slice(&parent.to_le_bytes());
    b.extend_from_slice(&usn.to_le_bytes());
    b.extend_from_slice(&0i64.to_le_bytes());
    b.extend_from_slice(&reason.to_le_bytes());
    b.extend_from_slice(&0u32.to_le_bytes());
    b.extend_from_slice(&0u32.to_le_bytes());
    b.extend_from_slice(&0x20u32.to_le_bytes());
    b.extend_from_slice(&(name_len as u16).to_le_bytes());
    b.extend_from_slice(&60u16.to_le_bytes());
    for u in name {
        b.extend_from_slice(&u.to_le_bytes());
    }
    b
}

fn batch(next_usn: i64, records: &[Vec<u8>]) -> Vec<u8> {
    let mut b = next_usn.to_le_bytes().to_vec();
    for r in records {
        b.extend_from_slice(r);
    }
    b
}

#[test]
fn device_path_of_drive_letter() {
    let expected: Vec<u16> = utf16("\\\\.\\C:").into_iter().chain(std::iter::once(0)).collect();
    assert_eq!(volume_device_path("C"), expected);
    assert_eq!(volume_device_path("C:"), expected);
    assert_eq!(volume_device_path("C::"), expected);
}

#[test]
fn query_reports_identity_and_cursor() {
    let mut data = [0u8; 56];
    data[0..8].copy_from_slice(&0x1234_5678_9abc_def0u64.to_le_bytes());
    data[8..16].copy_from_slice(&5i64.to_le_bytes());
    data[16..24].copy_from_slice(&1_000_000i64.to_le_bytes());
    let r = query_usn_journal("C", &QueryReply::Journal(data)).unwrap();
    assert_eq!(r, (0x1234_5678_9abc_def0, 1_000_000));
}

#[test]
fn query_reads_negative_cursor() {
    let mut data = [0u8; 56];
    data[16..24].copy_from_slice(&(-2i64).to_le_bytes());
    let r = query_usn_journal("C", &QueryReply::Journal(data)).unwrap();
    assert_eq!(r, (0, -2));
}

#[test]
fn query_failures() {
    match query_usn_journal("D", &QueryReply::VolumeUnavailable) {
        Err(UsnError::VolumeUnavailable { volume }) => assert_eq!(volume, "D"),
        other => panic!("unexpected {:?}", other),
    }
    match query_usn_journal("D", &QueryReply::QueryFailed) {
        Err(UsnError::JournalMissing { volume }) => assert_eq!(volume, "D"),
        other => panic!("unexpected {:?}", other),
    }
}

#[test]
fn batch_records_are_decoded() {
    let buf = batch(
        777,
        &[
            record_bytes(10, 5, 100, 0x100, &utf16("a.txt")),
            record_bytes(11, 5, 101, 0x200, &utf16("b😀.txt")),
        ],
    );
    let recs = parse_usn_batch(&buf, buf.len());
    assert_eq!(recs.len(), 2);
    assert_eq!(recs[0].frn, 10);
    assert_eq!(recs[0].parent_frn, 5);
    assert_eq!(recs[0].usn, 100);
    assert_eq!(recs[0].reason, 0x100);
    assert_eq!(recs[0].filename, "a.txt");
    assert_eq!(recs[1].frn, 11);
    assert_eq!(recs[1].reason, 0x200);
    assert_eq!(recs[1].filename, "b😀.txt");
}

#[test]
fn lone_surrogates_become_replacement_characters() {
    let name = vec![0x61, 0xD800, 0x62, 0xDC00];
    let buf = batch(1, &[record_bytes(1, 2, 3, 0, &name)]);
    let recs = parse_usn_batch(&buf, buf.len());
    assert_eq!(recs[0].filename, "a\u{FFFD}b\u{FFFD}");
}

#[test]
fn record_without_name_is_skipped() {
    let buf = batch(
        1,
        &[record_bytes(1, 2, 3, 0, &[]), record_bytes(4, 2, 5, 0, &utf16("x"))],
    );
    let recs = parse_usn_batch(&buf, buf.len());
    assert_eq!(recs.len(), 1);
    assert_eq!(recs[0].frn, 4);
}

#[test]
fn zero_length_record_ends_batch() {
    let mut zero = record_bytes(9, 2, 3, 0, &utf16("z"));
    zero[0..4].copy_from_slice(&0u32.to_le_bytes());
    let buf = batch(
        1,
        &[record_bytes(1, 2, 3, 0, &utf16("a")), zero, record_bytes(4, 2, 5, 0, &utf16("b"))],
    );
    let recs = parse_usn_batch(&buf, buf.len());
    assert_eq!(recs.len(), 1);
    assert_eq!(recs[0].filename, "a");
}

#[test]
fn record_past_end_is_not_read() {
    let buf = batch(1, &[record_bytes(1, 2, 3, 0, &utf16("abc"))]);
    let recs = parse_usn_batch(&buf, buf.len() - 1);
    assert!(recs.is_empty());
}

#[test]
fn request_layout() {
    let reader = UsnReader::new("C", -3, 0x0102_0304_0506_0708);
    let req = reader.request();
    assert_eq!(req.len(), 40);
    assert_eq!(&req[0..8], &(-3i64).to_le_bytes());
    assert_eq!(&req[8..12], &0xFFFF_FFFFu32.to_le_bytes());
    assert_eq!(&req[12..32], &[0u8; 20]);
    assert_eq!(&req[32..40], &0x0102_0304_0506_0708u64.to_le_bytes());
}

#[test]
fn read_continues_then_finishes() {
    let mut reader = UsnReader::new("C", 50, 7);
    let mut buf = vec![0u8; 4096];
    let data = batch(120, &[record_bytes(1, 2, 60, 0x2, &utf16("f.txt"))]);
    buf[..data.len()].copy_from_slice(&data);
    let step = read_usn_deltas(&mut reader, &ReadReply::Returned(data.len() as u32), &buf);
    assert!(matches!(step, ReadStep::Continue));
    assert_eq!(reader.current_usn, 120);
    assert_eq!(reader.last_next_usn, 120);
    assert_eq!(reader.records.len(), 1);

    let data = batch(130, &[]);
    buf[..data.len()].copy_from_slice(&data);
    let step = read_usn_deltas(&mut reader, &ReadReply::Returned(8), &buf);
    assert!(matches!(step, ReadStep::Finished));
    assert_eq!(reader.current_usn, 120);
    let (records, next) = reader.finish();
    assert_eq!(next, 130);
    assert_eq!(records.len(), 1);
    assert_eq!(records[0].filename, "f.txt");
}

#[test]
fn batch_without_usable_records_finishes() {
    let mut reader = UsnReader::new("C", 50, 7);
    let buf = batch(90, &[record_bytes(1, 2, 60, 0x2, &[])]);
    let step = read_usn_deltas(&mut reader, &ReadReply::Returned(buf.len() as u32), &buf);
    assert!(matches!(step, ReadStep::Finished));
    assert_eq!(reader.current_usn, 90);
    assert_eq!(reader.last_next_usn, 90);
    assert!(reader.records.is_empty());
}

#[test]
fn read_errors() {
    let buf = vec![0u8; 8];
    let mut reader = UsnReader::new("E", 5, 1);
    assert!(matches!(
        read_usn_deltas(&mut reader, &ReadReply::Failed(ERROR_HANDLE_EOF), &buf),
        ReadStep::Finished
    ));
    assert!(matches!(
        read_usn_deltas(&mut reader, &ReadReply::Failed(ERROR_JOURNAL_ENTRY_DELETED), &buf),
        ReadStep::Failed(UsnError::JournalWrapped)
    ));
    match read_usn_deltas(&mut reader, &ReadReply::Failed(ERROR_JOURNAL_NOT_ACTIVE), &buf) {
        ReadStep::Failed(UsnError::JournalNotActive { volume }) => assert_eq!(volume, "E"),
        _ => panic!("expected an inactive journal"),
    }
    assert!(matches!(
        read_usn_deltas(&mut reader, &ReadReply::Failed(5), &buf),
        ReadStep::Finished
    ));
    match read_usn_deltas(&mut reader, &ReadReply::VolumeUnavailable, &buf) {
        ReadStep::Failed(UsnError::VolumeUnavailable { volume }) => assert_eq!(volume, "E"),
        _ => panic!("expected an unavailable volume"),
    }
    assert_eq!(reader.last_next_usn, 5);
    assert_eq!(reader.current_usn, 5);
}
