//! The update sequence (USN) journal of an NTFS volume: the device path of a
//! volume, the query for the journal's identity and cursor, the read request,
//! the decoding of the record batches the volume hands back, and the decisions
//! of the read loop.
//!
//! The device calls themselves are made by the caller, which hands every
//! reply of the volume to the functions here.

use vstd::prelude::*;
use crate::bytes::{le_bytes_u32, le_bytes_u64, push_i64_le, push_u32_le, push_u64_le, twos_complement_u64, lemma_le_u64_at, le_i64, le_u16, le_u32, le_u64, read_i64_le, read_u16_le, read_u32_le, read_u64_le};
use crate::text::{chars_of, decode_utf16_lossy, push_utf16, trim_colons, trim_trailing_colons, utf16_decode_lossy, utf16_encode};

verus! {

/// Size of the cursor that precedes the records of every batch.
pub const BATCH_HEADER_LEN: usize = 8;

/// Size of the fixed part of a version 2 record, up to the file name.
pub const RECORD_FIXED_LEN: usize = 60;

/// Size of the journal description returned by a journal query.
pub const JOURNAL_DATA_LEN: usize = 56;

/// Reply code: nothing more to read.
pub const ERROR_HANDLE_EOF: u32 = 38;

/// Reply code: the journal is not active on the volume.
pub const ERROR_JOURNAL_NOT_ACTIVE: u32 = 1179;

/// Reply code: the entries asked for have been discarded from the journal.
pub const ERROR_JOURNAL_ENTRY_DELETED: u32 = 1181;

/// Every change reason is asked for.
pub const ALL_REASONS: u32 = 0xFFFF_FFFF;

/// One change record of the journal.
#[derive(Debug)]
pub struct UsnRecord {
    /// File reference number of the file that changed.
    pub frn: u64,
    /// File reference number of its parent directory.
    pub parent_frn: u64,
    /// Update sequence number of the change.
    pub usn: i64,
    /// Reason flags of the change.
    pub reason: u32,
    /// Name of the file (not its path).
    pub filename: String,
}

pub struct UsnRecordView {
    pub frn: u64,
    pub parent_frn: u64,
    pub usn: i64,
    pub reason: u32,
    pub filename: Seq<char>,
}

impl View for UsnRecord {
    type V = UsnRecordView;

    open spec fn view(&self) -> UsnRecordView {
        UsnRecordView {
            frn: self.frn,
            parent_frn: self.parent_frn,
            usn: self.usn,
            reason: self.reason,
            filename: self.filename@,
        }
    }
}

pub open spec fn record_views(v: Seq<UsnRecord>) -> Seq<UsnRecordView> {
    v.map_values(|r: UsnRecord| r@)
}

/// Why the journal could not be queried or read.
#[derive(Debug)]
pub enum UsnError {
    /// The volume device could not be opened.
    VolumeUnavailable { volume: String },
    /// The journal query failed; the journal may not exist.
    JournalMissing { volume: String },
    /// Entries after the cursor have been discarded (the journal wrapped).
    JournalWrapped,
    /// The journal is not active on the volume.
    JournalNotActive { volume: String },
}

// ------------------------------------------------------------- device path

/// The characters of the device path of a volume: `\\.\` + drive + `:`,
/// where trailing colons of the drive name are dropped first.
pub open spec fn device_path_chars(volume: Seq<char>) -> Seq<char> {
    seq!['\\', '\\', '.', '\\'] + trim_trailing_colons(volume) + seq![':']
}

/// The NUL-terminated UTF-16 device path under which a volume is opened.
pub fn volume_device_path(volume: &str) -> (path: Vec<u16>)
    ensures
        path@ == utf16_encode(device_path_chars(volume@)).push(0u16),
{
    let vol = chars_of(volume);
    let trimmed = trim_colons(&vol);
    let mut cs: Vec<char> = Vec::new();
    cs.push('\\');
    cs.push('\\');
    cs.push('.');
    cs.push('\\');
    let mut i: usize = 0;
    while i < trimmed.len()
        invariant
            i <= trimmed@.len(),
            cs@ == seq!['\\', '\\', '.', '\\'] + trimmed@.take(i as int),
        decreases trimmed@.len() - i,
    {
        cs.push(trimmed[i]);
        i = i + 1;
        assert(cs@ =~= seq!['\\', '\\', '.', '\\'] + trimmed@.take(i as int));
    }
    cs.push(':');
    assert(trimmed@.take(trimmed@.len() as int) =~= trimmed@);
    assert(cs@ =~= device_path_chars(volume@));
    let mut units: Vec<u16> = Vec::new();
    push_utf16(&mut units, &cs);
    units.push(0u16);
    assert(units@ =~= utf16_encode(device_path_chars(volume@)).push(0u16));
    units
}

// ------------------------------------------------------------- query

/// What the volume answered to a journal query.
pub enum QueryReply {
    /// The volume device could not be opened.
    VolumeUnavailable,
    /// The device refused the query.
    QueryFailed,
    /// The journal description, as laid out by the volume.
    Journal([u8; 56]),
}

/// The journal identity and the next update sequence number, decided from the
/// reply of the volume to a journal query.
pub fn query_usn_journal(volume: &str, reply: &QueryReply) -> (r: Result<(u64, i64), UsnError>)
    ensures
        match *reply {
            QueryReply::VolumeUnavailable => r matches Err(UsnError::VolumeUnavailable { volume: v })
                && v@ == volume@,
            QueryReply::QueryFailed => r matches Err(UsnError::JournalMissing { volume: v }) && v@
                == volume@,
            QueryReply::Journal(data) => r == Ok::<(u64, i64), UsnError>(
                (le_u64(data@, 0) as u64, le_i64(data@, 16) as i64),
            ),
        },
{
    match reply {
        QueryReply::VolumeUnavailable => Err(
            UsnError::VolumeUnavailable { volume: String::from_str(volume) },
        ),
        QueryReply::QueryFailed => Err(UsnError::JournalMissing { volume: String::from_str(volume) }),
        QueryReply::Journal(data) => {
            let bytes = data.as_slice();
            let id = read_u64_le(bytes, 0);
            let next = read_i64_le(bytes, 16);
            Ok((id, next))
        },
    }
}

// ------------------------------------------------------------- records

/// The `count` little-endian UTF-16 code units that start at `start`.
pub open spec fn name_units(buf: Seq<u8>, start: int, count: int) -> Seq<u16> {
    Seq::new(count as nat, |k: int| le_u16(buf, start + 2 * k) as u16)
}

/// Whether the record at `off` has a non-empty name that lies within `end`.
pub open spec fn name_fits(buf: Seq<u8>, end: int, off: int) -> bool {
    let name_len = le_u16(buf, off + 56);
    let name_off = le_u16(buf, off + 58);
    name_len > 0 && off + name_off + name_len <= end
}

/// The record whose fixed part starts at `off`.
pub open spec fn record_at(buf: Seq<u8>, off: int) -> UsnRecordView {
    UsnRecordView {
        frn: le_u64(buf, off + 8) as u64,
        parent_frn: le_u64(buf, off + 16) as u64,
        usn: le_i64(buf, off + 24) as i64,
        reason: le_u32(buf, off + 40) as u32,
        filename: utf16_decode_lossy(
            name_units(buf, off + le_u16(buf, off + 58), (le_u16(buf, off + 56) / 2) as int),
        ),
    }
}

/// The records of the batch in `buf[..end]` from offset `off` on: records are
/// read one after another, each `record_length` bytes long, until a record
/// does not fit or has length zero; records whose name does not fit are
/// skipped.
pub open spec fn records_from(buf: Seq<u8>, end: int, off: int) -> Seq<UsnRecordView>
    decreases end - off,
{
    if off < 0 || off + 60 > end || end > buf.len() {
        Seq::empty()
    } else {
        let len = le_u32(buf, off);
        if len == 0 || off + len > end {
            Seq::empty()
        } else if name_fits(buf, end, off) {
            seq![record_at(buf, off)] + records_from(buf, end, off + len)
        } else {
            records_from(buf, end, off + len)
        }
    }
}

/// The records of a batch: those that follow the cursor in `buf[..end]`.
pub open spec fn batch_records(buf: Seq<u8>, end: int) -> Seq<UsnRecordView> {
    records_from(buf, end, 8)
}

fn read_name(buf: &[u8], start: usize, count: usize) -> (s: String)
    requires
        start + 2 * count <= buf@.len(),
    ensures
        s@ == utf16_decode_lossy(name_units(buf@, start as int, count as int)),
{
    let n = buf.len();
    let mut units: Vec<u16> = Vec::new();
    let mut k: usize = 0;
    while k < count
        invariant
            n == buf@.len(),
            start + 2 * count <= buf@.len(),
            k <= count,
            units@ == name_units(buf@, start as int, k as int),
        decreases count - k,
    {
        let u = read_u16_le(buf, start + 2 * k);
        units.push(u);
        k = k + 1;
        assert(units@ =~= name_units(buf@, start as int, k as int));
    }
    decode_utf16_lossy(units.as_slice())
}

fn read_record(buf: &[u8], off: usize) -> (r: UsnRecord)
    requires
        off + 60 <= buf@.len(),
        off + le_u16(buf@, off + 58) + le_u16(buf@, off + 56) <= buf@.len(),
    ensures
        r@ == record_at(buf@, off as int),
{
    let _n = buf.len();
    let name_len = read_u16_le(buf, off + 56) as usize;
    let name_off = read_u16_le(buf, off + 58) as usize;
    let filename = read_name(buf, off + name_off, name_len / 2);
    UsnRecord {
        frn: read_u64_le(buf, off + 8),
        parent_frn: read_u64_le(buf, off + 16),
        usn: read_i64_le(buf, off + 24),
        reason: read_u32_le(buf, off + 40),
        filename,
    }
}

/// Decodes the records of one batch returned by a journal read: the bytes
/// `buf[..end]`, after the cursor that opens them.
pub fn parse_usn_batch(buf: &[u8], end: usize) -> (records: Vec<UsnRecord>)
    requires
        end <= buf@.len(),
    ensures
        record_views(records@) == batch_records(buf@, end as int),
{
    let mut records: Vec<UsnRecord> = Vec::new();
    let mut off: usize = BATCH_HEADER_LEN;
    assert(record_views(records@) =~= Seq::<UsnRecordView>::empty());
    loop
        invariant
            end <= buf@.len(),
            off <= end || off == 8,
            record_views(records@) + records_from(buf@, end as int, off as int) == batch_records(
                buf@,
                end as int,
            ),
        decreases end + 8 - off,
    {
        if end < RECORD_FIXED_LEN || off > end - RECORD_FIXED_LEN {
            assert(records_from(buf@, end as int, off as int) =~= Seq::<UsnRecordView>::empty());
            assert(record_views(records@) + Seq::<UsnRecordView>::empty() =~= record_views(
                records@,
            ));
            return records;
        }
        let len = read_u32_le(buf, off) as usize;
        if len == 0 || len > end - off {
            assert(records_from(buf@, end as int, off as int) =~= Seq::<UsnRecordView>::empty());
            assert(record_views(records@) + Seq::<UsnRecordView>::empty() =~= record_views(
                records@,
            ));
            return records;
        }
        let name_len = read_u16_le(buf, off + 56) as usize;
        let name_off = read_u16_le(buf, off + 58) as usize;
        if name_len > 0 && name_off <= end - off && name_len <= end - off - name_off {
            let rec = read_record(buf, off);
            let ghost before = records@;
            records.push(rec);
            assert(record_views(records@) =~= record_views(before).push(rec@));
            assert(record_views(records@) + records_from(buf@, end as int, (off + len) as int)
                =~= record_views(before) + records_from(buf@, end as int, off as int));
        }
        off = off + len;
    }
}


// ------------------------------------------------------------- read loop

/// The state of a read of the journal from a given cursor on.
pub struct UsnReader {
    /// Drive name of the volume, as given by the caller.
    pub volume: String,
    /// Identity of the journal being read.
    pub journal_id: u64,
    /// Cursor at which the next read starts.
    pub current_usn: i64,
    /// Cursor that the last batch reported as the place to continue from.
    pub last_next_usn: i64,
    /// Records read so far, in journal order.
    pub records: Vec<UsnRecord>,
}

/// What the volume answered to one read request.
pub enum ReadReply {
    /// The volume device could not be opened.
    VolumeUnavailable,
    /// The request failed with this error code.
    Failed(u32),
    /// The request filled this many bytes of the buffer.
    Returned(u32),
}

/// What to do after a reply.
pub enum ReadStep {
    /// Send the next request (`UsnReader::request`).
    Continue,
    /// The read is over; the records and the cursor are in the reader.
    Finished,
    /// The read failed.
    Failed(UsnError),
}

/// The bytes of a read request: start cursor, reason mask, return-only-on-close,
/// timeout, bytes to wait for, journal identity.
pub open spec fn read_request_bytes(start_usn: i64, journal_id: u64) -> Seq<u8> {
    le_bytes_u64(twos_complement_u64(start_usn)) + le_bytes_u32(0xFFFF_FFFF) + le_bytes_u32(0)
        + le_bytes_u64(0) + le_bytes_u64(0) + le_bytes_u64(journal_id)
}

impl UsnReader {
    /// A reader that starts at `start_usn` in the journal `journal_id` of `volume`.
    pub fn new(volume: &str, start_usn: i64, journal_id: u64) -> (r: UsnReader)
        ensures
            r.volume@ == volume@,
            r.journal_id == journal_id,
            r.current_usn == start_usn,
            r.last_next_usn == start_usn,
            r.records@.len() == 0,
    {
        UsnReader {
            volume: String::from_str(volume),
            journal_id,
            current_usn: start_usn,
            last_next_usn: start_usn,
            records: Vec::new(),
        }
    }

    /// The read request for the current cursor, as the volume expects it.
    pub fn request(&self) -> (bytes: Vec<u8>)
        ensures
            bytes@ == read_request_bytes(self.current_usn, self.journal_id),
    {
        let mut bytes: Vec<u8> = Vec::new();
        push_i64_le(&mut bytes, self.current_usn);
        push_u32_le(&mut bytes, ALL_REASONS);
        push_u32_le(&mut bytes, 0);
        push_u64_le(&mut bytes, 0);
        push_u64_le(&mut bytes, 0);
        push_u64_le(&mut bytes, self.journal_id);
        bytes
    }

    /// The records read and the cursor to continue from next time.
    pub fn finish(self) -> (r: (Vec<UsnRecord>, i64))
        ensures
            r.0@ == self.records@,
            r.1 == self.last_next_usn,
    {
        (self.records, self.last_next_usn)
    }
}

/// The decisions of one round of a journal read: given the reply of the
/// volume to the request for `reader.current_usn` and the buffer it filled,
/// updates the reader and says whether to go on.
///
/// A reply that ends the journal, or an unknown error, finishes the read; a
/// discarded range or an inactive journal fails it. Otherwise the cursor at
/// the start of the buffer becomes the last cursor seen; if records follow
/// it, it also becomes the next start, the batch's records are added, and the
/// read goes on unless the batch held none.
pub fn read_usn_deltas(reader: &mut UsnReader, reply: &ReadReply, buffer: &[u8]) -> (step: ReadStep)
    requires
        buffer@.len() >= 8,
        reply matches ReadReply::Returned(n) ==> n <= buffer@.len(),
    ensures
        final(reader).volume == old(reader).volume,
        final(reader).journal_id == old(reader).journal_id,
        match *reply {
            ReadReply::VolumeUnavailable => {
                &&& *final(reader) == *old(reader)
                &&& step matches ReadStep::Failed(UsnError::VolumeUnavailable { volume: v })
                &&& v@ == old(reader).volume@
            },
            ReadReply::Failed(code) => {
                &&& *final(reader) == *old(reader)
                &&& if code == ERROR_JOURNAL_ENTRY_DELETED {
                    step matches ReadStep::Failed(UsnError::JournalWrapped)
                } else if code == ERROR_JOURNAL_NOT_ACTIVE {
                    step matches ReadStep::Failed(UsnError::JournalNotActive { volume: v }) && v@
                        == old(reader).volume@
                } else {
                    step is Finished
                }
            },
            ReadReply::Returned(n) => {
                let next = le_i64(buffer@, 0) as i64;
                let batch = batch_records(buffer@, n as int);
                &&& final(reader).last_next_usn == next
                &&& if n <= 8 {
                    &&& final(reader).current_usn == old(reader).current_usn
                    &&& final(reader).records@ == old(reader).records@
                    &&& step is Finished
                } else {
                    &&& final(reader).current_usn == next
                    &&& record_views(final(reader).records@) == record_views(old(reader).records@)
                        + batch
                    &&& if batch.len() == 0 {
                        step is Finished
                    } else {
                        step is Continue
                    }
                }
            },
        },
{
    match reply {
        ReadReply::VolumeUnavailable => ReadStep::Failed(
            UsnError::VolumeUnavailable { volume: reader.volume.clone() },
        ),
        ReadReply::Failed(code) => {
            if *code == ERROR_JOURNAL_ENTRY_DELETED {
                ReadStep::Failed(UsnError::JournalWrapped)
            } else if *code == ERROR_JOURNAL_NOT_ACTIVE {
                ReadStep::Failed(UsnError::JournalNotActive { volume: reader.volume.clone() })
            } else {
                ReadStep::Finished
            }
        },
        ReadReply::Returned(n) => {
            let next = read_i64_le(buffer, 0);
            reader.last_next_usn = next;
            if (*n as usize) <= BATCH_HEADER_LEN {
                return ReadStep::Finished;
            }
            reader.current_usn = next;
            let mut batch = parse_usn_batch(buffer, *n as usize);
            let found = batch.len();
            let ghost old_records = reader.records@;
            let ghost batch_seq = batch@;
            reader.records.append(&mut batch);
            assert(record_views(reader.records@) =~= record_views(old_records) + record_views(
                batch_seq,
            ));
            if found == 0 {
                ReadStep::Finished
            } else {
                ReadStep::Continue
            }
        },
    }
}

/// Decoding a read request gives back its cursor and journal identity.
pub proof fn lemma_read_request_roundtrip(start_usn: i64, journal_id: u64)
    ensures
        read_request_bytes(start_usn, journal_id).len() == 40,
        le_i64(read_request_bytes(start_usn, journal_id), 0) == start_usn,
        le_u64(read_request_bytes(start_usn, journal_id), 32) == journal_id,
{
    let b = read_request_bytes(start_usn, journal_id);
    let u = twos_complement_u64(start_usn);
    assert(b.subrange(0, 8) =~= le_bytes_u64(u));
    assert(b.subrange(32, 40) =~= le_bytes_u64(journal_id));
    lemma_le_u64_at(u, b, 0);
    lemma_le_u64_at(journal_id, b, 32);
}

/// The records after one whose `record_length` is non-zero and that fits in
/// the batch are read from exactly `record_length` bytes further on, padding
/// included: the record there (when its name fits) comes first, then those.
pub proof fn lemma_next_record_after_record_length(buf: Seq<u8>, end: int, off: int)
    requires
        0 <= off,
        off + 60 <= end <= buf.len(),
        le_u32(buf, off) > 0,
        off + le_u32(buf, off) <= end,
    ensures
        records_from(buf, end, off) == (if name_fits(buf, end, off) {
            seq![record_at(buf, off)]
        } else {
            Seq::empty()
        }) + records_from(buf, end, off + le_u32(buf, off)),
{
    if !name_fits(buf, end, off) {
        assert(Seq::<UsnRecordView>::empty() + records_from(buf, end, off + le_u32(buf, off))
            =~= records_from(buf, end, off + le_u32(buf, off)));
    }
}

} // verus!
