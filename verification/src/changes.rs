//! Turning journal records into file change events, against a cached
//! mapping from file reference numbers to paths.

use std::collections::HashMap;
use std::collections::HashSet;
use vstd::prelude::*;
use crate::journal::{UsnRecord, UsnRecordView, record_views};
use crate::paths::{file_name_facts, path_file_name};
use crate::text::{chars_of, has_prefix, sanitize_filename, without_nul};

verus! {

broadcast use vstd::std_specs::hash::group_hash_axioms;

/// Reason flag: the file was created.
pub const FILE_CREATE: u32 = 0x0000_0100;

/// Reason flag: the file was deleted.
pub const FILE_DELETE: u32 = 0x0000_0200;

/// Reason flag: the record carries the name before a rename.
pub const RENAME_OLD_NAME: u32 = 0x0000_1000;

/// Reason flag: the record carries the name after a rename.
pub const RENAME_NEW_NAME: u32 = 0x0000_2000;

/// The kind of change an event reports.
#[derive(PartialEq, Eq, Structural, Clone, Copy, Debug)]
pub enum ChangeOp {
    Created,
    Modified,
    Renamed,
    Deleted,
}

/// The kind of change that a set of reason flags stands for: a deletion
/// outweighs everything, then a rename (either name of it), then a creation;
/// anything else is a modification.
pub open spec fn op_of_reason(reason: u32) -> ChangeOp {
    if reason & FILE_DELETE != 0 {
        ChangeOp::Deleted
    } else if reason & (RENAME_OLD_NAME | RENAME_NEW_NAME) != 0 {
        ChangeOp::Renamed
    } else if reason & FILE_CREATE != 0 {
        ChangeOp::Created
    } else {
        ChangeOp::Modified
    }
}

impl ChangeOp {
    /// The name under which the change is reported.
    pub open spec fn name(self) -> Seq<char> {
        match self {
            ChangeOp::Created => seq!['c', 'r', 'e', 'a', 't', 'e', 'd'],
            ChangeOp::Modified => seq!['m', 'o', 'd', 'i', 'f', 'i', 'e', 'd'],
            ChangeOp::Renamed => seq!['r', 'e', 'n', 'a', 'm', 'e', 'd'],
            ChangeOp::Deleted => seq!['d', 'e', 'l', 'e', 't', 'e', 'd'],
        }
    }

    /// The kind of change that the reason flags of a record stand for.
    pub fn from_reason(reason: u32) -> (op: ChangeOp)
        ensures
            op == op_of_reason(reason),
    {
        if reason & FILE_DELETE != 0 {
            ChangeOp::Deleted
        } else if reason & (RENAME_OLD_NAME | RENAME_NEW_NAME) != 0 {
            ChangeOp::Renamed
        } else if reason & FILE_CREATE != 0 {
            ChangeOp::Created
        } else {
            ChangeOp::Modified
        }
    }

    /// The name under which the change is reported.
    pub fn as_str(&self) -> (s: &'static str)
        ensures
            s@ == self.name(),
    {
        match self {
            ChangeOp::Created => {
                proof {
                    reveal_strlit("created");
                }
                "created"
            },
            ChangeOp::Modified => {
                proof {
                    reveal_strlit("modified");
                }
                "modified"
            },
            ChangeOp::Renamed => {
                proof {
                    reveal_strlit("renamed");
                }
                "renamed"
            },
            ChangeOp::Deleted => {
                proof {
                    reveal_strlit("deleted");
                }
                "deleted"
            },
        }
    }
}

/// The name of the kind of change that the reason flags of a record stand for.
pub fn classify_reason(reason: u32) -> (name: &'static str)
    ensures
        name@ == op_of_reason(reason).name(),
{
    ChangeOp::from_reason(reason).as_str()
}

/// A change to a file.
#[derive(Debug)]
pub struct FileEvent {
    /// What happened.
    pub op: ChangeOp,
    /// Path of the file after the change.
    pub path: String,
    /// Path of the file before a rename, where it was known.
    pub old_path: Option<String>,
    /// File reference number.
    pub frn: u64,
    /// Update sequence number of the record.
    pub usn: i64,
    /// When the event was reported.
    pub timestamp: Option<String>,
}

pub struct EventView {
    pub op: ChangeOp,
    pub path: Seq<char>,
    pub old_path: Option<Seq<char>>,
    pub frn: u64,
    pub usn: i64,
    pub timestamp: Option<Seq<char>>,
}

pub open spec fn opt_string_view(o: Option<String>) -> Option<Seq<char>> {
    match o {
        Some(s) => Some(s@),
        None => None,
    }
}

impl View for FileEvent {
    type V = EventView;

    open spec fn view(&self) -> EventView {
        EventView {
            op: self.op,
            path: self.path@,
            old_path: opt_string_view(self.old_path),
            frn: self.frn,
            usn: self.usn,
            timestamp: opt_string_view(self.timestamp),
        }
    }
}

impl FileEvent {
    /// The file name at the end of the event's path.
    pub fn filename(&self) -> (name: String)
        ensures
            file_name_facts(self.path@, name@),
    {
        path_file_name(self.path.as_str())
    }
}

pub open spec fn event_views(v: Seq<FileEvent>) -> Seq<EventView> {
    v.map_values(|e: FileEvent| e@)
}

/// What the cache knows of a file.
#[derive(Debug)]
pub struct BaselineEntry {
    /// Path of the file.
    pub path: String,
    /// File reference number of its parent directory.
    pub parent_frn: u64,
    /// Whether the last change seen did not delete it.
    pub exists: bool,
}

pub struct EntryView {
    pub path: Seq<char>,
    pub parent_frn: u64,
    pub exists: bool,
}

impl View for BaselineEntry {
    type V = EntryView;

    open spec fn view(&self) -> EntryView {
        EntryView { path: self.path@, parent_frn: self.parent_frn, exists: self.exists }
    }
}

/// The cache kept between scans: what is known of each file reference number,
/// and the journal cursor that the next scan starts from.
#[derive(Debug)]
pub struct CachedBaseline {
    pub entries: HashMap<u64, BaselineEntry>,
    pub last_usn: i64,
}

pub open spec fn entry_views(m: Map<u64, BaselineEntry>) -> Map<u64, EntryView> {
    m.map_values(|e: BaselineEntry| e@)
}

impl CachedBaseline {
    /// An empty cache whose cursor is at zero.
    pub fn new() -> (b: CachedBaseline)
        ensures
            entry_views(b.entries@) == Map::<u64, EntryView>::empty(),
            b.last_usn == 0,
    {
        let b = CachedBaseline { entries: HashMap::new(), last_usn: 0 };
        assert(entry_views(b.entries@) =~= Map::<u64, EntryView>::empty());
        b
    }

    /// An empty cache whose cursor is at `usn`.
    pub fn starting_at(usn: i64) -> (b: CachedBaseline)
        ensures
            entry_views(b.entries@) == Map::<u64, EntryView>::empty(),
            b.last_usn == usn,
    {
        let b = CachedBaseline { entries: HashMap::new(), last_usn: usn };
        assert(entry_views(b.entries@) =~= Map::<u64, EntryView>::empty());
        b
    }
}

/// The cache a scan starts from: the stored one where there is one, else an
/// empty cache whose cursor is the journal position that the bootstrap
/// recorded, so that a first scan reads only what changed since then.
pub fn initial_baseline(stored: Option<CachedBaseline>, bootstrap_next_usn: i64) -> (b:
    CachedBaseline)
    ensures
        stored matches Some(s) ==> b == s,
        stored is None ==> entry_views(b.entries@) == Map::<u64, EntryView>::empty()
            && b.last_usn == bootstrap_next_usn,
{
    match stored {
        Some(s) => s,
        None => CachedBaseline::starting_at(bootstrap_next_usn),
    }
}

// ------------------------------------------------------------ processing

/// `dir` + `\` + `name`.
pub open spec fn joined_path(dir: Seq<char>, name: Seq<char>) -> Seq<char> {
    dir + seq!['\\'] + name
}

/// The path of the file that a record names: under the cached path of its
/// parent when the parent is known, else directly under the scan root; NUL
/// characters of the name are dropped.
pub open spec fn record_path(
    entries: Map<u64, EntryView>,
    rec: UsnRecordView,
    root: Seq<char>,
) -> Seq<char> {
    let name = without_nul(rec.filename);
    if entries.contains_key(rec.parent_frn) {
        joined_path(entries[rec.parent_frn].path, name)
    } else {
        joined_path(root, name)
    }
}

/// The state while records are turned into events: the events so far, the
/// cache, and the file reference numbers already handled.
pub struct ProcessState {
    pub events: Seq<EventView>,
    pub entries: Map<u64, EntryView>,
    pub seen: Set<u64>,
}

/// One record: ignored when its file was already handled; otherwise, if its
/// path lies under the root, reported as an event (a rename also reports the
/// cached path) and recorded in the cache.
pub open spec fn process_step(s: ProcessState, rec: UsnRecordView, root: Seq<char>) -> ProcessState {
    if s.seen.contains(rec.frn) {
        s
    } else {
        let op = op_of_reason(rec.reason);
        let path = record_path(s.entries, rec, root);
        let seen = s.seen.insert(rec.frn);
        if root.is_prefix_of(path) {
            let old_path = if op == ChangeOp::Renamed && s.entries.contains_key(rec.frn) {
                Some(s.entries[rec.frn].path)
            } else {
                None
            };
            ProcessState {
                events: s.events.push(
                    EventView {
                        op,
                        path,
                        old_path,
                        frn: rec.frn,
                        usn: rec.usn,
                        timestamp: None,
                    },
                ),
                entries: s.entries.insert(
                    rec.frn,
                    EntryView { path, parent_frn: rec.parent_frn, exists: op != ChangeOp::Deleted },
                ),
                seen,
            }
        } else {
            ProcessState { events: s.events, entries: s.entries, seen }
        }
    }
}

/// The records handled in order, from an empty event list and the given cache.
pub open spec fn process_run(
    recs: Seq<UsnRecordView>,
    entries: Map<u64, EntryView>,
    root: Seq<char>,
) -> ProcessState
    decreases recs.len(),
{
    if recs.len() == 0 {
        ProcessState { events: Seq::empty(), entries, seen: Set::empty() }
    } else {
        process_step(process_run(recs.drop_last(), entries, root), recs.last(), root)
    }
}

/// Turns journal records into change events under `scan_root`, in journal
/// order, and records every reported file in the cache. Only the first record
/// of each file counts. The cursor of the cache is left as it was.
pub fn process_records(
    records: Vec<UsnRecord>,
    baseline: &mut CachedBaseline,
    scan_root: &str,
) -> (events: Vec<FileEvent>)
    ensures
        ({
            let run = process_run(
                record_views(records@),
                entry_views(old(baseline).entries@),
                scan_root@,
            );
            &&& event_views(events@) == run.events
            &&& entry_views(final(baseline).entries@) == run.entries
        }),
        final(baseline).last_usn == old(baseline).last_usn,
{
    let ghost recs = record_views(records@);
    let ghost start = entry_views(baseline.entries@);
    let root = chars_of(scan_root);
    let mut events: Vec<FileEvent> = Vec::new();
    let mut seen: HashSet<u64> = HashSet::new();
    let mut i: usize = 0;
    assert(recs.take(0) =~= Seq::<UsnRecordView>::empty());
    assert(event_views(events@) =~= Seq::<EventView>::empty());
    while i < records.len()
        invariant
            recs == record_views(records@),
            root@ == scan_root@,
            i <= records@.len(),
            baseline.last_usn == old(baseline).last_usn,
            ({
                let run = process_run(recs.take(i as int), start, scan_root@);
                &&& event_views(events@) == run.events
                &&& entry_views(baseline.entries@) == run.entries
                &&& seen@ == run.seen
            }),
        decreases records@.len() - i,
    {
        let rec = &records[i];
        let ghost before = process_run(recs.take(i as int), start, scan_root@);
        assert(recs.take(i + 1).drop_last() =~= recs.take(i as int));
        assert(recs.take(i + 1).last() == rec@);
        let ghost after = process_step(before, rec@, scan_root@);
        if !seen.insert(rec.frn) {
            i = i + 1;
            continue;
        }
        let op = ChangeOp::from_reason(rec.reason);
        let name = sanitize_filename(rec.filename.as_str());
        let mut path = match baseline.entries.get(&rec.parent_frn) {
            Some(parent) => parent.path.clone(),
            None => String::from_str(scan_root),
        };
        proof {
            reveal_strlit("\\");
        }
        path.append("\\");
        path.append(name.as_str());
        assert(path@ == record_path(before.entries, rec@, scan_root@));
        let path_chars = chars_of(path.as_str());
        if has_prefix(&path_chars, &root) {
            let old_path = if op == ChangeOp::Renamed {
                match baseline.entries.get(&rec.frn) {
                    Some(entry) => Some(entry.path.clone()),
                    None => None,
                }
            } else {
                None
            };
            events.push(
                FileEvent {
                    op,
                    path: path.clone(),
                    old_path,
                    frn: rec.frn,
                    usn: rec.usn,
                    timestamp: None,
                },
            );
            assert(event_views(events@) =~= after.events);
            let entry = BaselineEntry {
                path,
                parent_frn: rec.parent_frn,
                exists: op != ChangeOp::Deleted,
            };
            baseline.entries.insert(rec.frn, entry);
            assert(entry_views(baseline.entries@) =~= after.entries);
        }
        i = i + 1;
    }
    assert(recs.take(records@.len() as int) =~= recs);
    events
}


// ------------------------------------------------------------ laws

proof fn lemma_run_facts(recs: Seq<UsnRecordView>, entries: Map<u64, EntryView>, root: Seq<char>)
    ensures
        ({
            let run = process_run(recs, entries, root);
            &&& forall|i: int|
                0 <= i < run.events.len() ==> root.is_prefix_of(#[trigger] run.events[i].path)
            &&& forall|i: int|
                0 <= i < run.events.len() ==> run.seen.contains(#[trigger] run.events[i].frn)
            &&& forall|i: int, j: int|
                0 <= i < j < run.events.len() ==> #[trigger] run.events[i].frn
                    != #[trigger] run.events[j].frn
            &&& forall|i: int|
                0 <= i < run.events.len() ==> {
                    &&& run.entries.contains_key(#[trigger] run.events[i].frn)
                    &&& run.entries[run.events[i].frn].path == run.events[i].path
                    &&& run.entries[run.events[i].frn].exists == (run.events[i].op
                        != ChangeOp::Deleted)
                }
            &&& forall|k: u64|
                (forall|i: int| 0 <= i < run.events.len() ==> #[trigger] run.events[i].frn != k)
                    ==> (#[trigger] run.entries.contains_key(k) == entries.contains_key(k) && (
                entries.contains_key(k) ==> run.entries[k] == entries[k]))
            &&& forall|i: int|
                0 <= i < run.events.len() ==> (#[trigger] run.events[i].old_path is Some
                    ==> run.events[i].op == ChangeOp::Renamed)
        }),
    decreases recs.len(),
{
    if recs.len() > 0 {
        lemma_run_facts(recs.drop_last(), entries, root);
        let prev = process_run(recs.drop_last(), entries, root);
        let run = process_run(recs, entries, root);
        let rec = recs.last();
        if !prev.seen.contains(rec.frn) && root.is_prefix_of(record_path(prev.entries, rec, root)) {
            let n = prev.events.len();
            assert(run.events.len() == n + 1);
            assert forall|i: int| 0 <= i < n implies #[trigger] run.events[i] == prev.events[i] by {}
            assert forall|i: int, j: int| 0 <= i < j < run.events.len() implies
                #[trigger] run.events[i].frn != #[trigger] run.events[j].frn by {
                if j == n {
                    assert(prev.seen.contains(prev.events[i].frn));
                }
            }
            assert forall|i: int| 0 <= i < run.events.len() implies {
                &&& run.entries.contains_key(#[trigger] run.events[i].frn)
                &&& run.entries[run.events[i].frn].path == run.events[i].path
                &&& run.entries[run.events[i].frn].exists == (run.events[i].op
                    != ChangeOp::Deleted)
            } by {
                if i < n {
                    assert(prev.seen.contains(prev.events[i].frn));
                    assert(prev.events[i].frn != rec.frn);
                }
            }
            assert forall|k: u64|
                (forall|i: int| 0 <= i < run.events.len() ==> #[trigger] run.events[i].frn != k)
                    implies (#[trigger] run.entries.contains_key(k) == entries.contains_key(k) && (
            entries.contains_key(k) ==> run.entries[k] == entries[k])) by {
                assert(run.events[n as int].frn != k);
                assert forall|i: int| 0 <= i < prev.events.len() implies #[trigger] prev.events[i].frn
                    != k by {
                    assert(run.events[i].frn != k);
                }
            }
            assert forall|i: int| 0 <= i < run.events.len() implies root.is_prefix_of(
                #[trigger] run.events[i].path,
            ) by {}
            assert forall|i: int| 0 <= i < run.events.len() implies run.seen.contains(
                #[trigger] run.events[i].frn,
            ) by {}
            assert forall|i: int| 0 <= i < run.events.len() implies (
            #[trigger] run.events[i].old_path is Some ==> run.events[i].op == ChangeOp::Renamed) by {}
        }
    }
}

/// Every event reports a path that begins with the scan root.
pub proof fn lemma_event_paths_under_root(
    recs: Seq<UsnRecordView>,
    entries: Map<u64, EntryView>,
    root: Seq<char>,
)
    ensures
        forall|i: int|
            0 <= i < process_run(recs, entries, root).events.len() ==> root.is_prefix_of(
                #[trigger] process_run(recs, entries, root).events[i].path,
            ),
{
    lemma_run_facts(recs, entries, root);
}

/// No two events report the same file reference number.
pub proof fn lemma_events_distinct_files(
    recs: Seq<UsnRecordView>,
    entries: Map<u64, EntryView>,
    root: Seq<char>,
)
    ensures
        forall|i: int, j: int|
            0 <= i < j < process_run(recs, entries, root).events.len() ==> #[trigger] process_run(
                recs,
                entries,
                root,
            ).events[i].frn != #[trigger] process_run(recs, entries, root).events[j].frn,
{
    lemma_run_facts(recs, entries, root);
}

/// After processing, the cache holds for every reported file the path of its
/// event, and marks it as existing unless the event is a deletion.
pub proof fn lemma_cache_records_events(
    recs: Seq<UsnRecordView>,
    entries: Map<u64, EntryView>,
    root: Seq<char>,
)
    ensures
        ({
            let run = process_run(recs, entries, root);
            forall|i: int|
                0 <= i < run.events.len() ==> {
                    &&& run.entries.contains_key(#[trigger] run.events[i].frn)
                    &&& run.entries[run.events[i].frn].path == run.events[i].path
                    &&& run.entries[run.events[i].frn].exists == (run.events[i].op
                        != ChangeOp::Deleted)
                }
        }),
{
    lemma_run_facts(recs, entries, root);
}

/// The cache entry of a file that no event reports is left as it was
/// (present with the same contents, or absent).
pub proof fn lemma_unreported_entries_kept(
    recs: Seq<UsnRecordView>,
    entries: Map<u64, EntryView>,
    root: Seq<char>,
    frn: u64,
)
    requires
        forall|i: int|
            0 <= i < process_run(recs, entries, root).events.len() ==> #[trigger] process_run(
                recs,
                entries,
                root,
            ).events[i].frn != frn,
    ensures
        process_run(recs, entries, root).entries.contains_key(frn) == entries.contains_key(frn),
        entries.contains_key(frn) ==> process_run(recs, entries, root).entries[frn]
            == entries[frn],
{
    lemma_run_facts(recs, entries, root);
    assert(process_run(recs, entries, root).entries.contains_key(frn) == entries.contains_key(
        frn,
    ));
}

/// Only a rename reports a previous path.
pub proof fn lemma_old_path_only_on_rename(
    recs: Seq<UsnRecordView>,
    entries: Map<u64, EntryView>,
    root: Seq<char>,
)
    ensures
        forall|i: int|
            0 <= i < process_run(recs, entries, root).events.len() ==> (#[trigger] process_run(
                recs,
                entries,
                root,
            ).events[i].old_path is Some ==> process_run(recs, entries, root).events[i].op
                == ChangeOp::Renamed),
{
    lemma_run_facts(recs, entries, root);
}


/// A deletion is reported as such whatever other reason flags accompany it.
pub proof fn lemma_deletion_outweighs(reason: u32)
    requires
        reason & FILE_DELETE != 0,
    ensures
        op_of_reason(reason) == ChangeOp::Deleted,
{
}

/// A record that carries either name of a rename, and no deletion, is a rename.
pub proof fn lemma_rename_halves(reason: u32)
    requires
        reason & FILE_DELETE == 0,
        reason & (RENAME_OLD_NAME | RENAME_NEW_NAME) != 0,
    ensures
        op_of_reason(reason) == ChangeOp::Renamed,
{
}

/// The file reference numbers that the records name.
pub open spec fn frn_set(recs: Seq<UsnRecordView>) -> Set<u64>
    decreases recs.len(),
{
    if recs.len() == 0 {
        Set::empty()
    } else {
        frn_set(recs.drop_last()).insert(recs.last().frn)
    }
}

proof fn lemma_frn_set_facts(recs: Seq<UsnRecordView>)
    ensures
        frn_set(recs).finite(),
        forall|i: int| 0 <= i < recs.len() ==> frn_set(recs).contains(#[trigger] recs[i].frn),
    decreases recs.len(),
{
    if recs.len() > 0 {
        lemma_frn_set_facts(recs.drop_last());
        assert forall|i: int| 0 <= i < recs.len() implies frn_set(recs).contains(
            #[trigger] recs[i].frn,
        ) by {
            if i < recs.len() - 1 {
                assert(recs.drop_last()[i] == recs[i]);
            }
        }
    }
}

proof fn lemma_seen_is_frn_set(
    recs: Seq<UsnRecordView>,
    entries: Map<u64, EntryView>,
    root: Seq<char>,
)
    ensures
        process_run(recs, entries, root).seen == frn_set(recs),
    decreases recs.len(),
{
    if recs.len() > 0 {
        lemma_seen_is_frn_set(recs.drop_last(), entries, root);
        let prev = process_run(recs.drop_last(), entries, root);
        if prev.seen.contains(recs.last().frn) {
            assert(prev.seen.insert(recs.last().frn) =~= prev.seen);
        }
    }
}

proof fn lemma_prefix_extends(root: Seq<char>, p: Seq<char>, tail: Seq<char>)
    requires
        root.is_prefix_of(p),
    ensures
        root.is_prefix_of(p + tail),
{
    assert((p + tail).subrange(0, root.len() as int) =~= p.subrange(0, root.len() as int));
}

/// Whether every cached path begins with the scan root.
pub open spec fn cache_under_root(entries: Map<u64, EntryView>, root: Seq<char>) -> bool {
    forall|k: u64| entries.contains_key(k) ==> root.is_prefix_of(#[trigger] entries[k].path)
}

/// When every cached path lies under the scan root, every path built from it
/// does too, so the cache stays under the root and the first record of each
/// file becomes an event: there are as many events as distinct files.
pub proof fn lemma_every_first_record_reported(
    recs: Seq<UsnRecordView>,
    entries: Map<u64, EntryView>,
    root: Seq<char>,
)
    requires
        cache_under_root(entries, root),
    ensures
        cache_under_root(process_run(recs, entries, root).entries, root),
        process_run(recs, entries, root).events.len() == frn_set(recs).len(),
    decreases recs.len(),
{
    lemma_seen_is_frn_set(recs, entries, root);
    if recs.len() > 0 {
        let r0 = recs.drop_last();
        lemma_every_first_record_reported(r0, entries, root);
        lemma_seen_is_frn_set(r0, entries, root);
        lemma_frn_set_facts(r0);
        let prev = process_run(r0, entries, root);
        let rec = recs.last();
        if !prev.seen.contains(rec.frn) {
            let name = without_nul(rec.filename);
            if prev.entries.contains_key(rec.parent_frn) {
                lemma_prefix_extends(
                    root,
                    prev.entries[rec.parent_frn].path,
                    seq!['\\'] + name,
                );
                assert(prev.entries[rec.parent_frn].path + (seq!['\\'] + name) =~= joined_path(
                    prev.entries[rec.parent_frn].path,
                    name,
                ));
            } else {
                assert(root.is_prefix_of(root));
                lemma_prefix_extends(root, root, seq!['\\'] + name);
                assert(root + (seq!['\\'] + name) =~= joined_path(root, name));
            }
            let run = process_run(recs, entries, root);
            assert forall|k: u64| run.entries.contains_key(k) implies root.is_prefix_of(
                #[trigger] run.entries[k].path,
            ) by {
                if k != rec.frn {
                    assert(prev.entries.contains_key(k));
                }
            }
        } else {
            assert(frn_set(recs) =~= frn_set(r0));
        }
    }
}

/// Records of files that earlier records already named change nothing: not
/// the events, not the cache.
pub proof fn lemma_seen_records_change_nothing(
    recs: Seq<UsnRecordView>,
    extra: Seq<UsnRecordView>,
    entries: Map<u64, EntryView>,
    root: Seq<char>,
)
    requires
        forall|j: int| 0 <= j < extra.len() ==> frn_set(recs).contains(#[trigger] extra[j].frn),
    ensures
        process_run(recs + extra, entries, root) == process_run(recs, entries, root),
    decreases extra.len(),
{
    if extra.len() > 0 {
        let e0 = extra.drop_last();
        assert forall|j: int| 0 <= j < e0.len() implies frn_set(recs).contains(
            #[trigger] e0[j].frn,
        ) by {
            assert(e0[j] == extra[j]);
        }
        lemma_seen_records_change_nothing(recs, e0, entries, root);
        assert((recs + extra).drop_last() =~= recs + e0);
        assert((recs + extra).last() == extra.last());
        lemma_seen_is_frn_set(recs, entries, root);
        assert(frn_set(recs).contains(extra[extra.len() - 1].frn));
    }
}

/// Handing the same records over twice gives the same events and the same
/// cache as handing them over once.
pub proof fn lemma_replay_changes_nothing(
    recs: Seq<UsnRecordView>,
    entries: Map<u64, EntryView>,
    root: Seq<char>,
)
    ensures
        process_run(recs + recs, entries, root) == process_run(recs, entries, root),
{
    lemma_frn_set_facts(recs);
    lemma_seen_records_change_nothing(recs, recs, entries, root);
}

/// Every record is reported under one of the four documented kinds.
pub proof fn lemma_reported_kinds(reason: u32)
    ensures
        ({
            let n = op_of_reason(reason).name();
            ||| n == seq!['c', 'r', 'e', 'a', 't', 'e', 'd']
            ||| n == seq!['m', 'o', 'd', 'i', 'f', 'i', 'e', 'd']
            ||| n == seq!['r', 'e', 'n', 'a', 'm', 'e', 'd']
            ||| n == seq!['d', 'e', 'l', 'e', 't', 'e', 'd']
        }),
{
}

/// A rename reports as previous path the path that the cache held for the
/// file before the run, wherever the file moved; every other event, and a
/// rename of a file the cache did not know, reports none.
pub proof fn lemma_rename_reports_cached_path(
    recs: Seq<UsnRecordView>,
    entries: Map<u64, EntryView>,
    root: Seq<char>,
)
    ensures
        ({
            let run = process_run(recs, entries, root);
            forall|i: int|
                0 <= i < run.events.len() ==> #[trigger] run.events[i].old_path == (if run.events[i].op
                    == ChangeOp::Renamed && entries.contains_key(run.events[i].frn) {
                    Some(entries[run.events[i].frn].path)
                } else {
                    None
                })
        }),
    decreases recs.len(),
{
    if recs.len() > 0 {
        let r0 = recs.drop_last();
        lemma_rename_reports_cached_path(r0, entries, root);
        lemma_run_facts(r0, entries, root);
        let prev = process_run(r0, entries, root);
        let run = process_run(recs, entries, root);
        let rec = recs.last();
        if !prev.seen.contains(rec.frn) && root.is_prefix_of(record_path(prev.entries, rec, root)) {
            let n = prev.events.len();
            assert forall|i: int| 0 <= i < n implies #[trigger] run.events[i] == prev.events[i] by {}
            assert forall|i: int| 0 <= i < prev.events.len() implies #[trigger] prev.events[i].frn
                != rec.frn by {
                assert(prev.seen.contains(prev.events[i].frn));
            }
            assert(prev.entries.contains_key(rec.frn) == entries.contains_key(rec.frn));
            assert(run.events[n as int].frn == rec.frn);
        }
    }
}

/// Whatever other flags accompany it, a creation flag without a deletion or
/// a rename makes the record a creation; with none of the three flags, it is
/// a modification.
pub proof fn lemma_create_and_modify(reason: u32)
    requires
        reason & FILE_DELETE == 0,
        reason & (RENAME_OLD_NAME | RENAME_NEW_NAME) == 0,
    ensures
        reason & FILE_CREATE != 0 ==> op_of_reason(reason) == ChangeOp::Created,
        reason & FILE_CREATE == 0 ==> op_of_reason(reason) == ChangeOp::Modified,
{
}

} // verus!
