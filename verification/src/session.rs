//! The decisions of a scan and of a watch: checking that the journal is the
//! one the cursor belongs to, turning a read into reported events while the
//! cache and its cursor move on, summarising, and formatting log lines.

use vstd::prelude::*;
use crate::changes::{
    ChangeOp, CachedBaseline, EventView, FileEvent, entry_views, event_views, process_records,
    process_run,
};
use crate::filter::{EventFilter, FilterView, filter_accepts, ops_accept, patterns_alike, verdict_facts};
use crate::paths::file_name_facts;
use crate::journal::{UsnError, UsnRecord, record_views};
use crate::text::{ascii_upper, to_ascii_uppercase};

verus! {

/// Why a scan cannot go on.
#[derive(Debug)]
pub enum ScanError {
    /// The journal was recreated since the bootstrap: its identity changed.
    JournalChanged { expected: u64, live: u64 },
}

/// Refuses to scan when the live journal is not the one the bootstrap recorded.
pub fn check_journal_id(expected: u64, live: u64) -> (r: Result<(), ScanError>)
    ensures
        r is Ok <==> expected == live,
        r matches Err(ScanError::JournalChanged { expected: e, live: l }) ==> e == expected && l
            == live,
{
    if live != expected {
        Err(ScanError::JournalChanged { expected, live })
    } else {
        Ok(())
    }
}

/// The events whose flag in `keep` is set, in order.
pub open spec fn kept_by(evs: Seq<EventView>, keep: Seq<bool>) -> Seq<EventView>
    decreases evs.len(),
{
    if evs.len() == 0 {
        Seq::empty()
    } else if keep.last() {
        kept_by(evs.drop_last(), keep.drop_last()).push(evs.last())
    } else {
        kept_by(evs.drop_last(), keep.drop_last())
    }
}

/// The events that the filter reports, given the file name of each, in order.
pub open spec fn accepted_events(f: FilterView, evs: Seq<EventView>, names: Seq<Seq<char>>) -> Seq<
    EventView,
>
    decreases evs.len(),
{
    if evs.len() == 0 {
        Seq::empty()
    } else if filter_accepts(f, evs.last(), names.last()) {
        accepted_events(f, evs.drop_last(), names.drop_last()).push(evs.last())
    } else {
        accepted_events(f, evs.drop_last(), names.drop_last())
    }
}

/// What is known of the verdict `keep` on one event whose file name is `name`.
pub open spec fn event_decided(f: FilterView, e: EventView, name: Seq<char>, keep: bool) -> bool {
    file_name_facts(e.path, name) && verdict_facts(f, e, name, keep)
}

/// `kept` is what the filter keeps of `evs`, where `names` are the file
/// names of the events and `keep` the verdicts on them.
pub open spec fn selection(
    f: FilterView,
    evs: Seq<EventView>,
    names: Seq<Seq<char>>,
    keep: Seq<bool>,
    kept: Seq<EventView>,
) -> bool {
    &&& names.len() == evs.len()
    &&& keep.len() == evs.len()
    &&& forall|i: int| 0 <= i < evs.len() ==> event_decided(f, #[trigger] evs[i], names[i], keep[i])
    &&& kept == kept_by(evs, keep)
}

/// Whether glob decides alike on every platform for every event of `evs`,
/// with the file names `names`.
pub open spec fn all_alike(f: FilterView, evs: Seq<EventView>, names: Seq<Seq<char>>) -> bool {
    forall|i: int| 0 <= i < evs.len() ==> patterns_alike(f, #[trigger] evs[i].path, names[i])
}

/// Where glob decides every pattern alike on every platform, what the filter
/// keeps is exactly the events it accepts.
pub proof fn lemma_selection_exact(
    f: FilterView,
    evs: Seq<EventView>,
    names: Seq<Seq<char>>,
    keep: Seq<bool>,
    kept: Seq<EventView>,
)
    requires
        selection(f, evs, names, keep, kept),
        all_alike(f, evs, names),
    ensures
        kept == accepted_events(f, evs, names),
    decreases evs.len(),
{
    if evs.len() > 0 {
        let n = evs.len() - 1;
        let e0 = evs.drop_last();
        let n0 = names.drop_last();
        let k0 = keep.drop_last();
        assert forall|i: int| 0 <= i < e0.len() implies event_decided(
            f,
            #[trigger] e0[i],
            n0[i],
            k0[i],
        ) by {
            assert(e0[i] == evs[i]);
        }
        assert forall|i: int| 0 <= i < e0.len() implies patterns_alike(
            f,
            #[trigger] e0[i].path,
            n0[i],
        ) by {
            assert(e0[i] == evs[i]);
        }
        lemma_selection_exact(f, e0, n0, k0, kept_by(e0, k0));
        assert(event_decided(f, evs[n], names[n], keep[n]));
        assert(patterns_alike(f, evs[n].path, names[n]));
    }
}

/// Every kept event is one of `evs`, and of a kind that the filter lists.
pub proof fn lemma_selection_kinds(
    f: FilterView,
    evs: Seq<EventView>,
    names: Seq<Seq<char>>,
    keep: Seq<bool>,
    kept: Seq<EventView>,
)
    requires
        selection(f, evs, names, keep, kept),
    ensures
        forall|i: int|
            0 <= i < kept.len() ==> ops_accept(f.ops, #[trigger] kept[i].op) && evs.contains(
                kept[i],
            ),
    decreases evs.len(),
{
    if evs.len() > 0 {
        let n = evs.len() - 1;
        let e0 = evs.drop_last();
        let n0 = names.drop_last();
        let k0 = keep.drop_last();
        assert forall|i: int| 0 <= i < e0.len() implies event_decided(
            f,
            #[trigger] e0[i],
            n0[i],
            k0[i],
        ) by {
            assert(e0[i] == evs[i]);
        }
        let k0v = kept_by(e0, k0);
        lemma_selection_kinds(f, e0, n0, k0, k0v);
        assert(event_decided(f, evs[n], names[n], keep[n]));
        assert forall|i: int| 0 <= i < kept.len() implies ops_accept(
            f.ops,
            #[trigger] kept[i].op,
        ) && evs.contains(kept[i]) by {
            if i < k0v.len() {
                assert(kept[i] == k0v[i]);
                assert(ops_accept(f.ops, k0v[i].op) && e0.contains(k0v[i]));
                let j = choose|j: int| 0 <= j < e0.len() && e0[j] == k0v[i];
                assert(evs[j] == e0[j]);
            } else {
                assert(kept[i] == evs[n]);
            }
        }
    }
}

/// Keeps the events that the filter reports, in order.
pub fn select_events(events: Vec<FileEvent>, filter: &EventFilter) -> (kept: Vec<FileEvent>)
    ensures
        exists|names: Seq<Seq<char>>, keep: Seq<bool>|
            #[trigger] selection(filter@, event_views(events@), names, keep, event_views(kept@)),
        forall|i: int|
            0 <= i < kept@.len() ==> ops_accept(filter@.ops, #[trigger] kept@[i].op)
                && event_views(events@).contains(kept@[i]@),
{
    let ghost evs = event_views(events@);
    let mut events = events;
    let n = events.len();
    // Move the events out from the back, so that popping `pending` yields them in order.
    let mut pending: Vec<FileEvent> = Vec::new();
    let mut remaining = n;
    while remaining > 0
        invariant
            remaining <= n,
            n == evs.len(),
            events@.len() == remaining,
            forall|j: int| 0 <= j < remaining ==> (#[trigger] events@[j])@ == evs[j],
            pending@.len() == n - remaining,
            forall|j: int| 0 <= j < n - remaining ==> (#[trigger] pending@[j])@ == evs[n - 1 - j],
        decreases remaining,
    {
        let ghost before = events@;
        let ghost pending_before = pending@;
        let e = events.pop().unwrap();
        assert(e == before[remaining - 1]);
        pending.push(e);
        remaining = remaining - 1;
        assert forall|j: int| 0 <= j < remaining implies (#[trigger] events@[j])@ == evs[j] by {
            assert(events@[j] == before[j]);
        }
        assert forall|j: int| 0 <= j < n - remaining implies (#[trigger] pending@[j])@ == evs[n
            - 1 - j] by {
            if j < n - remaining - 1 {
                assert(pending@[j] == pending_before[j]);
            }
        }
    }
    let mut kept: Vec<FileEvent> = Vec::new();
    let ghost mut names: Seq<Seq<char>> = Seq::empty();
    let ghost mut keep: Seq<bool> = Seq::empty();
    let mut k: usize = 0;
    assert(evs.take(0) =~= Seq::<EventView>::empty());
    assert(event_views(kept@) =~= Seq::<EventView>::empty());
    while k < n
        invariant
            n == evs.len(),
            k <= n,
            pending@.len() == n - k,
            forall|j: int| 0 <= j < n - k ==> (#[trigger] pending@[j])@ == evs[n - 1 - j],
            names.len() == k,
            keep.len() == k,
            forall|i: int|
                0 <= i < k ==> event_decided(filter@, #[trigger] evs[i], names[i], keep[i]),
            event_views(kept@) == kept_by(evs.take(k as int), keep),
        decreases n - k,
    {
        let ghost pending_before = pending@;
        let ghost kept_before = event_views(kept@);
        let e = pending.pop().unwrap();
        assert(e == pending_before[n - k - 1]);
        assert(e@ == evs[k as int]);
        let name = e.filename();
        let r = filter.matches_named(&e, name.as_str());
        let ghost keep_before = keep;
        proof {
            names = names.push(name@);
            keep = keep.push(r);
            assert(evs.take(k + 1).drop_last() =~= evs.take(k as int));
            assert(evs.take(k + 1).last() == evs[k as int]);
            assert(keep.drop_last() =~= keep_before);
        }
        if r {
            kept.push(e);
            assert(event_views(kept@) =~= kept_before.push(evs[k as int]));
        }
        proof {
            assert forall|j: int| 0 <= j < n - k - 1 implies (#[trigger] pending@[j])@ == evs[n
                - 1 - j] by {
                assert(pending@[j] == pending_before[j]);
            }
            assert(kept_by(evs.take(k + 1), keep) == (if r {
                kept_by(evs.take(k as int), keep_before).push(evs[k as int])
            } else {
                kept_by(evs.take(k as int), keep_before)
            }));
        }
        k = k + 1;
    }
    assert(evs.take(n as int) =~= evs);
    proof {
        assert(selection(filter@, evs, names, keep, event_views(kept@)));
        lemma_selection_kinds(filter@, evs, names, keep, event_views(kept@));
        assert forall|i: int| 0 <= i < kept@.len() implies ops_accept(
            filter@.ops,
            #[trigger] kept@[i].op,
        ) && evs.contains(kept@[i]@) by {
            let kv = event_views(kept@);
            assert(kv[i] == kept@[i]@);
            assert(ops_accept(filter@.ops, kv[i].op) && evs.contains(kv[i]));
        }
    }
    kept
}

/// Turns the records of a read into the events to report, records them in the
/// cache, and moves the cursor of the cache to `next_usn`, whatever the
/// filter keeps.
pub fn apply_deltas(
    baseline: &mut CachedBaseline,
    records: Vec<UsnRecord>,
    next_usn: i64,
    scan_root: &str,
    filter: &EventFilter,
) -> (events: Vec<FileEvent>)
    ensures
        ({
            let run = process_run(
                record_views(records@),
                entry_views(old(baseline).entries@),
                scan_root@,
            );
            &&& entry_views(final(baseline).entries@) == run.entries
            &&& forall|i: int|
                0 <= i < events@.len() ==> ops_accept(filter@.ops, #[trigger] events@[i].op)
                    && run.events.contains(events@[i]@)
            &&& exists|names: Seq<Seq<char>>, keep: Seq<bool>|
                #[trigger] selection(filter@, run.events, names, keep, event_views(events@))
        }),
        final(baseline).last_usn == next_usn,
{
    let all = process_records(records, baseline, scan_root);
    let kept = select_events(all, filter);
    baseline.last_usn = next_usn;
    kept
}

/// What a round of watching reports.
pub enum WatchOutcome {
    /// The events to report (possibly none).
    Report(Vec<FileEvent>),
    /// The journal could not be read; the cache is left as it was.
    ReadFailed(UsnError),
}

/// One round of watching: the outcome of reading the journal from the cursor
/// of the cache either becomes events (and moves the cache on) or is reported
/// as a failure (and leaves the cache alone).
pub fn watch_poll(
    baseline: &mut CachedBaseline,
    read: Result<(Vec<UsnRecord>, i64), UsnError>,
    scan_root: &str,
    filter: &EventFilter,
) -> (outcome: WatchOutcome)
    ensures
        match read {
            Ok((records, next_usn)) => {
                let run = process_run(
                    record_views(records@),
                    entry_views(old(baseline).entries@),
                    scan_root@,
                );
                &&& final(baseline).last_usn == next_usn
                &&& entry_views(final(baseline).entries@) == run.entries
                &&& outcome matches WatchOutcome::Report(events) ==> {
                    &&& forall|i: int|
                        0 <= i < events@.len() ==> ops_accept(filter@.ops, #[trigger] events@[i].op)
                            && run.events.contains(events@[i]@)
                    &&& exists|names: Seq<Seq<char>>, keep: Seq<bool>|
                        #[trigger] selection(filter@, run.events, names, keep, event_views(events@))
                }
                &&& outcome is Report
            },
            Err(e) => {
                &&& final(baseline).last_usn == old(baseline).last_usn
                &&& final(baseline).entries@ == old(baseline).entries@
                &&& outcome == WatchOutcome::ReadFailed(e)
            },
        },
{
    match read {
        Ok((records, next_usn)) => {
            let events = apply_deltas(baseline, records, next_usn, scan_root, filter);
            WatchOutcome::Report(events)
        },
        Err(e) => WatchOutcome::ReadFailed(e),
    }
}

/// How long to wait before the next round: what is left of the interval, or
/// nothing when the round took the whole interval.
pub fn remaining_wait(elapsed: u128, interval: u128) -> (wait: u128)
    ensures
        wait == (if elapsed < interval {
            interval - elapsed
        } else {
            0
        }),
{
    if elapsed < interval {
        interval - elapsed
    } else {
        0
    }
}

// ------------------------------------------------------------ summary

/// Counts of the events of a scan by kind of change.
#[derive(Debug)]
pub struct ScanSummary {
    pub total_events: usize,
    pub created: usize,
    pub modified: usize,
    pub renamed: usize,
    pub deleted: usize,
    pub scan_time_ms: u64,
}

/// How many events report the given kind of change.
pub open spec fn count_op(evs: Seq<EventView>, op: ChangeOp) -> nat
    decreases evs.len(),
{
    if evs.len() == 0 {
        0
    } else {
        count_op(evs.drop_last(), op) + if evs.last().op == op {
            1nat
        } else {
            0nat
        }
    }
}

proof fn lemma_count_bounds(evs: Seq<EventView>)
    ensures
        count_op(evs, ChangeOp::Created) + count_op(evs, ChangeOp::Modified) + count_op(
            evs,
            ChangeOp::Renamed,
        ) + count_op(evs, ChangeOp::Deleted) == evs.len(),
    decreases evs.len(),
{
    if evs.len() > 0 {
        lemma_count_bounds(evs.drop_last());
    }
}

/// The counts of a scan: all events, and the created, modified, renamed and
/// deleted ones.
pub fn create_summary(events: &Vec<FileEvent>, scan_time_ms: u64) -> (s: ScanSummary)
    ensures
        s.total_events == events@.len(),
        s.created == count_op(event_views(events@), ChangeOp::Created),
        s.modified == count_op(event_views(events@), ChangeOp::Modified),
        s.renamed == count_op(event_views(events@), ChangeOp::Renamed),
        s.deleted == count_op(event_views(events@), ChangeOp::Deleted),
        s.scan_time_ms == scan_time_ms,
{
    let ghost evs = event_views(events@);
    let mut s = ScanSummary {
        total_events: events.len(),
        created: 0,
        modified: 0,
        renamed: 0,
        deleted: 0,
        scan_time_ms,
    };
    let mut i: usize = 0;
    while i < events.len()
        invariant
            evs == event_views(events@),
            i <= events@.len(),
            s.total_events == events@.len(),
            s.scan_time_ms == scan_time_ms,
            s.created == count_op(evs.take(i as int), ChangeOp::Created),
            s.modified == count_op(evs.take(i as int), ChangeOp::Modified),
            s.renamed == count_op(evs.take(i as int), ChangeOp::Renamed),
            s.deleted == count_op(evs.take(i as int), ChangeOp::Deleted),
        decreases events@.len() - i,
    {
        assert(evs.take(i + 1).drop_last() =~= evs.take(i as int));
        assert(evs.take(i + 1).last() == events@[i as int]@);
        proof {
            lemma_count_bounds(evs.take(i as int));
        }
        match events[i].op {
            ChangeOp::Created => s.created = s.created + 1,
            ChangeOp::Modified => s.modified = s.modified + 1,
            ChangeOp::Renamed => s.renamed = s.renamed + 1,
            ChangeOp::Deleted => s.deleted = s.deleted + 1,
        }
        i = i + 1;
    }
    assert(evs.take(events@.len() as int) =~= evs);
    s
}

/// Every event is counted under exactly one kind: the counts add up to the total.
pub proof fn lemma_summary_adds_up(evs: Seq<EventView>)
    ensures
        count_op(evs, ChangeOp::Created) + count_op(evs, ChangeOp::Modified) + count_op(
            evs,
            ChangeOp::Renamed,
        ) + count_op(evs, ChangeOp::Deleted) == evs.len(),
{
    lemma_count_bounds(evs);
}

// ------------------------------------------------------------ log lines

/// `[timestamp] KIND: path`, with `?` for a missing timestamp and the kind in
/// uppercase.
pub open spec fn log_line(e: EventView) -> Seq<char> {
    let ts = match e.timestamp {
        Some(t) => t,
        None => seq!['?'],
    };
    seq!['['] + ts + seq![']', ' '] + e.op.name().map_values(|c: char| ascii_upper(c)) + seq![
        ':',
        ' ',
    ] + e.path
}

/// The line under which watching reports an event in log format.
pub fn format_log_line(event: &FileEvent) -> (line: String)
    ensures
        line@ == log_line(event@),
{
    proof {
        reveal_strlit("[");
        reveal_strlit("?");
        reveal_strlit("] ");
        reveal_strlit(": ");
    }
    let mut line = String::from_str("[");
    match &event.timestamp {
        Some(t) => line.append(t.as_str()),
        None => line.append("?"),
    }
    line.append("] ");
    let op = to_ascii_uppercase(event.op.as_str());
    line.append(op.as_str());
    line.append(": ");
    line.append(event.path.as_str());
    assert(line@ =~= log_line(event@));
    line
}

/// A log line starts with `[`, then the timestamp when there is one, and
/// ends with the event's current path; what stands before the path depends
/// on the kind and the timestamp alone (not on a previous path, the file
/// reference number or the sequence number).
pub proof fn lemma_log_line_shows_current_path(e: EventView, f: EventView)
    ensures
        log_line(e).len() > e.path.len(),
        log_line(e).skip(log_line(e).len() - e.path.len()) == e.path,
        log_line(e)[0] == '[',
        e.timestamp matches Some(t) ==> log_line(e).subrange(1, t.len() + 1int) == t,
        e.op == f.op && e.timestamp == f.timestamp ==> log_line(e).take(
            log_line(e).len() - e.path.len(),
        ) == log_line(f).take(log_line(f).len() - f.path.len()),
{
    let head = |g: EventView|
        seq!['['] + (match g.timestamp {
            Some(t) => t,
            None => seq!['?'],
        }) + seq![']', ' '] + g.op.name().map_values(|c: char| ascii_upper(c)) + seq![':', ' '];
    assert(log_line(e) == head(e) + e.path);
    assert(log_line(f) == head(f) + f.path);
    assert(log_line(e).skip(log_line(e).len() - e.path.len()) =~= e.path);
    assert(log_line(e).take(log_line(e).len() - e.path.len()) =~= head(e));
    assert(log_line(f).take(log_line(f).len() - f.path.len()) =~= head(f));
    if let Some(t) = e.timestamp {
        assert(log_line(e).subrange(1, t.len() + 1int) =~= t);
    }
}

} // verus!
