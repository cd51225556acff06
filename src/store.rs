//! The data store: counts and recent events per (file-set, monitor), the
//! events waiting to be dispatched, and when each file was last seen.
use vstd::prelude::*;
use crate::counts::{EventCounts, Granularity, recorded, counts_view, counts_recorded, loaded, sorted_keys, lemma_loaded_sorted};
use crate::keys::lemma_first_index_bounds;
use crate::last_seen::{LastSeen, FilesView, seen, heartbeat};
use crate::config::{optional_names, same_text};
use crate::messages::{DataStoreMessage, StoreMessageView};
use crate::event::{EventView, MonitorEvent, received, ready};
use crate::config::{names, copy_names};
use crate::keys::{first_index, lemma_first_index};
use crate::messages::{NotifierMessage, NotifierMessageView, notifier_messages};
use crate::time::valid_time;

verus! {

pub open spec fn events_view(v: Seq<MonitorEvent>) -> Seq<EventView> {
    v.map_values(|e: MonitorEvent| e@)
}

/// Recent events after a new one, keeping at most `keep` (0 when absent),
/// oldest dropped first.
pub open spec fn kept(events: Seq<EventView>, e: EventView, keep: Option<usize>) -> Seq<EventView> {
    let k: int = match keep {
        Some(n) => n as int,
        None => 0,
    };
    let r = if k > 0 { events.push(e) } else { events };
    if r.len() > k { r.subrange(r.len() - k, r.len() as int) } else { r }
}

/// Every event fed a line from `path` seen at `now`.
pub open spec fn all_received(events: Seq<EventView>, path: Seq<char>, text: Seq<char>, now: int) -> Seq<EventView> {
    events.map_values(|e: EventView| received(e, path, text, now))
}

/// Counts and recent events of one monitor in one file-set.
pub struct MonitorData {
    pub counts: EventCounts,
    pub recent_events: Vec<MonitorEvent>,
}

impl MonitorData {
    pub fn new(counts: EventCounts) -> (r: MonitorData)
        ensures
            r.counts == counts,
            r.recent_events@.len() == 0,
    {
        MonitorData { counts, recent_events: Vec::new() }
    }

    /// A line arrived from a file this monitor watches: events still
    /// awaiting lines from that file take it.
    pub fn receive_line(&mut self, path: &str, text: &str, now: i64)
        ensures
            final(self).counts == old(self).counts,
            events_view(final(self).recent_events@) == all_received(events_view(old(self).recent_events@), path@, text@, now as int),
    {
        let ghost before = events_view(self.recent_events@);
        let mut i: usize = 0;
        while i < self.recent_events.len()
            invariant
                self.counts == old(self).counts,
                i <= self.recent_events@.len(),
                self.recent_events@.len() == before.len(),
                forall|j: int| 0 <= j < i ==> (#[trigger] self.recent_events@[j])@ == received(before[j], path@, text@, now as int),
                forall|j: int| i <= j < before.len() ==> (#[trigger] self.recent_events@[j])@ == before[j],
            decreases before.len() - i,
        {
            let mut ev = self.recent_events[i].duplicate();
            ev.receive_line(path, text, now);
            self.recent_events.set(i, ev);
            i = i + 1;
        }
        assert(events_view(self.recent_events@) =~= all_received(before, path@, text@, now as int));
    }

    /// Drop the oldest events beyond `keep`.
    fn trim(&mut self, keep: usize)
        ensures
            final(self).counts == old(self).counts,
            events_view(final(self).recent_events@) == if old(self).recent_events@.len() > keep {
                events_view(old(self).recent_events@).subrange(old(self).recent_events@.len() - keep, old(self).recent_events@.len() as int)
            } else {
                events_view(old(self).recent_events@)
            },
    {
        let len = self.recent_events.len();
        if len > keep {
            let tail = self.recent_events.split_off(len - keep);
            self.recent_events = tail;
            assert(events_view(self.recent_events@) =~= events_view(old(self).recent_events@).subrange(len - keep, len as int));
        }
    }

    /// A monitor matched at `now`: keep the event if asked to, bounded by
    /// `keep_num_events`, and count it.
    pub fn receive_event(&mut self, ev: MonitorEvent, keep_num_events: Option<usize>, now: i64)
        requires
            old(self).counts.wf(),
            valid_time(now as int),
        ensures
            final(self).counts.wf(),
            forall|g: Granularity| #[trigger] final(self).counts.series(g) == recorded(old(self).counts.series(g), g, now as int),
            events_view(final(self).recent_events@) == kept(events_view(old(self).recent_events@), ev@, keep_num_events),
    {
        let ghost e = ev@;
        let ghost before = events_view(self.recent_events@);
        let keep: usize = match keep_num_events {
            Some(k) => k,
            None => 0,
        };
        if keep > 0 {
            self.recent_events.push(ev);
            assert(events_view(self.recent_events@) =~= before.push(e));
        }
        self.trim(keep);
        self.counts.increment(now);
    }
}

/// Counts and recent events of every monitor of one file-set.
pub struct FileSetData {
    pub monitor_data: Vec<(String, MonitorData)>,
}

/// An event whose notification waits for its following lines or deadline.
pub struct Waiter {
    pub file_set: String,
    pub monitor: String,
    pub notifier_ids: Vec<String>,
    pub event: MonitorEvent,
}

pub struct WaiterView {
    pub file_set: Seq<char>,
    pub monitor: Seq<char>,
    pub notifier_ids: Seq<Seq<char>>,
    pub event: EventView,
}

impl View for Waiter {
    type V = WaiterView;

    open spec fn view(&self) -> WaiterView {
        WaiterView {
            file_set: self.file_set@,
            monitor: self.monitor@,
            notifier_ids: names(self.notifier_ids@),
            event: self.event@,
        }
    }
}

pub open spec fn waiter_message(w: WaiterView) -> NotifierMessageView {
    NotifierMessageView::NotifyEvent { notifier_ids: w.notifier_ids, event: w.event }
}

/// Messages for the waiters that are ready at `now`, in order.
pub open spec fn due_messages(ws: Seq<WaiterView>, now: int) -> Seq<NotifierMessageView>
    decreases ws.len(),
{
    if ws.len() == 0 {
        Seq::empty()
    } else if ready(ws.last().event, now) {
        due_messages(ws.drop_last(), now).push(waiter_message(ws.last()))
    } else {
        due_messages(ws.drop_last(), now)
    }
}

/// The waiters still collecting at `now`, in order.
pub open spec fn still_waiting(ws: Seq<WaiterView>, now: int) -> Seq<WaiterView>
    decreases ws.len(),
{
    if ws.len() == 0 {
        Seq::empty()
    } else if ready(ws.last().event, now) {
        still_waiting(ws.drop_last(), now)
    } else {
        still_waiting(ws.drop_last(), now).push(ws.last())
    }
}

/// A waiter after a line from `path` arrived for `file_set` and `monitor`.
pub open spec fn waiter_received(w: WaiterView, file_set: Seq<char>, monitor: Seq<char>, path: Seq<char>, text: Seq<char>, now: int) -> WaiterView {
    if w.file_set == file_set && w.monitor == monitor {
        WaiterView { event: received(w.event, path, text, now), ..w }
    } else {
        w
    }
}

impl Waiter {
    pub fn duplicate(&self) -> (r: Waiter)
        ensures
            r.file_set@ == self.file_set@,
            r.monitor@ == self.monitor@,
            r@ == self@,
    {
        Waiter {
            file_set: self.file_set.clone(),
            monitor: self.monitor.clone(),
            notifier_ids: copy_names(&self.notifier_ids),
            event: self.event.duplicate(),
        }
    }
}

pub struct MonitorView {
    pub counts: Map<Granularity, Seq<(i64, u64)>>,
    pub recent_events: Seq<EventView>,
}

impl View for MonitorData {
    type V = MonitorView;

    open spec fn view(&self) -> MonitorView {
        MonitorView { counts: counts_view(self.counts), recent_events: events_view(self.recent_events@) }
    }
}

pub type FileSetView = Seq<(Seq<char>, MonitorView)>;

impl View for FileSetData {
    type V = FileSetView;

    open spec fn view(&self) -> FileSetView {
        self.monitor_data@.map_values(|e: (String, MonitorData)| (e.0@, e.1@))
    }
}

pub struct StoreView {
    pub file_sets: Seq<(Seq<char>, FileSetView)>,
    pub last_seen: Seq<(Seq<char>, FilesView)>,
    pub waiters: Seq<WaiterView>,
}

pub open spec fn first_keys<V>(v: Seq<(Seq<char>, V)>) -> Seq<Seq<char>> {
    v.map_values(|e: (Seq<char>, V)| e.0)
}

/// Where the data of (`file_set`, `monitor`) sits: the first file-set of
/// that name, and the first monitor of that name within it.
pub open spec fn locate(v: StoreView, file_set: Seq<char>, monitor: Seq<char>) -> Option<(int, int)> {
    let fi = first_index(first_keys(v.file_sets), file_set);
    if fi < 0 {
        None
    } else {
        let mi = first_index(first_keys(v.file_sets[fi].1), monitor);
        if mi < 0 { None } else { Some((fi, mi)) }
    }
}

/// The store with the monitor at (`fi`, `mi`) replaced by `m`.
pub open spec fn with_monitor(v: StoreView, fi: int, mi: int, m: MonitorView) -> StoreView {
    StoreView {
        file_sets: v.file_sets.update(fi, (v.file_sets[fi].0, v.file_sets[fi].1.update(mi, (v.file_sets[fi].1[mi].0, m)))),
        ..v
    }
}

pub open spec fn after_receive_line(v: StoreView, fi: int, mi: int, file_set: Seq<char>, monitor: Seq<char>, path: Seq<char>, text: Seq<char>, at: int) -> StoreView {
    let m = v.file_sets[fi].1[mi].1;
    let v2 = with_monitor(v, fi, mi, MonitorView { recent_events: all_received(m.recent_events, path, text, at), ..m });
    StoreView {
        waiters: v.waiters.map_values(|w: WaiterView| waiter_received(w, file_set, monitor, path, text, at)),
        ..v2
    }
}

pub open spec fn after_receive_event(
    v: StoreView,
    fi: int,
    mi: int,
    file_set: Seq<char>,
    monitor: Seq<char>,
    e: EventView,
    keep: Option<usize>,
    ids: Option<Seq<Seq<char>>>,
    now: int,
) -> StoreView {
    let m = v.file_sets[fi].1[mi].1;
    let v2 = with_monitor(v, fi, mi, MonitorView {
        counts: counts_recorded(m.counts, now),
        recent_events: kept(m.recent_events, e, keep),
    });
    StoreView {
        waiters: match ids {
            Some(n) => v.waiters.push(WaiterView { file_set, monitor, notifier_ids: n, event: e }),
            None => v.waiters,
        },
        ..v2
    }
}

/// What the store does after a command, besides changing its own state.
pub enum StoreAction {
    /// Nothing further.
    Continue,
    /// Hand these to the notifier.
    Notify(Vec<NotifierMessage>),
    /// Write this counts snapshot: per file-set, per monitor.
    Persist(Vec<(String, Vec<(String, EventCounts)>)>),
    /// The store is done.
    Stop,
}

#[derive(Debug)]
pub enum StoreError {
    /// A command named a file-set or monitor the store does not hold.
    UnknownMonitor { file_set: String, monitor: String },
}

/// The counts snapshot of a store, mirroring its layout.
pub open spec fn snapshot_view(v: Seq<(Seq<char>, FileSetView)>) -> Seq<(Seq<char>, Seq<(Seq<char>, Map<Granularity, Seq<(i64, u64)>>)>)> {
    v.map_values(|f: (Seq<char>, FileSetView)| (f.0, f.1.map_values(|m: (Seq<char>, MonitorView)| (m.0, m.1.counts))))
}

pub open spec fn saved_view(v: Seq<(String, Vec<(String, EventCounts)>)>) -> Seq<(Seq<char>, Seq<(Seq<char>, Map<Granularity, Seq<(i64, u64)>>)>)> {
    v.map_values(|f: (String, Vec<(String, EventCounts)>)| (f.0@, f.1@.map_values(|m: (String, EventCounts)| (m.0@, counts_view(m.1)))))
}

/// Every monitor's counts are well formed.
pub open spec fn data_wf(file_sets: Seq<(String, FileSetData)>) -> bool {
    forall|i: int, j: int| 0 <= i < file_sets.len() && 0 <= j < file_sets[i].1.monitor_data@.len()
        ==> (#[trigger] file_sets[i].1.monitor_data@[j]).1.counts.wf()
}

/// All mutable runtime state: per file-set and monitor data, the waiting
/// events, and when each file was last seen.
pub struct DataStore {
    file_sets: Vec<(String, FileSetData)>,
    files_last_seen: LastSeen,
    waiters: Vec<Waiter>,
}

impl View for DataStore {
    type V = StoreView;

    closed spec fn view(&self) -> StoreView {
        StoreView {
            file_sets: self.file_sets@.map_values(|e: (String, FileSetData)| (e.0@, e.1@)),
            last_seen: self.files_last_seen@,
            waiters: self.waiters@.map_values(|w: Waiter| w@),
        }
    }
}

impl DataStore {
    pub closed spec fn wf(&self) -> bool {
        &&& data_wf(self.file_sets@)
        &&& self.files_last_seen.wf()
    }

    fn find(&self, file_set: &str, monitor: &str) -> (r: Option<(usize, usize)>)
        ensures
            r matches Some((fi, mi)) ==> locate(self@, file_set@, monitor@) == Some((fi as int, mi as int))
                && fi < self.file_sets@.len() && mi < self.file_sets@[fi as int].1.monitor_data@.len(),
            r is None ==> locate(self@, file_set@, monitor@) is None,
    {
        let ghost v = self@;
        let mut fi: usize = 0;
        while fi < self.file_sets.len() && !(self.file_sets[fi].0 == file_set.to_owned())
            invariant
                v == self@,
                fi <= self.file_sets@.len(),
                forall|j: int| 0 <= j < fi ==> (#[trigger] first_keys(v.file_sets)[j]) != file_set@,
            decreases self.file_sets@.len() - fi,
        {
            fi = fi + 1;
        }
        proof {
            lemma_first_index(first_keys(v.file_sets), file_set@, fi as int);
        }
        if fi == self.file_sets.len() {
            return None;
        }
        let md = &self.file_sets[fi].1.monitor_data;
        let mut mi: usize = 0;
        while mi < md.len() && !(md[mi].0 == monitor.to_owned())
            invariant
                v == self@,
                fi < self.file_sets@.len(),
                *md == self.file_sets@[fi as int].1.monitor_data,
                mi <= md@.len(),
                forall|j: int| 0 <= j < mi ==> (#[trigger] first_keys(v.file_sets[fi as int].1)[j]) != monitor@,
            decreases md@.len() - mi,
        {
            mi = mi + 1;
        }
        proof {
            lemma_first_index(first_keys(v.file_sets[fi as int].1), monitor@, mi as int);
        }
        if mi == md.len() {
            None
        } else {
            Some((fi, mi))
        }
    }

    /// Take the monitor data at (`fi`, `mi`) out, leaving an empty
    /// placeholder, to be put back by `put_back`.
    fn take(&mut self, fi: usize, mi: usize) -> (r: MonitorData)
        requires
            fi < old(self).file_sets@.len(),
            mi < old(self).file_sets@[fi as int].1.monitor_data@.len(),
        ensures
            r == old(self).file_sets@[fi as int].1.monitor_data@[mi as int].1,
            final(self).file_sets@.len() == old(self).file_sets@.len(),
            final(self).file_sets@[fi as int].0 == old(self).file_sets@[fi as int].0,
            final(self).file_sets@[fi as int].1.monitor_data@.len() == old(self).file_sets@[fi as int].1.monitor_data@.len(),
            final(self).file_sets@[fi as int].1.monitor_data@[mi as int].0 == old(self).file_sets@[fi as int].1.monitor_data@[mi as int].0,
            forall|j: int| 0 <= j < final(self).file_sets@[fi as int].1.monitor_data@.len() && j != mi
                ==> #[trigger] final(self).file_sets@[fi as int].1.monitor_data@[j] == old(self).file_sets@[fi as int].1.monitor_data@[j],
            forall|i: int| 0 <= i < final(self).file_sets@.len() && i != fi ==> #[trigger] final(self).file_sets@[i] == old(self).file_sets@[i],
            final(self).files_last_seen == old(self).files_last_seen,
            final(self).waiters == old(self).waiters,
    {
        let (name, mut fsd) = self.file_sets.remove(fi);
        let (mname, md) = fsd.monitor_data.remove(mi);
        fsd.monitor_data.insert(mi, (mname, MonitorData::new(EventCounts::new())));
        self.file_sets.insert(fi, (name, fsd));
        md
    }

    fn put_back(&mut self, fi: usize, mi: usize, md: MonitorData)
        requires
            fi < old(self).file_sets@.len(),
            mi < old(self).file_sets@[fi as int].1.monitor_data@.len(),
        ensures
            final(self).file_sets@.len() == old(self).file_sets@.len(),
            final(self).file_sets@[fi as int].0 == old(self).file_sets@[fi as int].0,
            final(self).file_sets@[fi as int].1.monitor_data@.len() == old(self).file_sets@[fi as int].1.monitor_data@.len(),
            final(self).file_sets@[fi as int].1.monitor_data@[mi as int] == (old(self).file_sets@[fi as int].1.monitor_data@[mi as int].0, md),
            forall|j: int| 0 <= j < final(self).file_sets@[fi as int].1.monitor_data@.len() && j != mi
                ==> #[trigger] final(self).file_sets@[fi as int].1.monitor_data@[j] == old(self).file_sets@[fi as int].1.monitor_data@[j],
            forall|i: int| 0 <= i < final(self).file_sets@.len() && i != fi ==> #[trigger] final(self).file_sets@[i] == old(self).file_sets@[i],
            final(self).files_last_seen == old(self).files_last_seen,
            final(self).waiters == old(self).waiters,
    {
        let (name, mut fsd) = self.file_sets.remove(fi);
        let (mname, _placeholder) = fsd.monitor_data.remove(mi);
        fsd.monitor_data.insert(mi, (mname, md));
        self.file_sets.insert(fi, (name, fsd));
    }

    proof fn lemma_put_back_view(before: DataStore, after: DataStore, fi: int, mi: int, md: MonitorData)
        requires
            0 <= fi < before.file_sets@.len(),
            0 <= mi < before.file_sets@[fi].1.monitor_data@.len(),
            after.file_sets@.len() == before.file_sets@.len(),
            after.file_sets@[fi].0 == before.file_sets@[fi].0,
            after.file_sets@[fi].1.monitor_data@.len() == before.file_sets@[fi].1.monitor_data@.len(),
            after.file_sets@[fi].1.monitor_data@[mi] == (before.file_sets@[fi].1.monitor_data@[mi].0, md),
            forall|j: int| 0 <= j < after.file_sets@[fi].1.monitor_data@.len() && j != mi
                ==> #[trigger] after.file_sets@[fi].1.monitor_data@[j] == before.file_sets@[fi].1.monitor_data@[j],
            forall|i: int| 0 <= i < after.file_sets@.len() && i != fi ==> #[trigger] after.file_sets@[i] == before.file_sets@[i],
            after.files_last_seen == before.files_last_seen,
        ensures
            after@.file_sets == with_monitor(before@, fi, mi, md@).file_sets,
            after@.last_seen == before@.last_seen,
            data_wf(before.file_sets@) && md.counts.wf() ==> data_wf(after.file_sets@),
    {
        let w = with_monitor(before@, fi, mi, md@);
        assert(after@.file_sets[fi].1 =~= w.file_sets[fi].1);
        assert(after@.file_sets =~= w.file_sets);
        if data_wf(before.file_sets@) && md.counts.wf() {
            assert forall|i: int, j: int| 0 <= i < after.file_sets@.len() && 0 <= j < after.file_sets@[i].1.monitor_data@.len()
                implies (#[trigger] after.file_sets@[i].1.monitor_data@[j]).1.counts.wf() by {
                if i == fi && j != mi {
                    assert(after.file_sets@[i].1.monitor_data@[j] == before.file_sets@[i].1.monitor_data@[j]);
                } else if i != fi {
                    assert(after.file_sets@[i] == before.file_sets@[i]);
                }
            }
        }
    }

    /// Feed a line to the events of (`file_set`, `monitor`) awaiting lines
    /// from `path`, those kept as recent and those waiting for dispatch.
    pub fn receive_line(&mut self, file_set: &str, monitor: &str, path: &str, text: &str, at: i64) -> (r: Result<(), StoreError>)
        requires
            old(self).wf(),
        ensures
            final(self).wf(),
            match locate(old(self)@, file_set@, monitor@) {
                None => r is Err && final(self)@ == old(self)@,
                Some((fi, mi)) => r is Ok && final(self)@ == after_receive_line(old(self)@, fi, mi, file_set@, monitor@, path@, text@, at as int),
            },
    {
        match self.find(file_set, monitor) {
            None => Err(StoreError::UnknownMonitor { file_set: file_set.to_owned(), monitor: monitor.to_owned() }),
            Some((fi, mi)) => {
                let ghost before = *self;
                let mut md = self.take(fi, mi);
                md.receive_line(path, text, at);
                self.put_back(fi, mi, md);
                proof {
                    DataStore::lemma_put_back_view(before, *self, fi as int, mi as int, md);
                    assert(before.file_sets@[fi as int].1.monitor_data@[mi as int].1.counts.wf());
                }
                let ghost ws = self.waiters@;
                let ghost mid = *self;
                let mut i: usize = 0;
                while i < self.waiters.len()
                    invariant
                        self.file_sets == mid.file_sets,
                        self.files_last_seen == mid.files_last_seen,
                        ws.len() == self.waiters@.len(),
                        i <= ws.len(),
                        forall|j: int| 0 <= j < i ==> (#[trigger] self.waiters@[j])@ == waiter_received(ws[j]@, file_set@, monitor@, path@, text@, at as int),
                        forall|j: int| i <= j < ws.len() ==> #[trigger] self.waiters@[j] == ws[j],
                    decreases ws.len() - i,
                {
                    if same_text(&self.waiters[i].file_set, file_set) && same_text(&self.waiters[i].monitor, monitor) {
                        let mut w = self.waiters[i].duplicate();
                        w.event.receive_line(path, text, at);
                        self.waiters.set(i, w);
                    }
                    i = i + 1;
                }
                proof {
                    assert(self@.waiters =~= before@.waiters.map_values(|w: WaiterView| waiter_received(w, file_set@, monitor@, path@, text@, at as int)));
                }
                Ok(())
            },
        }
    }

    /// Store and count a new match event of (`file_set`, `monitor`) at
    /// `now`, and start a waiter for it when it has notifiers.
    pub fn receive_event(
        &mut self,
        file_set: &str,
        monitor: &str,
        ev: MonitorEvent,
        keep_num_events: Option<usize>,
        notifier_ids: Option<Vec<String>>,
        now: i64,
    ) -> (r: Result<(), StoreError>)
        requires
            old(self).wf(),
            valid_time(now as int),
        ensures
            final(self).wf(),
            match locate(old(self)@, file_set@, monitor@) {
                None => r is Err && final(self)@ == old(self)@,
                Some((fi, mi)) => r is Ok && final(self)@ == after_receive_event(
                    old(self)@, fi, mi, file_set@, monitor@, ev@, keep_num_events, optional_names(notifier_ids), now as int),
            },
    {
        match self.find(file_set, monitor) {
            None => Err(StoreError::UnknownMonitor { file_set: file_set.to_owned(), monitor: monitor.to_owned() }),
            Some((fi, mi)) => {
                let ghost before = *self;
                let ghost e = ev@;
                let mut md = self.take(fi, mi);
                proof {
                    assert(before.file_sets@[fi as int].1.monitor_data@[mi as int].1.counts.wf());
                }
                let copy = ev.duplicate();
                md.receive_event(ev, keep_num_events, now);
                self.put_back(fi, mi, md);
                proof {
                    DataStore::lemma_put_back_view(before, *self, fi as int, mi as int, md);
                    assert(md@.counts =~= counts_recorded(before@.file_sets[fi as int].1[mi as int].1.counts, now as int));
                }
                match notifier_ids {
                    Some(ids) => {
                        self.waiters.push(Waiter {
                            file_set: file_set.to_owned(),
                            monitor: monitor.to_owned(),
                            notifier_ids: ids,
                            event: copy,
                        });
                        assert(self@.waiters =~= before@.waiters.push(WaiterView {
                            file_set: file_set@,
                            monitor: monitor@,
                            notifier_ids: optional_names(notifier_ids)->0,
                            event: e,
                        }));
                    },
                    None => {},
                }
                Ok(())
            },
        }
    }

    /// Record that `path` of `file_set` produced a line at `now`.
    pub fn file_seen(&mut self, file_set: &str, path: &str, now: i64)
        requires
            old(self).wf(),
            valid_time(now as int),
        ensures
            final(self).wf(),
            final(self)@ == (StoreView { last_seen: seen(old(self)@.last_seen, file_set@, path@, now), ..old(self)@ }),
    {
        self.files_last_seen.file_seen(file_set, path, now);
    }

    /// The "files last seen" summary for `notifier_ids`.
    pub fn files_seen_message(&self, notifier_ids: Vec<String>, now: i64) -> (r: NotifierMessage)
        requires
            self.wf(),
            valid_time(now as int),
        ensures
            r@ == (NotifierMessageView::NotifyMessage { notifier_ids: names(notifier_ids@), text: heartbeat(self@.last_seen, now as int) }),
    {
        NotifierMessage::NotifyMessage(notifier_ids, self.files_last_seen.summary(now))
    }

    /// Dispatch every waiter whose event is ready at `now`: each yields one
    /// notification with a copy of its event and is dropped; the others keep
    /// waiting.
    pub fn check_waiters(&mut self, now: i64) -> (r: Vec<NotifierMessage>)
        requires
            old(self).wf(),
        ensures
            final(self).wf(),
            notifier_messages(r@) == due_messages(old(self)@.waiters, now as int),
            final(self)@ == (StoreView { waiters: still_waiting(old(self)@.waiters, now as int), ..old(self)@ }),
    {
        let ghost ws = self@.waiters;
        let mut out: Vec<NotifierMessage> = Vec::new();
        let mut keep: Vec<Waiter> = Vec::new();
        let mut i: usize = 0;
        while i < self.waiters.len()
            invariant
                ws == self@.waiters,
                i <= ws.len(),
                notifier_messages(out@) == due_messages(ws.subrange(0, i as int), now as int),
                keep@.map_values(|w: Waiter| w@) == still_waiting(ws.subrange(0, i as int), now as int),
            decreases ws.len() - i,
        {
            let ghost p = ws.subrange(0, i + 1);
            proof {
                assert(p.drop_last() =~= ws.subrange(0, i as int));
                assert(p.last() == self.waiters@[i as int]@);
            }
            let w = &self.waiters[i];
            if w.event.is_ready(now) {
                let ghost before = notifier_messages(out@);
                out.push(NotifierMessage::NotifyEvent(copy_names(&w.notifier_ids), w.event.duplicate()));
                assert(notifier_messages(out@) =~= before.push(waiter_message(ws[i as int])));
            } else {
                let ghost before = keep@.map_values(|w: Waiter| w@);
                keep.push(w.duplicate());
                assert(keep@.map_values(|w: Waiter| w@) =~= before.push(ws[i as int]));
            }
            i = i + 1;
        }
        assert(ws.subrange(0, ws.len() as int) =~= ws);
        self.waiters = keep;
        out
    }

    /// Per file-set, per monitor, a copy of the counts.
    pub fn persist_data(&self) -> (r: Vec<(String, Vec<(String, EventCounts)>)>)
        ensures
            saved_view(r@) == snapshot_view(self@.file_sets),
    {
        let ghost v = self@.file_sets;
        let mut r: Vec<(String, Vec<(String, EventCounts)>)> = Vec::new();
        let mut i: usize = 0;
        while i < self.file_sets.len()
            invariant
                v == self@.file_sets,
                i <= v.len(),
                saved_view(r@) == snapshot_view(v.subrange(0, i as int)),
            decreases v.len() - i,
        {
            let md = &self.file_sets[i].1.monitor_data;
            let mut inner: Vec<(String, EventCounts)> = Vec::new();
            let mut j: usize = 0;
            while j < md.len()
                invariant
                    v == self@.file_sets,
                    i < v.len(),
                    *md == self.file_sets@[i as int].1.monitor_data,
                    j <= md@.len(),
                    inner@.map_values(|m: (String, EventCounts)| (m.0@, counts_view(m.1)))
                        == v[i as int].1.subrange(0, j as int).map_values(|m: (Seq<char>, MonitorView)| (m.0, m.1.counts)),
                decreases md@.len() - j,
            {
                let c = md[j].1.counts.duplicate();
                assert(counts_view(c) =~= counts_view(md@[j as int].1.counts));
                assert(v[i as int].1 == self.file_sets@[i as int].1@);
                assert(v[i as int].1[j as int] == (md@[j as int].0@, md@[j as int].1@));
                let ghost before_inner = inner@.map_values(|m: (String, EventCounts)| (m.0@, counts_view(m.1)));
                inner.push((md[j].0.clone(), c));
                assert(inner@.map_values(|m: (String, EventCounts)| (m.0@, counts_view(m.1)))
                    =~= before_inner.push((md@[j as int].0@, counts_view(md@[j as int].1.counts))));
                assert(v[i as int].1.subrange(0, j + 1) =~= v[i as int].1.subrange(0, j as int).push(v[i as int].1[j as int]));
                j = j + 1;
                assert(inner@.map_values(|m: (String, EventCounts)| (m.0@, counts_view(m.1)))
                    =~= v[i as int].1.subrange(0, j as int).map_values(|m: (Seq<char>, MonitorView)| (m.0, m.1.counts)));
            }
            assert(v[i as int].1.subrange(0, md@.len() as int) =~= v[i as int].1);
            let ghost before_r = saved_view(r@);
            assert(v[i as int].0 == self.file_sets@[i as int].0@);
            r.push((self.file_sets[i].0.clone(), inner));
            assert(saved_view(r@) =~= before_r.push(snapshot_view(v.subrange(i as int, i + 1))[0]));
            assert(v.subrange(0, i + 1) =~= v.subrange(0, i as int).push(v[i as int]));
            i = i + 1;
            assert(saved_view(r@) =~= snapshot_view(v.subrange(0, i as int)));
        }
        assert(v.subrange(0, v.len() as int) =~= v);
        r
    }

    /// The file-set ids, in order.
    pub fn get_filesets(&self) -> (r: Vec<String>)
        ensures
            names(r@) == first_keys(self@.file_sets),
    {
        let mut r: Vec<String> = Vec::new();
        let mut i: usize = 0;
        while i < self.file_sets.len()
            invariant
                i <= self.file_sets@.len(),
                names(r@) == first_keys(self@.file_sets).subrange(0, i as int),
            decreases self.file_sets@.len() - i,
        {
            assert(first_keys(self@.file_sets)[i as int] == self.file_sets@[i as int].0@);
            let ghost before = names(r@);
            r.push(self.file_sets[i].0.clone());
            assert(names(r@) =~= before.push(self.file_sets@[i as int].0@));
            i = i + 1;
            assert(names(r@) =~= first_keys(self@.file_sets).subrange(0, i as int));
        }
        assert(first_keys(self@.file_sets).subrange(0, i as int) =~= first_keys(self@.file_sets));
        r
    }

    /// The monitor ids of a file-set, or `None` when there is no such file-set.
    pub fn get_monitors_for_fileset(&self, file_set: &str) -> (r: Option<Vec<String>>)
        ensures
            r is None <==> first_index(first_keys(self@.file_sets), file_set@) < 0,
            r matches Some(v) ==> names(v@) == first_keys(self@.file_sets[first_index(first_keys(self@.file_sets), file_set@)].1),
    {
        let ghost v = self@;
        let mut fi: usize = 0;
        while fi < self.file_sets.len() && !(self.file_sets[fi].0 == file_set.to_owned())
            invariant
                v == self@,
                fi <= self.file_sets@.len(),
                forall|j: int| 0 <= j < fi ==> (#[trigger] first_keys(v.file_sets)[j]) != file_set@,
            decreases self.file_sets@.len() - fi,
        {
            fi = fi + 1;
        }
        proof {
            lemma_first_index(first_keys(v.file_sets), file_set@, fi as int);
        }
        if fi == self.file_sets.len() {
            return None;
        }
        let md = &self.file_sets[fi].1.monitor_data;
        let mut r: Vec<String> = Vec::new();
        let mut j: usize = 0;
        while j < md.len()
            invariant
                v == self@,
                fi < self.file_sets@.len(),
                *md == self.file_sets@[fi as int].1.monitor_data,
                j <= md@.len(),
                names(r@) == first_keys(v.file_sets[fi as int].1).subrange(0, j as int),
            decreases md@.len() - j,
        {
            assert(v.file_sets[fi as int].1 == self.file_sets@[fi as int].1@);
            assert(first_keys(v.file_sets[fi as int].1)[j as int] == md@[j as int].0@);
            let ghost before = names(r@);
            r.push(md[j].0.clone());
            assert(names(r@) =~= before.push(md@[j as int].0@));
            j = j + 1;
            assert(names(r@) =~= first_keys(v.file_sets[fi as int].1).subrange(0, j as int));
        }
        assert(first_keys(v.file_sets[fi as int].1).subrange(0, j as int) =~= first_keys(v.file_sets[fi as int].1));
        Some(r)
    }

    /// The data of (`file_set`, `monitor`), if the store holds it.
    pub fn get_monitor(&self, file_set: &str, monitor: &str) -> (r: Option<&MonitorData>)
        ensures
            r is None <==> locate(self@, file_set@, monitor@) is None,
            r matches Some(md) ==> locate(self@, file_set@, monitor@) matches Some((fi, mi))
                && md@ == self@.file_sets[fi].1[mi].1,
    {
        match self.find(file_set, monitor) {
            None => None,
            Some((fi, mi)) => Some(&self.file_sets[fi].1.monitor_data[mi].1),
        }
    }

    /// Act on one command at `now`.
    pub fn handle(&mut self, msg: DataStoreMessage, now: i64) -> (r: Result<StoreAction, StoreError>)
        requires
            old(self).wf(),
            valid_time(now as int),
        ensures
            final(self).wf(),
            match msg@ {
                StoreMessageView::ReceiveLine { file_set, monitor, path, line, at } => match locate(old(self)@, file_set, monitor) {
                    None => r is Err && final(self)@ == old(self)@,
                    Some((fi, mi)) => r matches Ok(StoreAction::Continue)
                        && final(self)@ == after_receive_line(old(self)@, fi, mi, file_set, monitor, path, line, at),
                },
                StoreMessageView::ReceiveEvent { file_set, monitor, event, keep_recent, notifier_ids } => match locate(old(self)@, file_set, monitor) {
                    None => r is Err && final(self)@ == old(self)@,
                    Some((fi, mi)) => r matches Ok(StoreAction::Continue)
                        && final(self)@ == after_receive_event(old(self)@, fi, mi, file_set, monitor, event, keep_recent, notifier_ids, now as int),
                },
                StoreMessageView::FileSeen { file_set, path } => r matches Ok(StoreAction::Continue)
                    && final(self)@ == (StoreView { last_seen: seen(old(self)@.last_seen, file_set, path, now), ..old(self)@ }),
                StoreMessageView::NotifyFilesSeen { notifiers } => final(self)@ == old(self)@
                    && (r matches Ok(StoreAction::Notify(v))
                    && notifier_messages(v@) == seq![NotifierMessageView::NotifyMessage { notifier_ids: notifiers, text: heartbeat(old(self)@.last_seen, now as int) }]),
                StoreMessageView::Persist => final(self)@ == old(self)@
                    && (r matches Ok(StoreAction::Persist(snapshot))
                    && saved_view(snapshot@) == snapshot_view(old(self)@.file_sets)),
                StoreMessageView::CheckWaiters => r matches Ok(StoreAction::Notify(v))
                    && notifier_messages(v@) == due_messages(old(self)@.waiters, now as int)
                    && final(self)@ == (StoreView { waiters: still_waiting(old(self)@.waiters, now as int), ..old(self)@ }),
                StoreMessageView::Shutdown => r matches Ok(StoreAction::Stop) && final(self)@ == old(self)@,
            },
    {
        match msg {
            DataStoreMessage::ReceiveLine(file_set, monitor, path, line, at) => {
                match self.receive_line(file_set.as_str(), monitor.as_str(), path.as_str(), line.as_str(), at) {
                    Ok(()) => Ok(StoreAction::Continue),
                    Err(e) => Err(e),
                }
            },
            DataStoreMessage::ReceiveEvent(file_set, monitor, ev, keep, ids) => {
                match self.receive_event(file_set.as_str(), monitor.as_str(), ev, keep, ids, now) {
                    Ok(()) => Ok(StoreAction::Continue),
                    Err(e) => Err(e),
                }
            },
            DataStoreMessage::FileSeen(file_set, path) => {
                self.file_seen(file_set.as_str(), path.as_str(), now);
                Ok(StoreAction::Continue)
            },
            DataStoreMessage::NotifyFilesSeen(ids) => {
                let m = self.files_seen_message(ids, now);
                let mut v: Vec<NotifierMessage> = Vec::new();
                v.push(m);
                assert(notifier_messages(v@) =~= seq![m@]);
                Ok(StoreAction::Notify(v))
            },
            DataStoreMessage::Persist => Ok(StoreAction::Persist(self.persist_data())),
            DataStoreMessage::CheckWaiters => Ok(StoreAction::Notify(self.check_waiters(now))),
            DataStoreMessage::Shutdown => Ok(StoreAction::Stop),
        }
    }

    /// A store for the file-sets and monitors of `layout`, each monitor's
    /// counts taken from `saved` (the first entry of that file-set, then of
    /// that monitor) when present there, and empty otherwise.
    pub fn new(layout: &Vec<(String, Vec<String>)>, saved: &Vec<(String, Vec<(String, EventCounts)>)>) -> (r: DataStore)
        ensures
            r.wf(),
            r@.file_sets == restored(layout_view(layout@), saved_view(saved@)),
            r@.last_seen.len() == 0,
            r@.waiters.len() == 0,
    {
        let ghost lv = layout_view(layout@);
        let ghost sv = saved_view(saved@);
        let mut file_sets: Vec<(String, FileSetData)> = Vec::new();
        let mut i: usize = 0;
        while i < layout.len()
            invariant
                lv == layout_view(layout@),
                sv == saved_view(saved@),
                i <= layout@.len(),
                file_sets@.map_values(|e: (String, FileSetData)| (e.0@, e.1@)) == restored(lv.subrange(0, i as int), sv),
                data_wf(file_sets@),
            decreases layout@.len() - i,
        {
            let f = &layout[i].0;
            let mids = &layout[i].1;
            let mut fi: usize = 0;
            while fi < saved.len() && !(saved[fi].0 == *f)
                invariant
                    sv == saved_view(saved@),
                    fi <= saved@.len(),
                    forall|j: int| 0 <= j < fi ==> (#[trigger] first_keys(sv)[j]) != f@,
                decreases saved@.len() - fi,
            {
                fi = fi + 1;
            }
            proof {
                lemma_first_index(first_keys(sv), f@, fi as int);
            }
            let mut monitor_data: Vec<(String, MonitorData)> = Vec::new();
            let mut j: usize = 0;
            while j < mids.len()
                invariant
                    lv == layout_view(layout@),
                    sv == saved_view(saved@),
                    i < layout@.len(),
                    *f == layout@[i as int].0,
                    *mids == layout@[i as int].1,
                    fi == saved@.len() || (fi < saved@.len() && first_index(first_keys(sv), f@) == fi),
                    fi == saved@.len() ==> first_index(first_keys(sv), f@) < 0,
                    j <= mids@.len(),
                    monitor_data@.map_values(|e: (String, MonitorData)| (e.0@, e.1@))
                        == restored(lv.subrange(i as int, i + 1), sv)[0].1.subrange(0, j as int),
                    forall|k: int| 0 <= k < monitor_data@.len() ==> (#[trigger] monitor_data@[k]).1.counts.wf(),
                decreases mids@.len() - j,
            {
                let m = &mids[j];
                let mut counts = EventCounts::new();
                if fi < saved.len() {
                    let inner = &saved[fi].1;
                    let mut mi: usize = 0;
                    while mi < inner.len() && !(inner[mi].0 == *m)
                        invariant
                            sv == saved_view(saved@),
                            fi < saved@.len(),
                            *inner == saved@[fi as int].1,
                            mi <= inner@.len(),
                            forall|k: int| 0 <= k < mi ==> (#[trigger] first_keys(sv[fi as int].1)[k]) != m@,
                        decreases inner@.len() - mi,
                    {
                        mi = mi + 1;
                    }
                    proof {
                        lemma_first_index(first_keys(sv[fi as int].1), m@, mi as int);
                    }
                    if mi < inner.len() {
                        counts = inner[mi].1.rebuilt();
                        assert(counts_view(counts) =~= Map::new(|g: Granularity| true, |g: Granularity| loaded(sv[fi as int].1[mi as int].1[g])));
                    }
                }
                let ghost before = monitor_data@.map_values(|e: (String, MonitorData)| (e.0@, e.1@));
                let md = MonitorData::new(counts);
                proof {
                    assert(events_view(md.recent_events@) =~= Seq::<EventView>::empty());
                    if fi == saved.len() || first_index(first_keys(sv[fi as int].1), m@) < 0 {
                        assert(counts_view(counts) =~= empty_counts());
                    }
                    assert(lv[i as int].1[j as int] == m@);
                }
                monitor_data.push((m.clone(), md));
                proof {
                    let target = restored(lv.subrange(i as int, i + 1), sv)[0].1;
                    assert(lv.subrange(i as int, i + 1)[0] == lv[i as int]);
                    assert(target[j as int] == (m@, md@));
                    assert(monitor_data@.map_values(|e: (String, MonitorData)| (e.0@, e.1@)) =~= before.push((m@, md@)));
                    assert(target.subrange(0, j + 1) =~= target.subrange(0, j as int).push(target[j as int]));
                }
                j = j + 1;
            }
            let ghost fsv = file_sets@.map_values(|e: (String, FileSetData)| (e.0@, e.1@));
            let fsd = FileSetData { monitor_data };
            proof {
                let target = restored(lv.subrange(i as int, i + 1), sv)[0];
                assert(lv.subrange(i as int, i + 1)[0] == lv[i as int]);
                assert(target.1.subrange(0, mids@.len() as int) =~= target.1);
                assert(fsd@ =~= target.1);
                assert(restored(lv.subrange(0, i + 1), sv) =~= restored(lv.subrange(0, i as int), sv).push(target));
            }
            let ghost prev = file_sets@;
            file_sets.push((f.clone(), fsd));
            proof {
                assert(file_sets@.map_values(|e: (String, FileSetData)| (e.0@, e.1@)) =~= fsv.push((f@, fsd@)));
                assert forall|a: int, b: int| 0 <= a < file_sets@.len() && 0 <= b < file_sets@[a].1.monitor_data@.len()
                    implies (#[trigger] file_sets@[a].1.monitor_data@[b]).1.counts.wf() by {
                    if a < i {
                        assert(file_sets@[a] == prev[a]);
                    }
                }
            }
            i = i + 1;
        }
        assert(lv.subrange(0, lv.len() as int) =~= lv);
        let r = DataStore { file_sets, files_last_seen: LastSeen::new(), waiters: Vec::new() };
        assert(r@.waiters =~= Seq::<WaiterView>::empty());
        r
    }
}

pub open spec fn empty_counts() -> Map<Granularity, Seq<(i64, u64)>> {
    Map::new(|g: Granularity| true, |g: Granularity| Seq::<(i64, u64)>::empty())
}

pub type SavedView = Seq<(Seq<char>, Seq<(Seq<char>, Map<Granularity, Seq<(i64, u64)>>)>)>;

/// The counts saved for (`file_set`, `monitor`), loaded; empty when absent.
pub open spec fn saved_counts(saved: SavedView, file_set: Seq<char>, monitor: Seq<char>) -> Map<Granularity, Seq<(i64, u64)>> {
    let fi = first_index(first_keys(saved), file_set);
    if fi < 0 {
        empty_counts()
    } else {
        let mi = first_index(first_keys(saved[fi].1), monitor);
        if mi < 0 {
            empty_counts()
        } else {
            Map::new(|g: Granularity| true, |g: Granularity| loaded(saved[fi].1[mi].1[g]))
        }
    }
}

pub open spec fn layout_view(v: Seq<(String, Vec<String>)>) -> Seq<(Seq<char>, Seq<Seq<char>>)> {
    v.map_values(|e: (String, Vec<String>)| (e.0@, names(e.1@)))
}

/// The data of a fresh store for `layout`, counts taken from `saved`.
pub open spec fn restored(layout: Seq<(Seq<char>, Seq<Seq<char>>)>, saved: SavedView) -> Seq<(Seq<char>, FileSetView)> {
    layout.map_values(|e: (Seq<char>, Seq<Seq<char>>)| (e.0, e.1.map_values(|m: Seq<char>| (m, MonitorView {
        counts: saved_counts(saved, e.0, m),
        recent_events: Seq::empty(),
    }))))
}

/// The file-set and monitor names of a store, in order.
pub open spec fn layout_of(v: Seq<(Seq<char>, FileSetView)>) -> Seq<(Seq<char>, Seq<Seq<char>>)> {
    v.map_values(|e: (Seq<char>, FileSetView)| (e.0, first_keys(e.1)))
}

/// Persisting the counts and loading them into a store of the same layout
/// gives every (file-set, monitor) exactly the counts it had.
pub proof fn lemma_persist_round_trip(st: &DataStore, file_set: Seq<char>, monitor: Seq<char>)
    requires
        st.wf(),
    ensures
        ({
            let v = st@;
            let r = StoreView { file_sets: restored(layout_of(v.file_sets), snapshot_view(v.file_sets)), ..v };
            &&& locate(r, file_set, monitor) == locate(v, file_set, monitor)
            &&& locate(v, file_set, monitor) matches Some((fi, mi))
                ==> r.file_sets[fi].1[mi].1.counts == v.file_sets[fi].1[mi].1.counts
        }),
{
    let v = st@;
    let snap = snapshot_view(v.file_sets);
    let lay = layout_of(v.file_sets);
    let rs = restored(lay, snap);
    let r = StoreView { file_sets: rs, ..v };
    assert(first_keys(snap) =~= first_keys(v.file_sets));
    assert(first_keys(rs) =~= first_keys(v.file_sets));
    lemma_first_index_bounds(first_keys(v.file_sets), file_set);
    let fi = first_index(first_keys(v.file_sets), file_set);
    if fi >= 0 {
        assert(first_keys(snap[fi].1) =~= first_keys(v.file_sets[fi].1));
        assert(first_keys(rs[fi].1) =~= first_keys(v.file_sets[fi].1));
        lemma_first_index_bounds(first_keys(v.file_sets[fi].1), monitor);
        let mi = first_index(first_keys(v.file_sets[fi].1), monitor);
        if mi >= 0 {
            let c = st.file_sets@[fi].1.monitor_data@[mi].1.counts;
            assert(v.file_sets[fi].1[mi].1.counts == counts_view(c));
            assert(c.wf());
            assert forall|g: Granularity| #![auto] loaded(snap[fi].1[mi].1[g]) == counts_view(c)[g] by {
                assert(sorted_keys(c.series(g)));
                lemma_loaded_sorted(c.series(g));
            }
            assert(rs[fi].1[mi].1.counts =~= counts_view(c));
        }
    }
}

/// Recent events never outnumber the configured bound (none when absent).
pub proof fn lemma_recent_events_bounded(events: Seq<EventView>, e: EventView, keep: Option<usize>)
    ensures
        kept(events, e, keep).len() <= match keep {
            Some(n) => n as int,
            None => 0,
        },
{
}

/// No event awaits lines from `path` for (`file_set`, `monitor`).
pub open spec fn none_awaiting(v: StoreView, fi: int, mi: int, file_set: Seq<char>, monitor: Seq<char>, path: Seq<char>) -> bool {
    &&& forall|j: int| 0 <= j < v.file_sets[fi].1[mi].1.recent_events.len() ==> {
        let e = #[trigger] v.file_sets[fi].1[mi].1.recent_events[j];
        !(e.awaiting_lines > 0 && e.awaiting_lines_from == path)
    }
    &&& forall|j: int| 0 <= j < v.waiters.len() ==> {
        let w = #[trigger] v.waiters[j];
        (w.file_set == file_set && w.monitor == monitor) ==> !(w.event.awaiting_lines > 0 && w.event.awaiting_lines_from == path)
    }
}

/// A line from a path no event awaits leaves the store as it was.
pub proof fn lemma_receive_line_no_op(v: StoreView, fi: int, mi: int, file_set: Seq<char>, monitor: Seq<char>, path: Seq<char>, text: Seq<char>, at: int)
    requires
        0 <= fi < v.file_sets.len(),
        0 <= mi < v.file_sets[fi].1.len(),
        none_awaiting(v, fi, mi, file_set, monitor, path),
    ensures
        after_receive_line(v, fi, mi, file_set, monitor, path, text, at) == v,
{
    let m = v.file_sets[fi].1[mi].1;
    assert(all_received(m.recent_events, path, text, at) =~= m.recent_events);
    assert(MonitorView { recent_events: all_received(m.recent_events, path, text, at), ..m } == m);
    assert(with_monitor(v, fi, mi, m).file_sets =~= v.file_sets) by {
        assert(v.file_sets[fi].1.update(mi, (v.file_sets[fi].1[mi].0, m)) =~= v.file_sets[fi].1);
    }
    assert(v.waiters.map_values(|w: WaiterView| waiter_received(w, file_set, monitor, path, text, at)) =~= v.waiters);
}

/// Waiters ready at `now`.
pub open spec fn ready_count(ws: Seq<WaiterView>, now: int) -> nat
    decreases ws.len(),
{
    if ws.len() == 0 {
        0
    } else if ready(ws.last().event, now) {
        ready_count(ws.drop_last(), now) + 1
    } else {
        ready_count(ws.drop_last(), now)
    }
}

/// A check dispatches one notification per ready waiter, for instance one
/// whose deadline has passed though it still awaits lines, and keeps only
/// waiters that are not ready, so none is dispatched twice.
pub proof fn lemma_dispatch_once(ws: Seq<WaiterView>, now: int)
    ensures
        due_messages(ws, now).len() == ready_count(ws, now),
        still_waiting(ws, now).len() + ready_count(ws, now) == ws.len(),
        forall|j: int| 0 <= j < still_waiting(ws, now).len() ==> !ready((#[trigger] still_waiting(ws, now)[j]).event, now),
        forall|j: int| 0 <= j < ws.len() && now >= (#[trigger] ws[j]).event.notify_by ==> ready(ws[j].event, now),
        ws.len() == 1 && now >= ws[0].event.notify_by ==> due_messages(ws, now) == seq![waiter_message(ws[0])],
    decreases ws.len(),
{
    if ws.len() > 0 {
        lemma_dispatch_once(ws.drop_last(), now);
        let rest = still_waiting(ws.drop_last(), now);
        if !ready(ws.last().event, now) {
            assert forall|j: int| 0 <= j < still_waiting(ws, now).len() implies !ready((#[trigger] still_waiting(ws, now)[j]).event, now) by {
                if j < rest.len() {
                    assert(still_waiting(ws, now)[j] == rest[j]);
                }
            }
        }
        if ws.len() == 1 {
            assert(ws.drop_last() =~= Seq::<WaiterView>::empty());
        }
    }
}

} // verus!
