//! A file-set: its monitors, the per-path rings of recent lines, and the
//! commands each new line gives rise to.
use vstd::prelude::*;
use crate::config::{FileSetConfig, MonitorConfig, ConfigError, monitor_listed, optional_names, copy_optional_names, same_text};
use crate::event::{LogLine, LineView, views, sole_event_line};
use crate::messages::{DataStoreMessage, StoreMessageView, store_messages};
use crate::monitor::{Monitor, created, lemma_created_sole_event_line};
use crate::pattern::regex_matches;
use crate::time::valid_time;

verus! {

/// A monitor applied to a file-set, with the notifiers to alert.
pub struct MonitorEntry {
    pub id: String,
    pub monitor: Monitor,
    pub notifier_ids: Option<Vec<String>>,
}

/// The recent lines of one path.
pub struct RingEntry {
    pub path: String,
    pub lines: Vec<LogLine>,
}

/// Lines seen from `path` and still kept, oldest first.
pub open spec fn ring_of(rings: Seq<RingEntry>, path: Seq<char>) -> Seq<LineView>
    decreases rings.len(),
{
    if rings.len() == 0 {
        Seq::empty()
    } else if rings[0].path@ == path {
        views(rings[0].lines@)
    } else {
        ring_of(rings.drop_first(), path)
    }
}

/// The ring after a line arrives: appended, oldest dropped beyond `max`.
pub open spec fn appended_ring(ring: Seq<LineView>, line: LineView, max: nat) -> Seq<LineView> {
    let r = ring.push(line);
    if r.len() > max {
        r.subrange(r.len() - max, r.len() as int)
    } else {
        r
    }
}

/// The commands for one monitor: feed waiting events, then the new event on a match.
pub open spec fn entry_messages(m: MonitorEntry, file_set: Seq<char>, ring: Seq<LineView>, path: Seq<char>, text: Seq<char>, now: int) -> Seq<StoreMessageView> {
    seq![StoreMessageView::ReceiveLine { file_set, monitor: m.id@, path, line: text, at: now }]
        + if regex_matches(m.monitor.config.regex@, text) {
            seq![StoreMessageView::ReceiveEvent {
                file_set,
                monitor: m.id@,
                event: created(m.monitor.config, ring, path, text, now),
                keep_recent: m.monitor.config.log_recent_events,
                notifier_ids: optional_names(m.notifier_ids),
            }]
        } else {
            Seq::empty()
        }
}

pub open spec fn monitor_messages(ms: Seq<MonitorEntry>, file_set: Seq<char>, ring: Seq<LineView>, path: Seq<char>, text: Seq<char>, now: int) -> Seq<StoreMessageView>
    decreases ms.len(),
{
    if ms.len() == 0 {
        Seq::empty()
    } else {
        monitor_messages(ms.drop_last(), file_set, ring, path, text, now)
            + entry_messages(ms.last(), file_set, ring, path, text, now)
    }
}

/// Largest `keep_lines_before` among the monitors.
pub open spec fn max_before(ms: Seq<MonitorEntry>) -> nat
    decreases ms.len(),
{
    if ms.len() == 0 {
        0
    } else {
        let k: nat = match ms.last().monitor.config.keep_lines_before {
            Some(n) => n as nat,
            None => 0,
        };
        let rest = max_before(ms.drop_last());
        if k > rest { k } else { rest }
    }
}

/// Largest `keep_lines_after` among the monitors.
pub open spec fn max_after(ms: Seq<MonitorEntry>) -> nat
    decreases ms.len(),
{
    if ms.len() == 0 {
        0
    } else {
        let k: nat = match ms.last().monitor.config.keep_lines_after {
            Some(n) => n as nat,
            None => 0,
        };
        let rest = max_after(ms.drop_last());
        if k > rest { k } else { rest }
    }
}

proof fn lemma_ring_of_index(rings: Seq<RingEntry>, path: Seq<char>, i: int)
    requires
        0 <= i <= rings.len(),
        forall|j: int| 0 <= j < i ==> (#[trigger] rings[j]).path@ != path,
        i < rings.len() ==> rings[i].path@ == path,
    ensures
        ring_of(rings, path) == if i < rings.len() { views(rings[i].lines@) } else { Seq::<LineView>::empty() },
    decreases i,
{
    if i > 0 {
        lemma_ring_of_index(rings.drop_first(), path, i - 1);
    }
}

proof fn lemma_ring_of_update(rings: Seq<RingEntry>, i: int, e: RingEntry, p: Seq<char>)
    requires
        0 <= i < rings.len(),
        e.path@ == rings[i].path@,
        forall|j: int| 0 <= j < i ==> (#[trigger] rings[j]).path@ != rings[i].path@,
    ensures
        ring_of(rings.update(i, e), p) == if p == rings[i].path@ { views(e.lines@) } else { ring_of(rings, p) },
    decreases i,
{
    let u = rings.update(i, e);
    if i > 0 {
        assert(u.drop_first() =~= rings.drop_first().update(i - 1, e));
        lemma_ring_of_update(rings.drop_first(), i - 1, e, p);
    } else {
        assert(u.drop_first() =~= rings.drop_first());
    }
}

proof fn lemma_ring_of_push(rings: Seq<RingEntry>, e: RingEntry, p: Seq<char>)
    requires
        forall|j: int| 0 <= j < rings.len() ==> (#[trigger] rings[j]).path@ != e.path@,
    ensures
        ring_of(rings.push(e), p) == if p == e.path@ { views(e.lines@) } else { ring_of(rings, p) },
    decreases rings.len(),
{
    if rings.len() > 0 {
        assert(rings.push(e).drop_first() =~= rings.drop_first().push(e));
        assert(rings.push(e)[0] == rings[0]);
        assert(rings[0].path@ != e.path@);
        lemma_ring_of_push(rings.drop_first(), e, p);
        if rings[0].path@ == p {
            assert(ring_of(rings.push(e), p) == views(rings[0].lines@));
        } else {
            assert(ring_of(rings.push(e), p) == ring_of(rings.push(e).drop_first(), p));
        }
    } else {
        let one = rings.push(e);
        assert(one.drop_first() =~= Seq::<RingEntry>::empty());
        assert(one[0] == e);
        if e.path@ != p {
            assert(ring_of(one, p) == ring_of(one.drop_first(), p));
            assert(ring_of(Seq::<RingEntry>::empty(), p) == Seq::<LineView>::empty());
        }
    }
}

/// Every ring holds only plain (non-event) lines with valid timestamps.
pub open spec fn rings_plain(rings: Seq<RingEntry>) -> bool {
    forall|k: int, j: int| 0 <= k < rings.len() && 0 <= j < rings[k].lines@.len()
        ==> {
            let l = #[trigger] rings[k].lines@[j];
            !l.is_event_line && valid_time(l.date as int)
        }
}

pub open spec fn lines_plain(lines: Seq<LineView>) -> bool {
    forall|j: int| 0 <= j < lines.len() ==> !(#[trigger] lines[j]).is_event_line && valid_time(lines[j].date)
}

proof fn lemma_ring_of_plain(rings: Seq<RingEntry>, path: Seq<char>)
    requires
        rings_plain(rings),
    ensures
        lines_plain(ring_of(rings, path)),
    decreases rings.len(),
{
    if rings.len() > 0 {
        if rings[0].path@ == path {
            assert forall|j: int| 0 <= j < ring_of(rings, path).len() implies !(#[trigger] ring_of(rings, path)[j]).is_event_line
                && valid_time(ring_of(rings, path)[j].date) by {
                assert(ring_of(rings, path)[j] == rings[0].lines@[j]@);
            }
        } else {
            assert forall|k: int, j: int| 0 <= k < rings.drop_first().len() && 0 <= j < rings.drop_first()[k].lines@.len()
                implies ({
                    let l = #[trigger] rings.drop_first()[k].lines@[j];
                    !l.is_event_line && valid_time(l.date as int)
                }) by {
                assert(rings.drop_first()[k] == rings[k + 1]);
            }
            lemma_ring_of_plain(rings.drop_first(), path);
        }
    }
}

/// Every monitor the file-set names is among `monitors`.
pub open spec fn all_monitors_found(config: FileSetConfig, monitors: Seq<(String, MonitorConfig)>) -> bool {
    forall|j: int| 0 <= j < config.monitor_notifier_sets@.len() ==> monitor_listed(monitors, (#[trigger] config.monitor_notifier_sets@[j]).0@)
}

/// In-memory state of one set of monitored files.
pub struct FileSet {
    config: FileSetConfig,
    /// The monitors of this file-set, with their notifiers.
    monitor_notifier_sets: Vec<MonitorEntry>,
    /// Recent lines of each monitored path.
    line_buffers_before: Vec<RingEntry>,
    /// Most preceding lines any monitor here needs.
    max_lines_before: usize,
    /// Most following lines any monitor here needs.
    max_lines_after: usize,
}

impl FileSet {
    pub closed spec fn monitors(&self) -> Seq<MonitorEntry> {
        self.monitor_notifier_sets@
    }

    pub closed spec fn spec_max_lines_before(&self) -> nat {
        self.max_lines_before as nat
    }

    pub closed spec fn spec_max_lines_after(&self) -> nat {
        self.max_lines_after as nat
    }

    pub closed spec fn spec_config(&self) -> FileSetConfig {
        self.config
    }

    pub fn config(&self) -> (r: &FileSetConfig)
        ensures
            *r == self.spec_config(),
    {
        &self.config
    }

    pub fn monitor_notifier_sets(&self) -> (r: &Vec<MonitorEntry>)
        ensures
            r@ == self.monitors(),
    {
        &self.monitor_notifier_sets
    }

    pub fn max_lines_before(&self) -> (r: usize)
        ensures
            r == self.spec_max_lines_before(),
    {
        self.max_lines_before
    }

    pub fn max_lines_after(&self) -> (r: usize)
        ensures
            r == self.spec_max_lines_after(),
    {
        self.max_lines_after
    }

    pub closed spec fn rings(&self) -> Seq<RingEntry> {
        self.line_buffers_before@
    }

    /// The ring of recent lines kept for `path`.
    pub open spec fn ring(&self, path: Seq<char>) -> Seq<LineView> {
        ring_of(self.rings(), path)
    }

    pub closed spec fn wf(&self) -> bool {
        rings_plain(self.line_buffers_before@)
    }

    pub proof fn lemma_ring_plain(&self, path: Seq<char>)
        requires
            self.wf(),
        ensures
            lines_plain(self.ring(path)),
    {
        lemma_ring_of_plain(self.line_buffers_before@, path);
    }

    /// Build a file-set, taking each monitor it names from `monitors` (the
    /// first with that id), and size the context rings for them.
    /// An unknown monitor is reported with an empty `file_set`: the set's id
    /// is not known here.
    pub fn new_from_config(config: FileSetConfig, monitors: &Vec<(String, MonitorConfig)>) -> (r: Result<FileSet, ConfigError>)
        ensures
            r matches Ok(fs) ==> {
                &&& fs.wf()
                &&& fs.rings().len() == 0
                &&& fs.spec_config() == config
                &&& fs.monitors().len() == config.monitor_notifier_sets@.len()
                &&& forall|j: int| 0 <= j < config.monitor_notifier_sets@.len() ==> {
                    let m = #[trigger] fs.monitors()[j];
                    &&& m.id@ == config.monitor_notifier_sets@[j].0@
                    &&& optional_names(m.notifier_ids) == optional_names(config.monitor_notifier_sets@[j].1)
                    &&& exists|k: int| 0 <= k < monitors@.len() && monitors@[k].0@ == m.id@
                        && m.monitor.config.regex@ == monitors@[k].1.regex@
                        && m.monitor.config.log_recent_events == monitors@[k].1.log_recent_events
                        && m.monitor.config.keep_lines_before == monitors@[k].1.keep_lines_before
                        && m.monitor.config.keep_lines_after == monitors@[k].1.keep_lines_after
                        && m.monitor.config.max_wait_before_notify == monitors@[k].1.max_wait_before_notify
                }
                &&& fs.spec_max_lines_before() == max_before(fs.monitors())
                &&& fs.spec_max_lines_after() == max_after(fs.monitors())
            },
            r is Err <==> exists|j: int| 0 <= j < config.monitor_notifier_sets@.len()
                && forall|k: int| 0 <= k < monitors@.len() ==> monitors@[k].0@ != (#[trigger] config.monitor_notifier_sets@[j]).0@,
            all_monitors_found(config, monitors@) ==> r is Ok,
    {
        let mut entries: Vec<MonitorEntry> = Vec::new();
        let mut max_b: usize = 0;
        let mut max_a: usize = 0;
        let mut j: usize = 0;
        while j < config.monitor_notifier_sets.len()
            invariant
                j <= config.monitor_notifier_sets@.len(),
                entries@.len() == j,
                max_b == max_before(entries@),
                max_a == max_after(entries@),
                forall|jj: int| 0 <= jj < j ==> {
                    let m = #[trigger] entries@[jj];
                    &&& m.id@ == config.monitor_notifier_sets@[jj].0@
                    &&& optional_names(m.notifier_ids) == optional_names(config.monitor_notifier_sets@[jj].1)
                    &&& exists|k: int| 0 <= k < monitors@.len() && monitors@[k].0@ == m.id@
                        && m.monitor.config.regex@ == monitors@[k].1.regex@
                        && m.monitor.config.log_recent_events == monitors@[k].1.log_recent_events
                        && m.monitor.config.keep_lines_before == monitors@[k].1.keep_lines_before
                        && m.monitor.config.keep_lines_after == monitors@[k].1.keep_lines_after
                        && m.monitor.config.max_wait_before_notify == monitors@[k].1.max_wait_before_notify
                },
                forall|jj: int| 0 <= jj < j ==> exists|k: int| 0 <= k < monitors@.len() && monitors@[k].0@ == (#[trigger] config.monitor_notifier_sets@[jj]).0@,
            decreases config.monitor_notifier_sets@.len() - j,
        {
            let id = &config.monitor_notifier_sets[j].0;
            let mut k: usize = 0;
            while k < monitors.len() && !(monitors[k].0 == *id)
                invariant
                    k <= monitors@.len(),
                    forall|kk: int| 0 <= kk < k ==> (#[trigger] monitors@[kk]).0@ != id@,
                decreases monitors@.len() - k,
            {
                k = k + 1;
            }
            if k == monitors.len() {
                assert(!all_monitors_found(config, monitors@)) by {
                    if all_monitors_found(config, monitors@) {
                        let kk = choose|kk: int| 0 <= kk < monitors@.len()
                            && (#[trigger] monitors@[kk]).0@ == (#[trigger] config.monitor_notifier_sets@[j as int]).0@;
                        assert(monitors@[kk].0@ != id@);
                    }
                }
                return Err(ConfigError::UnknownMonitor { file_set: String::new(), monitor: id.clone() });
            }
            let mc = monitors[k].1.duplicate();
            let kb: usize = match mc.keep_lines_before {
                Some(n) => n,
                None => 0,
            };
            let ka: usize = match mc.keep_lines_after {
                Some(n) => n,
                None => 0,
            };
            let entry = MonitorEntry {
                id: id.clone(),
                monitor: Monitor::new_from_config(mc),
                notifier_ids: copy_optional_names(&config.monitor_notifier_sets[j].1),
            };
            let ghost before = entries@;
            entries.push(entry);
            assert(entries@.drop_last() =~= before);
            if kb > max_b {
                max_b = kb;
            }
            if ka > max_a {
                max_a = ka;
            }
            j = j + 1;
        }
        let fs = FileSet {
            config,
            monitor_notifier_sets: entries,
            line_buffers_before: Vec::new(),
            max_lines_before: max_b,
            max_lines_after: max_a,
        };
        Ok(fs)
    }

    fn find_ring(&self, path: &str) -> (r: Option<usize>)
        ensures
            r matches Some(i) ==> i < self.rings().len() && self.rings()[i as int].path@ == path@,
            forall|j: int| 0 <= j < (match r { Some(i) => i as int, None => self.rings().len() as int })
                ==> (#[trigger] self.rings()[j]).path@ != path@,
    {
        let mut i: usize = 0;
        while i < self.line_buffers_before.len()
            invariant
                i <= self.rings().len(),
                forall|j: int| 0 <= j < i ==> (#[trigger] self.rings()[j]).path@ != path@,
            decreases self.rings().len() - i,
        {
            if same_text(&self.line_buffers_before[i].path, path) {
                return Some(i);
            }
            i = i + 1;
        }
        None
    }

    /// Keep a copy of a line from `path` as context for later matches there.
    fn buffer_line(&mut self, path: &str, text: &str, now: i64)
        requires
            old(self).wf(),
            valid_time(now as int),
        ensures
            final(self).wf(),
            final(self).monitors() == old(self).monitors(),
            final(self).spec_config() == old(self).spec_config(),
            final(self).spec_max_lines_before() == old(self).spec_max_lines_before(),
            final(self).spec_max_lines_after() == old(self).spec_max_lines_after(),
            forall|p: Seq<char>| #[trigger] final(self).ring(p) == if p == path@ {
                appended_ring(old(self).ring(p), LineView { date: now as int, line: text@, is_event_line: false }, old(self).spec_max_lines_before())
            } else {
                old(self).ring(p)
            },
    {
        let ghost rings = self.rings();
        let ghost l = LineView { date: now as int, line: text@, is_event_line: false };
        let idx = self.find_ring(path);
        let max = self.max_lines_before;
        let empty: Vec<LogLine> = Vec::new();
        let old_lines: &Vec<LogLine> = match idx {
            Some(i) => &self.line_buffers_before[i].lines,
            None => &empty,
        };
        proof {
            lemma_ring_of_index(rings, path@, match idx { Some(i) => i as int, None => rings.len() as int });
        }
        let ghost ring = views(old_lines@);
        assert(ring == ring_of(rings, path@));
        let mut lines: Vec<LogLine> = Vec::new();
        if max > 0 {
            let keep_old: usize = max - 1;
            let start: usize = if old_lines.len() > keep_old { old_lines.len() - keep_old } else { 0 };
            let mut k: usize = start;
            while k < old_lines.len()
                invariant
                    start <= k <= old_lines@.len(),
                    lines@.len() == k - start,
                    forall|j: int| 0 <= j < k - start ==> (#[trigger] lines@[j])@ == old_lines@[start + j]@,
                decreases old_lines@.len() - k,
            {
                lines.push(old_lines[k].duplicate());
                k = k + 1;
            }
            lines.push(LogLine::new(now, text.to_owned(), false));
            assert(views(lines@) =~= appended_ring(ring, l, max as nat));
        } else {
            assert(views(lines@) =~= appended_ring(ring, l, max as nat));
        }
        let entry = RingEntry { path: path.to_owned(), lines };
        let ghost e = entry;
        match idx {
            Some(i) => {
                self.line_buffers_before.set(i, entry);
                proof {
                    assert(self.rings() == rings.update(i as int, e));
                    assert forall|p: Seq<char>| #[trigger] ring_of(self.rings(), p) == if p == path@ {
                        appended_ring(ring_of(rings, p), l, max as nat)
                    } else {
                        ring_of(rings, p)
                    } by {
                        lemma_ring_of_update(rings, i as int, e, p);
                    }
                }
            },
            None => {
                self.line_buffers_before.push(entry);
                proof {
                    assert(self.rings() == rings.push(e));
                    assert forall|p: Seq<char>| #[trigger] ring_of(self.rings(), p) == if p == path@ {
                        appended_ring(ring_of(rings, p), l, max as nat)
                    } else {
                        ring_of(rings, p)
                    } by {
                        lemma_ring_of_push(rings, e, p);
                    }
                }
            },
        }
        proof {
            let nr = self.rings();
            assert forall|k: int, j: int| 0 <= k < nr.len() && 0 <= j < nr[k].lines@.len()
                implies ({
                    let x = #[trigger] nr[k].lines@[j];
                    !x.is_event_line && valid_time(x.date as int)
                }) by {
                if nr[k] == e {
                    let x = nr[k].lines@[j];
                    assert(x@ == views(e.lines@)[j]);
                    if max > 0 {
                        let keep_old: int = max - 1;
                        let start: int = if ring.len() > keep_old { ring.len() - keep_old } else { 0 };
                        if j < e.lines@.len() - 1 {
                            assert(views(e.lines@)[j] == ring[start + j]);
                            assert(old_lines@[start + j] == rings[idx->0 as int].lines@[start + j]);
                        }
                    }
                } else {
                    assert(exists|kk: int| 0 <= kk < rings.len() && rings[kk] == nr[k]);
                }
            }
        }
    }

    /// The commands one line from `path`, read at `now`, gives rise to: the
    /// path was seen; then for each monitor, feed its waiting events and, on
    /// a match, a new event with the context kept so far. The line then joins
    /// the path's context ring.
    pub fn line_handler(&mut self, fileset_id: &str, path: &str, text: &str, now: i64) -> (r: Vec<DataStoreMessage>)
        requires
            old(self).wf(),
            valid_time(now as int),
        ensures
            final(self).wf(),
            final(self).monitors() == old(self).monitors(),
            final(self).spec_config() == old(self).spec_config(),
            final(self).spec_max_lines_before() == old(self).spec_max_lines_before(),
            final(self).spec_max_lines_after() == old(self).spec_max_lines_after(),
            store_messages(r@) == seq![StoreMessageView::FileSeen { file_set: fileset_id@, path: path@ }]
                + monitor_messages(old(self).monitors(), fileset_id@, old(self).ring(path@), path@, text@, now as int),
            forall|p: Seq<char>| #[trigger] final(self).ring(p) == if p == path@ {
                appended_ring(old(self).ring(p), LineView { date: now as int, line: text@, is_event_line: false }, old(self).spec_max_lines_before())
            } else {
                old(self).ring(p)
            },
    {
        let ghost ms = self.monitors();
        let ghost rings = self.rings();
        let ghost ring = self.ring(path@);
        let mut out: Vec<DataStoreMessage> = Vec::new();
        out.push(DataStoreMessage::FileSeen(fileset_id.to_owned(), path.to_owned()));
        let idx = self.find_ring(path);
        proof {
            lemma_ring_of_index(rings, path@, match idx { Some(i) => i as int, None => rings.len() as int });
        }
        let mut j: usize = 0;
        while j < self.monitor_notifier_sets.len()
            invariant
                ms == self.monitors(),
                rings == self.rings(),
                ring == ring_of(rings, path@),
                valid_time(now as int),
                idx matches Some(i) ==> i < rings.len() && ring == views(rings[i as int].lines@),
                idx is None ==> ring == Seq::<LineView>::empty(),
                j <= ms.len(),
                store_messages(out@) == seq![StoreMessageView::FileSeen { file_set: fileset_id@, path: path@ }]
                    + monitor_messages(ms.subrange(0, j as int), fileset_id@, ring, path@, text@, now as int),
            decreases ms.len() - j,
        {
            let ghost before = store_messages(out@);
            let entry = &self.monitor_notifier_sets[j];
            out.push(DataStoreMessage::ReceiveLine(
                fileset_id.to_owned(),
                entry.id.clone(),
                path.to_owned(),
                text.to_owned(),
                now,
            ));
            let prev: Option<&Vec<LogLine>> = match idx {
                Some(i) => Some(&self.line_buffers_before[i].lines),
                None => None,
            };
            let found = entry.monitor.handle_line(path, text, prev, now);
            match found {
                Some(ev) => {
                    out.push(DataStoreMessage::ReceiveEvent(
                        fileset_id.to_owned(),
                        entry.id.clone(),
                        ev,
                        entry.monitor.config.log_recent_events,
                        copy_optional_names(&entry.notifier_ids),
                    ));
                },
                None => {},
            }
            proof {
                let sub = ms.subrange(0, j + 1);
                assert(sub.drop_last() =~= ms.subrange(0, j as int));
                assert(sub.last() == ms[j as int]);
                assert(store_messages(out@) =~= before + entry_messages(ms[j as int], fileset_id@, ring, path@, text@, now as int));
            }
            j = j + 1;
        }
        assert(ms.subrange(0, ms.len() as int) =~= ms);
        self.buffer_line(path, text, now);
        out
    }
}

#[derive(Debug)]
pub enum StartupError {
    /// A glob of a file-set names no file.
    NoFilesMatched { glob: String },
}

/// The files a glob resolved to, refused when there are none: a glob that
/// matches nothing is almost certainly a misspelt path.
pub fn accept_glob_matches(glob: &str, paths: Vec<String>) -> (r: Result<Vec<String>, StartupError>)
    ensures
        r is Err <==> paths@.len() == 0,
        r matches Ok(v) ==> v == paths,
        r matches Err(StartupError::NoFilesMatched { glob: g }) ==> g@ == glob@,
{
    if paths.len() == 0 {
        Err(StartupError::NoFilesMatched { glob: glob.to_owned() })
    } else {
        Ok(paths)
    }
}

/// An event the pipeline creates holds exactly one event line, the last:
/// the context rings hold only plain lines.
pub proof fn lemma_pipeline_event_line(fs: &FileSet, m: MonitorEntry, path: Seq<char>, text: Seq<char>, now: int)
    requires
        fs.wf(),
    ensures
        sole_event_line(
            created(m.monitor.config, fs.ring(path), path, text, now).lines,
            created(m.monitor.config, fs.ring(path), path, text, now).lines.len() - 1,
        ),
{
    fs.lemma_ring_plain(path);
    lemma_created_sole_event_line(m.monitor.config, fs.ring(path), path, text, now);
}

} // verus!
