//! A monitor tests lines against its regex and builds match events.
use vstd::prelude::*;
use crate::config::MonitorConfig;
use crate::event::{LogLine, LineView, EventView, MonitorEvent, views, sole_event_line};
use crate::pattern::regex_matches;
use crate::time::valid_time;

verus! {

/// The last `keep` lines of the ring, or all of it when it is shorter.
pub open spec fn context(ring: Seq<LineView>, keep: nat) -> Seq<LineView> {
    if keep >= ring.len() {
        ring
    } else {
        ring.subrange(ring.len() - keep, ring.len() as int)
    }
}

/// `now + wait`, held at the largest timestamp.
pub open spec fn deadline(now: int, wait: int) -> int {
    if now + wait > i64::MAX { i64::MAX as int } else { now + wait }
}

pub open spec fn option_or_zero(v: Option<usize>) -> nat {
    match v {
        Some(n) => n as nat,
        None => 0,
    }
}

/// The event created when `text` from `path` matches at `now`, with `ring`
/// the lines seen before it from the same path.
pub open spec fn created(c: MonitorConfig, ring: Seq<LineView>, path: Seq<char>, text: Seq<char>, now: int) -> EventView {
    EventView {
        lines: context(ring, option_or_zero(c.keep_lines_before)).push(
            LineView { date: now, line: text, is_event_line: true },
        ),
        awaiting_lines: option_or_zero(c.keep_lines_after),
        awaiting_lines_from: path,
        notify_by: deadline(now, c.max_wait_before_notify as int),
    }
}

pub open spec fn ring_view(previous: Option<&Vec<LogLine>>) -> Seq<LineView> {
    match previous {
        Some(v) => views(v@),
        None => Seq::empty(),
    }
}

pub struct Monitor {
    pub config: MonitorConfig,
}

impl Monitor {
    pub fn new_from_config(config: MonitorConfig) -> (r: Monitor)
        ensures
            r.config == config,
    {
        Monitor { config }
    }

    /// Build the event for a matching line from `path`, seen at `now`: the
    /// configured number of `previous` lines, then the line itself.
    pub fn create_event(&self, path: &str, text: &str, previous: Option<&Vec<LogLine>>, now: i64) -> (r: MonitorEvent)
        requires
            valid_time(now as int),
        ensures
            r@ == created(self.config, ring_view(previous), path@, text@, now as int),
    {
        let ghost ring = ring_view(previous);
        let keep: usize = match self.config.keep_lines_before {
            Some(k) => k,
            None => 0,
        };
        let mut lines: Vec<LogLine> = Vec::new();
        match previous {
            Some(prev) => {
                let start: usize = if keep >= prev.len() { 0 } else { prev.len() - keep };
                let mut i: usize = start;
                while i < prev.len()
                    invariant
                        start <= i <= prev@.len(),
                        lines@.len() == i - start,
                        forall|j: int| 0 <= j < i - start ==> (#[trigger] lines@[j])@ == prev@[start + j]@,
                    decreases prev@.len() - i,
                {
                    lines.push(prev[i].duplicate());
                    i = i + 1;
                }
                assert(views(lines@) =~= context(ring, keep as nat));
            },
            None => {
                assert(views(lines@) =~= context(ring, keep as nat));
            },
        }
        let ghost before = views(lines@);
        lines.push(LogLine::new(now, text.to_owned(), true));
        assert(views(lines@) =~= before.push(LineView { date: now as int, line: text@, is_event_line: true }));
        let wait = self.config.max_wait_before_notify;
        let sum: i128 = now as i128 + wait as i128;
        let notify_by: i64 = if sum > i64::MAX as i128 { i64::MAX } else { sum as i64 };
        let after: usize = match self.config.keep_lines_after {
            Some(k) => k,
            None => 0,
        };
        MonitorEvent { lines, awaiting_lines: after, awaiting_lines_from: path.to_owned(), notify_by }
    }

    /// Test one line from `path`, seen at `now`, against the regex; on a
    /// match, the event it creates.
    pub fn handle_line(&self, path: &str, text: &str, previous: Option<&Vec<LogLine>>, now: i64) -> (r: Option<MonitorEvent>)
        requires
            valid_time(now as int),
        ensures
            r is Some <==> regex_matches(self.config.regex@, text@),
            r matches Some(e) ==> e@ == created(self.config, ring_view(previous), path@, text@, now as int),
    {
        if self.config.regex.is_match(text) {
            Some(self.create_event(path, text, previous, now))
        } else {
            None
        }
    }
}

/// A created event holds exactly one event line, its last, whenever the ring
/// holds none.
pub proof fn lemma_created_sole_event_line(c: MonitorConfig, ring: Seq<LineView>, path: Seq<char>, text: Seq<char>, now: int)
    requires
        forall|i: int| 0 <= i < ring.len() ==> !(#[trigger] ring[i]).is_event_line,
    ensures
        sole_event_line(created(c, ring, path, text, now).lines, created(c, ring, path, text, now).lines.len() - 1),
{
    let ctx = context(ring, option_or_zero(c.keep_lines_before));
    assert forall|j: int| 0 <= j < ctx.len() implies !(#[trigger] ctx[j]).is_event_line by {
        if option_or_zero(c.keep_lines_before) < ring.len() {
            assert(ctx[j] == ring[ring.len() - option_or_zero(c.keep_lines_before) + j]);
        }
    }
}

/// A new event awaits exactly the configured number of following lines.
pub proof fn lemma_created_awaiting(c: MonitorConfig, ring: Seq<LineView>, path: Seq<char>, text: Seq<char>, now: int)
    ensures
        created(c, ring, path, text, now).awaiting_lines == option_or_zero(c.keep_lines_after),
{
}

/// Asking for more preceding lines than the ring holds yields the whole
/// ring and the matching line.
pub proof fn lemma_short_ring(c: MonitorConfig, ring: Seq<LineView>, path: Seq<char>, text: Seq<char>, now: int)
    requires
        option_or_zero(c.keep_lines_before) > ring.len(),
    ensures
        created(c, ring, path, text, now).lines.len() == ring.len() + 1,
        created(c, ring, path, text, now).lines.subrange(0, ring.len() as int) == ring,
{
    assert(created(c, ring, path, text, now).lines.subrange(0, ring.len() as int) =~= ring);
}

} // verus!
