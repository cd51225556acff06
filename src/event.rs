//! Log lines and the match events built from them.
use vstd::prelude::*;
use crate::time::{valid_time, utc_text, format_utc};
use crate::text::{repeated, append_repeated};

verus! {

/// A line as the specifications see it.
pub struct LineView {
    pub date: int,
    pub line: Seq<char>,
    pub is_event_line: bool,
}

/// A single line from a log file.
pub struct LogLine {
    pub date: i64,
    pub line: String,
    pub is_event_line: bool,
}

impl View for LogLine {
    type V = LineView;

    open spec fn view(&self) -> LineView {
        LineView { date: self.date as int, line: self.line@, is_event_line: self.is_event_line }
    }
}

/// "<timestamp> <text>".
pub open spec fn line_text(l: LineView) -> Seq<char> {
    utc_text(l.date) + seq![' '] + l.line
}

pub open spec fn views(lines: Seq<LogLine>) -> Seq<LineView> {
    lines.map_values(|l: LogLine| l@)
}

pub open spec fn dates_valid(lines: Seq<LineView>) -> bool {
    forall|i: int| 0 <= i < lines.len() ==> valid_time(#[trigger] lines[i].date)
}

/// Exactly one line, the one at `k`, is an event line.
pub open spec fn sole_event_line(lines: Seq<LineView>, k: int) -> bool {
    &&& 0 <= k < lines.len()
    &&& lines[k].is_event_line
    &&& forall|j: int| 0 <= j < lines.len() && j != k ==> !(#[trigger] lines[j]).is_event_line
}

impl LogLine {
    pub fn new(date: i64, line: String, is_event_line: bool) -> (r: LogLine)
        ensures
            r@ == (LineView { date: date as int, line: line@, is_event_line }),
    {
        LogLine { date, line, is_event_line }
    }

    pub fn duplicate(&self) -> (r: LogLine)
        ensures
            r@ == self@,
    {
        LogLine { date: self.date, line: self.line.clone(), is_event_line: self.is_event_line }
    }

    /// The line as "<timestamp> <text>".
    pub fn to_string(&self) -> (r: String)
        requires
            valid_time(self.date as int),
        ensures
            r@ == line_text(self@),
    {
        let mut r = format_utc(self.date);
        proof {
            reveal_strlit(" ");
        }
        r.append(" ");
        r.append(self.line.as_str());
        r
    }
}

pub fn copy_lines(lines: &Vec<LogLine>) -> (r: Vec<LogLine>)
    ensures
        views(r@) == views(lines@),
{
    let mut r: Vec<LogLine> = Vec::new();
    let mut i: usize = 0;
    while i < lines.len()
        invariant
            i <= lines@.len(),
            r@.len() == i,
            forall|j: int| 0 <= j < i ==> (#[trigger] r@[j])@ == lines@[j]@,
        decreases lines@.len() - i,
    {
        r.push(lines[i].duplicate());
        i = i + 1;
    }
    assert(views(r@) =~= views(lines@));
    r
}

/// A match event as the specifications see it.
pub struct EventView {
    pub lines: Seq<LineView>,
    pub awaiting_lines: nat,
    pub awaiting_lines_from: Seq<char>,
    pub notify_by: int,
}

/// A particular monitor match event.
pub struct MonitorEvent {
    /// The context lines and the matching line.
    pub lines: Vec<LogLine>,
    /// How many more lines to collect.
    pub awaiting_lines: usize,
    /// The file those lines must come from.
    pub awaiting_lines_from: String,
    /// Notify at this instant even if lines are still awaited.
    pub notify_by: i64,
}

impl View for MonitorEvent {
    type V = EventView;

    open spec fn view(&self) -> EventView {
        EventView {
            lines: views(self.lines@),
            awaiting_lines: self.awaiting_lines as nat,
            awaiting_lines_from: self.awaiting_lines_from@,
            notify_by: self.notify_by as int,
        }
    }
}

/// The event after a line `text` from `path` arrived at `now`: it is
/// appended when the event still awaits lines from that path.
pub open spec fn received(e: EventView, path: Seq<char>, text: Seq<char>, now: int) -> EventView {
    if e.awaiting_lines > 0 && e.awaiting_lines_from == path {
        EventView {
            lines: e.lines.push(LineView { date: now, line: text, is_event_line: false }),
            awaiting_lines: (e.awaiting_lines - 1) as nat,
            ..e
        }
    } else {
        e
    }
}

/// Ready to notify: nothing more awaited, or the deadline has come.
pub open spec fn ready(e: EventView, now: int) -> bool {
    e.awaiting_lines == 0 || now >= e.notify_by
}

/// Length of the dash rule around an event line rendered as `text`.
pub open spec fn rule_len(text: Seq<char>) -> nat {
    if text.len() < 100 { text.len() } else { 100 }
}

/// A rendered line as it stands in the markdown: an event line between
/// blank-line-separated dash rules, any other line as is.
pub open spec fn block_of(text: Seq<char>, is_event_line: bool) -> Seq<char> {
    if is_event_line {
        seq!['\n'] + repeated('-', rule_len(text)) + seq!['\n'] + text + seq!['\n']
            + repeated('-', rule_len(text)) + seq!['\n']
    } else {
        text
    }
}

pub open spec fn line_block(l: LineView) -> Seq<char> {
    block_of(line_text(l), l.is_event_line)
}

/// The blocks of all lines joined by newlines.
pub open spec fn joined_blocks(lines: Seq<LineView>) -> Seq<char>
    decreases lines.len(),
{
    if lines.len() == 0 {
        Seq::empty()
    } else if lines.len() == 1 {
        line_block(lines[0])
    } else {
        joined_blocks(lines.drop_last()) + seq!['\n'] + line_block(lines.last())
    }
}

/// A fenced code block holding every line on its own line, event lines
/// between dash rules.
pub open spec fn markdown(lines: Seq<LineView>) -> Seq<char> {
    seq!['\n', '`', '`', '`', '\n'] + joined_blocks(lines) + seq!['\n', '`', '`', '`', '\n']
}

/// Append the block of a line already rendered as `text`.
pub fn append_block_text(s: &mut String, text: &str, is_event_line: bool)
    ensures
        final(s)@ == old(s)@ + block_of(text@, is_event_line),
{
    if is_event_line {
        let n = text.unicode_len();
        let width: usize = if n < 100 { n } else { 100 };
        proof {
            reveal_strlit("\n");
            reveal_strlit("-");
        }
        s.append("\n");
        append_repeated(s, "-", width);
        s.append("\n");
        s.append(text);
        s.append("\n");
        append_repeated(s, "-", width);
        s.append("\n");
        assert(final(s)@ =~= old(s)@ + block_of(text@, is_event_line));
    } else {
        s.append(text);
    }
}

fn append_block(s: &mut String, l: &LogLine)
    requires
        valid_time(l.date as int),
    ensures
        final(s)@ == old(s)@ + line_block(l@),
{
    let text = l.to_string();
    append_block_text(s, text.as_str(), l.is_event_line);
}

impl MonitorEvent {
    pub fn duplicate(&self) -> (r: MonitorEvent)
        ensures
            r@ == self@,
    {
        MonitorEvent {
            lines: copy_lines(&self.lines),
            awaiting_lines: self.awaiting_lines,
            awaiting_lines_from: self.awaiting_lines_from.clone(),
            notify_by: self.notify_by,
        }
    }

    /// Take a line from `path`, seen at `now`, if this event still awaits one
    /// from there.
    pub fn receive_line(&mut self, path: &str, text: &str, now: i64)
        ensures
            final(self)@ == received(old(self)@, path@, text@, now as int),
    {
        if self.awaiting_lines > 0 && self.awaiting_lines_from == path.to_owned() {
            self.lines.push(LogLine::new(now, text.to_owned(), false));
            self.awaiting_lines = self.awaiting_lines - 1;
            assert(views(self.lines@) =~= views(old(self).lines@).push(
                LineView { date: now as int, line: text@, is_event_line: false }));
        }
    }

    pub fn is_ready(&self, now: i64) -> (r: bool)
        ensures
            r == ready(self@, now as int),
    {
        self.awaiting_lines == 0 || now >= self.notify_by
    }

    /// All stored lines as markdown, the event line set off by dash rules.
    pub fn get_lines_as_markdown(&self) -> (r: String)
        requires
            dates_valid(self@.lines),
        ensures
            r@ == markdown(self@.lines),
    {
        let ghost ls = self@.lines;
        let mut s = String::new();
        proof {
            reveal_strlit("\n");
            reveal_strlit("\n```\n");
        }
        s.append("\n```\n");
        let ghost head = s@;
        let mut i: usize = 0;
        while i < self.lines.len()
            invariant
                ls == views(self.lines@),
                dates_valid(ls),
                i <= ls.len(),
                s@ == head + joined_blocks(ls.subrange(0, i as int)),
            decreases ls.len() - i,
        {
            let ghost before = s@;
            assert(valid_time(ls[i as int].date));
            assert(ls[i as int] == self.lines@[i as int]@);
            if i > 0 {
                proof {
                    reveal_strlit("\n");
                }
                s.append("\n");
                assert(s@ =~= before + seq!['\n']);
            }
            append_block(&mut s, &self.lines[i]);
            proof {
                let p = ls.subrange(0, i + 1);
                assert(p.drop_last() =~= ls.subrange(0, i as int));
                assert(p.last() == ls[i as int]);
                if i == 0 {
                    assert(joined_blocks(ls.subrange(0, 0)) =~= Seq::<char>::empty());
                    assert(joined_blocks(p) == line_block(ls[0]));
                    assert(s@ =~= head + joined_blocks(p));
                } else {
                    assert(joined_blocks(p) == joined_blocks(ls.subrange(0, i as int)) + seq!['\n'] + line_block(ls[i as int]));
                    assert(s@ =~= head + joined_blocks(p));
                }
            }
            i = i + 1;
        }
        assert(ls.subrange(0, ls.len() as int) =~= ls);
        s.append("\n```\n");
        s
    }
}

/// Taking a later line keeps the event's single event line where it was.
pub proof fn lemma_received_keeps_event_line(e: EventView, k: int, path: Seq<char>, text: Seq<char>, now: int)
    requires
        sole_event_line(e.lines, k),
    ensures
        sole_event_line(received(e, path, text, now).lines, k),
{
}

/// The number of awaited lines never grows, and drops by one per line taken.
pub proof fn lemma_awaiting_non_increasing(e: EventView, path: Seq<char>, text: Seq<char>, now: int)
    ensures
        received(e, path, text, now).awaiting_lines <= e.awaiting_lines,
        received(e, path, text, now).lines.len() + received(e, path, text, now).awaiting_lines
            == e.lines.len() + e.awaiting_lines,
{
}

} // verus!
