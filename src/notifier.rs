//! Notifiers: minimum-interval coalescing, skip counts, and webhook payloads.
use vstd::prelude::*;
use crate::config::{NotifierConfig, WebhookNotifierConfig, names, same_text};
use crate::event::{MonitorEvent, LineView, markdown, dates_valid};
use crate::keys::{first_index, lemma_first_index};
use crate::messages::{NotifierMessage, NotifierMessageView};
use crate::text::{decimal, append_decimal, digit_char};
use crate::time::valid_time;

verus! {

/// A lower-case hexadecimal digit.
pub open spec fn hex_digit(d: int) -> char {
    if d < 10 {
        digit_char(d)
    } else if d == 10 { 'a' }
    else if d == 11 { 'b' }
    else if d == 12 { 'c' }
    else if d == 13 { 'd' }
    else if d == 14 { 'e' }
    else { 'f' }
}

/// One character inside a JSON string: the quote, the backslash and the
/// control characters are escaped, everything else stands as is.
pub open spec fn json_escaped_char(c: char) -> Seq<char> {
    if c == '"' {
        seq!['\\', '"']
    } else if c == '\\' {
        seq!['\\', '\\']
    } else if c == '\u{8}' {
        seq!['\\', 'b']
    } else if c == '\t' {
        seq!['\\', 't']
    } else if c == '\n' {
        seq!['\\', 'n']
    } else if c == '\u{c}' {
        seq!['\\', 'f']
    } else if c == '\r' {
        seq!['\\', 'r']
    } else if (c as u32) < 32 {
        seq!['\\', 'u', '0', '0', hex_digit((c as u32) as int / 16), hex_digit((c as u32) as int % 16)]
    } else {
        seq![c]
    }
}

pub open spec fn json_escaped(s: Seq<char>) -> Seq<char>
    decreases s.len(),
{
    if s.len() == 0 {
        Seq::empty()
    } else {
        json_escaped(s.drop_last()) + json_escaped_char(s.last())
    }
}

/// The JSON text of a string value: quoted, its characters escaped.
pub open spec fn json_string(s: Seq<char>) -> Seq<char> {
    seq!['"'] + json_escaped(s) + seq!['"']
}

/// Relies on serde_json::to_string on a `str`: it writes the quoted, escaped
/// string into a `Vec` and does not fail.
#[verifier::external_body]
fn json_encode(s: &str) -> (r: Option<String>)
    ensures
        r is Some,
        r matches Some(t) ==> t@ == json_string(s@),
{
    match serde_json::to_string(s) {
        Ok(t) => Some(t),
        Err(_) => None,
    }
}

/// `{"text":<text as JSON>}`.
pub open spec fn webhook_body(text: Seq<char>) -> Seq<char> {
    seq!['{', '"', 't', 'e', 'x', 't', '"', ':'] + json_string(text) + seq!['}']
}

/// "\n\n(N notifications skipped due to high frequency)", or nothing when N is 0.
pub open spec fn skip_note(n: nat) -> Seq<char> {
    if n == 0 {
        Seq::empty()
    } else {
        seq!['\n', '\n', '('] + decimal(n) + " notifications skipped due to high frequency)"@
    }
}

/// The text posted for an event.
pub open spec fn event_text(template: Seq<char>, lines: Seq<LineView>, skipped: nat) -> Seq<char> {
    template + markdown(lines) + skip_note(skipped)
}

/// A POST to make: its target and the text of its `{"text": ...}` body.
pub struct WebhookRequest {
    pub url: String,
    pub text: String,
}

/// The body `{"text":<encoded>}` around an already encoded JSON string.
pub fn frame_body(encoded: &str) -> (r: String)
    ensures
        r@ == seq!['{', '"', 't', 'e', 'x', 't', '"', ':'] + encoded@ + seq!['}'],
{
    let mut b = String::new();
    proof {
        reveal_strlit("{\"text\":");
        reveal_strlit("}");
    }
    b.append("{\"text\":");
    b.append(encoded);
    b.append("}");
    b
}

impl WebhookRequest {
    /// The JSON body, `{"text":...}`.
    pub fn body(&self) -> (r: String)
        ensures
            r@ == webhook_body(self.text@),
    {
        match json_encode(self.text.as_str()) {
            Some(encoded) => frame_body(encoded.as_str()),
            None => {
                assert(false);
                String::new()
            },
        }
    }
}

/// Slack/Mattermost webhook.
pub struct WebhookBackEnd {
    pub config: WebhookNotifierConfig,
}

impl WebhookBackEnd {
    /// The request announcing `ev`, with the count of notifications skipped
    /// before it.
    pub fn notify_event(&self, ev: &MonitorEvent, skipped_notifications: u64) -> (r: WebhookRequest)
        requires
            dates_valid(ev@.lines),
        ensures
            r.url@ == self.config.url@,
            r.text@ == event_text(self.config.template@, ev@.lines, skipped_notifications as nat),
    {
        let mut text = self.config.template.clone();
        let md = ev.get_lines_as_markdown();
        text.append(md.as_str());
        if skipped_notifications > 0 {
            proof {
                reveal_strlit("\n\n(");
                reveal_strlit(" notifications skipped due to high frequency)");
            }
            text.append("\n\n(");
            append_decimal(&mut text, skipped_notifications);
            text.append(" notifications skipped due to high frequency)");
        }
        assert(text@ =~= event_text(self.config.template@, ev@.lines, skipped_notifications as nat));
        WebhookRequest { url: self.config.url.clone(), text }
    }

    /// The request carrying `message` as is.
    pub fn notify_message(&self, message: &str) -> (r: WebhookRequest)
        ensures
            r.url@ == self.config.url@,
            r.text@ == message@,
    {
        WebhookRequest { url: self.config.url.clone(), text: message.to_owned() }
    }
}

/// Throttling state of one notifier, as the specifications see it.
pub struct NotifierView {
    pub url: Seq<char>,
    pub template: Seq<char>,
    pub minimum_interval: Option<u64>,
    pub last_notify: int,
    pub skipped_notifications: nat,
}

/// Inside the minimum interval: the last send was at most
/// `minimum_interval` seconds before `now`.
pub open spec fn inside_interval(n: NotifierView, now: int) -> bool {
    n.minimum_interval matches Some(m) && now - m <= n.last_notify
}

/// The notifier after an event at `now`: a skip is counted, or a send
/// resets the count and the last send time.
pub open spec fn after_event(n: NotifierView, now: int) -> NotifierView {
    if inside_interval(n, now) {
        NotifierView {
            skipped_notifications: if n.skipped_notifications == u64::MAX { n.skipped_notifications } else { n.skipped_notifications + 1 },
            ..n
        }
    } else {
        NotifierView { skipped_notifications: 0, last_notify: now, ..n }
    }
}

/// Runtime state of one notifier.
pub struct Notifier {
    pub config: NotifierConfig,
    pub back_end: WebhookBackEnd,
    pub last_notify: i64,
    pub skipped_notifications: u64,
}

impl View for Notifier {
    type V = NotifierView;

    open spec fn view(&self) -> NotifierView {
        NotifierView {
            url: self.back_end.config.url@,
            template: self.back_end.config.template@,
            minimum_interval: self.back_end.config.minimum_interval,
            last_notify: self.last_notify as int,
            skipped_notifications: self.skipped_notifications as nat,
        }
    }
}

impl Notifier {
    /// A notifier whose last send lies far in the past (`last_notify`).
    pub fn new_from_config(config: &NotifierConfig, last_notify: i64) -> (r: Notifier)
        ensures
            r@ == (match config {
                NotifierConfig::Webhook(w) => NotifierView {
                    url: w.url@,
                    template: w.template@,
                    minimum_interval: w.minimum_interval,
                    last_notify: last_notify as int,
                    skipped_notifications: 0,
                },
            }),
    {
        match config {
            NotifierConfig::Webhook(w) => {
                let copy = WebhookNotifierConfig { url: w.url.clone(), template: w.template.clone(), minimum_interval: w.minimum_interval };
                let copy2 = WebhookNotifierConfig { url: w.url.clone(), template: w.template.clone(), minimum_interval: w.minimum_interval };
                Notifier {
                    config: NotifierConfig::Webhook(copy),
                    back_end: WebhookBackEnd { config: copy2 },
                    last_notify,
                    skipped_notifications: 0,
                }
            },
        }
    }

    /// Count a skip when inside the minimum interval.
    pub fn skip_if_inside_minimum_interval(&mut self, now: i64) -> (r: bool)
        ensures
            r == inside_interval(old(self)@, now as int),
            r ==> final(self)@ == after_event(old(self)@, now as int),
            !r ==> final(self)@ == old(self)@,
            final(self).config == old(self).config,
    {
        match self.back_end.config.minimum_interval {
            Some(m) => {
                if (now as i128) - (m as i128) <= self.last_notify as i128 {
                    self.skipped_notifications = self.skipped_notifications.saturating_add(1);
                    return true;
                }
                false
            },
            None => false,
        }
    }
}

/// An event reached this notifier at `now`: the request to send, unless it
/// falls inside the minimum interval and only counts as skipped.
pub fn notify_event(notifier: &mut Notifier, ev: &MonitorEvent, now: i64) -> (r: Option<WebhookRequest>)
    requires
        dates_valid(ev@.lines),
    ensures
        final(notifier)@ == after_event(old(notifier)@, now as int),
        r is None <==> inside_interval(old(notifier)@, now as int),
        r matches Some(req) ==> req.url@ == old(notifier)@.url
            && req.text@ == event_text(old(notifier)@.template, ev@.lines, old(notifier)@.skipped_notifications),
{
    if notifier.skip_if_inside_minimum_interval(now) {
        return None;
    }
    let num_skipped = notifier.skipped_notifications;
    notifier.skipped_notifications = 0;
    notifier.last_notify = now;
    Some(notifier.back_end.notify_event(ev, num_skipped))
}

pub type TableView = Seq<(Seq<char>, NotifierView)>;

pub open spec fn table_keys(t: TableView) -> Seq<Seq<char>> {
    t.map_values(|e: (Seq<char>, NotifierView)| e.0)
}

pub open spec fn all_known(t: TableView, ids: Seq<Seq<char>>) -> bool {
    forall|k: int| 0 <= k < ids.len() ==> first_index(table_keys(t), #[trigger] ids[k]) >= 0
}

pub open spec fn requests_view(v: Seq<WebhookRequest>) -> Seq<(Seq<char>, Seq<char>)> {
    v.map_values(|r: WebhookRequest| (r.url@, r.text@))
}

/// The table and the requests after an event goes to each of `ids` in turn.
pub open spec fn event_round(t: TableView, ids: Seq<Seq<char>>, lines: Seq<LineView>, now: int) -> (TableView, Seq<(Seq<char>, Seq<char>)>)
    decreases ids.len(),
{
    if ids.len() == 0 {
        (t, Seq::empty())
    } else {
        let (t1, reqs) = event_round(t, ids.drop_last(), lines, now);
        let i = first_index(table_keys(t1), ids.last());
        let n = t1[i].1;
        let t2 = t1.update(i, (t1[i].0, after_event(n, now)));
        if inside_interval(n, now) {
            (t2, reqs)
        } else {
            (t2, reqs.push((n.url, event_text(n.template, lines, n.skipped_notifications))))
        }
    }
}

/// A message goes to each of `ids`, unthrottled.
pub open spec fn message_round(t: TableView, ids: Seq<Seq<char>>, text: Seq<char>) -> Seq<(Seq<char>, Seq<char>)> {
    ids.map_values(|id: Seq<char>| (t[first_index(table_keys(t), id)].1.url, text))
}

pub enum NotifierAction {
    /// Make these requests.
    Send(Vec<WebhookRequest>),
    /// The notifier is done.
    Stop,
}

#[derive(Debug)]
pub enum NotifierError {
    /// A command named a notifier that is not configured.
    UnknownNotifier(String),
    /// An event line carries a timestamp outside the supported range.
    InvalidEventTime,
}

/// Every line's timestamp is in range.
pub fn lines_dates_valid(ev: &MonitorEvent) -> (r: bool)
    ensures
        r == dates_valid(ev@.lines),
{
    let mut i: usize = 0;
    while i < ev.lines.len()
        invariant
            i <= ev.lines@.len(),
            forall|j: int| 0 <= j < i ==> valid_time(#[trigger] ev@.lines[j].date),
        decreases ev.lines@.len() - i,
    {
        if ev.lines[i].date < crate::time::MIN_TIME || ev.lines[i].date > crate::time::MAX_TIME {
            assert(!valid_time(ev@.lines[i as int].date));
            return false;
        }
        i = i + 1;
    }
    true
}

/// All notifiers, by id.
pub struct Notifiers {
    entries: Vec<(String, Notifier)>,
}

impl View for Notifiers {
    type V = TableView;

    closed spec fn view(&self) -> TableView {
        self.entries@.map_values(|e: (String, Notifier)| (e.0@, e.1@))
    }
}

impl Notifiers {
    pub fn new() -> (r: Notifiers)
        ensures
            r@.len() == 0,
    {
        Notifiers { entries: Vec::new() }
    }

    pub fn add(&mut self, id: String, notifier: Notifier)
        ensures
            final(self)@ == old(self)@.push((id@, notifier@)),
    {
        let ghost id_v = id@;
        self.entries.push((id, notifier));
        assert(self@ =~= old(self)@.push((id_v, notifier@)));
    }

    fn find(&self, id: &String) -> (r: Option<usize>)
        ensures
            r matches Some(i) ==> first_index(table_keys(self@), id@) == i && i < self@.len(),
            r is None ==> first_index(table_keys(self@), id@) < 0,
    {
        let mut i: usize = 0;
        while i < self.entries.len() && !(self.entries[i].0 == *id)
            invariant
                i <= self@.len(),
                forall|j: int| 0 <= j < i ==> (#[trigger] table_keys(self@)[j]) != id@,
            decreases self@.len() - i,
        {
            i = i + 1;
        }
        proof {
            lemma_first_index(table_keys(self@), id@, i as int);
        }
        if i == self.entries.len() { None } else { Some(i) }
    }

    /// The first id of `ids` that names no notifier.
    fn first_unknown(&self, ids: &Vec<String>) -> (r: Option<usize>)
        ensures
            r is None <==> all_known(self@, names(ids@)),
            r matches Some(k) ==> k < ids@.len(),
    {
        let mut k: usize = 0;
        while k < ids.len()
            invariant
                k <= ids@.len(),
                forall|m: int| 0 <= m < k ==> first_index(table_keys(self@), #[trigger] names(ids@)[m]) >= 0,
            decreases ids@.len() - k,
        {
            if self.find(&ids[k]).is_none() {
                assert(first_index(table_keys(self@), names(ids@)[k as int]) < 0);
                return Some(k);
            }
            k = k + 1;
        }
        None
    }

    /// Act on one command at `now`: an event goes through each notifier's
    /// throttle, a message goes out as is.
    pub fn handle(&mut self, msg: NotifierMessage, now: i64) -> (r: Result<NotifierAction, NotifierError>)
        ensures
            match msg@ {
                NotifierMessageView::NotifyEvent { notifier_ids, event } =>
                    if !all_known(old(self)@, notifier_ids) {
                        r matches Err(NotifierError::UnknownNotifier(_)) && final(self)@ == old(self)@
                    } else if !dates_valid(event.lines) {
                        r matches Err(NotifierError::InvalidEventTime) && final(self)@ == old(self)@
                    } else {
                        r matches Ok(NotifierAction::Send(reqs))
                            && (final(self)@, requests_view(reqs@)) == event_round(old(self)@, notifier_ids, event.lines, now as int)
                    },
                NotifierMessageView::NotifyMessage { notifier_ids, text } =>
                    if !all_known(old(self)@, notifier_ids) {
                        r matches Err(NotifierError::UnknownNotifier(_)) && final(self)@ == old(self)@
                    } else {
                        r matches Ok(NotifierAction::Send(reqs))
                            && requests_view(reqs@) == message_round(old(self)@, notifier_ids, text)
                            && final(self)@ == old(self)@
                    },
                NotifierMessageView::Shutdown => r matches Ok(NotifierAction::Stop) && final(self)@ == old(self)@,
            },
    {
        match msg {
            NotifierMessage::NotifyEvent(ids, ev) => {
                match self.first_unknown(&ids) {
                    Some(k) => return Err(NotifierError::UnknownNotifier(ids[k].clone())),
                    None => {},
                }
                if !lines_dates_valid(&ev) {
                    return Err(NotifierError::InvalidEventTime);
                }
                let ghost nv = names(ids@);
                let ghost start = self@;
                let mut reqs: Vec<WebhookRequest> = Vec::new();
                let mut k: usize = 0;
                while k < ids.len()
                    invariant
                        nv == names(ids@),
                        k <= ids@.len(),
                        dates_valid(ev@.lines),
                        table_keys(self@) == table_keys(start),
                        all_known(start, nv),
                        (self@, requests_view(reqs@)) == event_round(start, nv.subrange(0, k as int), ev@.lines, now as int),
                    decreases ids@.len() - k,
                {
                    proof {
                        let p = nv.subrange(0, k + 1);
                        assert(p.drop_last() =~= nv.subrange(0, k as int));
                        assert(p.last() == nv[k as int]);
                        assert(first_index(table_keys(start), nv[k as int]) >= 0);
                    }
                    let i = match self.find(&ids[k]) {
                        Some(i) => i,
                        None => {
                            assert(false);
                            0
                        },
                    };
                    let ghost t1 = self@;
                    let ghost before = requests_view(reqs@);
                    let (name, mut n) = self.entries.remove(i);
                    let sent = notify_event(&mut n, &ev, now);
                    self.entries.insert(i, (name, n));
                    proof {
                        assert(self@ =~= t1.update(i as int, (t1[i as int].0, after_event(t1[i as int].1, now as int))));
                        assert(table_keys(self@) =~= table_keys(t1));
                    }
                    match sent {
                        Some(req) => {
                            reqs.push(req);
                            assert(requests_view(reqs@) =~= before.push((t1[i as int].1.url, event_text(t1[i as int].1.template, ev@.lines, t1[i as int].1.skipped_notifications))));
                        },
                        None => {},
                    }
                    k = k + 1;
                }
                assert(nv.subrange(0, nv.len() as int) =~= nv);
                Ok(NotifierAction::Send(reqs))
            },
            NotifierMessage::NotifyMessage(ids, text) => {
                match self.first_unknown(&ids) {
                    Some(k) => return Err(NotifierError::UnknownNotifier(ids[k].clone())),
                    None => {},
                }
                let ghost nv = names(ids@);
                let mut reqs: Vec<WebhookRequest> = Vec::new();
                let mut k: usize = 0;
                while k < ids.len()
                    invariant
                        nv == names(ids@),
                        k <= ids@.len(),
                        all_known(self@, nv),
                        requests_view(reqs@) == message_round(self@, nv.subrange(0, k as int), text@),
                    decreases ids@.len() - k,
                {
                    assert(first_index(table_keys(self@), nv[k as int]) >= 0);
                    let i = match self.find(&ids[k]) {
                        Some(i) => i,
                        None => {
                            assert(false);
                            0
                        },
                    };
                    let ghost before = requests_view(reqs@);
                    assert(self@[i as int].1.url == self.entries@[i as int].1.back_end.config.url@);
                    reqs.push(self.entries[i].1.back_end.notify_message(text.as_str()));
                    assert(requests_view(reqs@) =~= before.push((self@[i as int].1.url, text@)));
                    assert(nv.subrange(0, k + 1) =~= nv.subrange(0, k as int).push(nv[k as int]));
                    k = k + 1;
                    assert(requests_view(reqs@) =~= message_round(self@, nv.subrange(0, k as int), text@));
                }
                assert(nv.subrange(0, nv.len() as int) =~= nv);
                Ok(NotifierAction::Send(reqs))
            },
            NotifierMessage::Shutdown => Ok(NotifierAction::Stop),
        }
    }
}

/// The notifier after events at each of `times` in turn, and how many of
/// them were sent.
pub open spec fn after_events(n: NotifierView, times: Seq<int>) -> (NotifierView, nat)
    decreases times.len(),
{
    if times.len() == 0 {
        (n, 0)
    } else {
        let (m, sent) = after_events(n, times.drop_last());
        (after_event(m, times.last()), if inside_interval(m, times.last()) { sent } else { sent + 1 })
    }
}

/// k events within one minimum interval, the first outside the previous
/// one, send exactly one notification and count k - 1 skipped; the next
/// event after the interval is sent and reports those k - 1.
pub proof fn lemma_burst_coalesced(n: NotifierView, times: Seq<int>, interval: u64)
    requires
        n.minimum_interval == Some(interval),
        times.len() >= 1,
        times.len() < u64::MAX,
        times[0] - interval > n.last_notify,
        forall|i: int| 0 <= i < times.len() ==> times[0] <= #[trigger] times[i] <= times[0] + interval,
    ensures
        after_events(n, times).1 == 1,
        after_events(n, times).0.skipped_notifications == times.len() - 1,
        after_events(n, times).0.last_notify == times[0],
        after_events(n, times).0.minimum_interval == Some(interval),
        forall|t: int| t > times[0] + interval ==> !inside_interval(#[trigger] after_events(n, times).0, t),
    decreases times.len(),
{
    if times.len() == 1 {
        assert(times.drop_last() =~= Seq::<int>::empty());
    } else {
        let init = times.drop_last();
        assert(init[0] == times[0]);
        assert forall|i: int| 0 <= i < init.len() implies init[0] <= #[trigger] init[i] <= init[0] + interval by {
            assert(init[i] == times[i]);
        }
        lemma_burst_coalesced(n, init, interval);
        assert(times.last() == times[times.len() - 1]);
    }
}

} // verus!
