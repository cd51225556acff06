use centinela::config::{FileSetConfig, MonitorConfig};
use centinela::counts::{EventCounts, Granularity};
use centinela::event::{LogLine, MonitorEvent};
use centinela::fileset::{accept_glob_matches, FileSet, StartupError};
use centinela::messages::DataStoreMessage;
use centinela::monitor::Monitor;
use centinela::notifier::{notify_event, Notifier};
use centinela::config::{NotifierConfig, WebhookNotifierConfig};
use centinela::pattern::Pattern;
use centinela::store::{DataStore, MonitorData, StoreAction};

const T: i64 = 1704067200; // 2024-01-01T00:00:00Z, a Monday

fn monitor(regex: &str, before: Option<usize>, after: Option<usize>, wait: u64, keep: Option<usize>) -> MonitorConfig {
    MonitorConfig {
        regex: Pattern::new(regex).unwrap(),
        log_recent_events: keep,
        keep_lines_before: before,
        keep_lines_after: after,
        log_counts: true,
        max_wait_before_notify: wait,
    }
}

fn event(path: &str, awaiting: usize, notify_by: i64) -> MonitorEvent {
    MonitorEvent {
        lines: vec![LogLine::new(T, "MATCH".to_string(), true)],
        awaiting_lines: awaiting,
        awaiting_lines_from: path.to_string(),
        notify_by,
    }
}

fn entries(c: &EventCounts, g: Granularity) -> Vec<(i64, u64)> {
    c.series_of(g).entries().clone()
}

#[test]
fn recent_events_stay_within_bound() {
    let mut md = MonitorData::new(EventCounts::new());
    for i in 0..5 {
        md.receive_event(event("/a", 0, T + i), Some(2), T + i);
        assert!(md.recent_events.len() <= 2);
    }
    assert_eq!(md.recent_events.len(), 2);
    assert_eq!(md.recent_events[0].notify_by, T + 3);
    assert_eq!(md.recent_events[1].notify_by, T + 4);
    md.receive_event(event("/a", 0, T + 9), None, T + 9);
    assert_eq!(md.recent_events.len(), 0);
}

#[test]
fn retention_caps_seconds() {
    let mut c = EventCounts::new();
    for i in 0..3700 {
        c.increment(T + i);
    }
    let secs = entries(&c, Granularity::Second);
    assert_eq!(secs.len(), 3600);
    assert_eq!(secs[0].0, T + 100);
    assert_eq!(entries(&c, Granularity::Minute).len(), 62);
    assert_eq!(entries(&c, Granularity::Hour), vec![(T, 3600), (T + 3600, 100)]);
}

#[test]
fn sole_event_line_and_awaiting_decrease() {
    let m = Monitor::new_from_config(monitor("ERR", Some(3), Some(2), 10, None));
    let ring = vec![LogLine::new(T, "x".to_string(), false), LogLine::new(T, "y".to_string(), false)];
    let mut ev = m.handle_line("/a", "ERR here", Some(&ring), T).unwrap();
    assert_eq!(ev.lines.len(), 3);
    assert_eq!(ev.awaiting_lines, 2);
    assert_eq!(ev.notify_by, T + 10);
    ev.receive_line("/other", "no", T + 1);
    assert_eq!(ev.awaiting_lines, 2);
    ev.receive_line("/a", "one", T + 1);
    ev.receive_line("/a", "two", T + 2);
    ev.receive_line("/a", "three", T + 3);
    assert_eq!(ev.awaiting_lines, 0);
    assert_eq!(ev.lines.len(), 5);
    let flags: Vec<bool> = ev.lines.iter().map(|l| l.is_event_line).collect();
    assert_eq!(flags, vec![false, false, true, false, false]);
    assert!(m.handle_line("/a", "fine", Some(&ring), T).is_none());
}

#[test]
fn seconds_total_counts_every_match_in_window() {
    let mut c = EventCounts::new();
    let times = [0, 0, 3, 3, 3, 10, 500, 3000, 3599, 3599];
    for t in times {
        c.increment(T + t);
    }
    let total: u64 = entries(&c, Granularity::Second).iter().map(|e| e.1).sum();
    assert_eq!(total, times.len() as u64);
}

#[test]
fn two_increments_in_one_bucket() {
    let mut c = EventCounts::new();
    c.increment(T + 5);
    c.increment(T + 5);
    assert_eq!(entries(&c, Granularity::Second), vec![(T + 5, 2)]);
    let mut d = EventCounts::new();
    d.increment(T + 61);
    d.increment(T + 119);
    assert_eq!(entries(&d, Granularity::Minute), vec![(T + 60, 2)]);
    assert_eq!(entries(&d, Granularity::Second).len(), 2);
}

#[test]
fn bucket_keys_follow_the_calendar() {
    let mut c = EventCounts::new();
    // 2024-03-15T13:45:30Z, a Friday
    let t = 1710510330;
    c.increment(t);
    assert_eq!(entries(&c, Granularity::Minute), vec![(1710510300, 1)]);
    assert_eq!(entries(&c, Granularity::Hour), vec![(1710507600, 1)]);
    assert_eq!(entries(&c, Granularity::Day), vec![(1710460800, 1)]);
    // Monday 2024-03-11
    assert_eq!(entries(&c, Granularity::Week), vec![(1710115200, 1)]);
    // 2024-03-01
    assert_eq!(entries(&c, Granularity::Month), vec![(1709251200, 1)]);
    // 2024-01-01
    assert_eq!(entries(&c, Granularity::Year), vec![(T, 1)]);
}

#[test]
fn week_key_before_the_epoch() {
    let mut c = EventCounts::new();
    // 1969-12-31T12:00:00Z, a Wednesday; its week starts Monday 1969-12-29.
    c.increment(-43200);
    assert_eq!(entries(&c, Granularity::Week), vec![(-259200, 1)]);
    assert_eq!(entries(&c, Granularity::Day), vec![(-86400, 1)]);
    assert_eq!(entries(&c, Granularity::Year), vec![(-31536000, 1)]);
}

#[test]
fn line_without_awaiting_events_changes_nothing() {
    let mut st = DataStore::new(&vec![("fs".to_string(), vec!["m".to_string()])], &vec![]);
    let ev = event("/a", 0, T);
    match st.handle(DataStoreMessage::ReceiveEvent("fs".to_string(), "m".to_string(), ev, Some(3), None), T).unwrap() {
        StoreAction::Continue => {}
        _ => panic!("unexpected action"),
    }
    let before = st.get_monitor("fs", "m").unwrap().recent_events[0].lines.len();
    match st.handle(DataStoreMessage::ReceiveLine("fs".to_string(), "m".to_string(), "/a".to_string(), "later".to_string(), T + 1), T + 1).unwrap() {
        StoreAction::Continue => {}
        _ => panic!("unexpected action"),
    }
    let md = st.get_monitor("fs", "m").unwrap();
    assert_eq!(md.recent_events[0].lines.len(), before);
    assert_eq!(md.recent_events[0].awaiting_lines, 0);
}

#[test]
fn glob_without_matches_is_fatal() {
    match accept_glob_matches("/var/log/missing*.log", vec![]) {
        Err(StartupError::NoFilesMatched { glob }) => assert_eq!(glob, "/var/log/missing*.log"),
        Ok(_) => panic!("expected an error"),
    }
    let found = accept_glob_matches("/var/log/*.log", vec!["/var/log/a.log".to_string()]).unwrap();
    assert_eq!(found, vec!["/var/log/a.log".to_string()]);
}

#[test]
fn short_ring_gives_whole_ring() {
    let config = FileSetConfig {
        file_globs: vec![],
        monitor_notifier_sets: vec![("m".to_string(), None)],
    };
    let mut fs = FileSet::new_from_config(config, &vec![("m".to_string(), monitor("HIT", Some(5), None, 0, Some(1)))]).unwrap();
    assert_eq!(fs.max_lines_before(), 5);
    fs.line_handler("fs", "/a", "one", T);
    fs.line_handler("fs", "/b", "elsewhere", T);
    fs.line_handler("fs", "/a", "two", T);
    let msgs = fs.line_handler("fs", "/a", "HIT", T);
    assert_eq!(msgs.len(), 3);
    match &msgs[2] {
        DataStoreMessage::ReceiveEvent(f, m, ev, keep, ids) => {
            assert_eq!(f, "fs");
            assert_eq!(m, "m");
            assert_eq!(*keep, Some(1));
            assert!(ids.is_none());
            let texts: Vec<&str> = ev.lines.iter().map(|l| l.line.as_str()).collect();
            assert_eq!(texts, vec!["one", "two", "HIT"]);
        }
        _ => panic!("expected an event"),
    }
    match &msgs[0] {
        DataStoreMessage::FileSeen(f, p) => {
            assert_eq!(f, "fs");
            assert_eq!(p, "/a");
        }
        _ => panic!("expected file seen"),
    }
}

#[test]
fn deadline_dispatches_exactly_once() {
    let mut st = DataStore::new(&vec![("fs".to_string(), vec!["m".to_string()])], &vec![]);
    let ev = event("/a", 3, T + 2);
    st.handle(DataStoreMessage::ReceiveEvent("fs".to_string(), "m".to_string(), ev, None, Some(vec!["hook".to_string()])), T).unwrap();
    let count = |st: &mut DataStore, now: i64| match st.handle(DataStoreMessage::CheckWaiters, now).unwrap() {
        StoreAction::Notify(v) => v.len(),
        _ => panic!("expected notifications"),
    };
    assert_eq!(count(&mut st, T + 1), 0);
    assert_eq!(count(&mut st, T + 2), 1);
    assert_eq!(count(&mut st, T + 3), 0);
}

#[test]
fn burst_inside_interval_sends_once() {
    let config = NotifierConfig::Webhook(WebhookNotifierConfig {
        url: "http://h".to_string(),
        template: "".to_string(),
        minimum_interval: Some(10),
    });
    let mut n = Notifier::new_from_config(&config, T - 1000);
    let ev = event("/a", 0, T);
    let sent: Vec<bool> = (0..4).map(|i| notify_event(&mut n, &ev, T + i * 3).is_some()).collect();
    assert_eq!(sent, vec![true, false, false, false]);
    assert_eq!(n.skipped_notifications, 3);
    assert_eq!(n.last_notify, T);
    let later = notify_event(&mut n, &ev, T + 11).unwrap();
    assert!(later.text.ends_with("(3 notifications skipped due to high frequency)"));
    assert_eq!(n.skipped_notifications, 0);
}

#[test]
fn event_built_after_a_match() {
    let m = Monitor::new_from_config(monitor("never matches this", Some(1), None, u64::MAX, None));
    let ring = vec![LogLine::new(T, "x".to_string(), false), LogLine::new(T, "y".to_string(), false)];
    let ev = m.create_event("/a", "line", Some(&ring), T);
    let texts: Vec<&str> = ev.lines.iter().map(|l| l.line.as_str()).collect();
    assert_eq!(texts, vec!["y", "line"]);
    assert_eq!(ev.awaiting_lines, 0);
    assert_eq!(ev.awaiting_lines_from, "/a");
    assert_eq!(ev.notify_by, i64::MAX);
    let alone = m.create_event("/a", "line", None, T);
    assert_eq!(alone.lines.len(), 1);
}

#[test]
fn series_record_bumps_then_trims() {
    let mut s = centinela::counts::CountSeries::new();
    s.record(10, 0, 2);
    s.record(20, 0, 2);
    s.record(10, 0, 2);
    assert_eq!(s.entries().clone(), vec![(10, 2), (20, 1)]);
    s.record(30, 0, 2);
    assert_eq!(s.entries().clone(), vec![(20, 1), (30, 1)]);
    s.record(40, 35, 2);
    assert_eq!(s.entries().clone(), vec![(40, 1)]);
    assert_eq!(s.get(40), Some(1));
    assert_eq!(s.get(30), None);
}

#[test]
fn block_text_and_body_framing() {
    let mut s = String::new();
    centinela::event::append_block_text(&mut s, "abc", true);
    assert_eq!(s, "\n---\nabc\n---\n");
    let mut plain = String::new();
    centinela::event::append_block_text(&mut plain, "abc", false);
    assert_eq!(plain, "abc");
    assert_eq!(centinela::notifier::frame_body("\"hi\""), "{\"text\":\"hi\"}");
}
