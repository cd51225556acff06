use centinela::config::{FileSetConfig, MonitorConfig, NotifierConfig, WebhookNotifierConfig};
use centinela::counts::{EventCounts, Granularity};
use centinela::fileset::FileSet;
use centinela::messages::{DataStoreMessage, NotifierMessage};
use centinela::notifier::{Notifier, NotifierAction, Notifiers, WebhookRequest};
use centinela::pattern::Pattern;
use centinela::store::{DataStore, StoreAction};

const T: i64 = 1704067200; // 2024-01-01T00:00:00Z

fn monitor(regex: &str, before: Option<usize>, after: Option<usize>, wait: u64, keep: Option<usize>) -> MonitorConfig {
    MonitorConfig {
        regex: Pattern::new(regex).unwrap(),
        log_recent_events: keep,
        keep_lines_before: before,
        keep_lines_after: after,
        log_counts: true,
        max_wait_before_notify: wait,
    }
}

fn file_set(mc: MonitorConfig, notifiers: Option<Vec<String>>) -> FileSet {
    let config = FileSetConfig {
        file_globs: vec!["/var/log/*.log".to_string()],
        monitor_notifier_sets: vec![("m".to_string(), notifiers)],
    };
    FileSet::new_from_config(config, &vec![("m".to_string(), mc)]).unwrap()
}

fn store() -> DataStore {
    DataStore::new(&vec![("fs".to_string(), vec!["m".to_string()])], &vec![])
}

fn notifiers(minimum_interval: Option<u64>) -> Notifiers {
    let config = NotifierConfig::Webhook(WebhookNotifierConfig {
        url: "http://localhost:9000/hook".to_string(),
        template: "Alert:".to_string(),
        minimum_interval,
    });
    let mut ns = Notifiers::new();
    ns.add("hook".to_string(), Notifier::new_from_config(&config, T - 31449600));
    ns
}

/// Feed one line through the pipeline into the store.
fn feed(fs: &mut FileSet, st: &mut DataStore, path: &str, text: &str, now: i64) {
    for msg in fs.line_handler("fs", path, text, now) {
        match st.handle(msg, now).unwrap() {
            StoreAction::Continue => {}
            _ => panic!("unexpected store action"),
        }
    }
}

fn check(st: &mut DataStore, now: i64) -> Vec<NotifierMessage> {
    match st.handle(DataStoreMessage::CheckWaiters, now).unwrap() {
        StoreAction::Notify(v) => v,
        _ => panic!("expected notifications"),
    }
}

fn send(ns: &mut Notifiers, msgs: Vec<NotifierMessage>, now: i64) -> Vec<WebhookRequest> {
    let mut out = Vec::new();
    for m in msgs {
        match ns.handle(m, now).unwrap() {
            NotifierAction::Send(v) => out.extend(v),
            NotifierAction::Stop => panic!("unexpected stop"),
        }
    }
    out
}

fn event_lines(msg: &NotifierMessage) -> Vec<(String, bool)> {
    match msg {
        NotifierMessage::NotifyEvent(_, ev) => ev.lines.iter().map(|l| (l.line.clone(), l.is_event_line)).collect(),
        _ => panic!("expected an event"),
    }
}

#[test]
fn single_match_without_context() {
    let mut fs = file_set(monitor("ERROR", Some(0), Some(0), 0, None), Some(vec!["hook".to_string()]));
    let mut st = store();
    let mut ns = notifiers(None);
    feed(&mut fs, &mut st, "/var/log/a.log", "2024-01-01T00:00:00Z ERROR boom", T);
    let msgs = check(&mut st, T);
    assert_eq!(msgs.len(), 1);
    let reqs = send(&mut ns, msgs, T);
    assert_eq!(reqs.len(), 1);
    let line = "2024-01-01 00:00:00 UTC 2024-01-01T00:00:00Z ERROR boom";
    let rule = "-".repeat(line.len());
    let expected = format!("Alert:\n```\n\n{}\n{}\n{}\n\n```\n", rule, line, rule);
    assert_eq!(reqs[0].text, expected);
    assert!(reqs[0].text.starts_with("Alert:"));
    assert!(!reqs[0].text.contains("skipped"));
    assert_eq!(reqs[0].url, "http://localhost:9000/hook");
    let body = reqs[0].body();
    let parsed: serde_json::Value = serde_json::from_str(&body).unwrap();
    assert_eq!(parsed["text"].as_str().unwrap(), expected);
}

#[test]
fn before_context() {
    let mut fs = file_set(monitor("MATCH", Some(2), Some(0), 0, None), Some(vec!["hook".to_string()]));
    let mut st = store();
    for (i, text) in ["a", "b", "c", "MATCH c"].iter().enumerate() {
        feed(&mut fs, &mut st, "/var/log/a.log", text, T + i as i64);
    }
    let msgs = check(&mut st, T + 4);
    assert_eq!(msgs.len(), 1);
    assert_eq!(
        event_lines(&msgs[0]),
        vec![("b".to_string(), false), ("c".to_string(), false), ("MATCH c".to_string(), true)]
    );
}

#[test]
fn after_context_with_deadline() {
    let mut fs = file_set(monitor("MATCH", None, Some(3), 2, None), Some(vec!["hook".to_string()]));
    let mut st = store();
    feed(&mut fs, &mut st, "/var/log/a.log", "MATCH", T);
    feed(&mut fs, &mut st, "/var/log/a.log", "extra", T);
    assert_eq!(check(&mut st, T + 1).len(), 0);
    let msgs = check(&mut st, T + 2);
    assert_eq!(msgs.len(), 1);
    assert_eq!(event_lines(&msgs[0]), vec![("MATCH".to_string(), true), ("extra".to_string(), false)]);
    assert_eq!(check(&mut st, T + 3).len(), 0);
}

#[test]
fn throttling() {
    let mut fs = file_set(monitor("MATCH", None, None, 0, None), Some(vec!["hook".to_string()]));
    let mut st = store();
    let mut ns = notifiers(Some(60));
    let mut posts = Vec::new();
    for t in 0..5 {
        feed(&mut fs, &mut st, "/var/log/a.log", "MATCH", T + t);
        let msgs = check(&mut st, T + t);
        posts.extend(send(&mut ns, msgs, T + t));
    }
    assert_eq!(posts.len(), 1);
    assert!(!posts[0].text.contains("skipped"));
    feed(&mut fs, &mut st, "/var/log/a.log", "MATCH", T + 61);
    let msgs = check(&mut st, T + 61);
    let second = send(&mut ns, msgs, T + 61);
    assert_eq!(second.len(), 1);
    assert!(second[0].text.ends_with("\n\n(4 notifications skipped due to high frequency)"));
    feed(&mut fs, &mut st, "/var/log/a.log", "MATCH", T + 200);
    let msgs = check(&mut st, T + 200);
    let third = send(&mut ns, msgs, T + 200);
    assert_eq!(third.len(), 1);
    assert!(!third[0].text.contains("skipped"));
}

fn snapshot(st: &mut DataStore, now: i64) -> Vec<(String, Vec<(String, EventCounts)>)> {
    match st.handle(DataStoreMessage::Persist, now).unwrap() {
        StoreAction::Persist(s) => s,
        _ => panic!("expected a snapshot"),
    }
}

const ALL: [Granularity; 7] = [
    Granularity::Second,
    Granularity::Minute,
    Granularity::Hour,
    Granularity::Day,
    Granularity::Week,
    Granularity::Month,
    Granularity::Year,
];

#[test]
fn persistence_restores_counts() {
    let mut fs = file_set(monitor("MATCH", None, None, 0, Some(5)), None);
    let mut st = store();
    for t in [0, 0, 1, 70, 4000, 90000] {
        feed(&mut fs, &mut st, "/var/log/a.log", "MATCH", T + t);
    }
    let saved = snapshot(&mut st, T + 90000);
    let layout = vec![("fs".to_string(), vec!["m".to_string()])];
    let mut restarted = DataStore::new(&layout, &saved);
    let again = snapshot(&mut restarted, T + 90000);
    assert_eq!(saved.len(), 1);
    assert_eq!(again.len(), 1);
    for g in ALL {
        let a = saved[0].1[0].1.series_of(g).entries().clone();
        let b = again[0].1[0].1.series_of(g).entries().clone();
        assert!(!a.is_empty());
        assert_eq!(a, b);
    }
    assert_eq!(saved[0].1[0].1.series_of(Granularity::Second).entries().clone(), vec![(T + 90000, 1)]);
    assert_eq!(
        saved[0].1[0].1.series_of(Granularity::Day).entries().clone(),
        vec![(T, 5), (T + 86400, 1)]
    );
}

#[test]
fn heartbeat_lists_files_sorted() {
    let mut st = DataStore::new(&vec![], &vec![]);
    let seen = [("fsA", "/b.log", T), ("fsA", "/a.log", T + 5), ("fsB", "/c.log", T + 10)];
    for (f, p, t) in seen {
        match st.handle(DataStoreMessage::FileSeen(f.to_string(), p.to_string()), t).unwrap() {
            StoreAction::Continue => {}
            _ => panic!("unexpected store action"),
        }
    }
    let msgs = match st.handle(DataStoreMessage::NotifyFilesSeen(vec!["hook".to_string()]), T + 20).unwrap() {
        StoreAction::Notify(v) => v,
        _ => panic!("expected a message"),
    };
    assert_eq!(msgs.len(), 1);
    match &msgs[0] {
        NotifierMessage::NotifyMessage(ids, text) => {
            assert_eq!(ids, &vec!["hook".to_string()]);
            assert_eq!(
                text,
                "Files last seen: \n\nfsA:\n\t/a.log : 15s ago\n\t/b.log : 20s ago\n\nfsB:\n\t/c.log : 10s ago\n\n"
            );
        }
        _ => panic!("expected a message"),
    }
    let mut ns = notifiers(Some(60));
    let reqs = send(&mut ns, msgs, T + 20);
    assert_eq!(reqs.len(), 1);
}
