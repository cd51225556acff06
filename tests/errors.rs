use centinela::config::{
    ConfigError, ConfigFile, FileSetConfig, GlobalConfig, MonitorConfig, NotifierConfig, WebhookNotifierConfig,
};
use centinela::event::{LogLine, MonitorEvent};
use centinela::messages::{DataStoreMessage, NotifierMessage};
use centinela::notifier::{NotifierAction, NotifierError, Notifiers, WebhookRequest};
use centinela::pattern::Pattern;
use centinela::setup::pop_structs_from_config;
use centinela::store::{DataStore, StoreError};
use centinela::time::current_time;

const T: i64 = 1704067200;

fn monitor(regex: &str) -> MonitorConfig {
    MonitorConfig {
        regex: Pattern::new(regex).unwrap(),
        log_recent_events: Some(3),
        keep_lines_before: Some(1),
        keep_lines_after: None,
        log_counts: true,
        max_wait_before_notify: 5,
    }
}

fn config(monitor_id: &str, notifier_ref: &str, global_ref: &str) -> ConfigFile {
    ConfigFile {
        global: GlobalConfig {
            notifiers_for_files_last_seen: vec![global_ref.to_string()],
            period_for_files_last_seen: 3600,
        },
        file_sets: vec![(
            "fs".to_string(),
            FileSetConfig {
                file_globs: vec!["/var/log/*.log".to_string()],
                monitor_notifier_sets: vec![(monitor_id.to_string(), Some(vec![notifier_ref.to_string()]))],
            },
        )],
        monitors: vec![("m".to_string(), monitor("ERROR"))],
        notifiers: vec![(
            "hook".to_string(),
            NotifierConfig::Webhook(WebhookNotifierConfig {
                url: "http://h".to_string(),
                template: "T".to_string(),
                minimum_interval: None,
            }),
        )],
    }
}

#[test]
fn consistent_config_builds_tables() {
    let (fs, st, _ns) = pop_structs_from_config(config("m", "hook", "hook"), &vec![], T).unwrap();
    assert_eq!(fs.len(), 1);
    assert_eq!(fs[0].0, "fs");
    assert_eq!(fs[0].1.max_lines_before(), 1);
    assert_eq!(st.get_filesets(), vec!["fs".to_string()]);
    assert_eq!(st.get_monitors_for_fileset("fs").unwrap(), vec!["m".to_string()]);
    assert!(st.get_monitors_for_fileset("other").is_none());
    assert!(st.get_monitor("fs", "m").is_some());
    assert!(st.get_monitor("fs", "x").is_none());
}

#[test]
fn unknown_monitor_is_refused() {
    match pop_structs_from_config(config("nope", "hook", "hook"), &vec![], T) {
        Err(ConfigError::UnknownMonitor { file_set, monitor }) => {
            assert_eq!(file_set, "fs");
            assert_eq!(monitor, "nope");
        }
        _ => panic!("expected an unknown monitor"),
    }
}

#[test]
fn unknown_notifier_is_refused() {
    match config("m", "ghost", "hook").validate() {
        Err(ConfigError::UnknownNotifier { file_set, notifier }) => {
            assert_eq!(file_set, "fs");
            assert_eq!(notifier, "ghost");
        }
        _ => panic!("expected an unknown notifier"),
    }
    match config("m", "hook", "ghost").validate() {
        Err(ConfigError::UnknownNotifier { file_set, notifier }) => {
            assert_eq!(file_set, "");
            assert_eq!(notifier, "ghost");
        }
        _ => panic!("expected an unknown notifier"),
    }
    assert!(config("m", "hook", "hook").validate().is_ok());
}

#[test]
fn invalid_regex_is_refused() {
    let err = Pattern::new("(unclosed").err().unwrap();
    assert_eq!(err.pattern, "(unclosed");
    let p = Pattern::new("b+c").unwrap();
    assert_eq!(p.as_str(), "b+c");
    assert!(p.is_match("abbbcd"));
    assert!(!p.is_match("b+c"));
}

#[test]
fn store_refuses_unknown_monitor() {
    let mut st = DataStore::new(&vec![("fs".to_string(), vec!["m".to_string()])], &vec![]);
    let msg = DataStoreMessage::ReceiveLine("fs".to_string(), "zz".to_string(), "/a".to_string(), "x".to_string(), T);
    match st.handle(msg, T) {
        Err(StoreError::UnknownMonitor { file_set, monitor }) => {
            assert_eq!(file_set, "fs");
            assert_eq!(monitor, "zz");
        }
        _ => panic!("expected an unknown monitor"),
    }
}

fn table() -> Notifiers {
    let (_fs, _st, ns) = pop_structs_from_config(config("m", "hook", "hook"), &vec![], T).unwrap();
    ns
}

#[test]
fn notifier_refuses_unknown_id() {
    let mut ns = table();
    match ns.handle(NotifierMessage::NotifyMessage(vec!["nobody".to_string()], "hi".to_string()), T) {
        Err(NotifierError::UnknownNotifier(id)) => assert_eq!(id, "nobody"),
        _ => panic!("expected an unknown notifier"),
    }
    match ns.handle(NotifierMessage::NotifyMessage(vec!["hook".to_string()], "hi".to_string()), T).unwrap() {
        NotifierAction::Send(v) => {
            assert_eq!(v.len(), 1);
            assert_eq!(v[0].text, "hi");
            assert_eq!(v[0].url, "http://h");
        }
        NotifierAction::Stop => panic!("unexpected stop"),
    }
    assert!(matches!(ns.handle(NotifierMessage::Shutdown, T).unwrap(), NotifierAction::Stop));
}

#[test]
fn notifier_refuses_out_of_range_time() {
    let mut ns = table();
    let ev = MonitorEvent {
        lines: vec![LogLine::new(i64::MAX, "x".to_string(), true)],
        awaiting_lines: 0,
        awaiting_lines_from: "/a".to_string(),
        notify_by: T,
    };
    assert!(matches!(
        ns.handle(NotifierMessage::NotifyEvent(vec!["hook".to_string()], ev), T),
        Err(NotifierError::InvalidEventTime)
    ));
}

#[test]
fn log_line_renders_timestamp() {
    let l = LogLine::new(T + 3661, "boom".to_string(), false);
    assert_eq!(l.to_string(), "2024-01-01 01:01:01 UTC boom");
}

#[test]
fn webhook_body_is_escaped_json() {
    let req = WebhookRequest { url: "http://h".to_string(), text: "a \"quoted\"\nline".to_string() };
    assert_eq!(req.body(), "{\"text\":\"a \\\"quoted\\\"\\nline\"}");
}

#[test]
fn markdown_rule_is_bounded() {
    let long = "x".repeat(150);
    let ev = MonitorEvent {
        lines: vec![LogLine::new(T, "before".to_string(), false), LogLine::new(T, long.clone(), true)],
        awaiting_lines: 0,
        awaiting_lines_from: "/a".to_string(),
        notify_by: T,
    };
    let rule = "-".repeat(100);
    let expected = format!(
        "\n```\n2024-01-01 00:00:00 UTC before\n\n{}\n2024-01-01 00:00:00 UTC {}\n{}\n\n```\n",
        rule, long, rule
    );
    assert_eq!(ev.get_lines_as_markdown(), expected);
}

#[test]
fn clock_reads_a_recent_time() {
    let now = current_time().unwrap();
    assert!(now > T);
}

#[test]
fn duplicate_ids_are_refused() {
    let mut c = config("m", "hook", "hook");
    c.monitors.push(("m".to_string(), monitor("OTHER")));
    match c.validate() {
        Err(ConfigError::DuplicateId { scope, id }) => {
            assert_eq!(scope, "monitors");
            assert_eq!(id, "m");
        }
        _ => panic!("expected a duplicate id"),
    }
    let mut d = config("m", "hook", "hook");
    d.file_sets[0].1.monitor_notifier_sets.push(("m".to_string(), None));
    match pop_structs_from_config(d, &vec![], T) {
        Err(ConfigError::DuplicateId { scope, id }) => {
            assert_eq!(scope, "fs");
            assert_eq!(id, "m");
        }
        _ => panic!("expected a duplicate id"),
    }
}

#[test]
fn webhook_body_escapes_control_characters() {
    let req = WebhookRequest { url: "http://h".to_string(), text: "tab\there\u{1}é\\".to_string() };
    assert_eq!(req.body(), "{\"text\":\"tab\\there\\u0001é\\\\\"}");
}
