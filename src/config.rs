//! The parsed configuration: global options, file-sets, monitors and notifiers.
use vstd::prelude::*;
use crate::pattern::Pattern;

verus! {

pub open spec fn names(v: Seq<String>) -> Seq<Seq<char>> {
    v.map_values(|s: String| s@)
}

pub open spec fn optional_names(v: Option<Vec<String>>) -> Option<Seq<Seq<char>>> {
    match v {
        Some(ids) => Some(names(ids@)),
        None => None,
    }
}

pub fn same_text(a: &String, b: &str) -> (r: bool)
    ensures
        r == (a@ == b@),
{
    *a == b.to_owned()
}

pub fn copy_names(v: &Vec<String>) -> (r: Vec<String>)
    ensures
        names(r@) == names(v@),
{
    let mut r: Vec<String> = Vec::new();
    let mut i: usize = 0;
    while i < v.len()
        invariant
            i <= v@.len(),
            r@.len() == i,
            forall|j: int| 0 <= j < i ==> (#[trigger] r@[j])@ == v@[j]@,
        decreases v@.len() - i,
    {
        r.push(v[i].clone());
        i = i + 1;
    }
    assert(names(r@) =~= names(v@));
    r
}

pub fn copy_optional_names(v: &Option<Vec<String>>) -> (r: Option<Vec<String>>)
    ensures
        optional_names(r) == optional_names(*v),
{
    match v {
        Some(ids) => Some(copy_names(ids)),
        None => None,
    }
}

/// The ids of a list of (id, value) pairs.
pub open spec fn pair_keys<V>(v: Seq<(String, V)>) -> Seq<Seq<char>> {
    v.map_values(|e: (String, V)| e.0@)
}

/// No id occurs twice.
pub open spec fn distinct(keys: Seq<Seq<char>>) -> bool {
    forall|i: int, j: int| 0 <= i < j < keys.len() ==> keys[i] != keys[j]
}

/// The index of the first pair whose id an earlier pair already has.
pub fn first_duplicate<V>(v: &Vec<(String, V)>) -> (r: Option<usize>)
    ensures
        r is None <==> distinct(pair_keys(v@)),
        r matches Some(j) ==> j < v@.len(),
{
    let ghost keys = pair_keys(v@);
    let mut j: usize = 0;
    while j < v.len()
        invariant
            keys == pair_keys(v@),
            j <= v@.len(),
            forall|a: int, b: int| 0 <= a < b < j ==> keys[a] != keys[b],
        decreases v@.len() - j,
    {
        let mut i: usize = 0;
        while i < j
            invariant
                keys == pair_keys(v@),
                j < v@.len(),
                i <= j,
                forall|a: int| 0 <= a < i ==> keys[a] != keys[j as int],
            decreases j - i,
        {
            if v[i].0 == v[j].0 {
                assert(keys[i as int] == keys[j as int]);
                return Some(j);
            }
            i = i + 1;
        }
        j = j + 1;
    }
    None
}

/// Some monitor of `monitors` has the id `id`.
pub open spec fn monitor_listed(monitors: Seq<(String, MonitorConfig)>, id: Seq<char>) -> bool {
    exists|i: int| 0 <= i < monitors.len() && (#[trigger] monitors[i]).0@ == id
}

/// Global configuration options.
pub struct GlobalConfig {
    pub notifiers_for_files_last_seen: Vec<String>,
    pub period_for_files_last_seen: u64,
}

/// A set of monitored files: the globs that name them and, for each monitor
/// applied to them, the notifiers to alert (`None`: count only).
pub struct FileSetConfig {
    pub file_globs: Vec<String>,
    pub monitor_notifier_sets: Vec<(String, Option<Vec<String>>)>,
}

/// A monitor: its regex and its context and retention settings.
pub struct MonitorConfig {
    pub regex: Pattern,
    pub log_recent_events: Option<usize>,
    pub keep_lines_before: Option<usize>,
    pub keep_lines_after: Option<usize>,
    pub log_counts: bool,
    pub max_wait_before_notify: u64,
}

/// A Slack/Mattermost compatible webhook.
pub struct WebhookNotifierConfig {
    pub url: String,
    pub template: String,
    pub minimum_interval: Option<u64>,
}

pub enum NotifierConfig {
    Webhook(WebhookNotifierConfig),
}

pub struct ConfigFile {
    pub global: GlobalConfig,
    pub file_sets: Vec<(String, FileSetConfig)>,
    pub monitors: Vec<(String, MonitorConfig)>,
    pub notifiers: Vec<(String, NotifierConfig)>,
}

#[derive(Debug)]
pub enum ConfigError {
    /// A file-set names a monitor that is not defined.
    UnknownMonitor { file_set: String, monitor: String },
    /// An id occurs twice within `scope`: "file_sets", "monitors",
    /// "notifiers", or the id of a file-set naming a monitor twice.
    DuplicateId { scope: String, id: String },
    /// A file-set (or, with `file_set` empty, the global section) names a
    /// notifier that is not defined.
    UnknownNotifier { file_set: String, notifier: String },
}

impl MonitorConfig {
    pub fn duplicate(&self) -> (r: MonitorConfig)
        ensures
            r.regex@ == self.regex@,
            r.log_recent_events == self.log_recent_events,
            r.keep_lines_before == self.keep_lines_before,
            r.keep_lines_after == self.keep_lines_after,
            r.log_counts == self.log_counts,
            r.max_wait_before_notify == self.max_wait_before_notify,
    {
        MonitorConfig {
            regex: self.regex.duplicate(),
            log_recent_events: self.log_recent_events,
            keep_lines_before: self.keep_lines_before,
            keep_lines_after: self.keep_lines_after,
            log_counts: self.log_counts,
            max_wait_before_notify: self.max_wait_before_notify,
        }
    }
}

impl ConfigFile {
    pub open spec fn monitor_defined(&self, id: Seq<char>) -> bool {
        monitor_listed(self.monitors@, id)
    }

    pub open spec fn notifier_defined(&self, id: Seq<char>) -> bool {
        exists|i: int| 0 <= i < self.notifiers@.len() && (#[trigger] self.notifiers@[i]).0@ == id
    }

    pub open spec fn all_defined(&self, ids: Seq<String>) -> bool {
        forall|k: int| 0 <= k < ids.len() ==> self.notifier_defined(#[trigger] ids[k]@)
    }

    pub open spec fn file_set_consistent(&self, fs: FileSetConfig) -> bool {
        &&& distinct(pair_keys(fs.monitor_notifier_sets@))
        &&& forall|j: int| 0 <= j < fs.monitor_notifier_sets@.len() ==> {
            let entry = #[trigger] fs.monitor_notifier_sets@[j];
            &&& self.monitor_defined(entry.0@)
            &&& entry.1 matches Some(ids) ==> self.all_defined(ids@)
        }
    }

    /// Ids are unique within their kind, and every monitor and notifier
    /// that is named is defined.
    pub open spec fn consistent(&self) -> bool {
        &&& distinct(pair_keys(self.file_sets@))
        &&& distinct(pair_keys(self.monitors@))
        &&& distinct(pair_keys(self.notifiers@))
        &&& self.all_defined(self.global.notifiers_for_files_last_seen@)
        &&& forall|i: int| 0 <= i < self.file_sets@.len() ==> self.file_set_consistent(#[trigger] self.file_sets@[i].1)
    }

    fn has_monitor(&self, id: &String) -> (r: bool)
        ensures
            r == self.monitor_defined(id@),
    {
        let mut i: usize = 0;
        while i < self.monitors.len()
            invariant
                i <= self.monitors@.len(),
                forall|j: int| 0 <= j < i ==> (#[trigger] self.monitors@[j]).0@ != id@,
            decreases self.monitors@.len() - i,
        {
            if self.monitors[i].0 == *id {
                return true;
            }
            i = i + 1;
        }
        false
    }

    /// The first id in `ids` that names no notifier.
    fn first_unknown_notifier(&self, ids: &Vec<String>) -> (r: Option<usize>)
        ensures
            r is None <==> self.all_defined(ids@),
            r matches Some(k) ==> k < ids@.len() && !self.notifier_defined(ids@[k as int]@),
    {
        let mut k: usize = 0;
        while k < ids.len()
            invariant
                k <= ids@.len(),
                forall|m: int| 0 <= m < k ==> self.notifier_defined(#[trigger] ids@[m]@),
            decreases ids@.len() - k,
        {
            let mut i: usize = 0;
            let mut found = false;
            while i < self.notifiers.len()
                invariant
                    i <= self.notifiers@.len(),
                    k < ids@.len(),
                    found ==> self.notifier_defined(ids@[k as int]@),
                    !found ==> forall|j: int| 0 <= j < i ==> (#[trigger] self.notifiers@[j]).0@ != ids@[k as int]@,
                decreases self.notifiers@.len() - i,
            {
                if !found && self.notifiers[i].0 == ids[k] {
                    found = true;
                }
                i = i + 1;
            }
            if !found {
                assert(!self.notifier_defined(ids@[k as int]@));
                return Some(k);
            }
            k = k + 1;
        }
        None
    }

    /// Check that every name used refers to a definition; the first dangling
    /// reference is reported.
    pub fn validate(&self) -> (r: Result<(), ConfigError>)
        ensures
            r is Ok <==> self.consistent(),
            r matches Err(ConfigError::UnknownMonitor { monitor, .. }) ==> !self.monitor_defined(monitor@),
            r matches Err(ConfigError::UnknownNotifier { notifier, .. }) ==> !self.notifier_defined(notifier@),
            r matches Err(ConfigError::DuplicateId { .. }) ==> !distinct(pair_keys(self.file_sets@))
                || !distinct(pair_keys(self.monitors@)) || !distinct(pair_keys(self.notifiers@))
                || exists|i: int| 0 <= i < self.file_sets@.len()
                    && !distinct(pair_keys(#[trigger] self.file_sets@[i].1.monitor_notifier_sets@)),
    {
        match first_duplicate(&self.file_sets) {
            Some(j) => return Err(ConfigError::DuplicateId { scope: "file_sets".to_owned(), id: self.file_sets[j].0.clone() }),
            None => {},
        }
        match first_duplicate(&self.monitors) {
            Some(j) => return Err(ConfigError::DuplicateId { scope: "monitors".to_owned(), id: self.monitors[j].0.clone() }),
            None => {},
        }
        match first_duplicate(&self.notifiers) {
            Some(j) => return Err(ConfigError::DuplicateId { scope: "notifiers".to_owned(), id: self.notifiers[j].0.clone() }),
            None => {},
        }
        match self.first_unknown_notifier(&self.global.notifiers_for_files_last_seen) {
            Some(k) => {
                return Err(ConfigError::UnknownNotifier {
                    file_set: String::new(),
                    notifier: self.global.notifiers_for_files_last_seen[k].clone(),
                });
            },
            None => {},
        }
        let mut i: usize = 0;
        while i < self.file_sets.len()
            invariant
                i <= self.file_sets@.len(),
                self.all_defined(self.global.notifiers_for_files_last_seen@),
                distinct(pair_keys(self.file_sets@)),
                distinct(pair_keys(self.monitors@)),
                distinct(pair_keys(self.notifiers@)),
                forall|m: int| 0 <= m < i ==> self.file_set_consistent(#[trigger] self.file_sets@[m].1),
            decreases self.file_sets@.len() - i,
        {
            let fs = &self.file_sets[i].1;
            match first_duplicate(&fs.monitor_notifier_sets) {
                Some(j) => {
                    return Err(ConfigError::DuplicateId {
                        scope: self.file_sets[i].0.clone(),
                        id: fs.monitor_notifier_sets[j].0.clone(),
                    });
                },
                None => {},
            }
            let mut j: usize = 0;
            while j < fs.monitor_notifier_sets.len()
                invariant
                    i < self.file_sets@.len(),
                    *fs == self.file_sets@[i as int].1,
                    distinct(pair_keys(fs.monitor_notifier_sets@)),
                    j <= fs.monitor_notifier_sets@.len(),
                    forall|m: int| 0 <= m < j ==> {
                        let entry = #[trigger] fs.monitor_notifier_sets@[m];
                        &&& self.monitor_defined(entry.0@)
                        &&& entry.1 matches Some(ids) ==> self.all_defined(ids@)
                    },
                decreases fs.monitor_notifier_sets@.len() - j,
            {
                let entry = &fs.monitor_notifier_sets[j];
                if !self.has_monitor(&entry.0) {
                    return Err(ConfigError::UnknownMonitor {
                        file_set: self.file_sets[i].0.clone(),
                        monitor: entry.0.clone(),
                    });
                }
                match &entry.1 {
                    Some(ids) => {
                        match self.first_unknown_notifier(ids) {
                            Some(k) => {
                                return Err(ConfigError::UnknownNotifier {
                                    file_set: self.file_sets[i].0.clone(),
                                    notifier: ids[k].clone(),
                                });
                            },
                            None => {},
                        }
                    },
                    None => {},
                }
                j = j + 1;
            }
            i = i + 1;
        }
        Ok(())
    }
}

} // verus!
