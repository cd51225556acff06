//! Building the runtime tables from the configuration at startup.
use vstd::prelude::*;
use crate::config::{ConfigFile, ConfigError, FileSetConfig, NotifierConfig, names, monitor_listed};
use crate::counts::EventCounts;
use crate::fileset::{FileSet, all_monitors_found};
use crate::notifier::{Notifier, Notifiers, NotifierView, TableView};
use crate::store::{DataStore, restored, saved_view};
use crate::time::valid_time;

verus! {

/// How far back the last send of a fresh notifier lies: 52 weeks.
pub const NOTIFY_HISTORY: i64 = 31449600;

/// The file-set ids with the monitor ids of each, as configured.
pub open spec fn config_layout(file_sets: Seq<(String, FileSetConfig)>) -> Seq<(Seq<char>, Seq<Seq<char>>)> {
    file_sets.map_values(|e: (String, FileSetConfig)| (e.0@, e.1.monitor_notifier_sets@.map_values(|m: (String, Option<Vec<String>>)| m.0@)))
}

/// Fresh notifiers for the configured ones, last send at `last`.
pub open spec fn notifier_table(ns: Seq<(String, NotifierConfig)>, last: int) -> TableView {
    ns.map_values(|e: (String, NotifierConfig)| (e.0@, match e.1 {
        NotifierConfig::Webhook(w) => NotifierView {
            url: w.url@,
            template: w.template@,
            minimum_interval: w.minimum_interval,
            last_notify: last,
            skipped_notifications: 0,
        },
    }))
}

/// Check the configuration and build, at `now`, the file-sets, the data
/// store (counts restored from `saved`) and the notifiers.
pub fn pop_structs_from_config(config: ConfigFile, saved: &Vec<(String, Vec<(String, EventCounts)>)>, now: i64)
    -> (r: Result<(Vec<(String, FileSet)>, DataStore, Notifiers), ConfigError>)
    requires
        valid_time(now as int),
    ensures
        r is Ok <==> config.consistent(),
        r matches Ok((fs, st, ns)) ==> {
            &&& fs@.len() == config.file_sets@.len()
            &&& forall|i: int| 0 <= i < fs@.len() ==> {
                &&& (#[trigger] fs@[i]).0@ == config.file_sets@[i].0@
                &&& fs@[i].1.wf()
                &&& fs@[i].1.spec_config() == config.file_sets@[i].1
                &&& fs@[i].1.rings().len() == 0
            }
            &&& st.wf()
            &&& st@.file_sets == restored(config_layout(config.file_sets@), saved_view(saved@))
            &&& st@.last_seen.len() == 0
            &&& st@.waiters.len() == 0
            &&& ns@ == notifier_table(config.notifiers@, now - NOTIFY_HISTORY)
        },
{
    match config.validate() {
        Err(e) => return Err(e),
        Ok(()) => {},
    }
    let ghost cfg = config;
    let ConfigFile { global, file_sets, monitors, notifiers } = config;
    let mut rest = file_sets;
    let mut out: Vec<(String, FileSet)> = Vec::new();
    let mut layout: Vec<(String, Vec<String>)> = Vec::new();
    let mut i: usize = 0;
    let n = rest.len();
    while i < n
        invariant
            cfg.consistent(),
            monitors == cfg.monitors,
            n == cfg.file_sets@.len(),
            i <= n,
            rest@ == cfg.file_sets@.subrange(i as int, n as int),
            out@.len() == i,
            forall|k: int| 0 <= k < i ==> {
                &&& (#[trigger] out@[k]).0@ == cfg.file_sets@[k].0@
                &&& out@[k].1.wf()
                &&& out@[k].1.spec_config() == cfg.file_sets@[k].1
                &&& out@[k].1.rings().len() == 0
            },
            layout@.map_values(|e: (String, Vec<String>)| (e.0@, names(e.1@))) == config_layout(cfg.file_sets@.subrange(0, i as int)),
        decreases n - i,
    {
        let (id, fsc) = rest.remove(0);
        assert((id, fsc) == cfg.file_sets@[i as int]);
        assert(cfg.file_set_consistent(cfg.file_sets@[i as int].1));
        assert(cfg.file_set_consistent(fsc));
        let mut mids: Vec<String> = Vec::new();
        let mut j: usize = 0;
        while j < fsc.monitor_notifier_sets.len()
            invariant
                j <= fsc.monitor_notifier_sets@.len(),
                names(mids@) == fsc.monitor_notifier_sets@.subrange(0, j as int).map_values(|m: (String, Option<Vec<String>>)| m.0@),
            decreases fsc.monitor_notifier_sets@.len() - j,
        {
            let ghost before = names(mids@);
            mids.push(fsc.monitor_notifier_sets[j].0.clone());
            assert(names(mids@) =~= before.push(fsc.monitor_notifier_sets@[j as int].0@));
            assert(fsc.monitor_notifier_sets@.subrange(0, j + 1) =~= fsc.monitor_notifier_sets@.subrange(0, j as int).push(fsc.monitor_notifier_sets@[j as int]));
            j = j + 1;
            assert(names(mids@) =~= fsc.monitor_notifier_sets@.subrange(0, j as int).map_values(|m: (String, Option<Vec<String>>)| m.0@));
        }
        assert(fsc.monitor_notifier_sets@.subrange(0, j as int) =~= fsc.monitor_notifier_sets@);
        let ghost lbefore = layout@.map_values(|e: (String, Vec<String>)| (e.0@, names(e.1@)));
        layout.push((id.clone(), mids));
        proof {
            assert(layout@.map_values(|e: (String, Vec<String>)| (e.0@, names(e.1@))) =~= lbefore.push((id@, names(mids@))));
            assert(cfg.file_sets@.subrange(0, i + 1) =~= cfg.file_sets@.subrange(0, i as int).push(cfg.file_sets@[i as int]));
            assert(config_layout(cfg.file_sets@.subrange(0, i + 1)) =~= config_layout(cfg.file_sets@.subrange(0, i as int)).push((id@, names(mids@))));
        }
        assert(all_monitors_found(fsc, monitors@)) by {
            assert forall|j: int| 0 <= j < fsc.monitor_notifier_sets@.len() implies monitor_listed(monitors@, (#[trigger] fsc.monitor_notifier_sets@[j]).0@) by {
                assert(cfg.monitor_defined(fsc.monitor_notifier_sets@[j].0@));
            }
        }
        match FileSet::new_from_config(fsc, &monitors) {
            Ok(fs) => {
                out.push((id, fs));
            },
            Err(ConfigError::UnknownMonitor { monitor, .. }) => {
                return Err(ConfigError::UnknownMonitor { file_set: id, monitor });
            },
            Err(e) => {
                return Err(e);
            },
        }
        i = i + 1;
    }
    assert(cfg.file_sets@.subrange(0, n as int) =~= cfg.file_sets@);
    let store = DataStore::new(&layout, saved);
    let mut table = Notifiers::new();
    let last = now - NOTIFY_HISTORY;
    let mut k: usize = 0;
    while k < notifiers.len()
        invariant
            notifiers == cfg.notifiers,
            k <= notifiers@.len(),
            last == now - NOTIFY_HISTORY,
            table@ == notifier_table(notifiers@.subrange(0, k as int), last as int),
        decreases notifiers@.len() - k,
    {
        let nt = Notifier::new_from_config(&notifiers[k].1, last);
        table.add(notifiers[k].0.clone(), nt);
        k = k + 1;
        assert(table@ =~= notifier_table(notifiers@.subrange(0, k as int), last as int));
    }
    assert(notifiers@.subrange(0, notifiers@.len() as int) =~= notifiers@);
    Ok((out, store, table))
}

} // verus!
