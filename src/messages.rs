//! Commands exchanged between the match pipeline, the data store and the notifier.
use vstd::prelude::*;
use crate::event::{EventView, MonitorEvent};
use crate::config::{names, optional_names};

verus! {

/// Commands the data store acts on.
pub enum DataStoreMessage {
    /// A line (file-set, monitor, path, text, time) for events awaiting more lines.
    ReceiveLine(String, String, String, String, i64),
    /// A new match event, how many recent events to keep, and whom to notify.
    ReceiveEvent(String, String, MonitorEvent, Option<usize>, Option<Vec<String>>),
    /// A line was read from (file-set, path).
    FileSeen(String, String),
    /// Send the "files last seen" summary to these notifiers.
    NotifyFilesSeen(Vec<String>),
    Persist,
    /// Dispatch the waiting events that are ready.
    CheckWaiters,
    Shutdown,
}

pub enum StoreMessageView {
    ReceiveLine { file_set: Seq<char>, monitor: Seq<char>, path: Seq<char>, line: Seq<char>, at: int },
    ReceiveEvent {
        file_set: Seq<char>,
        monitor: Seq<char>,
        event: EventView,
        keep_recent: Option<usize>,
        notifier_ids: Option<Seq<Seq<char>>>,
    },
    FileSeen { file_set: Seq<char>, path: Seq<char> },
    NotifyFilesSeen { notifiers: Seq<Seq<char>> },
    Persist,
    CheckWaiters,
    Shutdown,
}

impl View for DataStoreMessage {
    type V = StoreMessageView;

    open spec fn view(&self) -> StoreMessageView {
        match self {
            DataStoreMessage::ReceiveLine(f, m, p, l, t) => StoreMessageView::ReceiveLine {
                file_set: f@,
                monitor: m@,
                path: p@,
                line: l@,
                at: *t as int,
            },
            DataStoreMessage::ReceiveEvent(f, m, e, k, n) => StoreMessageView::ReceiveEvent {
                file_set: f@,
                monitor: m@,
                event: e@,
                keep_recent: *k,
                notifier_ids: optional_names(*n),
            },
            DataStoreMessage::FileSeen(f, p) => StoreMessageView::FileSeen { file_set: f@, path: p@ },
            DataStoreMessage::NotifyFilesSeen(n) => StoreMessageView::NotifyFilesSeen { notifiers: names(n@) },
            DataStoreMessage::Persist => StoreMessageView::Persist,
            DataStoreMessage::CheckWaiters => StoreMessageView::CheckWaiters,
            DataStoreMessage::Shutdown => StoreMessageView::Shutdown,
        }
    }
}

pub open spec fn store_messages(v: Seq<DataStoreMessage>) -> Seq<StoreMessageView> {
    v.map_values(|m: DataStoreMessage| m@)
}

/// Commands the notifier acts on.
pub enum NotifierMessage {
    NotifyEvent(Vec<String>, MonitorEvent),
    NotifyMessage(Vec<String>, String),
    Shutdown,
}

pub enum NotifierMessageView {
    NotifyEvent { notifier_ids: Seq<Seq<char>>, event: EventView },
    NotifyMessage { notifier_ids: Seq<Seq<char>>, text: Seq<char> },
    Shutdown,
}

impl View for NotifierMessage {
    type V = NotifierMessageView;

    open spec fn view(&self) -> NotifierMessageView {
        match self {
            NotifierMessage::NotifyEvent(n, e) => NotifierMessageView::NotifyEvent { notifier_ids: names(n@), event: e@ },
            NotifierMessage::NotifyMessage(n, t) => NotifierMessageView::NotifyMessage { notifier_ids: names(n@), text: t@ },
            NotifierMessage::Shutdown => NotifierMessageView::Shutdown,
        }
    }
}

pub open spec fn notifier_messages(v: Seq<NotifierMessage>) -> Seq<NotifierMessageView> {
    v.map_values(|m: NotifierMessage| m@)
}

} // verus!
