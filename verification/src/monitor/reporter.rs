//! What the window sees of the monitor: the snapshot and the session log, changed in one
//! place together with the session they describe.
use vstd::prelude::*;

use crate::error::AppError;
use crate::models::{
    clone_runtimes, ItemRuntime, MonitorSnapshot, MonitorSnapshotView, MonitorState, SessionLog,
    SessionLogView, TimelineEntry, TimelineKind,
};
use crate::monitor::session::{item_name_of, payload_of, runtimes_after_update, Session};

verus! {

pub const STATE_EVENT: &'static str = "monitor://state";
pub const ITEM_STATUS_EVENT: &'static str = "monitor://item-status";
pub const LOG_EVENT: &'static str = "monitor://log";

/// The snapshot and the log of the latest session, as last published.
pub struct Published {
    pub snapshot: MonitorSnapshot,
    pub session_log: Option<SessionLog>,
}

impl Published {
    /// Nothing runs yet; the log of the last session is shown until a new one starts.
    pub fn new(last_session_log: Option<SessionLog>) -> (published: Published)
        ensures
            published.snapshot@.state == MonitorState::Idle,
            published.snapshot@.session_profile_id is None,
            !published.snapshot@.is_test_session,
            published.snapshot@.items.len() == 0,
            published.snapshot@.closes_at_ms is None,
            published.snapshot@.starting_simulator is None,
            published.session_log.deep_view() == last_session_log.deep_view(),
    {
        Published { snapshot: MonitorSnapshot::default(), session_log: last_session_log }
    }

    pub fn snapshot(&self) -> (snapshot: MonitorSnapshot)
        ensures
            snapshot@ == self.snapshot@,
    {
        self.snapshot.clone()
    }

    pub fn session_log(&self) -> (log: Option<SessionLog>)
        ensures
            log.deep_view() == self.session_log.deep_view(),
    {
        match &self.session_log {
            Some(log) => Some(log.clone()),
            None => None,
        }
    }

    /// Returns the snapshot to publish.
    pub fn set_state(&mut self, state: MonitorState) -> (snapshot: MonitorSnapshot)
        ensures
            final(self).snapshot@ == (MonitorSnapshotView { state, ..old(self).snapshot@ }),
            final(self).session_log.deep_view() == old(self).session_log.deep_view(),
            snapshot@ == final(self).snapshot@,
    {
        self.snapshot.state = state;
        self.snapshot.clone()
    }

    /// The window follows a new session: its profile, whether it is a test, its items and its
    /// log. Returns the snapshot and the log's latest entry to publish.
    pub fn attach(&mut self, session: &Session) -> (published: (MonitorSnapshot, Option<TimelineEntry>))
        ensures
            final(self).snapshot@ == (MonitorSnapshotView {
                session_profile_id: Some(session.profile_view().id),
                is_test_session: session.log_view().is_test,
                items: session.runtimes(),
                ..old(self).snapshot@
            }),
            final(self).session_log.deep_view() == Some(session.log_view()),
            published.0@ == final(self).snapshot@,
            published.1.deep_view() == if session.log_view().entries.len() > 0 {
                Some(session.log_view().entries.last())
            } else {
                None
            },
    {
        self.snapshot.session_profile_id = Some(session.profile().id.clone());
        self.snapshot.is_test_session = session.is_test();
        self.snapshot.items = clone_runtimes(session.items());
        let log = session.log();
        self.session_log = Some(log.clone());
        let last = if log.entries.len() > 0 {
            assert(log@.entries[log.entries@.len() - 1] == log.entries@[log.entries@.len() - 1]@);
            Some(log.entries[log.entries.len() - 1].clone())
        } else {
            None
        };
        (self.snapshot.clone(), last)
    }

    /// An item changed: the session keeps it and the snapshot shows it. Returns the snapshot
    /// to publish.
    pub fn item(&mut self, session: &mut Session, runtime: ItemRuntime) -> (snapshot: MonitorSnapshot)
        ensures
            final(session).runtimes() == runtimes_after_update(old(session).runtimes(), runtime@),
            final(session).profile_view() == old(session).profile_view(),
            final(session).mode_view() == old(session).mode_view(),
            final(session).relaunch_flag() == old(session).relaunch_flag(),
            final(session).log_view() == old(session).log_view(),
            final(self).snapshot@ == (MonitorSnapshotView {
                items: final(session).runtimes(),
                ..old(self).snapshot@
            }),
            final(self).session_log.deep_view() == old(self).session_log.deep_view(),
            snapshot@ == final(self).snapshot@,
    {
        session.update(runtime);
        self.snapshot.items = clone_runtimes(session.items());
        self.snapshot.clone()
    }

    /// A line joins the session's timeline and the published log.
    pub fn timeline(
        &mut self,
        session: &mut Session,
        kind: TimelineKind,
        item_id: Option<&str>,
        error: Option<&AppError>,
    ) -> (entry: TimelineEntry)
        ensures
            entry@.kind == kind,
            entry@.item_id == item_id.deep_view(),
            entry@.item_name == match item_id {
                Some(id) => item_name_of(old(session).profile_view().items, id@),
                None => None,
            },
            entry@.error == payload_of(
                match error {
                    Some(e) => Some(*e),
                    None => None,
                },
            ),
            entry@.detail is None,
            final(session).log_view() == (SessionLogView {
                entries: old(session).log_view().entries.push(entry@),
                ..old(session).log_view()
            }),
            final(session).profile_view() == old(session).profile_view(),
            final(session).mode_view() == old(session).mode_view(),
            final(session).relaunch_flag() == old(session).relaunch_flag(),
            final(session).runtimes() == old(session).runtimes(),
            final(self).session_log.deep_view() == Some(final(session).log_view()),
            final(self).snapshot@ == old(self).snapshot@,
    {
        let entry = session.record(kind, item_id, error);
        self.session_log = Some(session.log().clone());
        entry
    }

    /// A line with a detail text (a crash's exit code, a close delay) joins the session's
    /// timeline and the published log.
    pub fn timeline_detail(
        &mut self,
        session: &mut Session,
        kind: TimelineKind,
        item_id: Option<&str>,
        detail: String,
    ) -> (entry: TimelineEntry)
        ensures
            entry@.kind == kind,
            entry@.item_id == item_id.deep_view(),
            entry@.item_name == match item_id {
                Some(id) => item_name_of(old(session).profile_view().items, id@),
                None => None,
            },
            entry@.error is None,
            entry@.detail == Some(detail@),
            final(session).log_view() == (SessionLogView {
                entries: old(session).log_view().entries.push(entry@),
                ..old(session).log_view()
            }),
            final(session).profile_view() == old(session).profile_view(),
            final(session).mode_view() == old(session).mode_view(),
            final(session).relaunch_flag() == old(session).relaunch_flag(),
            final(session).runtimes() == old(session).runtimes(),
            final(self).session_log.deep_view() == Some(final(session).log_view()),
            final(self).snapshot@ == old(self).snapshot@,
    {
        let entry = session.record_detail(kind, item_id, detail);
        self.session_log = Some(session.log().clone());
        entry
    }

    /// The session ends: its last line is written and the finished log is what the window
    /// shows and what gets saved. Returns that line and the log.
    pub fn finish(&mut self, session: &mut Session) -> (finished: (TimelineEntry, SessionLog))
        ensures
            finished.0@.kind == TimelineKind::SessionEnded,
            final(session).log_view() == (SessionLogView {
                entries: old(session).log_view().entries.push(finished.0@),
                ended_at_ms: Some(finished.0@.timestamp_ms),
                ..old(session).log_view()
            }),
            final(session).runtimes() == old(session).runtimes(),
            final(session).profile_view() == old(session).profile_view(),
            finished.1@ == final(session).log_view(),
            final(self).session_log.deep_view() == Some(final(session).log_view()),
            final(self).snapshot@ == old(self).snapshot@,
    {
        let entry = session.finish();
        let log = session.log().clone();
        self.session_log = Some(log.clone());
        (entry, log)
    }
}

} // verus!
