//! Session tracking: the state that the normalization pipeline threads from
//! event to event, and the rules by which a new session begins.

use super::{Entities, EntitiesView, NormalizedEvent, NormalizedEventView};
use crate::number::{decimal, render};
use crate::text::{
    self, clone_opt, contains, has, lowercase, opt_str_view, opt_view, same, same_opt,
};
use vstd::prelude::*;

verus! {

/// A focused window/terminal/browser event more than this many seconds after
/// the previous one marks an inactivity-based session boundary.
pub const GAP_THRESHOLD_SECS: u64 = 300;

/// Window "blur" events shorter than this are alt-tab-and-back flicker, not
/// real focus changes, and are dropped.
pub const FLICKER_THRESHOLD_SECS: u64 = 1;

/// Repeating the exact same command + cwd within this window is treated as
/// up-arrow-and-rerun spam and only the first occurrence is kept.
pub const COMMAND_REPEAT_WINDOW_SECS: u64 = 5;

/// A browser search/navigation within this many seconds of a failing test
/// run is tagged as likely related to that failure.
pub const TEST_FAILURE_CORRELATION_WINDOW_SECS: u64 = 120;

/// How long a continuous run of off-task browsing has to last before it's
/// treated as the start of a new session - the user has drifted away from
/// the project entirely, not just glanced at a tab.
pub const OFF_TASK_DRIFT_THRESHOLD_SECS: u64 = 180;

/// Apps that tend to run continuously in the background and whose focus
/// events carry little signal about what the user is working on, by their
/// lowercase name.
pub open spec fn background(lower: Seq<char>) -> bool {
    ||| contains(lower, "spotify"@)
    ||| contains(lower, "nm-applet"@)
    ||| contains(lower, "blueman-applet"@)
    ||| contains(lower, "xfce4-power-manager"@)
    ||| contains(lower, "indicator-application"@)
}

/// Whether a lowercase application name is that of a background app.
pub fn is_background_name(lower: &str) -> (r: bool)
    ensures
        r == background(lower@),
{
    has(lower, "spotify") || has(lower, "nm-applet") || has(lower, "blueman-applet") || has(
        lower,
        "xfce4-power-manager",
    ) || has(lower, "indicator-application")
}

/// The application runs in the background.
pub open spec fn in_background(application: Option<Seq<char>>) -> bool {
    match application {
        Some(app) => background(lowercase(app)),
        None => false,
    }
}

pub fn is_background_app(application: &Option<String>) -> (r: bool)
    ensures
        r == in_background(opt_view(*application)),
{
    match application {
        Some(app) => {
            let lower = text::to_lowercase(app.as_str());
            is_background_name(lower.as_str())
        },
        None => false,
    }
}

/// Browser categories that represent off-task browsing (social media,
/// entertainment) rather than research/documentation related to the current
/// project.
pub open spec fn off_task(category: Option<Seq<char>>) -> bool {
    category == Some("entertainment"@) || category == Some("social"@)
}

/// Mutable state threaded through the normalization pipeline: tracks the
/// current session, the inferred "current project", and bookkeeping needed
/// for noise suppression and cross-source correlation.
pub struct NormalizerState {
    pub seq: u64,
    pub session_id: u64,
    pub last_activity_ts: Option<u64>,
    pub current_project: Option<String>,
    pub last_command: Option<(String, Option<String>, u64)>,
    pub last_test_failure_ts: Option<u64>,
    /// When the current run of off-task browsing (entertainment/social)
    /// started, if any. Reset to `None` by any on-task activity.
    pub off_task_since: Option<u64>,
    /// True once the current off-task run has already triggered a session
    /// boundary, so it isn't fired again every subsequent off-task event.
    pub off_task_boundary_fired: bool,
}

/// What a [`NormalizerState`] holds.
#[verifier::ext_equal]
pub struct NormalizerView {
    /// The number of normalized events so far.
    pub seq: nat,
    pub session_id: nat,
    pub last_activity: Option<u64>,
    pub project: Option<Seq<char>>,
    /// The last command, its working directory and its time.
    pub last_command: Option<(Seq<char>, Option<Seq<char>>, u64)>,
    pub last_test_failure: Option<u64>,
    pub off_task_since: Option<u64>,
    pub drift_fired: bool,
}

impl View for NormalizerState {
    type V = NormalizerView;

    open spec fn view(&self) -> NormalizerView {
        NormalizerView {
            seq: self.seq as nat,
            session_id: self.session_id as nat,
            last_activity: self.last_activity_ts,
            project: opt_view(self.current_project),
            last_command: match self.last_command {
                Some(c) => Some((c.0@, opt_view(c.1), c.2)),
                None => None,
            },
            last_test_failure: self.last_test_failure_ts,
            off_task_since: self.off_task_since,
            drift_fired: self.off_task_boundary_fired,
        }
    }
}

/// How many events one raw event can add, and sessions it can open, at most.
pub const MAX_EVENTS_PER_STEP: u64 = 4;

// ---------------------------------------------------------------------
// The transitions
// ---------------------------------------------------------------------

/// A state and the event that comes with it, if any.
pub type Noted = (NormalizerView, Option<NormalizedEventView>);

impl NormalizerView {
    /// The state before any event.
    pub open spec fn initial() -> NormalizerView {
        NormalizerView {
            seq: 0,
            session_id: 1,
            last_activity: None,
            project: None,
            last_command: None,
            last_test_failure: None,
            off_task_since: None,
            drift_fired: false,
        }
    }

    /// The counters leave room for the events of `n` more steps.
    pub open spec fn room(self, n: nat) -> bool {
        &&& self.seq + n <= u64::MAX
        &&& self.session_id + n <= u64::MAX
    }

    /// One more event counted.
    pub open spec fn counted(self) -> NormalizerView {
        NormalizerView { seq: self.seq + 1, ..self }
    }

    /// A new session begins: its number is the next one, and the event that
    /// says so belongs to the new session.
    pub open spec fn boundary(self, timestamp: u64, reason: Seq<char>, summary: Seq<char>) -> (
        NormalizerView,
        NormalizedEventView,
    ) {
        (
            NormalizerView { session_id: self.session_id + 1, seq: self.seq + 1, ..self },
            NormalizedEventView {
                seq: self.seq + 1,
                timestamp,
                session_id: self.session_id + 1,
                source: "session"@,
                kind: "session_boundary"@,
                summary,
                entities: EntitiesView { category: Some(reason), ..EntitiesView::none() },
                correlated_with: Seq::empty(),
            },
        )
    }

    /// Activity at `timestamp` comes more than the gap after the last one.
    pub open spec fn gap_before(self, timestamp: u64) -> bool {
        self.last_activity matches Some(prev) && timestamp - prev > GAP_THRESHOLD_SECS
    }

    /// The last activity is now the later one of it and `timestamp`.
    pub open spec fn active_at(self, timestamp: u64) -> NormalizerView {
        NormalizerView {
            last_activity: match self.last_activity {
                Some(prev) if timestamp <= prev => Some(prev),
                _ => Some(timestamp),
            },
            ..self
        }
    }

    pub open spec fn activity(self, timestamp: u64) -> Noted {
        if self.gap_before(timestamp) {
            let minutes = (timestamp - self.last_activity->0) / 60;
            let (s, e) = self.boundary(
                timestamp,
                "inactivity_gap"@,
                "Inactive for "@ + decimal(minutes as nat) + " min"@,
            );
            (s.active_at(timestamp), Some(e))
        } else {
            (self.active_at(timestamp), None)
        }
    }

    /// `project` becomes the current one; leaving another one for it begins
    /// a new session.
    pub open spec fn in_project(self, project: Seq<char>, timestamp: u64) -> Noted {
        match self.project {
            Some(prev) => if prev == project {
                (self, None)
            } else {
                let (s, e) = NormalizerView { project: Some(project), ..self }.boundary(
                    timestamp,
                    "project_switch"@,
                    "Switched project: "@ + prev + " -> "@ + project,
                );
                (s, Some(e))
            },
            None => (NormalizerView { project: Some(project), ..self }, None),
        }
    }

    pub open spec fn commit(self, timestamp: u64) -> (NormalizerView, NormalizedEventView) {
        self.boundary(timestamp, "git_commit"@, "Committed changes"@)
    }

    /// No off-task run is going on.
    pub open spec fn on_task(self) -> NormalizerView {
        NormalizerView { off_task_since: None, drift_fired: false, ..self }
    }

    /// When the off-task run that `timestamp` belongs to began.
    pub open spec fn run_start(self, timestamp: u64) -> u64 {
        match self.off_task_since {
            Some(since) => since,
            None => timestamp,
        }
    }

    pub open spec fn browsing(self, category: Option<Seq<char>>, timestamp: u64) -> Noted {
        if !off_task(category) {
            (self.on_task(), None)
        } else {
            let running = NormalizerView {
                off_task_since: Some(self.run_start(timestamp)),
                ..self
            };
            if !self.drift_fired && timestamp - self.run_start(timestamp)
                >= OFF_TASK_DRIFT_THRESHOLD_SECS {
                let (s, e) = NormalizerView { drift_fired: true, project: None, ..running }.boundary(
                    timestamp,
                    "off_task_drift"@,
                    "Drifted to unrelated browsing"@,
                );
                (s, Some(e))
            } else {
                (running, None)
            }
        }
    }

    /// The command repeats the last one in the same directory, no more than
    /// the repeat window later.
    pub open spec fn repeats(
        self,
        command: Seq<char>,
        cwd: Option<Seq<char>>,
        timestamp: u64,
    ) -> bool {
        self.last_command matches Some(last) && last.0 == command && last.1 == cwd && timestamp
            - last.2 <= COMMAND_REPEAT_WINDOW_SECS
    }

    pub open spec fn ran(
        self,
        command: Seq<char>,
        cwd: Option<Seq<char>>,
        timestamp: u64,
    ) -> NormalizerView {
        NormalizerView { last_command: Some((command, cwd, timestamp)), ..self }
    }

    pub open spec fn test_failed(self, timestamp: u64) -> NormalizerView {
        NormalizerView { last_test_failure: Some(timestamp), ..self }
    }

    /// A test failed at or before `timestamp`, no more than the correlation
    /// window earlier.
    pub open spec fn recent_failure(self, timestamp: u64) -> bool {
        self.last_test_failure matches Some(t) && 0 <= timestamp - t
            <= TEST_FAILURE_CORRELATION_WINDOW_SECS
    }

    /// The recorded test failure is used up if `timestamp` is close to it.
    pub open spec fn correlated(self, timestamp: u64) -> NormalizerView {
        if self.recent_failure(timestamp) {
            NormalizerView { last_test_failure: None, ..self }
        } else {
            self
        }
    }
}

/// The view of an event that may have come.
pub open spec fn opt_event(e: Option<NormalizedEvent>) -> Option<NormalizedEventView> {
    match e {
        Some(e) => Some(e@),
        None => None,
    }
}

impl NormalizerState {
    pub fn new() -> (r: Self)
        ensures
            r@ == NormalizerView::initial(),
    {
        NormalizerState {
            seq: 0,
            session_id: 1,
            last_activity_ts: None,
            current_project: None,
            last_command: None,
            last_test_failure_ts: None,
            off_task_since: None,
            off_task_boundary_fired: false,
        }
    }

    /// Whether the counters leave room for the events of one more step.
    pub fn has_room(&self) -> (r: bool)
        ensures
            r == self@.room(MAX_EVENTS_PER_STEP as nat),
    {
        self.seq <= u64::MAX - MAX_EVENTS_PER_STEP && self.session_id <= u64::MAX
            - MAX_EVENTS_PER_STEP
    }

    /// The number of the session that is open.
    pub fn session(&self) -> (r: u64)
        ensures
            r == self@.session_id,
    {
        self.session_id
    }

    pub fn next_seq(&mut self) -> (r: u64)
        requires
            old(self)@.seq < u64::MAX,
        ensures
            r == old(self)@.seq + 1,
            final(self)@ == old(self)@.counted(),
    {
        self.seq = self.seq + 1;
        self.seq
    }

    fn session_boundary(&mut self, timestamp: u64, reason: &str, summary: String) -> (r:
        NormalizedEvent)
        requires
            old(self)@.room(1),
        ensures
            (final(self)@, r@) == old(self)@.boundary(timestamp, reason@, summary@),
    {
        self.session_id = self.session_id + 1;
        let seq = self.next_seq();
        NormalizedEvent {
            seq,
            timestamp,
            session_id: self.session_id,
            source: "session".to_owned(),
            kind: "session_boundary".to_owned(),
            summary,
            entities: Entities { category: Some(reason.to_owned()), ..Entities::none() },
            correlated_with: Vec::new(),
        }
    }

    /// Gap-based session boundary (Stage 2): returns `Some(event)` if too
    /// much time has passed since the last recorded user activity.
    pub fn note_activity(&mut self, timestamp: u64) -> (r: Option<NormalizedEvent>)
        requires
            old(self)@.room(1),
        ensures
            (final(self)@, opt_event(r)) == old(self)@.activity(timestamp),
    {
        let mut boundary: Option<NormalizedEvent> = None;
        let mut later = true;
        if let Some(prev) = self.last_activity_ts {
            later = timestamp > prev;
            if timestamp > prev && timestamp - prev > GAP_THRESHOLD_SECS {
                let gap_mins = (timestamp - prev) / 60;
                let mut summary = "Inactive for ".to_owned();
                summary.append(render(gap_mins).as_str());
                summary.append(" min");
                boundary = Some(self.session_boundary(timestamp, "inactivity_gap", summary));
            }
        }
        if later {
            self.last_activity_ts = Some(timestamp);
        }
        boundary
    }

    /// Semantic session boundary (Stage 2): returns `Some(event)` if the
    /// inferred "current project" changed since the last activity.
    pub fn note_project(&mut self, project: &str, timestamp: u64) -> (r: Option<NormalizedEvent>)
        requires
            old(self)@.room(1),
        ensures
            (final(self)@, opt_event(r)) == old(self)@.in_project(project@, timestamp),
    {
        if let Some(current) = &self.current_project {
            if same(current.as_str(), project) {
                return None;
            }
        }
        let prev = clone_opt(&self.current_project);
        self.current_project = Some(project.to_owned());
        match prev {
            Some(prev) => {
                let mut summary = "Switched project: ".to_owned();
                summary.append(prev.as_str());
                summary.append(" -> ");
                summary.append(project);
                Some(self.session_boundary(timestamp, "project_switch", summary))
            },
            None => None,
        }
    }

    /// Semantic session boundary (Stage 2): a `git commit` marks the end of
    /// a unit of work regardless of the inactivity gap.
    pub fn git_commit_boundary(&mut self, timestamp: u64) -> (r: NormalizedEvent)
        requires
            old(self)@.room(1),
        ensures
            (final(self)@, r@) == old(self)@.commit(timestamp),
    {
        self.session_boundary(timestamp, "git_commit", "Committed changes".to_owned())
    }

    /// Semantic session boundary (Stage 2): the user has been browsing
    /// off-task content (social media, entertainment) for at least
    /// [`OFF_TASK_DRIFT_THRESHOLD_SECS`]. Even if the gaps between individual
    /// navigations are short enough to not trip the inactivity-gap boundary,
    /// a sustained run of unrelated browsing means whatever comes next is a
    /// new unit of work, not a continuation of the current project session.
    ///
    /// Returns `Some(event)` at most once per off-task run (when the
    /// threshold is first crossed); any on-task activity
    /// ([`Self::note_on_task_activity`]) resets the run.
    pub fn note_browser_category(&mut self, category: Option<&str>, timestamp: u64) -> (r: Option<
        NormalizedEvent,
    >)
        requires
            old(self)@.room(1),
        ensures
            (final(self)@, opt_event(r)) == old(self)@.browsing(opt_str_view(category), timestamp),
    {
        let is_off_task = match category {
            Some(c) => same(c, "entertainment") || same(c, "social"),
            None => false,
        };
        if !is_off_task {
            self.off_task_since = None;
            self.off_task_boundary_fired = false;
            return None;
        }
        let since = match self.off_task_since {
            Some(since) => since,
            None => timestamp,
        };
        self.off_task_since = Some(since);
        if !self.off_task_boundary_fired && timestamp.saturating_sub(since)
            >= OFF_TASK_DRIFT_THRESHOLD_SECS {
            self.off_task_boundary_fired = true;
            // The user has drifted away from whatever project they were in -
            // forget it so a return to that project is recognized as a fresh
            // switch rather than "no change".
            self.current_project = None;
            return Some(
                self.session_boundary(
                    timestamp,
                    "off_task_drift",
                    "Drifted to unrelated browsing".to_owned(),
                ),
            );
        }
        None
    }

    /// Any non-browser activity, or on-task browsing, clears a pending
    /// off-task run - e.g. switching back to the editor before the drift
    /// threshold elapses shouldn't later trigger a stale boundary.
    pub fn note_on_task_activity(&mut self)
        ensures
            final(self)@ == old(self)@.on_task(),
    {
        self.off_task_since = None;
        self.off_task_boundary_fired = false;
    }

    /// Stage 5 noise suppression: true if this is the same command + cwd as
    /// the last one, within `COMMAND_REPEAT_WINDOW_SECS` (up-arrow spam).
    pub fn is_repeated_command(
        &self,
        command: &str,
        cwd: &Option<String>,
        timestamp: u64,
    ) -> (r: bool)
        ensures
            r == self@.repeats(command@, opt_view(*cwd), timestamp),
    {
        match &self.last_command {
            Some(last) => {
                same(last.0.as_str(), command) && same_opt(&last.1, cwd)
                    && timestamp.saturating_sub(last.2) <= COMMAND_REPEAT_WINDOW_SECS
            },
            None => false,
        }
    }

    pub fn record_command(&mut self, command: &str, cwd: &Option<String>, timestamp: u64)
        ensures
            final(self)@ == old(self)@.ran(command@, opt_view(*cwd), timestamp),
    {
        self.last_command = Some((command.to_owned(), clone_opt(cwd), timestamp));
    }

    pub fn current_project(&self) -> (r: Option<String>)
        ensures
            opt_view(r) == self@.project,
    {
        clone_opt(&self.current_project)
    }

    pub fn record_test_failure(&mut self, timestamp: u64)
        ensures
            final(self)@ == old(self)@.test_failed(timestamp),
    {
        self.last_test_failure_ts = Some(timestamp);
    }

    /// Stage 4 correlation: if `timestamp` falls within
    /// `TEST_FAILURE_CORRELATION_WINDOW_SECS` of a recorded test failure,
    /// consume that flag and return true.
    pub fn check_test_failure_correlation(&mut self, timestamp: u64) -> (r: bool)
        ensures
            r == old(self)@.recent_failure(timestamp),
            final(self)@ == old(self)@.correlated(timestamp),
    {
        if let Some(t) = self.last_test_failure_ts {
            if timestamp >= t && timestamp - t <= TEST_FAILURE_CORRELATION_WINDOW_SECS {
                self.last_test_failure_ts = None;
                return true;
            }
        }
        false
    }
}

} // verus!
