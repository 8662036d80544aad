//! The long-term user profile: the slowest-changing layer of the intent
//! system, persisted across sessions.
//!
//! This module defines the schema and a generic "typical developer" seed.
//!
//! ## Producers and consumers, at a glance
//!
//! - **Onboarding questionnaire** (not yet built): the only writer of
//!   [`Identity`]. Until it exists, [`UserProfile::seed_typical_developer`]
//!   stands in as the prior.
//! - **Distiller**: runs when a session closes. Each group below documents
//!   which aggregation strategy the distiller uses for it and what it writes.
//! - **Recommendation engine**: updates
//!   `behavioral.recommendation_accept_rate` directly when a suggestion is
//!   accepted or dismissed.
//!
//! `meta.confidence_by_group` is the trust gate every reader should check
//! before leaning on a group's data: a freshly seeded profile has zero
//! confidence everywhere, even though every field has a plausible default
//! value to avoid "no data" special-casing.

use crate::path;
use crate::quantity::{
    Quantity, FORTY_FIVE, FOUR, POINT_15, POINT_3, POINT_35, POINT_4, POINT_5, POINT_6, POINT_7,
    POINT_8, TWENTY, TWENTY_FIVE, ZERO,
};
use crate::table::Table;
use crate::text::{opt_str_view, views};
use vstd::prelude::*;

verus! {

/// Bumped only when this schema changes (by a migration), never by the
/// distiller.
pub const PROFILE_SCHEMA_VERSION: u32 = 1;

#[derive(Debug, Clone)]
pub struct UserProfile {
    pub identity: Identity,
    pub stack: Stack,
    pub rhythm: Rhythm,
    pub projects: Projects,
    pub friction: Friction,
    pub behavioral: Behavioral,
    pub meta: Meta,
}

/// Group 1 - Identity + onboarding.
///
/// **Written by:** the onboarding questionnaire, once. The distiller never
/// overwrites these fields directly - `friction.friction_confirmed` is where
/// observation can confirm or contradict `friction_self_reported` without
/// touching the raw self-report.
///
/// **Read by:** intent inference, as the prior for role/work-style when
/// `meta.confidence_by_group` is still low; and the recommendation engine,
/// for which a *divergence* between `role_self_reported` and observed
/// activity (e.g. a "backend engineer" whose sessions are mostly CSS) is
/// itself a signal worth surfacing.
#[derive(Debug, Clone)]
pub struct Identity {
    pub role_self_reported: String,
    pub friction_self_reported: Vec<String>,
    pub work_style_self_reported: String,
    pub onboarding_completed_at: u64,
    pub onboarding_version: u32,
}

/// Group 2 - Stack + tooling.
///
/// **Written by:** the distiller's frequency aggregator (recency-weighted
/// frequency count). Every session, the languages/tools/domains touched
/// (read off `entities.app`/`entities.tool`/`entities.domain` in normalized
/// events) get their weights bumped, and all weights decay slightly so stale
/// tools fade out.
///
/// **Read by:** intent inference, to judge whether the current
/// tool/domain/file type is familiar territory for this user (familiar ->
/// low-friction activity is unremarkable; unfamiliar -> the same activity
/// may indicate exploration or being stuck). Also read by the recommendation
/// engine: `tool_proficiency.avg_blocked_min_per_session` decides whether a
/// suggestion should be a terse fix or a conceptual explanation, and
/// `doc_domains` decides which docs to link first.
#[derive(Debug, Clone)]
pub struct Stack {
    pub stack_weights: Table<Quantity>,
    pub tool_proficiency: Table<ToolProficiency>,
    pub doc_domains: Vec<DocDomain>,
    pub shell: String,
    pub editor: String,
    pub os: String,
}

#[derive(Debug, Clone, Copy)]
pub struct ToolProficiency {
    pub weight: Quantity,
    pub avg_blocked_min_per_session: Quantity,
}

#[derive(Debug, Clone)]
pub struct DocDomain {
    pub domain: String,
    pub weight: Quantity,
}

/// Group 3 - Work rhythm.
///
/// **Written by:** the distiller's rolling-average aggregator (window of the
/// last 20 sessions) for `avg_session_len_min` and `session_len_stddev`; its
/// moving averages for `active_hours` and `typical_phase_durations`; and the
/// pattern accumulator for `phase_sequence`, which keeps only the top 3
/// observed transitions. `focus_style`, `focus_style_confidence` and
/// `interruption_gap_threshold_min` keep their seeded values.
///
/// **Read by:** the immediate layer: `typical_phase_durations` says how long
/// this user usually debugs, and `interruption_gap_threshold_min` for how long
/// to leave them alone after an intervention.
#[derive(Debug, Clone)]
pub struct Rhythm {
    pub avg_session_len_min: Quantity,
    pub session_len_stddev: Quantity,
    /// `"deep"` or `"switching"`.
    pub focus_style: String,
    pub focus_style_confidence: Quantity,
    /// Hour-of-day ("00".."23") -> activity weight in [0, 1].
    pub active_hours: Table<Quantity>,
    /// Top 2-3 observed phase transition sequences, most common first.
    pub phase_sequence: Vec<Vec<String>>,
    pub typical_phase_durations: Table<PhaseDuration>,
    pub interruption_gap_threshold_min: u32,
}

#[derive(Debug, Clone, Copy)]
pub struct PhaseDuration {
    pub avg_min: Quantity,
    pub resolves_within_session: Quantity,
}

/// Group 4 - Projects.
///
/// **Written by:** the distiller's frequency aggregator. Each session
/// updates `last_active`, `session_count`, `phase_distribution`, and
/// `active_branches` for the project(s) touched, matched by name; new
/// projects are appended. `cross_project_patterns` is left as it is.
///
/// **Read by:** readers who need a prior per project: a project that's
/// historically 80% debugging makes "stuck" the more likely read of
/// ambiguous activity there.
#[derive(Debug, Clone)]
pub struct Projects {
    pub projects: Vec<Project>,
    pub last_active_project: Option<String>,
    /// Workflow patterns observed across more than one project - the
    /// strongest candidates for workflow automation since they're the
    /// user's general habits, not project-specific ones.
    pub cross_project_patterns: Vec<CrossProjectPattern>,
}

#[derive(Debug, Clone)]
pub struct Project {
    pub id: String,
    pub name: String,
    pub root: String,
    pub primary_stack: Vec<String>,
    pub last_active: u64,
    pub session_count: u32,
    pub phase_distribution: Table<Quantity>,
    pub active_branches: Vec<String>,
    pub collaborators: Vec<String>,
}

#[derive(Debug, Clone)]
pub struct CrossProjectPattern {
    pub pattern: String,
    pub projects: Vec<String>,
}

/// Group 5 - Friction patterns.
///
/// **Written by:** the distiller's pattern accumulator. Candidate patterns
/// (recurring errors, repeated command sequences) accumulate `count` and
/// `blocked_min_total`; once a pattern crosses a promotion threshold its
/// `status` moves from `"candidate"` to `"confirmed"`. When a confirmed
/// pattern's `tool`/`error_class` matches an entry in
/// `identity.friction_self_reported`, that entry is copied into
/// `friction_confirmed` and the pattern's `self_reported_match` is set.
/// `resolution_paths` is updated from what the user actually did right after
/// a friction event (next browser nav to docs, terminal trial-and-error, or
/// the session just ending).
///
/// **Read by:** the recommendation engine, primarily. `blocked_min_total`
/// ranks which friction is most worth automating; `status == "confirmed"`
/// together with `meta.confidence_by_group.friction` gates whether a
/// friction-remover suggestion fires at all; `resolution_paths` (split by
/// friction type) decides *what kind* of suggestion to make - e.g. a doc
/// link for `error_loop` if `doc_lookup` dominates there, versus a more
/// exploratory prompt for `stuck_general` if it's evenly split.
/// `command_sequences` feeds workflow-accelerator suggestions directly.
#[derive(Debug, Clone)]
pub struct Friction {
    pub friction_patterns: Vec<FrictionPattern>,
    /// Self-reported friction items (from `identity.friction_self_reported`)
    /// that observation has confirmed.
    pub friction_confirmed: Vec<String>,
    pub command_sequences: Vec<CommandSequence>,
    /// Friction type (e.g. `"error_loop"`, `"stuck_general"`) -> resolution
    /// strategy -> share of occurrences resolved that way.
    pub resolution_paths: Table<Table<Quantity>>,
}

#[derive(Debug, Clone)]
pub struct FrictionPattern {
    pub id: String,
    pub tool: String,
    pub error_class: String,
    /// `"candidate"` or `"confirmed"`.
    pub status: String,
    pub count: u32,
    pub blocked_min_total: Quantity,
    pub first_seen: u64,
    pub last_seen: u64,
    pub weight: Quantity,
    pub resolution_paths: Vec<String>,
    pub self_reported_match: bool,
}

#[derive(Debug, Clone)]
pub struct CommandSequence {
    pub seq: Vec<String>,
    pub count: u32,
    pub last_seen: u64,
    pub weight: Quantity,
    /// `"candidate"` or `"confirmed"`.
    pub status: String,
    pub projects: Vec<String>,
}

/// Group 6 - Behavioral tendencies.
///
/// **Written by:** the distiller's moving average for
/// `search_before_try_ratio`. The recommendation engine is the one direct
/// (non-distiller) writer in the whole profile: it updates
/// `recommendation_accept_rate` immediately when a suggestion is accepted or
/// dismissed, since that's an outcome rather than something distilled from
/// session history.
///
/// **Read by:** the recommendation engine - `recommendation_accept_rate` per
/// suggestion type re-weights which types fire at all;
/// `search_before_try_ratio` chooses explanatory vs. terse phrasing.
/// `pref_recommendation_verbosity`/`pref_recommendation_timing` start as
/// defaults derived from `rhythm.focus_style`, but once a field's name
/// appears in `pref_locked` (the user set it explicitly) it becomes a hard
/// constraint that distillation must not overwrite.
#[derive(Debug, Clone)]
pub struct Behavioral {
    pub interruption_tolerance: Quantity,
    /// Suggestion type -> historical accept rate.
    pub recommendation_accept_rate: Table<Quantity>,
    pub search_before_try_ratio: Quantity,
    pub context_switch_freq_per_day: Quantity,
    /// `"concise"` or `"detailed"`.
    pub pref_recommendation_verbosity: String,
    /// e.g. `"on_pause"`.
    pub pref_recommendation_timing: String,
    /// Names of `pref_*` fields the user has explicitly set (via settings or
    /// the questionnaire) - these are never overwritten by inferred
    /// defaults.
    pub pref_locked: Vec<String>,
}

/// Group 7 - Profile meta + health.
///
/// **Written by:** the distiller's decay + promotion stage, every time it
/// runs (after each session closes). Bumps `sessions_total`/
/// `sessions_in_window`, recomputes `confidence_overall` and
/// `confidence_by_group` from how much and how recent the data behind each
/// group is, and records `last_distilled_at`/`decay_last_run`.
/// `profile_schema_version` is bumped only by schema migrations.
///
/// **Read by:** every consumer, as the trust gate checked before leaning on
/// a group's data - e.g. intent inference falls back to generic priors while
/// `confidence_by_group.rhythm` is low, and the recommendation engine
/// requires `confidence_by_group.friction` above a threshold before treating
/// `friction.friction_patterns` as reliable.
#[derive(Debug, Clone)]
pub struct Meta {
    pub created_at: u64,
    pub last_distilled_at: Option<u64>,
    pub sessions_total: u32,
    pub sessions_in_window: u32,
    pub confidence_overall: Quantity,
    pub confidence_by_group: ConfidenceByGroup,
    pub decay_last_run: Option<u64>,
    pub profile_schema_version: u32,
}

#[derive(Debug, Clone, Copy)]
pub struct ConfidenceByGroup {
    pub stack: Quantity,
    pub rhythm: Quantity,
    pub friction: Quantity,
    pub behavioral: Quantity,
}

impl UserProfile {
    /// No table of the profile holds a name twice.
    pub open spec fn wf(&self) -> bool {
        &&& self.stack.stack_weights.wf()
        &&& self.stack.tool_proficiency.wf()
        &&& self.rhythm.active_hours.wf()
        &&& self.rhythm.typical_phase_durations.wf()
        &&& forall|i: int|
            0 <= i < self.projects.projects@.len() ==> (
            #[trigger] self.projects.projects@[i]).phase_distribution.wf()
        &&& self.friction.resolution_paths.wf()
        &&& forall|name: Seq<char>| #[trigger]
            self.friction.resolution_paths@.dom().contains(name)
                ==> self.friction.resolution_paths@[name].wf()
        &&& self.behavioral.recommendation_accept_rate.wf()
    }
}

/// The typical curve of a working day.
pub open spec fn nine_to_five() -> Map<Seq<char>, Quantity> {
    Map::empty().insert("09"@, Quantity { bits: POINT_4 }).insert(
        "10"@,
        Quantity { bits: POINT_7 },
    ).insert("11"@, Quantity { bits: POINT_8 }).insert("12"@, Quantity { bits: POINT_4 }).insert(
        "13"@,
        Quantity { bits: POINT_3 },
    ).insert("14"@, Quantity { bits: POINT_7 }).insert("15"@, Quantity { bits: POINT_8 }).insert(
        "16"@,
        Quantity { bits: POINT_6 },
    ).insert("17"@, Quantity { bits: POINT_3 })
}

/// Generic 9-to-5 weekday curve, ramping up mid-morning and mid-afternoon
/// with a lunch dip - a neutral starting point until `active_hours` is
/// distilled from real session timestamps.
pub fn default_active_hours() -> (r: Table<Quantity>)
    ensures
        r.wf(),
        r@ == nine_to_five(),
{
    let mut hours: Table<Quantity> = Table::new();
    hours.set("09", Quantity { bits: POINT_4 });
    hours.set("10", Quantity { bits: POINT_7 });
    hours.set("11", Quantity { bits: POINT_8 });
    hours.set("12", Quantity { bits: POINT_4 });
    hours.set("13", Quantity { bits: POINT_3 });
    hours.set("14", Quantity { bits: POINT_7 });
    hours.set("15", Quantity { bits: POINT_8 });
    hours.set("16", Quantity { bits: POINT_6 });
    hours.set("17", Quantity { bits: POINT_3 });
    hours
}

/// How stuck developers get on.
pub open spec fn neutral_resolutions() -> Map<Seq<char>, Quantity> {
    Map::empty().insert("doc_lookup"@, Quantity { bits: POINT_5 }).insert(
        "trial_error"@,
        Quantity { bits: POINT_35 },
    ).insert("step_away"@, Quantity { bits: POINT_15 })
}

fn neutral() -> (r: Table<Quantity>)
    ensures
        r.wf(),
        r@ == neutral_resolutions(),
{
    let mut paths: Table<Quantity> = Table::new();
    paths.set("doc_lookup", Quantity { bits: POINT_5 });
    paths.set("trial_error", Quantity { bits: POINT_35 });
    paths.set("step_away", Quantity { bits: POINT_15 });
    paths
}

/// Neutral prior: getting unstuck mostly via docs, then trial-and-error,
/// rarely by stepping away - applied to both friction types until observed
/// resolutions diverge.
pub fn default_resolution_paths() -> (r: Table<Table<Quantity>>)
    ensures
        r.wf(),
        r@.dom() == set!["error_loop"@, "stuck_general"@],
        forall|name: Seq<char>| #[trigger]
            r@.dom().contains(name) ==> r@[name].wf() && r@[name]@ == neutral_resolutions(),
{
    let mut paths: Table<Table<Quantity>> = Table::new();
    paths.set("error_loop", neutral());
    paths.set("stuck_general", neutral());
    assert(paths@.dom() =~= set!["error_loop"@, "stuck_general"@]);
    paths
}

/// Even odds for every type of recommendation.
pub open spec fn even_odds() -> Map<Seq<char>, Quantity> {
    Map::empty().insert("friction_remover"@, Quantity { bits: POINT_5 }).insert(
        "knowledge_bridge"@,
        Quantity { bits: POINT_5 },
    ).insert("workflow_accelerator"@, Quantity { bits: POINT_5 }).insert(
        "state_preserver"@,
        Quantity { bits: POINT_5 },
    )
}

/// Neutral 50% prior for every recommendation type until acceptance/decline
/// outcomes are recorded.
pub fn default_accept_rates() -> (r: Table<Quantity>)
    ensures
        r.wf(),
        r@ == even_odds(),
{
    let mut rates: Table<Quantity> = Table::new();
    rates.set("friction_remover", Quantity { bits: POINT_5 });
    rates.set("knowledge_bridge", Quantity { bits: POINT_5 });
    rates.set("workflow_accelerator", Quantity { bits: POINT_5 });
    rates.set("state_preserver", Quantity { bits: POINT_5 });
    rates
}

/// The name of the shell that a `SHELL` variable points to.
pub open spec fn shell_name(shell: Option<Seq<char>>) -> Seq<char> {
    match shell {
        Some(shell) => match path::name_of(shell) {
            Some(name) => name,
            None => "bash"@,
        },
        None => "bash"@,
    }
}

/// The transitions between phases that a typical developer goes through.
pub open spec fn typical_transitions(sequences: Seq<Vec<String>>) -> bool {
    &&& sequences.len() == 2
    &&& views(sequences[0]@) == seq!["implementation"@, "debugging"@]
    &&& views(sequences[1]@) == seq!["exploration"@, "implementation"@]
}

fn transition(from: &str, to: &str) -> (r: Vec<String>)
    ensures
        views(r@) == seq![from@, to@],
{
    let mut v: Vec<String> = Vec::new();
    v.push(from.to_owned());
    v.push(to.to_owned());
    assert(views(v@) =~= seq![from@, to@]);
    v
}

impl UserProfile {
    /// A generic "typical developer" baseline, used until the onboarding
    /// questionnaire exists, for a developer who works with the shell that
    /// the `SHELL` variable points to, on the given operating system. All
    /// `meta.confidence_*` fields start at 0 - nothing has been observed yet -
    /// but every other field gets a plausible prior so downstream consumers
    /// never need to special-case "no data".
    pub fn seed_typical_developer(now: u64, shell: Option<&str>, os: &str) -> (r: Self)
        ensures
            r.wf(),
            r.identity.role_self_reported@ == "software developer"@,
            r.identity.friction_self_reported@.len() == 0,
            r.identity.work_style_self_reported@
                == "mixed: deep focus with periodic context switches"@,
            r.identity.onboarding_completed_at == now,
            r.identity.onboarding_version == 1,
            r.stack.stack_weights@ == Map::<Seq<char>, Quantity>::empty(),
            r.stack.tool_proficiency@ == Map::<Seq<char>, ToolProficiency>::empty(),
            r.stack.doc_domains@.len() == 0,
            r.stack.shell@ == shell_name(opt_str_view(shell)),
            r.stack.editor@ == "vscode"@,
            r.stack.os@ == os@,
            r.rhythm.avg_session_len_min.bits == FORTY_FIVE,
            r.rhythm.session_len_stddev.bits == TWENTY,
            r.rhythm.focus_style@ == "deep"@,
            r.rhythm.focus_style_confidence.bits == ZERO,
            r.rhythm.active_hours@ == nine_to_five(),
            typical_transitions(r.rhythm.phase_sequence@),
            r.rhythm.typical_phase_durations@ == Map::<Seq<char>, PhaseDuration>::empty().insert(
                "debugging"@,
                (PhaseDuration {
                    avg_min: Quantity { bits: TWENTY_FIVE },
                    resolves_within_session: Quantity { bits: POINT_6 },
                }),
            ),
            r.rhythm.interruption_gap_threshold_min == 5,
            r.projects.projects@.len() == 0,
            r.projects.last_active_project is None,
            r.projects.cross_project_patterns@.len() == 0,
            r.friction.friction_patterns@.len() == 0,
            r.friction.friction_confirmed@.len() == 0,
            r.friction.command_sequences@.len() == 0,
            r.friction.resolution_paths@.dom() == set!["error_loop"@, "stuck_general"@],
            forall|name: Seq<char>| #[trigger]
                r.friction.resolution_paths@.dom().contains(name)
                    ==> r.friction.resolution_paths@[name]@ == neutral_resolutions(),
            r.behavioral.interruption_tolerance.bits == POINT_5,
            r.behavioral.recommendation_accept_rate@ == even_odds(),
            r.behavioral.search_before_try_ratio.bits == POINT_5,
            r.behavioral.context_switch_freq_per_day.bits == FOUR,
            r.behavioral.pref_recommendation_verbosity@ == "concise"@,
            r.behavioral.pref_recommendation_timing@ == "on_pause"@,
            r.behavioral.pref_locked@.len() == 0,
            r.meta.created_at == now,
            r.meta.last_distilled_at is None,
            r.meta.sessions_total == 0,
            r.meta.sessions_in_window == 0,
            r.meta.confidence_overall.bits == ZERO,
            r.meta.confidence_by_group.stack.bits == ZERO,
            r.meta.confidence_by_group.rhythm.bits == ZERO,
            r.meta.confidence_by_group.friction.bits == ZERO,
            r.meta.confidence_by_group.behavioral.bits == ZERO,
            r.meta.decay_last_run is None,
            r.meta.profile_schema_version == PROFILE_SCHEMA_VERSION,
            r.meta.profile_schema_version == 1,
    {
        let zero = Quantity { bits: ZERO };
        let half = Quantity { bits: POINT_5 };
        let shell = match shell {
            Some(s) => match path::file_name(s) {
                Some(name) => name,
                None => "bash".to_owned(),
            },
            None => "bash".to_owned(),
        };
        let mut phase_sequence: Vec<Vec<String>> = Vec::new();
        phase_sequence.push(transition("implementation", "debugging"));
        phase_sequence.push(transition("exploration", "implementation"));
        let mut typical_phase_durations: Table<PhaseDuration> = Table::new();
        typical_phase_durations.set(
            "debugging",
            PhaseDuration {
                avg_min: Quantity { bits: TWENTY_FIVE },
                resolves_within_session: Quantity { bits: POINT_6 },
            },
        );
        UserProfile {
            identity: Identity {
                role_self_reported: "software developer".to_owned(),
                friction_self_reported: Vec::new(),
                work_style_self_reported:
                    "mixed: deep focus with periodic context switches".to_owned(),
                onboarding_completed_at: now,
                onboarding_version: 1,
            },
            stack: Stack {
                stack_weights: Table::new(),
                tool_proficiency: Table::new(),
                doc_domains: Vec::new(),
                shell,
                editor: "vscode".to_owned(),
                os: os.to_owned(),
            },
            rhythm: Rhythm {
                avg_session_len_min: Quantity { bits: FORTY_FIVE },
                session_len_stddev: Quantity { bits: TWENTY },
                focus_style: "deep".to_owned(),
                focus_style_confidence: zero,
                active_hours: default_active_hours(),
                phase_sequence,
                typical_phase_durations,
                interruption_gap_threshold_min: 5,
            },
            projects: Projects {
                projects: Vec::new(),
                last_active_project: None,
                cross_project_patterns: Vec::new(),
            },
            friction: Friction {
                friction_patterns: Vec::new(),
                friction_confirmed: Vec::new(),
                command_sequences: Vec::new(),
                resolution_paths: default_resolution_paths(),
            },
            behavioral: Behavioral {
                interruption_tolerance: half,
                recommendation_accept_rate: default_accept_rates(),
                search_before_try_ratio: half,
                context_switch_freq_per_day: Quantity { bits: FOUR },
                pref_recommendation_verbosity: "concise".to_owned(),
                pref_recommendation_timing: "on_pause".to_owned(),
                pref_locked: Vec::new(),
            },
            meta: Meta {
                created_at: now,
                last_distilled_at: None,
                sessions_total: 0,
                sessions_in_window: 0,
                confidence_overall: zero,
                confidence_by_group: ConfidenceByGroup {
                    stack: zero,
                    rhythm: zero,
                    friction: zero,
                    behavioral: zero,
                },
                decay_last_run: None,
                profile_schema_version: PROFILE_SCHEMA_VERSION,
            },
        }
    }
}

} // verus!
