//! Tether bridge decisions: what the sandbox supervisor reports to a Tether
//! server, how it keeps the last-known verdict when Tether is unreachable,
//! which enforcement action a verdict calls for, and how the bridge is
//! configured from the sandbox policy and the environment.
use vstd::prelude::*;
use crate::aggregator::{FlushableActivitySummary, SummaryView, flushable_views};
use crate::text::{parse_u64, parse_u64_spec, push_str, str_eq};

verus! {

/// Enforcement mode for the Tether bridge.
#[derive(Clone, Copy, PartialEq, Eq, Debug)]
pub enum TetherMode {
    /// Act on verdicts: tighten policy on caution, terminate on halt.
    Enforce,
    /// Log verdicts but take no enforcement action.
    Monitor,
}

/// Configuration for the Tether bridge.
#[derive(Debug, Clone)]
pub struct TetherConfig {
    /// Tether server base URL (e.g. "http://tether:3000").
    pub endpoint: String,
    /// Task ID in Tether that this sandbox is reporting against.
    pub task_id: String,
    /// Enforcement mode.
    pub mode: TetherMode,
    /// HTTP request timeout, in seconds.
    pub timeout_secs: u64,
}

/// Verdict returned by Tether after scoring activity drift.
#[derive(Debug, Clone, PartialEq)]
pub struct TetherVerdict {
    /// "continue", "caution", or "halt".
    pub verdict: String,
    /// Drift score (0.0 = aligned, 1.0 = completely drifted), as the bits of
    /// the `f64` value (`f64::to_bits`).
    pub drift_score_bits: Option<u64>,
    /// Human-readable feedback.
    pub feedback: Option<String>,
    /// Number of actions logged in this report.
    pub actions_logged: Option<u32>,
    /// Block index in the Tether chain.
    pub chain_block_index: Option<u64>,
}

/// Action to take after evaluating a Tether verdict.
#[derive(Clone, PartialEq, Eq, Debug)]
pub enum VerdictAction {
    /// No enforcement action needed.
    Continue,
    /// Tighten the sandbox policy; carries the drift score (as `f64` bits)
    /// that triggered the tightening.
    TightenPolicy { drift_score_bits: u64 },
    /// Terminate the sandbox process.
    Terminate,
}

/// The fields of a denial summary that the bridge reports.
pub struct FlushableDenialSummary {
    /// Destination host.
    pub host: String,
    /// Destination port.
    pub port: u16,
    /// Binary path that initiated the connection.
    pub binary: String,
    /// Why the connection was denied.
    pub deny_reason: String,
    /// Number of denials in this aggregation window.
    pub count: u32,
}

/// A single activity record sent to Tether.
pub struct ActivityRecord {
    pub host: String,
    pub port: u16,
    pub binary: String,
    pub matched_policy: String,
    pub method: Option<String>,
    pub path: Option<String>,
    pub count: u32,
}

/// A single denial record sent to Tether.
pub struct DenialRecord {
    pub host: String,
    pub port: u16,
    pub binary: String,
    pub reason: String,
    pub count: u32,
}

/// Request body for `POST /api/activity/report`.
pub struct ActivityReportRequest {
    pub task_id: String,
    pub reported_by: String,
    pub activities: Vec<ActivityRecord>,
    pub denials: Vec<DenialRecord>,
}

/// How a request to Tether ended.
pub enum ResponseOutcome {
    /// A success status with a verdict that parsed.
    Verdict(TetherVerdict),
    /// A success status whose body did not parse as a verdict.
    Unparseable,
    /// A non-success status.
    Failed,
    /// The server could not be reached.
    Unreachable,
}

// ── Model ──────────────────────────────────────────────────────────────────

/// An activity record as plain values.
pub struct RecordView {
    pub host: Seq<char>,
    pub port: u16,
    pub binary: Seq<char>,
    pub matched_policy: Seq<char>,
    pub method: Option<Seq<char>>,
    pub path: Option<Seq<char>>,
    pub count: u32,
}

/// A denial record as plain values.
pub struct DenialView {
    pub host: Seq<char>,
    pub port: u16,
    pub binary: Seq<char>,
    pub reason: Seq<char>,
    pub count: u32,
}

/// The text of an optional string.
pub open spec fn opt_view(o: Option<String>) -> Option<Seq<char>> {
    match o {
        Some(s) => Some(s@),
        None => None,
    }
}

impl View for ActivityRecord {
    type V = RecordView;

    open spec fn view(&self) -> RecordView {
        RecordView {
            host: self.host@,
            port: self.port,
            binary: self.binary@,
            matched_policy: self.matched_policy@,
            method: opt_view(self.method),
            path: opt_view(self.path),
            count: self.count,
        }
    }
}

impl View for DenialRecord {
    type V = DenialView;

    open spec fn view(&self) -> DenialView {
        DenialView {
            host: self.host@,
            port: self.port,
            binary: self.binary@,
            reason: self.reason@,
            count: self.count,
        }
    }
}

/// The views of a list of activity records.
pub open spec fn record_views(v: Seq<ActivityRecord>) -> Seq<RecordView> {
    v.map_values(|r: ActivityRecord| r@)
}

/// The views of a list of denial records.
pub open spec fn denial_views(v: Seq<DenialRecord>) -> Seq<DenialView> {
    v.map_values(|r: DenialRecord| r@)
}

/// The records of one summary: an L4-only summary (no L7 samples) gives one
/// record without method and path, counting the summary's events; an L7
/// summary gives one record per method and path sample, counting that
/// sample.
pub open spec fn summary_records(s: SummaryView) -> Seq<RecordView> {
    if s.l7_samples.len() == 0 {
        seq![
            RecordView {
                host: s.host,
                port: s.port,
                binary: s.binary,
                matched_policy: s.matched_policy,
                method: None,
                path: None,
                count: s.count,
            },
        ]
    } else {
        Seq::new(
            s.l7_samples.len(),
            |i: int|
                RecordView {
                    host: s.host,
                    port: s.port,
                    binary: s.binary,
                    matched_policy: s.matched_policy,
                    method: Some(s.l7_samples[i].method),
                    path: Some(s.l7_samples[i].path),
                    count: s.l7_samples[i].count,
                },
        )
    }
}

/// The records of a list of summaries, summary after summary.
pub open spec fn activity_records_spec(ss: Seq<SummaryView>) -> Seq<RecordView>
    decreases ss.len(),
{
    if ss.len() == 0 {
        seq![]
    } else {
        activity_records_spec(ss.drop_last()) + summary_records(ss.last())
    }
}

/// Every record of a summary carries the summary's key and matched policy;
/// an L4-only summary gives one record counting all its events, an L7
/// summary gives one record per sample, counting that sample.
pub proof fn lemma_records_carry_summary(s: SummaryView)
    ensures
        summary_records(s).len() == if s.l7_samples.len() == 0 {
            1
        } else {
            s.l7_samples.len()
        },
        forall|i: int|
            0 <= i < summary_records(s).len() ==> {
                let r = #[trigger] summary_records(s)[i];
                &&& r.host == s.host
                &&& r.port == s.port
                &&& r.binary == s.binary
                &&& r.matched_policy == s.matched_policy
            },
        s.l7_samples.len() == 0 ==> summary_records(s)[0].method is None && summary_records(s)[0].path
            is None && summary_records(s)[0].count == s.count,
        forall|i: int|
            0 <= i < s.l7_samples.len() ==> {
                let r = #[trigger] summary_records(s)[i];
                &&& r.method == Some(s.l7_samples[i].method)
                &&& r.path == Some(s.l7_samples[i].path)
                &&& r.count == s.l7_samples[i].count
            },
{
}

/// Whether a record carries the key and matched policy of a summary.
pub open spec fn carries_summary(r: RecordView, s: SummaryView) -> bool {
    &&& r.host == s.host
    &&& r.port == s.port
    &&& r.binary == s.binary
    &&& r.matched_policy == s.matched_policy
}

/// Every record of a report comes from one of the reported summaries and
/// carries its key and matched policy.
pub proof fn lemma_report_records_from_summaries(ss: Seq<SummaryView>)
    ensures
        forall|j: int|
            0 <= j < activity_records_spec(ss).len() ==> exists|i: int|
                0 <= i < ss.len() && carries_summary(
                    #[trigger] activity_records_spec(ss)[j],
                    #[trigger] ss[i],
                ),
    decreases ss.len(),
{
    if ss.len() > 0 {
        let prev = ss.drop_last();
        lemma_report_records_from_summaries(prev);
        lemma_records_carry_summary(ss.last());
        let a = activity_records_spec(prev);
        let b = summary_records(ss.last());
        assert forall|j: int| 0 <= j < activity_records_spec(ss).len() implies exists|i: int|
            0 <= i < ss.len() && carries_summary(
                #[trigger] activity_records_spec(ss)[j],
                #[trigger] ss[i],
            ) by {
            if j < a.len() {
                assert(activity_records_spec(ss)[j] == a[j]);
                let i = choose|i: int| 0 <= i < prev.len() && carries_summary(a[j], #[trigger] prev[i]);
                assert(prev[i] == ss[i]);
                assert(carries_summary(activity_records_spec(ss)[j], ss[i]));
            } else {
                assert(activity_records_spec(ss)[j] == b[j - a.len()]);
                let k = ss.len() - 1;
                assert(ss[k] == ss.last());
                assert(carries_summary(activity_records_spec(ss)[j], ss[k]));
            }
        }
    }
}

/// The denial record of a denial summary.
pub open spec fn denial_record(s: FlushableDenialSummary) -> DenialView {
    DenialView {
        host: s.host@,
        port: s.port,
        binary: s.binary@,
        reason: s.deny_reason@,
        count: s.count,
    }
}

/// The enforcement action a verdict calls for: none in monitor mode; in
/// enforce mode `halt` terminates, `caution` tightens the policy with the
/// drift score (0.0 when absent), anything else continues.
pub open spec fn verdict_action_spec(mode: TetherMode, verdict: Seq<char>, drift_score_bits: Option<u64>) -> VerdictAction {
    match mode {
        TetherMode::Monitor => VerdictAction::Continue,
        TetherMode::Enforce => if verdict == "halt"@ {
            VerdictAction::Terminate
        } else if verdict == "caution"@ {
            VerdictAction::TightenPolicy {
                drift_score_bits: match drift_score_bits {
                    Some(b) => b,
                    None => 0,
                },
            }
        } else {
            VerdictAction::Continue
        },
    }
}

// ── Records ────────────────────────────────────────────────────────────────

/// A copy of an optional string.
fn copy_opt(o: &Option<String>) -> (r: Option<String>)
    ensures
        opt_view(r) == opt_view(*o),
{
    match o {
        Some(s) => Some(s.clone()),
        None => None,
    }
}

/// The records of one summary.
fn push_summary_records(out: &mut Vec<ActivityRecord>, s: &FlushableActivitySummary)
    ensures
        record_views(final(out)@) == record_views(old(out)@) + summary_records(s@),
{
    let ghost start = record_views(out@);
    if s.l7_samples.len() == 0 {
        out.push(
            ActivityRecord {
                host: s.host.clone(),
                port: s.port,
                binary: s.binary.clone(),
                matched_policy: s.matched_policy.clone(),
                method: None,
                path: None,
                count: s.count,
            },
        );
        assert(record_views(out@) =~= start + summary_records(s@));
    } else {
        let mut i: usize = 0;
        while i < s.l7_samples.len()
            invariant
                i <= s.l7_samples@.len(),
                s.l7_samples@.len() > 0,
                record_views(out@) =~= start + summary_records(s@).take(i as int),
            decreases s.l7_samples@.len() - i,
        {
            let l7 = &s.l7_samples[i];
            let ghost before = record_views(out@);
            out.push(
                ActivityRecord {
                    host: s.host.clone(),
                    port: s.port,
                    binary: s.binary.clone(),
                    matched_policy: s.matched_policy.clone(),
                    method: Some(l7.method.clone()),
                    path: Some(l7.path.clone()),
                    count: l7.count,
                },
            );
            assert(s@.l7_samples[i as int] == l7@);
            assert(record_views(out@) =~= before.push(summary_records(s@)[i as int]));
            assert(summary_records(s@).take(i + 1) =~= summary_records(s@).take(i as int).push(
                summary_records(s@)[i as int],
            ));
            i = i + 1;
        }
        assert(summary_records(s@).take(s.l7_samples@.len() as int) =~= summary_records(s@));
    }
}

/// The activity records for a batch of summaries: one per L4-only summary,
/// one per L7 sample otherwise.
pub fn activity_records(summaries: &[FlushableActivitySummary]) -> (r: Vec<ActivityRecord>)
    ensures
        record_views(r@) == activity_records_spec(flushable_views(summaries@)),
{
    let ghost views = flushable_views(summaries@);
    let mut out: Vec<ActivityRecord> = Vec::new();
    let mut i: usize = 0;
    while i < summaries.len()
        invariant
            i <= summaries@.len(),
            views == flushable_views(summaries@),
            record_views(out@) =~= activity_records_spec(views.take(i as int)),
        decreases summaries@.len() - i,
    {
        push_summary_records(&mut out, &summaries[i]);
        assert(views.take(i + 1).drop_last() =~= views.take(i as int));
        i = i + 1;
    }
    assert(views.take(summaries@.len() as int) =~= views);
    out
}

/// The denial records for a batch of denial summaries, one per summary.
pub fn denial_records(summaries: &[FlushableDenialSummary]) -> (r: Vec<DenialRecord>)
    ensures
        denial_views(r@) == summaries@.map_values(|s: FlushableDenialSummary| denial_record(s)),
{
    let mut out: Vec<DenialRecord> = Vec::new();
    let mut i: usize = 0;
    while i < summaries.len()
        invariant
            i <= summaries@.len(),
            denial_views(out@) =~= summaries@.take(i as int).map_values(
                |s: FlushableDenialSummary| denial_record(s),
            ),
        decreases summaries@.len() - i,
    {
        let s = &summaries[i];
        let ghost before = denial_views(out@);
        out.push(
            DenialRecord {
                host: s.host.clone(),
                port: s.port,
                binary: s.binary.clone(),
                reason: s.deny_reason.clone(),
                count: s.count,
            },
        );
        assert(denial_views(out@) =~= before.push(denial_record(summaries@[i as int])));
        assert(summaries@.take(i + 1) =~= summaries@.take(i as int).push(summaries@[i as int]));
        assert(summaries@.take(i + 1).map_values(|s: FlushableDenialSummary| denial_record(s))
            =~= summaries@.take(i as int).map_values(|s: FlushableDenialSummary| denial_record(s)).push(
            denial_record(summaries@[i as int]),
        ));
        i = i + 1;
    }
    assert(summaries@.take(summaries@.len() as int) =~= summaries@);
    out
}

/// The identity under which the supervisor reports.
pub open spec fn reporter_name() -> Seq<char> {
    "openshell-supervisor"@
}

/// The body of an activity report for the configured task.
pub fn report_request(config: &TetherConfig, activities: Vec<ActivityRecord>, denials: Vec<DenialRecord>) -> (r: ActivityReportRequest)
    ensures
        r.task_id@ == config.task_id@,
        r.reported_by@ == reporter_name(),
        r.activities@ == activities@,
        r.denials@ == denials@,
{
    ActivityReportRequest {
        task_id: config.task_id.clone(),
        reported_by: "openshell-supervisor".to_owned(),
        activities,
        denials,
    }
}

/// The report for a batch of allowed-activity summaries (no denials).
pub fn activity_report(config: &TetherConfig, summaries: &[FlushableActivitySummary]) -> (r: ActivityReportRequest)
    ensures
        r.task_id@ == config.task_id@,
        r.reported_by@ == reporter_name(),
        record_views(r.activities@) == activity_records_spec(flushable_views(summaries@)),
        r.denials@.len() == 0,
{
    report_request(config, activity_records(summaries), Vec::new())
}

/// The report for a batch of denial summaries (no activities).
pub fn denial_report(config: &TetherConfig, summaries: &[FlushableDenialSummary]) -> (r: ActivityReportRequest)
    ensures
        r.task_id@ == config.task_id@,
        r.reported_by@ == reporter_name(),
        r.activities@.len() == 0,
        denial_views(r.denials@) == summaries@.map_values(|s: FlushableDenialSummary| denial_record(s)),
{
    report_request(config, Vec::new(), denial_records(summaries))
}

/// URL of the activity report endpoint: `{endpoint}/api/activity/report`.
pub fn report_url(config: &TetherConfig) -> (r: String)
    ensures
        r@ == config.endpoint@ + "/api/activity/report"@,
{
    let mut s = String::new();
    push_str(&mut s, config.endpoint.as_str());
    push_str(&mut s, "/api/activity/report");
    s
}

/// URL of the verdict endpoint: `{endpoint}/api/task/{task_id}/verdict`.
pub fn verdict_url(config: &TetherConfig) -> (r: String)
    ensures
        r@ == config.endpoint@ + "/api/task/"@ + config.task_id@ + "/verdict"@,
{
    let mut s = String::new();
    push_str(&mut s, config.endpoint.as_str());
    push_str(&mut s, "/api/task/");
    push_str(&mut s, config.task_id.as_str());
    push_str(&mut s, "/verdict");
    s
}

// ── Verdicts ───────────────────────────────────────────────────────────────

/// A field-by-field copy of a verdict.
pub fn copy_verdict(v: &TetherVerdict) -> (r: TetherVerdict)
    ensures
        r == *v,
{
    TetherVerdict {
        verdict: v.verdict.clone(),
        drift_score_bits: v.drift_score_bits,
        feedback: match &v.feedback {
            Some(f) => Some(f.clone()),
            None => None,
        },
        actions_logged: v.actions_logged,
        chain_block_index: v.chain_block_index,
    }
}

/// Whether `v` is the verdict the bridge starts with: `continue` with no
/// score, feedback, action count or block index.
pub open spec fn is_initial_verdict(v: TetherVerdict) -> bool {
    &&& v.verdict@ == "continue"@
    &&& v.drift_score_bits is None
    &&& v.feedback is None
    &&& v.actions_logged is None
    &&& v.chain_block_index is None
}

/// The verdict held after a report or poll that ended with `outcome`: a
/// received verdict replaces the last-known one, any failure keeps it.
pub open spec fn verdict_after(last: TetherVerdict, outcome: ResponseOutcome) -> TetherVerdict {
    match outcome {
        ResponseOutcome::Verdict(v) => v,
        _ => last,
    }
}

/// The last verdict received from Tether, used whenever Tether cannot give
/// a new one.
pub struct LastVerdict {
    verdict: TetherVerdict,
}

impl LastVerdict {
    /// The verdict currently held.
    pub closed spec fn spec_verdict(&self) -> TetherVerdict {
        self.verdict
    }

    /// Starts from a `continue` verdict.
    pub fn new() -> (s: Self)
        ensures
            is_initial_verdict(s.spec_verdict()),
    {
        LastVerdict {
            verdict: TetherVerdict {
                verdict: "continue".to_owned(),
                drift_score_bits: None,
                feedback: None,
                actions_logged: None,
                chain_block_index: None,
            },
        }
    }

    /// A copy of the verdict currently held.
    pub fn get(&self) -> (r: TetherVerdict)
        ensures
            r == self.spec_verdict(),
    {
        copy_verdict(&self.verdict)
    }

    /// Handles the outcome of a report or poll: a received verdict becomes
    /// the last-known verdict and is returned; on any failure the
    /// last-known verdict is returned unchanged.
    pub fn on_response(&mut self, outcome: ResponseOutcome) -> (r: TetherVerdict)
        ensures
            match outcome {
                ResponseOutcome::Verdict(v) => r == v && final(self).spec_verdict() == v,
                _ => r == old(self).spec_verdict() && final(self).spec_verdict() == old(self).spec_verdict(),
            },
            r == verdict_after(old(self).spec_verdict(), outcome),
            final(self).spec_verdict() == r,
    {
        match outcome {
            ResponseOutcome::Verdict(v) => {
                let r = copy_verdict(&v);
                self.verdict = v;
                r
            },
            _ => copy_verdict(&self.verdict),
        }
    }
}

/// The enforcement action for a verdict under the given mode.
pub fn execute_verdict(mode: TetherMode, verdict: &TetherVerdict) -> (r: VerdictAction)
    ensures
        r == verdict_action_spec(mode, verdict.verdict@, verdict.drift_score_bits),
{
    match mode {
        TetherMode::Monitor => VerdictAction::Continue,
        TetherMode::Enforce => {
            if str_eq(verdict.verdict.as_str(), "halt") {
                VerdictAction::Terminate
            } else if str_eq(verdict.verdict.as_str(), "caution") {
                VerdictAction::TightenPolicy {
                    drift_score_bits: match verdict.drift_score_bits {
                        Some(b) => b,
                        None => 0,
                    },
                }
            } else {
                VerdictAction::Continue
            }
        },
    }
}

/// Monitor mode never enforces, whatever the verdict; enforce mode
/// terminates exactly on `halt`.
pub proof fn lemma_monitor_never_enforces(verdict: Seq<char>, bits: Option<u64>)
    ensures
        verdict_action_spec(TetherMode::Monitor, verdict, bits) == VerdictAction::Continue,
        (verdict_action_spec(TetherMode::Enforce, verdict, bits) == VerdictAction::Terminate)
            <==> verdict == "halt"@,
{
}

/// Reporting and then enforcing the verdict that comes back (the new one, or
/// the last-known one when Tether gives none) never enforces in monitor
/// mode, and continues whenever Tether has not answered since start-up.
pub proof fn lemma_report_then_enforce(mode: TetherMode, last: TetherVerdict, outcome: ResponseOutcome)
    ensures
        mode == TetherMode::Monitor ==> verdict_action_spec(
            mode,
            verdict_after(last, outcome).verdict@,
            verdict_after(last, outcome).drift_score_bits,
        ) == VerdictAction::Continue,
        is_initial_verdict(last) && !(outcome is Verdict) ==> verdict_action_spec(
            mode,
            verdict_after(last, outcome).verdict@,
            verdict_after(last, outcome).drift_score_bits,
        ) == VerdictAction::Continue,
{
    reveal_strlit("continue");
    reveal_strlit("halt");
    reveal_strlit("caution");
    assert("continue"@ != "halt"@) by {
        assert("continue"@.len() != "halt"@.len());
    }
    assert("continue"@ != "caution"@) by {
        assert("continue"@.len() != "caution"@.len());
    }
}

// ── Configuration ──────────────────────────────────────────────────────────

/// The `tether:` section of a sandbox policy.
pub struct TetherDef {
    /// Whether the integration is enabled.
    pub enabled: bool,
    /// Tether server base URL.
    pub endpoint: String,
    /// Task ID to report against.
    pub task_id: String,
    /// "enforce" or "monitor".
    pub mode: String,
}

/// The values of the Tether environment variables (`None` when a variable is
/// unset or not valid Unicode).
pub struct TetherEnv {
    /// `TETHER_ENDPOINT`.
    pub endpoint: Option<String>,
    /// `TETHER_TASK_ID`.
    pub task_id: Option<String>,
    /// `TETHER_MODE`.
    pub mode: Option<String>,
    /// `TETHER_TIMEOUT_SECS`.
    pub timeout_secs: Option<String>,
}

/// Default HTTP timeout, in seconds.
pub const DEFAULT_TIMEOUT_SECS: u64 = 10;

/// A variable's value when it is set and non-empty.
pub open spec fn non_empty(v: Option<String>) -> Option<Seq<char>> {
    match v {
        Some(s) => if s@.len() > 0 {
            Some(s@)
        } else {
            None
        },
        None => None,
    }
}

/// The mode named by a text: `enforce` enforces, anything else monitors.
pub open spec fn mode_of(s: Seq<char>) -> TetherMode {
    if s == "enforce"@ {
        TetherMode::Enforce
    } else {
        TetherMode::Monitor
    }
}

/// The timeout: `TETHER_TIMEOUT_SECS` when it parses as a `u64`, else 10.
pub open spec fn timeout_of(env: Option<String>) -> u64 {
    match env {
        Some(s) => match parse_u64_spec(s@) {
            Some(t) => t,
            None => DEFAULT_TIMEOUT_SECS,
        },
        None => DEFAULT_TIMEOUT_SECS,
    }
}

/// A resolved bridge configuration as plain values.
pub struct ConfigView {
    pub endpoint: Seq<char>,
    pub task_id: Seq<char>,
    pub mode: TetherMode,
    pub timeout_secs: u64,
}

/// The bridge configuration, or `None` when Tether is not enabled.
///
/// With a policy section: a disabled section disables Tether; otherwise the
/// non-empty environment variables override the endpoint and task id,
/// `TETHER_MODE` (when set) overrides the mode. Without one: both
/// `TETHER_ENDPOINT` and `TETHER_TASK_ID` must be set and non-empty, and the
/// mode is enforce only when `TETHER_MODE` is `enforce`. Either way an empty
/// endpoint or task id disables Tether.
pub open spec fn resolve_spec(policy: Option<TetherDef>, env: TetherEnv) -> Option<ConfigView> {
    let timeout: u64 = timeout_of(env.timeout_secs);
    match policy {
        Some(cfg) => if !cfg.enabled {
            None
        } else {
            let endpoint = match non_empty(env.endpoint) {
                Some(e) => e,
                None => cfg.endpoint@,
            };
            let task_id = match non_empty(env.task_id) {
                Some(t) => t,
                None => cfg.task_id@,
            };
            let mode = match env.mode {
                Some(m) => mode_of(m@),
                None => mode_of(cfg.mode@),
            };
            if endpoint.len() == 0 || task_id.len() == 0 {
                None
            } else {
                Some(ConfigView { endpoint, task_id, mode, timeout_secs: timeout })
            }
        },
        None => match (non_empty(env.endpoint), non_empty(env.task_id)) {
            (Some(endpoint), Some(task_id)) => Some(
                ConfigView {
                    endpoint,
                    task_id,
                    mode: match env.mode {
                        Some(m) => mode_of(m@),
                        None => TetherMode::Monitor,
                    },
                    timeout_secs: timeout,
                },
            ),
            _ => None,
        },
    }
}

/// A set, non-empty `TETHER_ENDPOINT` overrides the endpoint of an enabled
/// policy section, whatever that section says; an unset or empty one leaves
/// the section's endpoint.
pub proof fn lemma_env_endpoint_overrides_policy(p: TetherDef, env: TetherEnv)
    requires
        p.enabled,
    ensures
        env.endpoint is Some && env.endpoint->0@.len() > 0 && resolve_spec(Some(p), env) is Some
            ==> resolve_spec(Some(p), env)->0.endpoint == env.endpoint->0@,
        env.endpoint is Some && env.endpoint->0@.len() > 0 && env.task_id is Some
            && env.task_id->0@.len() > 0 ==> resolve_spec(Some(p), env) is Some && resolve_spec(
            Some(p),
            env,
        )->0.endpoint == env.endpoint->0@ && resolve_spec(Some(p), env)->0.task_id
            == env.task_id->0@,
        (env.endpoint is None || env.endpoint->0@.len() == 0) && resolve_spec(Some(p), env) is Some
            ==> resolve_spec(Some(p), env)->0.endpoint == p.endpoint@,
{
}

/// A set, non-empty `TETHER_TASK_ID` overrides the task id of an enabled
/// policy section; `TETHER_MODE`, when set, decides the mode (enforce only
/// for `enforce`); a disabled section disables Tether whatever the
/// environment says.
pub proof fn lemma_env_overrides_task_and_mode(p: TetherDef, env: TetherEnv)
    ensures
        !p.enabled ==> resolve_spec(Some(p), env) is None,
        p.enabled && env.task_id is Some && env.task_id->0@.len() > 0 && resolve_spec(Some(p), env) is Some
            ==> resolve_spec(Some(p), env)->0.task_id == env.task_id->0@,
        p.enabled && env.mode is Some && resolve_spec(Some(p), env) is Some ==> (resolve_spec(
            Some(p),
            env,
        )->0.mode == TetherMode::Enforce <==> env.mode->0@ == "enforce"@),
{
}

/// Whatever the inputs, a resolved configuration has a non-empty endpoint
/// and task id, and a 10-second timeout unless `TETHER_TIMEOUT_SECS` is set;
/// without `TETHER_MODE` the mode is the policy section's, or monitor when
/// there is no section; without a policy section the endpoint and task id
/// both come from the environment.
pub proof fn lemma_resolved_config_complete(policy: Option<TetherDef>, env: TetherEnv)
    ensures
        resolve_spec(policy, env) is Some ==> resolve_spec(policy, env)->0.endpoint.len() > 0
            && resolve_spec(policy, env)->0.task_id.len() > 0,
        resolve_spec(policy, env) is Some && env.timeout_secs is None ==> resolve_spec(policy, env)->0.timeout_secs
            == 10,
        policy is None && env.mode is None && resolve_spec(policy, env) is Some ==> resolve_spec(
            policy,
            env,
        )->0.mode == TetherMode::Monitor,
        policy is Some && env.mode is None && resolve_spec(policy, env) is Some ==> (resolve_spec(
            policy,
            env,
        )->0.mode == TetherMode::Enforce <==> policy->0.mode@ == "enforce"@),
        policy is None && resolve_spec(policy, env) is Some ==> env.endpoint is Some && env.task_id
            is Some && resolve_spec(policy, env)->0.endpoint == env.endpoint->0@ && resolve_spec(
            policy,
            env,
        )->0.task_id == env.task_id->0@,
{
}

/// The plain values of a configuration.
pub open spec fn config_view(c: TetherConfig) -> ConfigView {
    ConfigView { endpoint: c.endpoint@, task_id: c.task_id@, mode: c.mode, timeout_secs: c.timeout_secs }
}

/// A variable's value when it is set and non-empty.
fn non_empty_value(v: &Option<String>) -> (r: Option<String>)
    ensures
        opt_view(r) == non_empty(*v),
{
    match v {
        Some(s) => if s.as_str().is_empty() {
            None
        } else {
            Some(s.clone())
        },
        None => None,
    }
}

/// The mode named by a text.
fn parse_mode(s: &str) -> (m: TetherMode)
    ensures
        m == mode_of(s@),
{
    if str_eq(s, "enforce") {
        TetherMode::Enforce
    } else {
        TetherMode::Monitor
    }
}

/// The timeout from `TETHER_TIMEOUT_SECS`, 10 seconds by default.
fn parse_timeout(v: &Option<String>) -> (t: u64)
    ensures
        t == timeout_of(*v),
{
    match v {
        Some(s) => match parse_u64(s.as_str()) {
            Some(t) => t,
            None => DEFAULT_TIMEOUT_SECS,
        },
        None => DEFAULT_TIMEOUT_SECS,
    }
}

/// Resolves the bridge configuration from the policy's `tether:` section
/// and the environment; `None` when Tether integration is not enabled.
pub fn resolve_tether_config(policy: Option<&TetherDef>, env: &TetherEnv) -> (r: Option<TetherConfig>)
    ensures
        match r {
            Some(c) => resolve_spec(match policy { Some(p) => Some(*p), None => None }, *env) == Some(config_view(c)),
            None => resolve_spec(match policy { Some(p) => Some(*p), None => None }, *env) is None,
        },
{
    let timeout_secs = parse_timeout(&env.timeout_secs);
    let (endpoint, task_id, mode) = match policy {
        Some(cfg) => {
            if !cfg.enabled {
                return None;
            }
            let endpoint = match non_empty_value(&env.endpoint) {
                Some(e) => e,
                None => cfg.endpoint.clone(),
            };
            let task_id = match non_empty_value(&env.task_id) {
                Some(t) => t,
                None => cfg.task_id.clone(),
            };
            let mode = match &env.mode {
                Some(m) => parse_mode(m.as_str()),
                None => parse_mode(cfg.mode.as_str()),
            };
            (endpoint, task_id, mode)
        },
        None => {
            let endpoint = match non_empty_value(&env.endpoint) {
                Some(e) => e,
                None => {
                    return None;
                },
            };
            let task_id = match non_empty_value(&env.task_id) {
                Some(t) => t,
                None => {
                    return None;
                },
            };
            let mode = match &env.mode {
                Some(m) => parse_mode(m.as_str()),
                None => TetherMode::Monitor,
            };
            (endpoint, task_id, mode)
        },
    };
    if endpoint.as_str().is_empty() || task_id.as_str().is_empty() {
        return None;
    }
    Some(TetherConfig { endpoint, task_id, mode, timeout_secs })
}

} // verus!
