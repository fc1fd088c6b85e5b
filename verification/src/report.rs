//! The guardrail report: the outcome of one validation run.

use vstd::prelude::*;

verus! {

/// Overall verdict of a run.
#[derive(Clone, Copy, Debug, PartialEq, Eq, Structural)]
pub enum ReportStatus {
    Pass,
    Fail,
    Warn,
}

/// Verdict of one analyzer.
#[derive(Clone, Copy, Debug, PartialEq, Eq, Structural)]
pub enum CheckStatus {
    Pass,
    Fail,
    Warn,
    Skipped,
}

/// Which sources the run read.
#[derive(Clone, Debug)]
pub struct SourceInfo {
    pub prompt_path: String,
    pub response_path: String,
    pub diff_path: String,
    pub spec_refs: Vec<String>,
}

/// Overall verdict with a confidence score in thousandths.
#[derive(Clone, Debug)]
pub struct ReportSummary {
    pub status: ReportStatus,
    /// Confidence, scaled by 1000: a full pass scores 1000.
    pub score: u32,
    pub notes: String,
}

/// A risk noted against the change under validation.
#[derive(Clone, Debug)]
pub struct RiskEntry {
    pub category: String,
    pub description: String,
    pub severity: String,
    pub recommended_action: Option<String>,
}

/// One analyzer's outcome.
#[derive(Clone, Debug)]
pub struct CheckResult {
    pub name: String,
    pub status: CheckStatus,
    pub details: String,
    pub log_path: Option<String>,
}

/// A follow-up suggestion.
#[derive(Clone, Debug)]
pub struct NextAction {
    pub description: String,
    pub owner: Option<String>,
    pub linked_checklist: Option<String>,
}

/// The whole report.
#[derive(Clone, Debug)]
pub struct GuardrailReport {
    pub id: String,
    pub timestamp: String,
    pub source: SourceInfo,
    pub summary: ReportSummary,
    pub risks: Vec<RiskEntry>,
    pub checks: Vec<CheckResult>,
    pub next_actions: Vec<NextAction>,
}

/// Some check among the first `j` carries the given status.
pub open spec fn any_status(checks: Seq<CheckResult>, st: CheckStatus, j: int) -> bool
    decreases j,
{
    if j <= 0 {
        false
    } else {
        any_status(checks, st, j - 1) || checks[j - 1].status == st
    }
}

/// The summary a list of checks earns: any failure fails the run with a zero
/// score, otherwise any warning scores 700 of 1000, otherwise a full pass.
pub open spec fn summarize_spec(checks: Seq<CheckResult>) -> (ReportStatus, u32) {
    if any_status(checks, CheckStatus::Fail, checks.len() as int) {
        (ReportStatus::Fail, 0u32)
    } else if any_status(checks, CheckStatus::Warn, checks.len() as int) {
        (ReportStatus::Warn, 700u32)
    } else {
        (ReportStatus::Pass, 1000u32)
    }
}

/// Does any check carry the status?
fn has_status(checks: &Vec<CheckResult>, st: CheckStatus) -> (r: bool)
    ensures
        r == any_status(checks@, st, checks@.len() as int),
{
    let n = checks.len();
    let mut i: usize = 0;
    let mut found = false;
    while i < n
        invariant
            0 <= i <= n,
            n == checks@.len(),
            found == any_status(checks@, st, i as int),
        decreases n - i,
    {
        let same: bool = match (checks[i].status, st) {
            (CheckStatus::Pass, CheckStatus::Pass) => true,
            (CheckStatus::Fail, CheckStatus::Fail) => true,
            (CheckStatus::Warn, CheckStatus::Warn) => true,
            (CheckStatus::Skipped, CheckStatus::Skipped) => true,
            _ => false,
        };
        proof {
            assert(same == (checks@[i as int].status == st));
        }
        found = found || same;
        i = i + 1;
    }
    found
}

fn summarize_checks(checks: &Vec<CheckResult>) -> (r: (ReportStatus, u32))
    ensures
        r == summarize_spec(checks@),
{
    if has_status(checks, CheckStatus::Fail) {
        (ReportStatus::Fail, 0)
    } else if has_status(checks, CheckStatus::Warn) {
        (ReportStatus::Warn, 700)
    } else {
        (ReportStatus::Pass, 1000)
    }
}

/// Relies on `chrono::Utc::now` and `chrono::DateTime::to_rfc3339` for the
/// report timestamp. The wall clock decides the value, so nothing is stated
/// of it.
#[verifier::external_body]
fn now_rfc3339() -> String {
    chrono::Utc::now().to_rfc3339()
}

impl GuardrailReport {
    /// Assemble a report: the summary follows `summarize_spec` of the checks,
    /// risks and follow-ups start empty, and the timestamp is read from the
    /// wall clock.
    pub fn new(id: String, source: SourceInfo, checks: Vec<CheckResult>, notes: String) -> (r:
        GuardrailReport)
        ensures
            r.id == id,
            r.source == source,
            r.checks == checks,
            r.summary.notes == notes,
            (r.summary.status, r.summary.score) == summarize_spec(checks@),
            r.risks@ == Seq::<RiskEntry>::empty(),
            r.next_actions@ == Seq::<NextAction>::empty(),
    {
        let (status, score) = summarize_checks(&checks);
        let r = GuardrailReport {
            id,
            timestamp: now_rfc3339(),
            source,
            summary: ReportSummary { status, score, notes },
            risks: Vec::new(),
            checks,
            next_actions: Vec::new(),
        };
        proof {
            assert(r.risks@ =~= Seq::<RiskEntry>::empty());
            assert(r.next_actions@ =~= Seq::<NextAction>::empty());
        }
        r
    }
}

} // verus!
