//! The analyzers of a validation run: formatting, lints and the
//! deterministic-randomness scan, plus the run driver.
//!
//! Running external commands and walking the workspace are the caller's
//! concern; the analyzers here turn the gathered outcomes into check results
//! by exact rules.

use vstd::prelude::*;

use crate::config::{toggle_enabled, GuardrailConfig};
use crate::report::{CheckResult, CheckStatus, GuardrailReport};
use crate::strings::{
    contains_sub, ends_with_sub, has_component, has_component_sub, starts_with_sub, str_contains,
    str_ends_with, str_starts_with,
};

verus! {

/// Where a validation run works and how it is named.
#[derive(Clone, Debug)]
pub struct ValidationOptions {
    pub workspace_root: String,
    pub run_id: String,
}

impl ValidationOptions {
    pub fn new(workspace_root: String, run_id: String) -> (r: ValidationOptions)
        ensures
            r.workspace_root == workspace_root,
            r.run_id == run_id,
    {
        ValidationOptions { workspace_root, run_id }
    }
}

/// What one external command produced; the caller trims the streams.
#[derive(Clone, Debug)]
pub struct CommandOutcome {
    pub success: bool,
    pub stdout: String,
    pub stderr: String,
}

/// One workspace file handed to the deterministic scan, with its path
/// relative to the workspace root (`/`-separated).
#[derive(Clone, Debug)]
pub struct ScannedFile {
    pub path: String,
    pub contents: String,
}

/// Everything the caller gathered for one run.
#[derive(Clone, Debug)]
pub struct ValidationInputs {
    pub fmt: CommandOutcome,
    pub clippy: CommandOutcome,
    pub scanned: Vec<ScannedFile>,
}

/// A command's detail text: its output, then its error stream after a marker
/// line when both are present.
pub open spec fn compose_details_spec(out: Seq<char>, err: Seq<char>) -> Seq<char> {
    if err.len() > 0 {
        if out.len() > 0 {
            out + "\n--- stderr ---\n"@ + err
        } else {
            out + err
        }
    } else {
        out
    }
}

/// A check named `name` reporting the outcome of one command.
pub open spec fn command_check_matches(cr: CheckResult, name: Seq<char>, o: CommandOutcome) -> bool {
    &&& cr.name@ == name
    &&& cr.status == if o.success {
        CheckStatus::Pass
    } else {
        CheckStatus::Fail
    }
    &&& cr.details@ == compose_details_spec(o.stdout@, o.stderr@)
    &&& cr.log_path is None
}

fn command_check_result(name: &str, outcome: &CommandOutcome) -> (r: CheckResult)
    ensures
        command_check_matches(r, name@, *outcome),
{
    let mut details: String = outcome.stdout.clone();
    if !outcome.stderr.as_str().is_empty() {
        if !details.as_str().is_empty() {
            details.append("\n--- stderr ---\n");
        }
        details.append(outcome.stderr.as_str());
    }
    let status = if outcome.success {
        CheckStatus::Pass
    } else {
        CheckStatus::Fail
    };
    CheckResult { name: String::from_str(name), status, details, log_path: None }
}

/// The formatting check, from the outcome of the caller's format run.
pub fn run_fmt(outcome: &CommandOutcome) -> (r: CheckResult)
    ensures
        command_check_matches(r, "fmt"@, *outcome),
{
    command_check_result("fmt", outcome)
}

/// The lint check, from the outcome of the caller's lint run.
pub fn run_clippy(outcome: &CommandOutcome) -> (r: CheckResult)
    ensures
        command_check_matches(r, "clippy"@, *outcome),
{
    command_check_result("clippy", outcome)
}

/// Directories named like build output, version control or report storage
/// are left out of the deterministic scan.
pub open spec fn filter_entry_spec(path: Seq<char>) -> bool {
    &&& !has_component(path, "target"@)
    &&& !has_component(path, ".git"@)
    &&& !has_component(path, "reports"@)
}

/// Executable form of `filter_entry_spec`.
pub fn filter_entry(path: &str) -> (r: bool)
    ensures
        r == filter_entry_spec(path@),
{
    proof {
        reveal_strlit("target");
        reveal_strlit(".git");
        reveal_strlit("reports");
    }
    if has_component_sub(path, "target") {
        return false;
    }
    if has_component_sub(path, ".git") {
        return false;
    }
    if has_component_sub(path, "reports") {
        return false;
    }
    true
}

/// A file that trips the deterministic scan: a Rust source outside the
/// filtered directories and outside this tool's own crate, whose text uses
/// the thread-local RNG.
pub open spec fn offender_spec(f: ScannedFile) -> bool {
    &&& filter_entry_spec(f.path@)
    &&& !str_starts_with(f.path@, "crates/guardrail_core"@)
    &&& str_ends_with(f.path@, ".rs"@)
    &&& (str_contains(f.contents@, "thread_rng()"@) || str_contains(f.contents@, "thread_rng("@))
}

/// The offending paths among the first `k` files, in order.
pub open spec fn offenders_prefix(files: Seq<ScannedFile>, k: int) -> Seq<Seq<char>>
    decreases k,
{
    if k <= 0 {
        Seq::empty()
    } else {
        offenders_prefix(files, k - 1) + if offender_spec(files[k - 1]) {
            seq![files[k - 1].path@]
        } else {
            Seq::empty()
        }
    }
}

/// The scan's detail text after listing the first `k` offenders.
pub open spec fn scan_details_prefix(offs: Seq<Seq<char>>, k: int) -> Seq<char>
    decreases k,
{
    if k <= 0 {
        "Found thread_rng usage in:\n"@
    } else {
        scan_details_prefix(offs, k - 1) + if k - 1 > 0 {
            "\n"@
        } else {
            Seq::empty()
        } + offs[k - 1]
    }
}

/// The whole detail text of the deterministic scan.
pub open spec fn scan_details_spec(files: Seq<ScannedFile>) -> Seq<char> {
    let offs = offenders_prefix(files, files.len() as int);
    if offs.len() == 0 {
        "No non-deterministic RNG usage detected"@
    } else {
        scan_details_prefix(offs, offs.len() as int)
    }
}

/// The deterministic-randomness scan over the gathered workspace files.
pub fn run_deterministic_scan(files: &Vec<ScannedFile>) -> (r: CheckResult)
    ensures
        r.name@ == "deterministic_seed_scan"@,
        r.status == if offenders_prefix(files@, files@.len() as int).len() == 0 {
            CheckStatus::Pass
        } else {
            CheckStatus::Fail
        },
        r.details@ == scan_details_spec(files@),
        r.log_path is None,
{
    let n = files.len();
    let mut offenders: Vec<String> = Vec::new();
    let mut i: usize = 0;
    while i < n
        invariant
            0 <= i <= n,
            n == files@.len(),
            offenders@.len() == offenders_prefix(files@, i as int).len(),
            forall|k: int|
                0 <= k < offenders@.len() ==> (#[trigger] offenders@[k])@ == offenders_prefix(
                    files@,
                    i as int,
                )[k],
        decreases n - i,
    {
        let f = &files[i];
        let keep = filter_entry(f.path.as_str()) && !starts_with_sub(
            f.path.as_str(),
            "crates/guardrail_core",
        ) && ends_with_sub(f.path.as_str(), ".rs") && (contains_sub(
            f.contents.as_str(),
            "thread_rng()",
        ) || contains_sub(f.contents.as_str(), "thread_rng("));
        proof {
            assert(keep == offender_spec(files@[i as int]));
        }
        if keep {
            offenders.push(f.path.clone());
        }
        i = i + 1;
    }
    let ghost offs = offenders_prefix(files@, files@.len() as int);
    proof {
        assert forall|k: int| 0 <= k < offenders@.len() implies (#[trigger] offenders@[k])@
            == offs[k] by {}
    }
    let m = offenders.len();
    if m == 0 {
        CheckResult {
            name: String::from_str("deterministic_seed_scan"),
            status: CheckStatus::Pass,
            details: String::from_str("No non-deterministic RNG usage detected"),
            log_path: None,
        }
    } else {
        let mut details = String::from_str("Found thread_rng usage in:\n");
        let mut k: usize = 0;
        while k < m
            invariant
                0 <= k <= m,
                m == offenders@.len(),
                m == offs.len(),
                forall|k2: int| 0 <= k2 < m ==> (#[trigger] offenders@[k2])@ == offs[k2],
                details@ == scan_details_prefix(offs, k as int),
            decreases m - k,
        {
            if k > 0 {
                details.append("\n");
            } else {
                proof {
                    assert(details@ + Seq::<char>::empty() =~= details@);
                }
            }
            details.append(offenders[k].as_str());
            k = k + 1;
        }
        CheckResult {
            name: String::from_str("deterministic_seed_scan"),
            status: CheckStatus::Fail,
            details,
            log_path: None,
        }
    }
}

/// The checks a run with these toggles and inputs produces, in order:
/// formatting, lints, deterministic scan, each only when enabled.
pub open spec fn run_checks_ok(
    checks: Seq<CheckResult>,
    config: GuardrailConfig,
    inputs: ValidationInputs,
) -> bool {
    let f = toggle_enabled(config.analyzers.fmt);
    let c = toggle_enabled(config.analyzers.clippy);
    let d = toggle_enabled(config.analyzers.deterministic);
    let nf: int = if f {
        1
    } else {
        0
    };
    let nc: int = if c {
        1
    } else {
        0
    };
    let nd: int = if d {
        1
    } else {
        0
    };
    &&& checks.len() == nf + nc + nd
    &&& (f ==> command_check_matches(checks[0], "fmt"@, inputs.fmt))
    &&& (c ==> command_check_matches(checks[nf], "clippy"@, inputs.clippy))
    &&& (d ==> {
        let cr = checks[nf + nc];
        &&& cr.name@ == "deterministic_seed_scan"@
        &&& cr.status == if offenders_prefix(inputs.scanned@, inputs.scanned@.len() as int).len()
            == 0 {
            CheckStatus::Pass
        } else {
            CheckStatus::Fail
        }
        &&& cr.details@ == scan_details_spec(inputs.scanned@)
    })
}

/// Run the enabled analyzers over the gathered inputs and assemble the
/// report.
pub fn run_validations(
    config: &GuardrailConfig,
    options: &ValidationOptions,
    inputs: &ValidationInputs,
) -> (r: GuardrailReport)
    ensures
        r.id == options.run_id,
        run_checks_ok(r.checks@, *config, *inputs),
        (r.summary.status, r.summary.score) == crate::report::summarize_spec(r.checks@),
        r.summary.notes@ == "Guardrail CLI MVP"@,
        r.source.prompt_path@ == config.sources.prompt@,
        r.source.response_path@ == config.sources.response@,
        r.source.diff_path@ == config.sources.diff@,
        r.risks@ == Seq::<crate::report::RiskEntry>::empty(),
        r.next_actions@ == Seq::<crate::report::NextAction>::empty(),
{
    let mut checks: Vec<CheckResult> = Vec::new();
    if config.analyzers.fmt_enabled() {
        checks.push(run_fmt(&inputs.fmt));
    }
    if config.analyzers.clippy_enabled() {
        checks.push(run_clippy(&inputs.clippy));
    }
    if config.analyzers.deterministic_enabled() {
        checks.push(run_deterministic_scan(&inputs.scanned));
    }
    let report = GuardrailReport::new(
        options.run_id.clone(),
        config.source_info(),
        checks,
        String::from_str("Guardrail CLI MVP"),
    );
    report
}

} // verus!
