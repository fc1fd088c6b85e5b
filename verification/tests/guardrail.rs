use core_game::analyzers::{
    filter_entry, run_deterministic_scan, run_fmt, run_validations, CommandOutcome, ScannedFile,
    ValidationInputs, ValidationOptions,
};
use core_game::config::{AnalyzerToggles, GuardrailConfig, SourceConfig, SourceError};
use core_game::report::{CheckResult, CheckStatus, GuardrailReport, ReportStatus, SourceInfo};

fn sources() -> SourceConfig {
    SourceConfig {
        prompt: "prompt.md".to_string(),
        response: "response.md".to_string(),
        diff: "patch.diff".to_string(),
        spec_refs: Some(vec!["SPEC-1".to_string()]),
    }
}

fn config(toggles: AnalyzerToggles) -> GuardrailConfig {
    GuardrailConfig { sources: sources(), analyzers: toggles, report: None, targets: None, telemetry: None }
}

fn outcome(success: bool, stdout: &str, stderr: &str) -> CommandOutcome {
    CommandOutcome { success, stdout: stdout.to_string(), stderr: stderr.to_string() }
}

fn file(path: &str, contents: &str) -> ScannedFile {
    ScannedFile { path: path.to_string(), contents: contents.to_string() }
}

#[test]
fn toggles_default_to_enabled() {
    let t = AnalyzerToggles::default();
    assert!(t.fmt_enabled() && t.clippy_enabled() && t.deterministic_enabled());
    let off = AnalyzerToggles { fmt: Some(false), clippy: Some(true), deterministic: None };
    assert!(!off.fmt_enabled());
    assert!(off.clippy_enabled());
    assert!(off.deterministic_enabled());
}

#[test]
fn missing_sources_are_reported_in_order() {
    let s = sources();
    assert_eq!(s.ensure_exists(false, false, false), Err(SourceError::MissingPrompt));
    assert_eq!(s.ensure_exists(true, false, false), Err(SourceError::MissingResponse));
    assert_eq!(s.ensure_exists(true, true, false), Err(SourceError::MissingDiff));
    assert_eq!(s.ensure_exists(true, true, true), Ok(()));
    let cfg = config(AnalyzerToggles::default());
    assert_eq!(cfg.validate_sources(true, true, true), Ok(()));
    assert_eq!(cfg.validate_sources(true, false, true), Err(SourceError::MissingResponse));
}

#[test]
fn source_info_copies_the_configured_paths() {
    let cfg = config(AnalyzerToggles::default());
    let info = cfg.source_info();
    assert_eq!(info.prompt_path, "prompt.md");
    assert_eq!(info.response_path, "response.md");
    assert_eq!(info.diff_path, "patch.diff");
    assert_eq!(info.spec_refs, vec!["SPEC-1".to_string()]);
}

#[test]
fn command_details_compose_both_streams() {
    let r = run_fmt(&outcome(false, "out text", "err text"));
    assert_eq!(r.name, "fmt");
    assert_eq!(r.status, CheckStatus::Fail);
    assert_eq!(r.details, "out text\n--- stderr ---\nerr text");
    assert!(r.log_path.is_none());

    let ok = run_fmt(&outcome(true, "all good", ""));
    assert_eq!(ok.status, CheckStatus::Pass);
    assert_eq!(ok.details, "all good");

    let only_err = run_fmt(&outcome(false, "", "broken"));
    assert_eq!(only_err.details, "broken");
}

#[test]
fn filter_entry_skips_build_and_vcs_directories() {
    assert!(!filter_entry("target/debug/foo.rs"));
    assert!(!filter_entry("a/.git/config"));
    assert!(!filter_entry("x/reports/today"));
    assert!(filter_entry("src/targeted.rs"));
    assert!(filter_entry("crates/core/src/lib.rs"));
}

#[test]
fn deterministic_scan_reports_offenders() {
    let files = vec![
        file("src/a.rs", "let x = thread_rng().gen();"),
        file("target/b.rs", "thread_rng()"),
        file("crates/guardrail_core/src/lib.rs", "thread_rng()"),
        file("src/notes.txt", "thread_rng()"),
        file("src/clean.rs", "let rng = StdRng::seed_from_u64(42);"),
        file("src/b.rs", "rand::thread_rng( )"),
    ];
    let r = run_deterministic_scan(&files);
    assert_eq!(r.name, "deterministic_seed_scan");
    assert_eq!(r.status, CheckStatus::Fail);
    assert_eq!(r.details, "Found thread_rng usage in:\nsrc/a.rs\nsrc/b.rs");

    let clean = vec![file("src/clean.rs", "let rng = StdRng::seed_from_u64(42);")];
    let ok = run_deterministic_scan(&clean);
    assert_eq!(ok.status, CheckStatus::Pass);
    assert_eq!(ok.details, "No non-deterministic RNG usage detected");
}

#[test]
fn report_summary_follows_the_worst_check() {
    let mk = |status: CheckStatus| CheckResult {
        name: "c".to_string(),
        status,
        details: String::new(),
        log_path: None,
    };
    let info = config(AnalyzerToggles::default()).source_info();
    let pass = GuardrailReport::new(
        "r1".to_string(),
        info.clone(),
        vec![mk(CheckStatus::Pass), mk(CheckStatus::Skipped)],
        "n".to_string(),
    );
    assert_eq!(pass.summary.status, ReportStatus::Pass);
    assert_eq!(pass.summary.score, 1000);

    let warn = GuardrailReport::new(
        "r2".to_string(),
        info.clone(),
        vec![mk(CheckStatus::Pass), mk(CheckStatus::Warn)],
        "n".to_string(),
    );
    assert_eq!(warn.summary.status, ReportStatus::Warn);
    assert_eq!(warn.summary.score, 700);

    let fail = GuardrailReport::new(
        "r3".to_string(),
        info,
        vec![mk(CheckStatus::Warn), mk(CheckStatus::Fail)],
        "n".to_string(),
    );
    assert_eq!(fail.summary.status, ReportStatus::Fail);
    assert_eq!(fail.summary.score, 0);
    assert!(fail.risks.is_empty() && fail.next_actions.is_empty());
}

#[test]
fn run_validations_respects_the_toggles() {
    let inputs = ValidationInputs {
        fmt: outcome(true, "", ""),
        clippy: outcome(false, "warning", ""),
        scanned: vec![file("src/a.rs", "thread_rng()")],
    };
    let options = ValidationOptions::new(".".to_string(), "run-1".to_string());

    let all = run_validations(&config(AnalyzerToggles::default()), &options, &inputs);
    assert_eq!(all.id, "run-1");
    assert_eq!(all.checks.len(), 3);
    assert_eq!(all.checks[0].name, "fmt");
    assert_eq!(all.checks[1].name, "clippy");
    assert_eq!(all.checks[2].name, "deterministic_seed_scan");
    assert_eq!(all.summary.status, ReportStatus::Fail);
    assert_eq!(all.summary.notes, "Guardrail CLI MVP");

    let only_fmt = AnalyzerToggles { fmt: None, clippy: Some(false), deterministic: Some(false) };
    let one = run_validations(&config(only_fmt), &options, &inputs);
    assert_eq!(one.checks.len(), 1);
    assert_eq!(one.checks[0].name, "fmt");
    assert_eq!(one.summary.status, ReportStatus::Pass);
    assert_eq!(one.summary.score, 1000);
}

#[test]
fn source_info_survives_a_report_round_trip() {
    let info = SourceInfo {
        prompt_path: "p".to_string(),
        response_path: "r".to_string(),
        diff_path: "d".to_string(),
        spec_refs: Vec::new(),
    };
    let report = GuardrailReport::new("id".to_string(), info, Vec::new(), "notes".to_string());
    assert_eq!(report.source.prompt_path, "p");
    assert_eq!(report.summary.status, ReportStatus::Pass);
    assert!(!report.timestamp.is_empty());
}
