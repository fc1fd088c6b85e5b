//! Guardrail configuration model: which sources a validation run reads,
//! which analyzers it runs, and where its report goes. Loading the file
//! itself is the caller's concern; the model here validates plain values.

use vstd::prelude::*;

use crate::report::SourceInfo;

verus! {

/// Which configured source file is missing.
#[derive(Clone, Copy, Debug, PartialEq, Eq, Structural)]
pub enum SourceError {
    MissingPrompt,
    MissingResponse,
    MissingDiff,
}

/// The prompt, response and diff artifacts a validation run reads.
#[derive(Clone, Debug)]
pub struct SourceConfig {
    pub prompt: String,
    pub response: String,
    pub diff: String,
    pub spec_refs: Option<Vec<String>>,
}

impl SourceConfig {
    /// Check the three sources in order, given whether each path exists on
    /// disk (the caller performs the probe); the first missing one is
    /// reported.
    pub fn ensure_exists(
        &self,
        prompt_exists: bool,
        response_exists: bool,
        diff_exists: bool,
    ) -> (r: Result<(), SourceError>)
        ensures
            r is Ok <==> (prompt_exists && response_exists && diff_exists),
            !prompt_exists ==> r == Err::<(), SourceError>(SourceError::MissingPrompt),
            prompt_exists && !response_exists ==> r == Err::<(), SourceError>(
                SourceError::MissingResponse,
            ),
            prompt_exists && response_exists && !diff_exists ==> r == Err::<(), SourceError>(
                SourceError::MissingDiff,
            ),
    {
        if !prompt_exists {
            Err(SourceError::MissingPrompt)
        } else if !response_exists {
            Err(SourceError::MissingResponse)
        } else if !diff_exists {
            Err(SourceError::MissingDiff)
        } else {
            Ok(())
        }
    }
}

/// Per-analyzer on/off switches; an absent switch means on.
#[derive(Clone, Debug)]
pub struct AnalyzerToggles {
    pub fmt: Option<bool>,
    pub clippy: Option<bool>,
    pub deterministic: Option<bool>,
}

impl Default for AnalyzerToggles {
    /// Every analyzer enabled.
    fn default() -> (r: AnalyzerToggles)
        ensures
            r.fmt is None && r.clippy is None && r.deterministic is None,
    {
        AnalyzerToggles { fmt: None, clippy: None, deterministic: None }
    }
}

pub open spec fn toggle_enabled(t: Option<bool>) -> bool {
    match t {
        Some(b) => b,
        None => true,
    }
}

impl AnalyzerToggles {
    pub fn fmt_enabled(&self) -> (r: bool)
        ensures
            r == toggle_enabled(self.fmt),
    {
        match self.fmt {
            Some(b) => b,
            None => true,
        }
    }

    pub fn clippy_enabled(&self) -> (r: bool)
        ensures
            r == toggle_enabled(self.clippy),
    {
        match self.clippy {
            Some(b) => b,
            None => true,
        }
    }

    pub fn deterministic_enabled(&self) -> (r: bool)
        ensures
            r == toggle_enabled(self.deterministic),
    {
        match self.deterministic {
            Some(b) => b,
            None => true,
        }
    }
}

/// Where the JSON report is written.
#[derive(Clone, Debug)]
pub struct ReportConfig {
    pub path: String,
    pub include_logs: bool,
}

/// Optional build-target metadata carried through unchanged.
#[derive(Clone, Debug)]
pub struct TargetConfig {
    pub platforms: Option<Vec<String>>,
    pub checklist_refs: Option<Vec<String>>,
}

impl Default for TargetConfig {
    fn default() -> (r: TargetConfig)
        ensures
            r.platforms is None && r.checklist_refs is None,
    {
        TargetConfig { platforms: None, checklist_refs: None }
    }
}

/// Optional tracing switches.
#[derive(Clone, Debug)]
pub struct TelemetryConfig {
    pub enable_trace: Option<bool>,
    pub trace_filter: Option<String>,
}

impl Default for TelemetryConfig {
    fn default() -> (r: TelemetryConfig)
        ensures
            r.enable_trace is None && r.trace_filter is None,
    {
        TelemetryConfig { enable_trace: None, trace_filter: None }
    }
}

/// The whole guardrail configuration record.
#[derive(Clone, Debug)]
pub struct GuardrailConfig {
    pub sources: SourceConfig,
    pub analyzers: AnalyzerToggles,
    pub report: Option<ReportConfig>,
    pub targets: Option<TargetConfig>,
    pub telemetry: Option<TelemetryConfig>,
}

/// The spec refs a config carries, or none.
pub open spec fn spec_refs_view(r: Option<Vec<String>>) -> Seq<String> {
    match r {
        Some(v) => v@,
        None => Seq::empty(),
    }
}

impl GuardrailConfig {
    /// The source description that goes into a report.
    pub fn source_info(&self) -> (r: SourceInfo)
        ensures
            r.prompt_path@ == self.sources.prompt@,
            r.response_path@ == self.sources.response@,
            r.diff_path@ == self.sources.diff@,
            r.spec_refs@ == spec_refs_view(self.sources.spec_refs),
    {
        let spec_refs: Vec<String> = match &self.sources.spec_refs {
            Some(v) => {
                let n = v.len();
                let mut out: Vec<String> = Vec::new();
                let mut i: usize = 0;
                while i < n
                    invariant
                        0 <= i <= n,
                        n == v@.len(),
                        out@.len() == i,
                        forall|k: int| 0 <= k < i ==> out@[k] == v@[k],
                    decreases n - i,
                {
                    let item = v[i].clone();
                    out.push(item);
                    i = i + 1;
                }
                proof {
                    assert(out@ =~= v@);
                }
                out
            },
            None => Vec::new(),
        };
        proof {
            if self.sources.spec_refs is None {
                assert(spec_refs@ =~= spec_refs_view(self.sources.spec_refs));
            }
        }
        SourceInfo {
            prompt_path: self.sources.prompt.clone(),
            response_path: self.sources.response.clone(),
            diff_path: self.sources.diff.clone(),
            spec_refs,
        }
    }

    /// Validate the configured sources against the caller's existence probe.
    pub fn validate_sources(
        &self,
        prompt_exists: bool,
        response_exists: bool,
        diff_exists: bool,
    ) -> (r: Result<(), SourceError>)
        ensures
            r is Ok <==> (prompt_exists && response_exists && diff_exists),
            !prompt_exists ==> r == Err::<(), SourceError>(SourceError::MissingPrompt),
            prompt_exists && !response_exists ==> r == Err::<(), SourceError>(
                SourceError::MissingResponse,
            ),
            prompt_exists && response_exists && !diff_exists ==> r == Err::<(), SourceError>(
                SourceError::MissingDiff,
            ),
    {
        self.sources.ensure_exists(prompt_exists, response_exists, diff_exists)
    }
}

} // verus!
