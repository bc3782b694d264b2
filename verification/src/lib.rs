//! Security audit findings for Rust projects: severity mapping of
//! `cargo-audit` and `cargo-deny` output, normalisation of the findings
//! (allow-list, severity threshold, ordering, de-duplication) and their
//! conversion into a `dev_report::Report`.

use vstd::prelude::*;

pub mod audit;
pub mod deny;
pub mod order;
pub mod producer;
pub mod report;
pub mod result;
pub mod run;
pub mod text;

pub use producer::AuditProducer;
pub use result::AuditResult;
pub use run::AuditRun;

verus! {

/// How serious a finding is. Ordered `Info` < `Warning` < `Error` < `Critical`.
#[derive(Debug, Clone, Copy, PartialEq, Eq, Structural)]
pub enum Severity {
    /// Informational.
    Info,
    /// Worth a look.
    Warning,
    /// A real problem.
    Error,
    /// A problem to fix right away.
    Critical,
}

/// The position of a severity in the order `Info` < `Warning` < `Error` < `Critical`.
pub open spec fn severity_rank(s: Severity) -> int {
    match s {
        Severity::Info => 0,
        Severity::Warning => 1,
        Severity::Error => 2,
        Severity::Critical => 3,
    }
}

/// The severities are ordered `Info` < `Warning` < `Error` < `Critical`.
pub proof fn lemma_severity_order()
    ensures
        severity_rank(Severity::Info) < severity_rank(Severity::Warning),
        severity_rank(Severity::Warning) < severity_rank(Severity::Error),
        severity_rank(Severity::Error) < severity_rank(Severity::Critical),
{
}

/// Numeric rank of a severity, used for threshold comparisons.
pub fn severity_ord(s: Severity) -> (r: u8)
    ensures
        r == severity_rank(s),
{
    match s {
        Severity::Info => 0,
        Severity::Warning => 1,
        Severity::Error => 2,
        Severity::Critical => 3,
    }
}

/// Scope of an audit run.
#[derive(Debug, Clone, Copy, PartialEq, Eq, Structural)]
pub enum AuditScope {
    /// Run only the vulnerability scanner (`cargo audit`).
    Vulnerabilities,
    /// Run only the policy enforcer (`cargo deny`).
    Policy,
    /// Run both vulnerability and policy checks.
    All,
}

impl AuditScope {
    /// Whether this scope runs `cargo audit`.
    pub fn runs_audit(self) -> (r: bool)
        ensures
            r == (self == AuditScope::Vulnerabilities || self == AuditScope::All),
    {
        match self {
            AuditScope::Vulnerabilities | AuditScope::All => true,
            AuditScope::Policy => false,
        }
    }

    /// Whether this scope runs `cargo deny`.
    pub fn runs_deny(self) -> (r: bool)
        ensures
            r == (self == AuditScope::Policy || self == AuditScope::All),
    {
        match self {
            AuditScope::Policy | AuditScope::All => true,
            AuditScope::Vulnerabilities => false,
        }
    }
}

/// The label of a scope as it appears in report details.
pub open spec fn scope_label_spec(s: AuditScope) -> Seq<char> {
    match s {
        AuditScope::Vulnerabilities => "vulnerabilities"@,
        AuditScope::Policy => "policy"@,
        AuditScope::All => "all"@,
    }
}

/// The label of a scope as it appears in report details.
pub fn scope_label(s: AuditScope) -> (r: &'static str)
    ensures
        r@ == scope_label_spec(s),
{
    match s {
        AuditScope::Vulnerabilities => "vulnerabilities",
        AuditScope::Policy => "policy",
        AuditScope::All => "all",
    }
}

/// Which tool emitted a [`Finding`].
#[derive(Debug, Clone, Copy, PartialEq, Eq, Structural)]
pub enum FindingSource {
    /// `cargo-audit` (RustSec advisory database).
    Audit,
    /// `cargo-deny` (license / banned crates / sources policy).
    Deny,
}

/// A single security finding.
#[derive(Debug, Clone)]
pub struct Finding {
    /// Advisory ID (e.g. `RUSTSEC-2024-0001`) or `cargo-deny` rule code.
    pub id: String,
    /// Short human-readable title.
    pub title: String,
    /// Severity classification mapped from the underlying tool.
    pub severity: Severity,
    /// Affected crate name.
    pub affected_crate: String,
    /// Affected crate version, when the underlying tool exposed it.
    pub affected_version: Option<String>,
    /// URL with more detail (advisory page, license SPDX page, etc.).
    pub url: Option<String>,
    /// Long-form description, when the underlying tool exposed it.
    pub description: Option<String>,
    /// Which tool emitted this finding.
    pub source: FindingSource,
}

/// The characters of an optional string.
pub open spec fn opt_view(o: Option<String>) -> Option<Seq<char>> {
    match o {
        Some(s) => Some(s@),
        None => None,
    }
}

/// What a [`Finding`] says, with its strings taken as character sequences.
pub struct FindingView {
    pub id: Seq<char>,
    pub title: Seq<char>,
    pub severity: Severity,
    pub affected_crate: Seq<char>,
    pub affected_version: Option<Seq<char>>,
    pub url: Option<Seq<char>>,
    pub description: Option<Seq<char>>,
    pub source: FindingSource,
}

impl View for Finding {
    type V = FindingView;

    open spec fn view(&self) -> FindingView {
        FindingView {
            id: self.id@,
            title: self.title@,
            severity: self.severity,
            affected_crate: self.affected_crate@,
            affected_version: opt_view(self.affected_version),
            url: opt_view(self.url),
            description: opt_view(self.description),
            source: self.source,
        }
    }
}

/// The views of a sequence of findings.
pub open spec fn findings_view(s: Seq<Finding>) -> Seq<FindingView> {
    s.map_values(|f: Finding| f@)
}

/// Errors that can arise during an audit run.
#[derive(Debug)]
pub enum AuditError {
    /// `cargo-audit` is not installed.
    AuditToolNotInstalled,
    /// `cargo-deny` is not installed.
    DenyToolNotInstalled,
    /// Subprocess failure with the captured stderr.
    SubprocessFailed(String),
    /// Output parsing failure.
    ParseError(String),
}

/// The message that describes an error.
pub open spec fn error_message(e: AuditError) -> Seq<char> {
    match e {
        AuditError::AuditToolNotInstalled =>
            "cargo-audit is not installed; run `cargo install cargo-audit`"@,
        AuditError::DenyToolNotInstalled =>
            "cargo-deny is not installed; run `cargo install cargo-deny`"@,
        AuditError::SubprocessFailed(s) => "audit subprocess failed: "@ + s@,
        AuditError::ParseError(s) => "could not parse audit output: "@ + s@,
    }
}

impl AuditError {
    /// The human-readable message for this error.
    pub fn message(&self) -> (r: String)
        ensures
            r@ == error_message(*self),
    {
        match self {
            AuditError::AuditToolNotInstalled =>
                "cargo-audit is not installed; run `cargo install cargo-audit`".to_owned(),
            AuditError::DenyToolNotInstalled =>
                "cargo-deny is not installed; run `cargo install cargo-deny`".to_owned(),
            AuditError::SubprocessFailed(s) => {
                let mut r = "audit subprocess failed: ".to_owned();
                r.append(s.as_str());
                r
            },
            AuditError::ParseError(s) => {
                let mut r = "could not parse audit output: ".to_owned();
                r.append(s.as_str());
                r
            },
        }
    }
}

/// Whether a tool run failed outright: it exited unsuccessfully and wrote
/// nothing but white space to its standard output. A tool that reports
/// findings may exit unsuccessfully; its output is then still read.
pub fn subprocess_failed(stdout: &str, exit_success: bool) -> (r: bool)
    ensures
        r == (crate::text::trim(stdout@).len() == 0 && !exit_success),
{
    if exit_success {
        return false;
    }
    let v = crate::text::chars_of(stdout);
    let (a, b) = crate::text::trimmed_range(&v, 0, v.len());
    proof {
        assert(v@.subrange(0, v.len() as int) =~= stdout@);
    }
    a == b
}

} // verus!
