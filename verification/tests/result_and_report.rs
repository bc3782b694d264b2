use dev_report::EvidenceData;
use dev_security::{
    severity_ord, subprocess_failed, AuditError, AuditResult, AuditRun, AuditScope, Finding,
    FindingSource, Severity,
};

fn audit_finding(id: &str, sev: Severity) -> Finding {
    Finding {
        id: id.into(),
        title: format!("issue {id}"),
        severity: sev,
        affected_crate: "foo".into(),
        affected_version: Some("1.2.3".into()),
        url: Some(format!("https://rustsec.org/advisories/{id}")),
        description: None,
        source: FindingSource::Audit,
    }
}

fn result_with(scope: AuditScope, findings: Vec<Finding>) -> AuditResult {
    AuditResult { name: "x".into(), version: "0.1.0".into(), scope, findings }
}

#[test]
fn run_builds_with_full_chain() {
    let r = AuditRun::new("x", "0.1.0")
        .scope(AuditScope::Vulnerabilities)
        .allow("RUSTSEC-0000-0000")
        .severity_threshold(Severity::Warning);
    assert_eq!(r.audit_scope(), AuditScope::Vulnerabilities);
    assert_eq!(r.subject(), "x");
    assert_eq!(r.subject_version(), "0.1.0");
}

#[test]
fn lib_empty_findings_produces_passing_report() {
    let report = result_with(AuditScope::All, Vec::new()).into_report();
    assert!(report.passed());
}

#[test]
fn findings_produce_failing_report() {
    let res = result_with(AuditScope::All, vec![audit_finding("RUSTSEC-2024-0001", Severity::Critical)]);
    let report = res.into_report();
    assert!(report.failed());
    assert_eq!(report.checks.len(), 1);
    let c = &report.checks[0];
    assert!(c.has_tag("security"));
    assert!(c.has_tag("cve"));
    assert_eq!(c.name, "security::audit::RUSTSEC-2024-0001");
}

#[test]
fn report_includes_evidence_keyvalue_for_finding_metadata() {
    let res = result_with(
        AuditScope::Vulnerabilities,
        vec![audit_finding("RUSTSEC-2024-1111", Severity::Error)],
    );
    let report = res.into_report();
    let c = &report.checks[0];
    let ev_labels: Vec<&str> = c.evidence.iter().map(|e| e.label.as_str()).collect();
    assert!(ev_labels.contains(&"finding"));
}

#[test]
fn count_at_or_above_filters_severity() {
    let res = result_with(
        AuditScope::All,
        vec![
            audit_finding("A", Severity::Info),
            audit_finding("B", Severity::Error),
            audit_finding("C", Severity::Critical),
        ],
    );
    assert_eq!(res.count_at_or_above(Severity::Critical), 1);
    assert_eq!(res.count_at_or_above(Severity::Error), 2);
    assert_eq!(res.count_at_or_above(Severity::Info), 3);
}

#[test]
fn count_from_filters_source() {
    let f1 = audit_finding("A", Severity::Error);
    let mut f2 = audit_finding("B", Severity::Warning);
    f2.source = FindingSource::Deny;
    let res = result_with(AuditScope::All, vec![f1, f2]);
    assert_eq!(res.count_from(FindingSource::Audit), 1);
    assert_eq!(res.count_from(FindingSource::Deny), 1);
}

#[test]
fn worst_severity_picks_max() {
    let res = result_with(
        AuditScope::All,
        vec![
            audit_finding("A", Severity::Warning),
            audit_finding("B", Severity::Critical),
            audit_finding("C", Severity::Info),
        ],
    );
    assert_eq!(res.worst_severity(), Some(Severity::Critical));
    let empty = result_with(AuditScope::All, Vec::new());
    assert_eq!(empty.worst_severity(), None);
}

#[test]
fn auditscope_runs_helpers() {
    assert!(AuditScope::All.runs_audit());
    assert!(AuditScope::All.runs_deny());
    assert!(AuditScope::Vulnerabilities.runs_audit());
    assert!(!AuditScope::Vulnerabilities.runs_deny());
    assert!(!AuditScope::Policy.runs_audit());
    assert!(AuditScope::Policy.runs_deny());
}

#[test]
fn clean_report_names_scope_and_producer() {
    let report = result_with(AuditScope::Policy, Vec::new()).into_report();
    assert_eq!(report.subject, "x");
    assert_eq!(report.subject_version, "0.1.0");
    assert_eq!(report.producer.as_deref(), Some("dev-security"));
    assert!(report.finished_at.is_some());
    assert_eq!(report.checks.len(), 1);
    let c = &report.checks[0];
    assert_eq!(c.name, "security::audit");
    assert_eq!(c.detail.as_deref(), Some("policy scope: no findings"));
    assert_eq!(c.tags, vec!["security".to_string()]);
    assert!(c.evidence.is_empty());
    assert_eq!(c.severity, None);
}

#[test]
fn finding_check_carries_detail_tags_and_evidence() {
    let mut f = audit_finding("L001", Severity::Warning);
    f.source = FindingSource::Deny;
    f.url = None;
    f.description = Some("the long story".into());
    let report = result_with(AuditScope::Policy, vec![f]).into_report();
    let c = &report.checks[0];
    assert_eq!(c.name, "security::deny::L001");
    assert_eq!(c.detail.as_deref(), Some("issue L001 (in foo)"));
    assert_eq!(c.tags, vec!["security".to_string(), "policy".to_string()]);
    assert_eq!(c.severity, Some(dev_report::Severity::Warning));
    assert_eq!(c.evidence.len(), 2);
    match &c.evidence[0].data {
        EvidenceData::KeyValue(map) => {
            assert_eq!(map.len(), 3);
            assert_eq!(map.get("crate").map(|s| s.as_str()), Some("foo"));
            assert_eq!(map.get("id").map(|s| s.as_str()), Some("L001"));
            assert_eq!(map.get("version").map(|s| s.as_str()), Some("1.2.3"));
            assert!(map.get("url").is_none());
        }
        _ => panic!("expected key/value evidence"),
    }
    assert_eq!(c.evidence[1].label, "description");
    assert_eq!(c.evidence[1].data, EvidenceData::Snippet("the long story".into()));
}

#[test]
fn one_check_per_finding_in_order() {
    let res = result_with(
        AuditScope::All,
        vec![audit_finding("A", Severity::Info), audit_finding("B", Severity::Critical)],
    );
    let report = res.into_report();
    let names: Vec<&str> = report.checks.iter().map(|c| c.name.as_str()).collect();
    assert_eq!(names, vec!["security::audit::A", "security::audit::B"]);
    assert_eq!(report.checks[0].severity, Some(dev_report::Severity::Info));
    assert_eq!(report.checks[1].severity, Some(dev_report::Severity::Critical));
    match &report.checks[1].evidence[0].data {
        EvidenceData::KeyValue(map) => {
            assert_eq!(map.get("url").map(|s| s.as_str()), Some("https://rustsec.org/advisories/B"));
        }
        _ => panic!("expected key/value evidence"),
    }
}

#[test]
fn count_laws_on_concrete_findings() {
    let mut d = audit_finding("D", Severity::Error);
    d.source = FindingSource::Deny;
    let res = result_with(
        AuditScope::All,
        vec![audit_finding("A", Severity::Warning), d, audit_finding("C", Severity::Info)],
    );
    assert_eq!(res.count_at_or_above(Severity::Info), res.findings.len());
    assert_eq!(res.count_from(FindingSource::Audit) + res.count_from(FindingSource::Deny), 3);
    let worst = res.worst_severity().unwrap();
    assert_eq!(worst, Severity::Error);
    assert!(res.count_at_or_above(worst) >= 1);
    assert_eq!(res.count_at_or_above(Severity::Critical), 0);
}

#[test]
fn audit_error_messages() {
    assert_eq!(
        AuditError::AuditToolNotInstalled.message(),
        "cargo-audit is not installed; run `cargo install cargo-audit`"
    );
    assert_eq!(
        AuditError::DenyToolNotInstalled.message(),
        "cargo-deny is not installed; run `cargo install cargo-deny`"
    );
    assert_eq!(AuditError::SubprocessFailed("boom".into()).message(), "audit subprocess failed: boom");
    assert_eq!(AuditError::ParseError("bad".into()).message(), "could not parse audit output: bad");
}

#[test]
fn subprocess_failure_needs_empty_output_and_failed_exit() {
    assert!(subprocess_failed("", false));
    assert!(subprocess_failed("  \n\t", false));
    assert!(!subprocess_failed("", true));
    assert!(!subprocess_failed("{}", false));
}

#[test]
fn severity_ranks() {
    assert_eq!(severity_ord(Severity::Info), 0);
    assert_eq!(severity_ord(Severity::Warning), 1);
    assert_eq!(severity_ord(Severity::Error), 2);
    assert_eq!(severity_ord(Severity::Critical), 3);
    assert_eq!(dev_security::scope_label(AuditScope::Vulnerabilities), "vulnerabilities");
    assert_eq!(dev_security::scope_label(AuditScope::All), "all");
}
