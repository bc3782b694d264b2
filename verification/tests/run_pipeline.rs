use dev_security::run::{normalize_findings, ExecuteStep};
use dev_security::{AuditProducer, AuditError, AuditRun, AuditScope, Finding, FindingSource, Severity};

fn f(id: &str, krate: &str, sev: Severity, src: FindingSource, title: &str) -> Finding {
    Finding {
        id: id.into(),
        title: title.into(),
        severity: sev,
        affected_crate: krate.into(),
        affected_version: None,
        url: None,
        description: None,
        source: src,
    }
}

fn keys(v: &[Finding]) -> Vec<(String, String)> {
    v.iter().map(|x| (x.id.clone(), x.affected_crate.clone())).collect()
}

#[test]
fn assemble_sorts_dedups_and_filters() {
    let run = AuditRun::new("subj", "1.0.0")
        .scope(AuditScope::All)
        .allow("RUSTSEC-ALLOWED")
        .severity_threshold(Severity::Warning);
    let audit = vec![
        f("RUSTSEC-2", "b", Severity::Error, FindingSource::Audit, "first"),
        f("RUSTSEC-ALLOWED", "a", Severity::Critical, FindingSource::Audit, "allowed"),
        f("RUSTSEC-1", "z", Severity::Warning, FindingSource::Audit, "one-z"),
        f("RUSTSEC-1", "a", Severity::Info, FindingSource::Audit, "too low"),
    ];
    let deny = vec![
        f("RUSTSEC-2", "b", Severity::Critical, FindingSource::Deny, "second"),
        f("L001", "c", Severity::Error, FindingSource::Deny, "license"),
        f("RUSTSEC-1", "m", Severity::Critical, FindingSource::Deny, "one-m"),
    ];
    let res = run.assemble(audit, deny);
    assert_eq!(res.name, "subj");
    assert_eq!(res.version, "1.0.0");
    assert_eq!(res.scope, AuditScope::All);
    assert_eq!(
        keys(&res.findings),
        vec![
            ("L001".to_string(), "c".to_string()),
            ("RUSTSEC-1".to_string(), "m".to_string()),
            ("RUSTSEC-1".to_string(), "z".to_string()),
            ("RUSTSEC-2".to_string(), "b".to_string()),
        ]
    );
    // Of the two findings with one key, the first one (from cargo-audit) stays.
    assert_eq!(res.findings[3].title, "first");
    assert_eq!(res.findings[3].source, FindingSource::Audit);
    assert_eq!(res.count_at_or_above(Severity::Warning), res.findings.len());
}

#[test]
fn normalizing_twice_changes_nothing() {
    let input = vec![
        f("b", "x", Severity::Info, FindingSource::Audit, "1"),
        f("a", "y", Severity::Info, FindingSource::Deny, "2"),
        f("a", "y", Severity::Error, FindingSource::Deny, "3"),
        f("a", "", Severity::Info, FindingSource::Audit, "4"),
    ];
    let allow: Vec<String> = Vec::new();
    let once = normalize_findings(input, &allow, None);
    assert_eq!(
        keys(&once),
        vec![
            ("a".to_string(), "".to_string()),
            ("a".to_string(), "y".to_string()),
            ("b".to_string(), "x".to_string()),
        ]
    );
    assert_eq!(once[1].title, "2");
    let again = normalize_findings(once.clone(), &allow, None);
    assert_eq!(keys(&again), keys(&once));
    let titles: Vec<&str> = again.iter().map(|x| x.title.as_str()).collect();
    assert_eq!(titles, vec!["4", "2", "1"]);
}

#[test]
fn ordering_is_by_code_point_with_prefix_first() {
    let input = vec![
        f("ab", "k", Severity::Info, FindingSource::Audit, ""),
        f("a", "k", Severity::Info, FindingSource::Audit, ""),
        f("B", "k", Severity::Info, FindingSource::Audit, ""),
        f("é", "k", Severity::Info, FindingSource::Audit, ""),
        f("z", "k", Severity::Info, FindingSource::Audit, ""),
    ];
    let out = normalize_findings(input, &Vec::new(), None);
    let ids: Vec<&str> = out.iter().map(|x| x.id.as_str()).collect();
    assert_eq!(ids, vec!["B", "a", "ab", "z", "é"]);
}

#[test]
fn allow_all_suppresses_each_id() {
    let run = AuditRun::new("s", "0").allow_all(["A", "B"]).allow("C");
    let audit = vec![
        f("A", "x", Severity::Critical, FindingSource::Audit, ""),
        f("B", "x", Severity::Critical, FindingSource::Audit, ""),
        f("C", "x", Severity::Critical, FindingSource::Audit, ""),
        f("D", "x", Severity::Info, FindingSource::Audit, ""),
    ];
    let res = run.assemble(audit, Vec::new());
    assert_eq!(keys(&res.findings), vec![("D".to_string(), "x".to_string())]);
}

#[test]
fn run_paths_are_kept() {
    let run = AuditRun::new("s", "0");
    assert_eq!(run.working_dir(), None);
    assert_eq!(run.deny_config_path(), None);
    let run = run.in_dir("/tmp/project").deny_config("ci/deny.toml");
    assert_eq!(run.working_dir(), Some("/tmp/project"));
    assert_eq!(run.deny_config_path(), Some("ci/deny.toml"));
}

#[test]
fn producer_reports_errors_as_one_critical_check() {
    let producer = AuditProducer::new(AuditRun::new("self", "0.0.0").scope(AuditScope::Vulnerabilities));
    assert_eq!(producer.run().subject(), "self");
    let report = producer.report_for(Err(AuditError::AuditToolNotInstalled));
    assert_eq!(report.subject, "self");
    assert_eq!(report.subject_version, "0.0.0");
    assert_eq!(report.producer.as_deref(), Some("dev-security"));
    assert_eq!(report.checks.len(), 1);
    let c = &report.checks[0];
    assert_eq!(c.name, "security::audit");
    assert_eq!(c.severity, Some(dev_report::Severity::Critical));
    assert_eq!(
        c.detail.as_deref(),
        Some("cargo-audit is not installed; run `cargo install cargo-audit`")
    );
    assert_eq!(c.tags, vec!["security".to_string(), "subprocess".to_string()]);
    assert!(report.failed());
}

#[test]
fn producer_passes_results_through() {
    let producer = AuditProducer::new(AuditRun::new("self", "0.0.0"));
    let res = producer.run().assemble(Vec::new(), Vec::new());
    let report = producer.report_for(Ok(res));
    assert!(report.passed());
    assert_eq!(report.checks[0].detail.as_deref(), Some("all scope: no findings"));
}

#[test]
fn produce_returns_report_when_tool_missing() {
    // What the producer reports when `cargo audit` is not installed.
    let producer =
        AuditProducer::new(AuditRun::new("self", "0.0.0").scope(AuditScope::Vulnerabilities));
    let report = producer.report_for(Err(AuditError::AuditToolNotInstalled));
    assert_eq!(report.subject, "self");
    assert!(!report.checks.is_empty());
}

#[test]
fn reports_are_finished() {
    let report = AuditRun::new("s", "1").assemble(Vec::new(), Vec::new()).into_report();
    assert!(report.finished_at.is_some());
    let producer = AuditProducer::new(AuditRun::new("s", "1"));
    let failed = producer.report_for(Err(AuditError::SubprocessFailed("x".into())));
    assert!(failed.finished_at.is_some());
    assert_eq!(failed.checks[0].detail.as_deref(), Some("audit subprocess failed: x"));
}

#[test]
fn reordered_distinct_findings_give_the_same_result() {
    let run = AuditRun::new("s", "1").severity_threshold(Severity::Warning);
    let a = || f("R-2", "a", Severity::Error, FindingSource::Audit, "t2");
    let b = || f("R-1", "b", Severity::Critical, FindingSource::Audit, "t1");
    let c = || f("L-9", "c", Severity::Warning, FindingSource::Deny, "t9");
    let d = || f("L-0", "d", Severity::Info, FindingSource::Deny, "t0");
    let one = run.assemble(vec![a(), b()], vec![c(), d()]);
    let two = run.assemble(vec![d(), b()], vec![c(), a()]);
    assert_eq!(keys(&one.findings), keys(&two.findings));
    assert_eq!(keys(&one.findings).len(), 3);
}

#[test]
fn execute_steps_follow_the_scope() {
    let all = AuditRun::new("s", "1");
    assert!(matches!(all.start(), ExecuteStep::RunAudit));
    let policy = AuditRun::new("s", "1").scope(AuditScope::Policy);
    assert!(matches!(policy.start(), ExecuteStep::RunDeny(v) if v.is_empty()));
    // An audit failure ends the run before cargo deny.
    match all.after_audit(Err(AuditError::AuditToolNotInstalled)) {
        ExecuteStep::Done(Err(AuditError::AuditToolNotInstalled)) => {}
        _ => panic!("expected the audit error"),
    }
    let found = vec![f("A", "x", Severity::Error, FindingSource::Audit, "")];
    match all.after_audit(Ok(found)) {
        ExecuteStep::RunDeny(v) => {
            assert_eq!(v.len(), 1);
            let res = all
                .after_deny(v, Ok(vec![f("B", "y", Severity::Error, FindingSource::Deny, "")]))
                .unwrap();
            assert_eq!(keys(&res.findings).len(), 2);
            assert!(matches!(
                all.after_deny(Vec::new(), Err(AuditError::DenyToolNotInstalled)),
                Err(AuditError::DenyToolNotInstalled)
            ));
        }
        _ => panic!("expected cargo deny to run next"),
    }
    let vulns = AuditRun::new("s", "1").scope(AuditScope::Vulnerabilities);
    match vulns.after_audit(Ok(vec![f("A", "x", Severity::Error, FindingSource::Audit, "")])) {
        ExecuteStep::Done(Ok(res)) => assert_eq!(res.findings.len(), 1),
        _ => panic!("expected the run to end"),
    }
}
