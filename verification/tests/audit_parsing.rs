use dev_security::audit::{
    findings_from_report, first_200, non_empty, severity_from_label, Advisory, AdvisoryEntry,
    AuditReport, Package, WarningValue,
};
use dev_security::{FindingSource, Severity};

fn entry(id: &str, title: &str, severity: Option<&str>, name: &str, version: &str) -> AdvisoryEntry {
    AdvisoryEntry {
        advisory: Advisory {
            id: id.into(),
            title: title.into(),
            description: None,
            url: None,
            severity: severity.map(|s| s.to_string()),
        },
        package: Package { name: name.into(), version: version.into() },
    }
}

#[test]
fn empty_report_yields_no_findings() {
    // { "vulnerabilities": { "list": [] }, "warnings": {} }
    let report = AuditReport { vulnerabilities: Vec::new(), warnings: Vec::new() };
    let findings = findings_from_report(&report);
    assert!(findings.is_empty());
}

#[test]
fn parses_a_critical_vulnerability() {
    let mut e = entry("RUSTSEC-2024-0001", "Use after free in foo", Some("critical"), "foo", "1.2.3");
    e.advisory.description = Some("...".into());
    e.advisory.url = Some("https://rustsec.org/advisories/RUSTSEC-2024-0001".into());
    let report = AuditReport { vulnerabilities: vec![e], warnings: Vec::new() };
    let findings = findings_from_report(&report);
    assert_eq!(findings.len(), 1);
    let f = &findings[0];
    assert_eq!(f.id, "RUSTSEC-2024-0001");
    assert_eq!(f.severity, Severity::Critical);
    assert_eq!(f.affected_crate, "foo");
    assert_eq!(f.affected_version.as_deref(), Some("1.2.3"));
    assert_eq!(f.source, FindingSource::Audit);
}

#[test]
fn severity_label_maps_each_level() {
    assert_eq!(severity_from_label(Some("critical")), Some(Severity::Critical));
    assert_eq!(severity_from_label(Some("high")), Some(Severity::Error));
    assert_eq!(severity_from_label(Some("medium")), Some(Severity::Warning));
    assert_eq!(severity_from_label(Some("low")), Some(Severity::Info));
    assert_eq!(severity_from_label(Some("none")), Some(Severity::Info));
    assert_eq!(severity_from_label(Some("HIGH")), Some(Severity::Error));
    assert_eq!(severity_from_label(Some("???")), None);
    assert_eq!(severity_from_label(None), None);
}

#[test]
fn missing_severity_defaults_to_warning() {
    let report = AuditReport {
        vulnerabilities: vec![entry("X", "t", None, "p", "")],
        warnings: Vec::new(),
    };
    let findings = findings_from_report(&report);
    assert_eq!(findings.len(), 1);
    assert_eq!(findings[0].severity, Severity::Warning);
    assert!(findings[0].affected_version.is_none());
}

#[test]
fn parses_warnings_array_entries() {
    let report = AuditReport {
        vulnerabilities: Vec::new(),
        warnings: vec![WarningValue::List(Some(vec![entry(
            "RUSTSEC-2024-9000",
            "unmaintained",
            None,
            "p",
            "0.1.0",
        )]))],
    };
    let findings = findings_from_report(&report);
    assert_eq!(findings.len(), 1);
    assert_eq!(findings[0].id, "RUSTSEC-2024-9000");
    assert_eq!(findings[0].severity, Severity::Warning);
}

#[test]
fn parses_warnings_single_entry() {
    let report = AuditReport {
        vulnerabilities: Vec::new(),
        warnings: vec![WarningValue::Single(Some(entry(
            "RUSTSEC-2024-NOTICE",
            "notice",
            None,
            "p",
            "0.1.0",
        )))],
    };
    let findings = findings_from_report(&report);
    assert_eq!(findings.len(), 1);
    assert_eq!(findings[0].id, "RUSTSEC-2024-NOTICE");
}

#[test]
fn warning_severity_label_is_ignored() {
    // Warnings carry no CVSS data: a label on one does not change its severity.
    let report = AuditReport {
        vulnerabilities: Vec::new(),
        warnings: vec![WarningValue::Single(Some(entry("W", "w", Some("critical"), "p", "1")))],
    };
    let findings = findings_from_report(&report);
    assert_eq!(findings[0].severity, Severity::Warning);
}

#[test]
fn malformed_warning_values_give_nothing() {
    let report = AuditReport {
        vulnerabilities: vec![entry("V", "v", Some("low"), "a", "1.0.0")],
        warnings: vec![
            WarningValue::List(None),
            WarningValue::Single(None),
            WarningValue::Other,
            WarningValue::List(Some(vec![
                entry("Y1", "y", None, "b", "2.0.0"),
                entry("Y2", "y", None, "c", ""),
            ])),
        ],
    };
    let findings = findings_from_report(&report);
    let ids: Vec<&str> = findings.iter().map(|f| f.id.as_str()).collect();
    assert_eq!(ids, vec!["V", "Y1", "Y2"]);
    assert_eq!(findings[0].severity, Severity::Info);
    assert_eq!(findings[2].affected_version, None);
    assert_eq!(findings[1].affected_crate, "b");
}

#[test]
fn vulnerability_keeps_description_and_url() {
    let mut e = entry("A", "title", Some("Medium"), "crate-a", "0.3.0");
    e.advisory.description = Some("long text".into());
    e.advisory.url = Some("https://example.org/A".into());
    let findings = findings_from_report(&AuditReport { vulnerabilities: vec![e], warnings: Vec::new() });
    let f = &findings[0];
    assert_eq!(f.title, "title");
    assert_eq!(f.severity, Severity::Warning);
    assert_eq!(f.description.as_deref(), Some("long text"));
    assert_eq!(f.url.as_deref(), Some("https://example.org/A"));
}

#[test]
fn non_empty_maps_empty_to_none() {
    assert_eq!(non_empty(""), None);
    assert_eq!(non_empty("1.0.0"), Some("1.0.0".to_string()));
}

#[test]
fn first_200_cuts_long_input() {
    let short = "abc";
    assert_eq!(first_200(short), "abc");
    let long = "x".repeat(250);
    assert_eq!(first_200(&long).len(), 200);
    assert_eq!(first_200(&long), &long[..200]);
    let exact = "y".repeat(200);
    assert_eq!(first_200(&exact), exact);
}

#[test]
fn first_200_never_cuts_inside_a_character() {
    let mut s = "x".repeat(199);
    s.push('é');
    s.push('y');
    let mut expected = "x".repeat(199);
    expected.push('é');
    assert_eq!(first_200(&s), expected);
    let wide = "é".repeat(300);
    assert_eq!(first_200(&wide).chars().count(), 200);
    assert_eq!(first_200(""), "");
}
