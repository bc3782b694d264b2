use dev_security::deny::{
    candidate_lines, findings_from_lines, non_empty_string, record_to_finding, severity_from_label,
    short_title, synthetic_id, DecodedLine, DenyFields, DenyGraph, DenyRecord,
};
use dev_security::{FindingSource, Severity};

fn diagnostic(severity: &str, code: Option<&str>, message: &str, graphs: &[(&str, &str)]) -> DenyRecord {
    DenyRecord {
        kind: "diagnostic".into(),
        fields: DenyFields {
            severity: severity.into(),
            code: code.map(|c| c.to_string()),
            message: message.into(),
            graphs: graphs
                .iter()
                .map(|(n, v)| DenyGraph { name: n.to_string(), version: v.to_string() })
                .collect(),
        },
    }
}

fn record(kind: &str) -> DenyRecord {
    DenyRecord {
        kind: kind.into(),
        fields: DenyFields { severity: String::new(), code: None, message: String::new(), graphs: Vec::new() },
    }
}

fn decoded(records: Vec<Option<DenyRecord>>) -> Vec<DecodedLine> {
    records.into_iter().enumerate().map(|(index, record)| DecodedLine { index, record }).collect()
}

#[test]
fn empty_input_yields_no_findings() {
    assert!(candidate_lines("").is_empty());
    assert!(findings_from_lines(&Vec::new()).is_empty());
}

#[test]
fn ignores_non_diagnostic_records() {
    let ndjson = "{\"type\":\"summary\",\"fields\":{}}\n{\"type\":\"note\",\"fields\":{}}";
    let lines = candidate_lines(ndjson);
    assert_eq!(lines.len(), 2);
    let findings = findings_from_lines(&decoded(vec![Some(record("summary")), Some(record("note"))]));
    assert!(findings.is_empty());
}

#[test]
fn parses_error_diagnostic() {
    let rec = diagnostic("error", Some("L001"), "license `GPL-3.0` not allowed", &[("foo", "1.0.0")]);
    let findings = findings_from_lines(&decoded(vec![Some(rec)]));
    assert_eq!(findings.len(), 1);
    let f = &findings[0];
    assert_eq!(f.id, "L001");
    assert_eq!(f.severity, Severity::Error);
    assert_eq!(f.affected_crate, "foo");
    assert_eq!(f.affected_version.as_deref(), Some("1.0.0"));
    assert_eq!(f.source, FindingSource::Deny);
}

#[test]
fn parses_warning_diagnostic() {
    let rec = diagnostic("warning", Some("D001"), "duplicate version of `serde`", &[("serde", "1.0.0")]);
    let findings = findings_from_lines(&decoded(vec![Some(rec)]));
    assert_eq!(findings.len(), 1);
    assert_eq!(findings[0].severity, Severity::Warning);
}

#[test]
fn parses_help_as_info() {
    let rec = diagnostic("help", Some("H001"), "consider...", &[]);
    let findings = findings_from_lines(&decoded(vec![Some(rec)]));
    assert_eq!(findings.len(), 1);
    assert_eq!(findings[0].severity, Severity::Info);
}

#[test]
fn missing_code_falls_back_to_synthetic_id() {
    let rec = diagnostic("error", None, "something bad", &[]);
    let findings = findings_from_lines(&decoded(vec![Some(rec)]));
    assert_eq!(findings.len(), 1);
    assert!(findings[0].id.starts_with("DENY-"));
    assert_eq!(findings[0].id, "DENY-0001");
}

#[test]
fn skips_unknown_severity_levels() {
    let rec = diagnostic("???", None, "x", &[]);
    assert!(findings_from_lines(&decoded(vec![Some(rec)])).is_empty());
}

#[test]
fn skips_blank_lines_and_invalid_json() {
    let ndjson = "\nnot-json\n{\"type\":\"diagnostic\",\"fields\":{\"severity\":\"error\",\"code\":\"E1\",\"message\":\"x\"}}\n\n{\"type\":\"diagnostic\",\"fields\":{\"severity\":\"warning\",\"code\":\"W1\",\"message\":\"y\"}}\n";
    let lines = candidate_lines(ndjson);
    let indices: Vec<usize> = lines.iter().map(|l| l.index).collect();
    assert_eq!(indices, vec![1, 2, 4]);
    assert_eq!(lines[0].text, "not-json");
    let decoded_lines = vec![
        DecodedLine { index: 1, record: None },
        DecodedLine { index: 2, record: Some(diagnostic("error", Some("E1"), "x", &[])) },
        DecodedLine { index: 4, record: Some(diagnostic("warning", Some("W1"), "y", &[])) },
    ];
    let findings = findings_from_lines(&decoded_lines);
    assert_eq!(findings.len(), 2);
}

#[test]
fn short_title_truncates_long_messages() {
    let msg = "a".repeat(200);
    let t = short_title(&msg);
    assert!(t.ends_with("..."));
    assert_eq!(t.len(), 120);
}

#[test]
fn short_title_handles_multibyte_at_truncation_boundary() {
    let mut msg = "x".repeat(110);
    msg.push_str("éééééééééééééééé");
    let t = short_title(&msg);
    assert!(t.ends_with("..."));
    assert!(t.len() <= 120);
}

#[test]
fn empty_graphs_become_workspace_sentinel() {
    let rec = diagnostic("error", Some("W001"), "workspace policy violation", &[]);
    let findings = findings_from_lines(&decoded(vec![Some(rec)]));
    assert_eq!(findings.len(), 1);
    assert_eq!(findings[0].affected_crate, "<workspace>");
    assert!(findings[0].affected_version.is_none());
}

#[test]
fn deny_severity_labels() {
    assert_eq!(severity_from_label("error"), Some(Severity::Error));
    assert_eq!(severity_from_label("WARNING"), Some(Severity::Warning));
    assert_eq!(severity_from_label("help"), Some(Severity::Info));
    assert_eq!(severity_from_label("Note"), Some(Severity::Info));
    assert_eq!(severity_from_label("critical"), None);
    assert_eq!(severity_from_label(""), None);
}

#[test]
fn short_title_takes_first_line_trimmed() {
    assert_eq!(short_title("  first line \t\nsecond line"), "first line");
    assert_eq!(short_title("windows line\r\nnext"), "windows line");
    assert_eq!(short_title(""), "cargo-deny finding");
    assert_eq!(short_title("   \nsecond"), "cargo-deny finding");
    let exact = "b".repeat(120);
    assert_eq!(short_title(&exact), exact);
}

#[test]
fn short_title_multibyte_cut_is_exact() {
    // 110 ASCII bytes, then two-byte characters: 117 bytes end inside the
    // fourth, so the cut keeps three of them (116 bytes) and adds "...".
    let mut msg = "x".repeat(110);
    msg.push_str("éééééééééééééééé");
    let t = short_title(&msg);
    let mut expected = "x".repeat(110);
    expected.push_str("ééé...");
    assert_eq!(t, expected);
    assert_eq!(t.len(), 119);
}

#[test]
fn synthetic_ids_are_zero_padded_line_numbers() {
    assert_eq!(synthetic_id(0), "DENY-0001");
    assert_eq!(synthetic_id(41), "DENY-0042");
    assert_eq!(synthetic_id(9998), "DENY-9999");
    assert_eq!(synthetic_id(12344), "DENY-12345");
}

#[test]
fn synthetic_id_uses_the_line_position() {
    let lines = vec![DecodedLine { index: 6, record: Some(diagnostic("note", None, "", &[("", "")])) }];
    let findings = findings_from_lines(&lines);
    assert_eq!(findings[0].id, "DENY-0007");
    assert_eq!(findings[0].title, "cargo-deny finding");
    assert_eq!(findings[0].description, None);
    assert_eq!(findings[0].affected_crate, "<workspace>");
    assert_eq!(findings[0].affected_version, None);
}

#[test]
fn record_to_finding_keeps_message_and_first_graph() {
    let rec = diagnostic(
        "error",
        Some("B001"),
        "crate `bad` is banned\nmore detail",
        &[("bad", "0.1.0"), ("other", "9.9.9")],
    );
    let f = record_to_finding(3, &rec).unwrap();
    assert_eq!(f.title, "crate `bad` is banned");
    assert_eq!(f.description.as_deref(), Some("crate `bad` is banned\nmore detail"));
    assert_eq!(f.affected_crate, "bad");
    assert_eq!(f.affected_version.as_deref(), Some("0.1.0"));
    assert_eq!(f.url, None);
    assert!(record_to_finding(3, &record("summary")).is_none());
}

#[test]
fn non_empty_string_maps_empty_to_none() {
    assert_eq!(non_empty_string(""), None);
    assert_eq!(non_empty_string("x"), Some("x".to_string()));
}
