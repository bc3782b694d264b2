//! Findings from the JSON report of `cargo audit --json`.
//!
//! The report is decoded into the types below first; the functions here
//! turn the decoded report into findings.

use vstd::prelude::*;
use vstd::string::StrSliceExecFns;
use crate::text::{ascii_lower_code, eq_lowercased, lowercases_to};
use crate::{findings_view, opt_view, Finding, FindingSource, FindingView, Severity};

verus! {

/// The advisory part of a vulnerability or warning entry.
#[derive(Debug)]
pub struct Advisory {
    /// Advisory ID, empty when the report has none.
    pub id: String,
    /// Advisory title, empty when the report has none.
    pub title: String,
    /// Long description.
    pub description: Option<String>,
    /// Advisory URL.
    pub url: Option<String>,
    /// Severity label derived from the CVSS score: `none`, `low`, `medium`,
    /// `high` or `critical`.
    pub severity: Option<String>,
}

/// The affected package of an entry.
#[derive(Debug)]
pub struct Package {
    /// Crate name, empty when the report has none.
    pub name: String,
    /// Crate version, empty when the report has none.
    pub version: String,
}

/// One entry of the report: an advisory about a package.
#[derive(Debug)]
pub struct AdvisoryEntry {
    /// The advisory.
    pub advisory: Advisory,
    /// The package it affects.
    pub package: Package,
}

/// The value stored under one key of the report's `warnings` object.
#[derive(Debug)]
pub enum WarningValue {
    /// An array; `None` when its elements are not all entries.
    List(Option<Vec<AdvisoryEntry>>),
    /// An object; `None` when it is not an entry.
    Single(Option<AdvisoryEntry>),
    /// Any other JSON value.
    Other,
}

/// A decoded `cargo audit --json` report.
#[derive(Debug)]
pub struct AuditReport {
    /// The entries of `vulnerabilities.list`, in order.
    pub vulnerabilities: Vec<AdvisoryEntry>,
    /// The values of the `warnings` object, in key order.
    pub warnings: Vec<WarningValue>,
}

/// The severity that a `cargo audit` severity label stands for, compared
/// without regard to ASCII case.
pub open spec fn audit_label_severity(label: Option<Seq<char>>) -> Option<Severity> {
    match label {
        None => None,
        Some(l) => if lowercases_to(l, "critical"@) {
            Some(Severity::Critical)
        } else if lowercases_to(l, "high"@) {
            Some(Severity::Error)
        } else if lowercases_to(l, "medium"@) {
            Some(Severity::Warning)
        } else if lowercases_to(l, "low"@) || lowercases_to(l, "none"@) {
            Some(Severity::Info)
        } else {
            None
        },
    }
}

/// `s`, or nothing when `s` is empty.
pub open spec fn non_empty_spec(s: Seq<char>) -> Option<Seq<char>> {
    if s.len() == 0 {
        None
    } else {
        Some(s)
    }
}

/// The finding for a vulnerability entry. Without a known severity label
/// it is a `Warning`.
pub open spec fn vulnerability_finding(e: AdvisoryEntry) -> FindingView {
    FindingView {
        id: e.advisory.id@,
        title: e.advisory.title@,
        severity: match audit_label_severity(opt_view(e.advisory.severity)) {
            Some(s) => s,
            None => Severity::Warning,
        },
        affected_crate: e.package.name@,
        affected_version: non_empty_spec(e.package.version@),
        url: opt_view(e.advisory.url),
        description: opt_view(e.advisory.description),
        source: FindingSource::Audit,
    }
}

/// The finding for a warning entry (unmaintained, yanked, notice): always a
/// `Warning`.
pub open spec fn warning_finding(e: AdvisoryEntry) -> FindingView {
    FindingView { severity: Severity::Warning, ..vulnerability_finding(e) }
}

/// The entries that a warning value holds: all of a well-formed array, the
/// one of a well-formed object, none otherwise.
pub open spec fn warning_entries(w: WarningValue) -> Seq<AdvisoryEntry> {
    match w {
        WarningValue::List(Some(v)) => v@,
        WarningValue::Single(Some(e)) => seq![e],
        _ => Seq::empty(),
    }
}

/// The findings for the warning values, in order.
pub open spec fn warnings_findings(ws: Seq<WarningValue>) -> Seq<FindingView>
    decreases ws.len(),
{
    if ws.len() == 0 {
        Seq::empty()
    } else {
        warnings_findings(ws.drop_last()) + warning_entries(ws.last()).map_values(
            |e: AdvisoryEntry| warning_finding(e),
        )
    }
}

/// The findings of a report: the vulnerabilities, then the warnings.
pub open spec fn report_findings(r: AuditReport) -> Seq<FindingView> {
    r.vulnerabilities@.map_values(|e: AdvisoryEntry| vulnerability_finding(e))
        + warnings_findings(r.warnings@)
}

/// The severity labels: `critical` is `Critical`, `high` is `Error`,
/// `medium` is `Warning`, `low` and `none` are `Info`, whatever their ASCII
/// case; no label gives no severity.
pub proof fn lemma_audit_labels(label: Seq<char>)
    ensures
        lowercases_to(label, "critical"@) ==> audit_label_severity(Some(label)) == Some(Severity::Critical),
        lowercases_to(label, "high"@) ==> audit_label_severity(Some(label)) == Some(Severity::Error),
        lowercases_to(label, "medium"@) ==> audit_label_severity(Some(label)) == Some(Severity::Warning),
        lowercases_to(label, "low"@) ==> audit_label_severity(Some(label)) == Some(Severity::Info),
        lowercases_to(label, "none"@) ==> audit_label_severity(Some(label)) == Some(Severity::Info),
        audit_label_severity(None) is None,
{
    reveal_strlit("critical");
    reveal_strlit("high");
    reveal_strlit("medium");
    reveal_strlit("low");
    reveal_strlit("none");
    if lowercases_to(label, "none"@) {
        assert(ascii_lower_code(label[0]) == "none"@[0] as int);
    }
}

/// A vulnerability entry's finding copies the advisory's id, title, url and
/// description and the package's name, takes the package's version when it
/// is not empty, comes from `cargo audit`, and is a `Warning` when the
/// advisory has no severity label.
pub proof fn lemma_vulnerability_finding_fields(e: AdvisoryEntry)
    ensures
        vulnerability_finding(e).id == e.advisory.id@,
        vulnerability_finding(e).title == e.advisory.title@,
        vulnerability_finding(e).affected_crate == e.package.name@,
        vulnerability_finding(e).affected_version == if e.package.version@.len() == 0 {
            None
        } else {
            Some(e.package.version@)
        },
        vulnerability_finding(e).url == opt_view(e.advisory.url),
        vulnerability_finding(e).description == opt_view(e.advisory.description),
        vulnerability_finding(e).source == FindingSource::Audit,
        e.advisory.severity is None ==> vulnerability_finding(e).severity == Severity::Warning,
{
}

/// A warning entry's finding (unmaintained, yanked, notice) says what the
/// entry says, as a vulnerability's does (id, title, crate, version when
/// not empty, url, description, `cargo audit` as source), and is always a
/// `Warning`, whatever severity label the advisory carries.
pub proof fn lemma_warning_finding_fields(e: AdvisoryEntry)
    ensures
        warning_finding(e).id == e.advisory.id@,
        warning_finding(e).title == e.advisory.title@,
        warning_finding(e).affected_crate == e.package.name@,
        warning_finding(e).affected_version == if e.package.version@.len() == 0 {
            None
        } else {
            Some(e.package.version@)
        },
        warning_finding(e).url == opt_view(e.advisory.url),
        warning_finding(e).description == opt_view(e.advisory.description),
        warning_finding(e).source == FindingSource::Audit,
        warning_finding(e).severity == Severity::Warning,
{
}

/// Every entry of every well-formed warning value gives a finding: a
/// well-formed array gives one per element, a well-formed object one.
pub proof fn lemma_warnings_covered(ws: Seq<WarningValue>, w: int, k: int)
    requires
        0 <= w < ws.len(),
        0 <= k < warning_entries(ws[w]).len(),
    ensures
        warnings_findings(ws).contains(warning_finding(warning_entries(ws[w])[k])),
        ws[w] matches WarningValue::Single(Some(e)) ==> warnings_findings(ws).contains(
            warning_finding(e),
        ),
        ws[w] matches WarningValue::List(Some(v)) ==> warnings_findings(ws).contains(
            warning_finding(v@[k]),
        ),
    decreases ws.len(),
{
    let p = ws.drop_last();
    let tail = warning_entries(ws.last()).map_values(|e: AdvisoryEntry| warning_finding(e));
    if w < ws.len() - 1 {
        assert(p[w] == ws[w]);
        lemma_warnings_covered(p, w, k);
        let x = choose|x: int| 0 <= x < warnings_findings(p).len() && warnings_findings(p)[x]
            == warning_finding(warning_entries(ws[w])[k]);
        assert(warnings_findings(ws)[x] == warnings_findings(p)[x]);
    } else {
        let x = warnings_findings(p).len() + k;
        assert(tail[k] == warning_finding(warning_entries(ws[w])[k]));
        assert(warnings_findings(ws)[x] == tail[k]);
    }
}

/// The findings of a report: first one per vulnerability, in order, then
/// those of the warnings; with only vulnerabilities, one each.
pub proof fn lemma_report_findings_order(r: AuditReport)
    ensures
        report_findings(r).len() >= r.vulnerabilities@.len(),
        forall|i: int| 0 <= i < r.vulnerabilities@.len() ==> #[trigger] report_findings(r)[i]
            == vulnerability_finding(r.vulnerabilities@[i]),
        r.warnings@.len() == 0 ==> report_findings(r).len() == r.vulnerabilities@.len(),
{
    assert(warnings_findings(Seq::<WarningValue>::empty()) =~= Seq::<FindingView>::empty());
}

/// The severity that a `cargo audit` severity label stands for:
/// `critical` → `Critical`, `high` → `Error`, `medium` → `Warning`, `low`
/// and `none` → `Info`, in any ASCII case; `None` for any other label.
pub fn severity_from_label(label: Option<&str>) -> (r: Option<Severity>)
    ensures
        r == audit_label_severity(match label {
            Some(l) => Some(l@),
            None => None,
        }),
{
    match label {
        None => None,
        Some(l) => if eq_lowercased(l, "critical") {
            Some(Severity::Critical)
        } else if eq_lowercased(l, "high") {
            Some(Severity::Error)
        } else if eq_lowercased(l, "medium") {
            Some(Severity::Warning)
        } else if eq_lowercased(l, "low") || eq_lowercased(l, "none") {
            Some(Severity::Info)
        } else {
            None
        },
    }
}

/// `s` as an owned string, or `None` when it is empty.
pub fn non_empty(s: &str) -> (r: Option<String>)
    ensures
        opt_view(r) == non_empty_spec(s@),
{
    if s.is_empty() {
        None
    } else {
        Some(s.to_owned())
    }
}

/// A copy of an optional string.
fn copy_opt(o: &Option<String>) -> (r: Option<String>)
    ensures
        opt_view(r) == opt_view(*o),
{
    match o {
        Some(s) => Some(s.clone()),
        None => None,
    }
}

/// The finding for a vulnerability entry.
fn vulnerability_to_finding(e: &AdvisoryEntry) -> (f: Finding)
    ensures
        f@ == vulnerability_finding(*e),
{
    let label = match &e.advisory.severity {
        Some(s) => Some(s.as_str()),
        None => None,
    };
    let severity = match severity_from_label(label) {
        Some(s) => s,
        None => Severity::Warning,
    };
    Finding {
        id: e.advisory.id.clone(),
        title: e.advisory.title.clone(),
        severity,
        affected_crate: e.package.name.clone(),
        affected_version: non_empty(e.package.version.as_str()),
        url: copy_opt(&e.advisory.url),
        description: copy_opt(&e.advisory.description),
        source: FindingSource::Audit,
    }
}

/// The findings of a decoded `cargo audit` report: one per vulnerability,
/// with its mapped severity, then one `Warning` per warning entry.
pub fn findings_from_report(report: &AuditReport) -> (out: Vec<Finding>)
    ensures
        findings_view(out@) == report_findings(*report),
{
    let mut out: Vec<Finding> = Vec::new();
    let ghost vulns = report.vulnerabilities@.map_values(|e: AdvisoryEntry| vulnerability_finding(e));
    let mut i: usize = 0;
    while i < report.vulnerabilities.len()
        invariant
            i <= report.vulnerabilities.len(),
            vulns == report.vulnerabilities@.map_values(|e: AdvisoryEntry| vulnerability_finding(e)),
            findings_view(out@) == vulns.take(i as int),
        decreases report.vulnerabilities.len() - i,
    {
        let f = vulnerability_to_finding(&report.vulnerabilities[i]);
        let ghost before = out@;
        out.push(f);
        proof {
            assert(out@ =~= before.push(f));
            assert(findings_view(out@) =~= findings_view(before).push(f@));
            assert(vulns.take(i + 1) =~= vulns.take(i as int).push(vulns[i as int]));
        }
        i = i + 1;
    }
    proof {
        assert(vulns.take(i as int) =~= vulns);
    }
    let mut w: usize = 0;
    while w < report.warnings.len()
        invariant
            w <= report.warnings.len(),
            findings_view(out@) == vulns + warnings_findings(report.warnings@.take(w as int)),
        decreases report.warnings.len() - w,
    {
        assert(report.warnings@.take(w + 1).drop_last() =~= report.warnings@.take(w as int));
        let ghost before = findings_view(out@);
        let ghost entries = warning_entries(report.warnings[w as int]);
        let empty: Vec<AdvisoryEntry> = Vec::new();
        let list: &Vec<AdvisoryEntry> = match &report.warnings[w] {
            WarningValue::List(Some(v)) => v,
            _ => &empty,
        };
        let single: Option<&AdvisoryEntry> = match &report.warnings[w] {
            WarningValue::Single(Some(e)) => Some(e),
            _ => None,
        };
        let mut k: usize = 0;
        while k < list.len()
            invariant
                k <= list.len(),
                findings_view(out@) == before + list@.take(k as int).map_values(
                    |e: AdvisoryEntry| warning_finding(e),
                ),
            decreases list.len() - k,
        {
            let f = vulnerability_to_finding(&list[k]);
            let g = Finding { severity: Severity::Warning, ..f };
            let ghost prev = out@;
            out.push(g);
            proof {
                assert(out@ =~= prev.push(g));
                assert(findings_view(out@) =~= findings_view(prev).push(g@));
                assert(g@ == warning_finding(list@[k as int]));
                assert(list@.take(k + 1) =~= list@.take(k as int).push(list@[k as int]));
                assert(findings_view(out@) =~= before + list@.take(k + 1).map_values(
                    |e: AdvisoryEntry| warning_finding(e),
                ));
            }
            k = k + 1;
        }
        if let Some(e) = single {
            let f = vulnerability_to_finding(e);
            let g = Finding { severity: Severity::Warning, ..f };
            let ghost prev = out@;
            out.push(g);
            proof {
                assert(out@ =~= prev.push(g));
                assert(findings_view(out@) =~= findings_view(prev).push(g@));
            }
        }
        proof {
            assert(list@.take(k as int) =~= list@);
            assert(findings_view(out@) =~= before + entries.map_values(
                |e: AdvisoryEntry| warning_finding(e),
            ));
        }
        w = w + 1;
    }
    proof {
        assert(report.warnings@.take(w as int) =~= report.warnings@);
    }
    out
}

/// The first 200 characters of `s`, or all of `s` when it is shorter:
/// the head of a malformed report quoted in a parse error. It never cuts
/// inside a character.
pub fn first_200(s: &str) -> (r: &str)
    ensures
        r@ == if s@.len() <= 200 {
            s@
        } else {
            s@.take(200)
        },
{
    let n = s.unicode_len();
    if n <= 200 {
        proof {
            assert(s@.subrange(0, n as int) =~= s@);
        }
        s.substring_char(0, n)
    } else {
        proof {
            assert(s@.subrange(0, 200) =~= s@.take(200));
        }
        s.substring_char(0, 200)
    }
}

} // verus!
