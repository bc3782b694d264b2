//! The result of an audit run, its summaries and its report.

use vstd::prelude::*;
use crate::report::{
    check_fail, check_pass, check_with_detail, check_with_evidence, check_with_tag,
    distinct_keys, evidence_kv, evidence_snippet, pairs_map, pairs_view, report_checks,
    report_finish, report_header, report_new, report_push, report_with_producer, CheckModel,
    EvidenceModel, ReportHeader, Verdict,
};
use crate::{
    findings_view, scope_label, scope_label_spec, severity_ord, severity_rank, AuditScope,
    Finding, FindingSource, FindingView, Severity,
};

verus! {

/// Result of an audit run.
#[derive(Debug, Clone)]
pub struct AuditResult {
    /// Subject name.
    pub name: String,
    /// Subject version.
    pub version: String,
    /// Scope that produced this result.
    pub scope: AuditScope,
    /// Findings discovered (deduped, allow-list filtered, sorted by id).
    pub findings: Vec<Finding>,
}

/// Number of findings in `s` at severity `t` or higher.
pub open spec fn count_at_or_above_spec(s: Seq<Finding>, t: Severity) -> nat
    decreases s.len(),
{
    if s.len() == 0 {
        0
    } else {
        count_at_or_above_spec(s.drop_last(), t) + if severity_rank(s.last().severity)
            >= severity_rank(t) {
            1nat
        } else {
            0nat
        }
    }
}

/// Number of findings in `s` that `source` emitted.
pub open spec fn count_from_spec(s: Seq<Finding>, source: FindingSource) -> nat
    decreases s.len(),
{
    if s.len() == 0 {
        0
    } else {
        count_from_spec(s.drop_last(), source) + if s.last().source == source {
            1nat
        } else {
            0nat
        }
    }
}

/// The higher of two severities.
pub open spec fn max_severity(a: Severity, b: Severity) -> Severity {
    if severity_rank(a) >= severity_rank(b) {
        a
    } else {
        b
    }
}

/// Highest severity among the findings of `s`, `None` when `s` is empty.
pub open spec fn worst_severity_spec(s: Seq<Finding>) -> Option<Severity>
    decreases s.len(),
{
    if s.len() == 0 {
        None
    } else {
        match worst_severity_spec(s.drop_last()) {
            None => Some(s.last().severity),
            Some(w) => Some(max_severity(w, s.last().severity)),
        }
    }
}

/// Every finding is at `Info` or higher.
pub proof fn lemma_count_at_or_above_info(s: Seq<Finding>)
    ensures
        count_at_or_above_spec(s, Severity::Info) == s.len(),
    decreases s.len(),
{
    if s.len() > 0 {
        lemma_count_at_or_above_info(s.drop_last());
    }
}

/// When every finding is at `t` or higher, all of them count.
pub proof fn lemma_count_at_or_above_all(s: Seq<Finding>, t: Severity)
    requires
        forall|i: int| 0 <= i < s.len() ==> severity_rank(#[trigger] s[i].severity) >= severity_rank(t),
    ensures
        count_at_or_above_spec(s, t) == s.len(),
    decreases s.len(),
{
    if s.len() > 0 {
        let p = s.drop_last();
        assert forall|i: int| 0 <= i < p.len() implies severity_rank(#[trigger] p[i].severity) >= severity_rank(t) by {
            assert(p[i] == s[i]);
        }
        lemma_count_at_or_above_all(p, t);
    }
}

/// Raising the threshold never raises the count.
pub proof fn lemma_count_at_or_above_monotonic(s: Seq<Finding>, low: Severity, high: Severity)
    requires
        severity_rank(low) <= severity_rank(high),
    ensures
        count_at_or_above_spec(s, high) <= count_at_or_above_spec(s, low),
        count_at_or_above_spec(s, high) <= s.len(),
    decreases s.len(),
{
    if s.len() > 0 {
        lemma_count_at_or_above_monotonic(s.drop_last(), low, high);
    }
}

/// One more finding adds one to the count of its own source and leaves the
/// other source's count as it was; one more finding at or above `t` adds
/// one to the count at `t`, one below `t` adds nothing.
pub proof fn lemma_counts_push(s: Seq<Finding>, f: Finding, t: Severity)
    ensures
        count_from_spec(s.push(f), f.source) == count_from_spec(s, f.source) + 1,
        count_from_spec(s.push(f), FindingSource::Audit) + count_from_spec(s.push(f), FindingSource::Deny)
            == count_from_spec(s, FindingSource::Audit) + count_from_spec(s, FindingSource::Deny) + 1,
        severity_rank(f.severity) >= severity_rank(t) ==> count_at_or_above_spec(s.push(f), t)
            == count_at_or_above_spec(s, t) + 1,
        severity_rank(f.severity) < severity_rank(t) ==> count_at_or_above_spec(s.push(f), t)
            == count_at_or_above_spec(s, t),
{
    assert(s.push(f).drop_last() =~= s);
}

/// Each finding comes from exactly one of the two tools.
pub proof fn lemma_count_from_partition(s: Seq<Finding>)
    ensures
        count_from_spec(s, FindingSource::Audit) + count_from_spec(s, FindingSource::Deny)
            == s.len(),
    decreases s.len(),
{
    if s.len() > 0 {
        lemma_count_from_partition(s.drop_last());
    }
}

/// The worst severity is absent exactly when there are no findings; else
/// some finding has it and none is above it: at least one finding counts
/// at that threshold and none at any higher one.
pub proof fn lemma_worst_severity(s: Seq<Finding>)
    ensures
        worst_severity_spec(s) is None <==> s.len() == 0,
        worst_severity_spec(s) matches Some(w) ==> {
            &&& exists|i: int| 0 <= i < s.len() && #[trigger] s[i].severity == w
            &&& forall|i: int| 0 <= i < s.len() ==> severity_rank(#[trigger] s[i].severity) <= severity_rank(w)
            &&& count_at_or_above_spec(s, w) >= 1
            &&& forall|t: Severity| severity_rank(t) > severity_rank(w) ==> #[trigger] count_at_or_above_spec(s, t) == 0
        },
    decreases s.len(),
{
    if s.len() > 0 {
        let p = s.drop_last();
        lemma_worst_severity(p);
        let w = worst_severity_spec(s)->0;
        assert forall|i: int| 0 <= i < s.len() implies severity_rank(#[trigger] s[i].severity) <= severity_rank(w) by {
            if i < p.len() {
                assert(s[i] == p[i]);
            }
        }
        if worst_severity_spec(p) is None {
            assert(s[s.len() - 1].severity == w);
        } else {
            let pw = worst_severity_spec(p)->0;
            if severity_rank(pw) >= severity_rank(s.last().severity) {
                let i = choose|i: int| 0 <= i < p.len() && #[trigger] p[i].severity == pw;
                assert(s[i].severity == w);
            } else {
                assert(s[s.len() - 1].severity == w);
            }
        }
        lemma_count_positive(s, w);
        assert forall|t: Severity| severity_rank(t) > severity_rank(w) implies #[trigger] count_at_or_above_spec(s, t) == 0 by {
            lemma_count_zero(s, t);
        }
    }
}

proof fn lemma_count_positive(s: Seq<Finding>, w: Severity)
    requires
        exists|i: int| 0 <= i < s.len() && #[trigger] s[i].severity == w,
    ensures
        count_at_or_above_spec(s, w) >= 1,
    decreases s.len(),
{
    let i = choose|i: int| 0 <= i < s.len() && #[trigger] s[i].severity == w;
    if i < s.len() - 1 {
        assert(s.drop_last()[i].severity == w);
        lemma_count_positive(s.drop_last(), w);
    }
}

proof fn lemma_count_zero(s: Seq<Finding>, t: Severity)
    requires
        forall|i: int| 0 <= i < s.len() ==> severity_rank(#[trigger] s[i].severity) < severity_rank(t),
    ensures
        count_at_or_above_spec(s, t) == 0,
    decreases s.len(),
{
    if s.len() > 0 {
        let p = s.drop_last();
        assert forall|i: int| 0 <= i < p.len() implies severity_rank(#[trigger] p[i].severity) < severity_rank(t) by {
            assert(p[i] == s[i]);
        }
        lemma_count_zero(p, t);
    }
}

/// A result's report passes exactly when there are no findings: it then
/// holds one passing check; otherwise it holds one failing check per
/// finding, at that finding's severity.
pub proof fn lemma_report_verdicts(scope: AuditScope, findings: Seq<FindingView>)
    ensures
        findings.len() == 0 ==> result_checks(scope, findings).len() == 1
            && result_checks(scope, findings)[0].verdict == Verdict::Pass,
        findings.len() > 0 ==> result_checks(scope, findings).len() == findings.len()
            && forall|i: int| 0 <= i < findings.len() ==> {
                &&& (#[trigger] result_checks(scope, findings)[i]).verdict == Verdict::Fail
                &&& result_checks(scope, findings)[i].severity == Some(findings[i].severity)
            },
{
}

impl AuditResult {
    /// Number of findings at the given severity *or higher*.
    pub fn count_at_or_above(&self, threshold: Severity) -> (r: usize)
        ensures
            r == count_at_or_above_spec(self.findings@, threshold),
    {
        let mut n: usize = 0;
        let mut i: usize = 0;
        while i < self.findings.len()
            invariant
                i <= self.findings.len(),
                n == count_at_or_above_spec(self.findings@.take(i as int), threshold),
                n <= i,
            decreases self.findings.len() - i,
        {
            assert(self.findings@.take(i + 1).drop_last() =~= self.findings@.take(i as int));
            if severity_ord(self.findings[i].severity) >= severity_ord(threshold) {
                n = n + 1;
            }
            i = i + 1;
        }
        assert(self.findings@.take(i as int) =~= self.findings@);
        n
    }

    /// Number of findings from the given source.
    pub fn count_from(&self, source: FindingSource) -> (r: usize)
        ensures
            r == count_from_spec(self.findings@, source),
    {
        let mut n: usize = 0;
        let mut i: usize = 0;
        while i < self.findings.len()
            invariant
                i <= self.findings.len(),
                n == count_from_spec(self.findings@.take(i as int), source),
                n <= i,
            decreases self.findings.len() - i,
        {
            assert(self.findings@.take(i + 1).drop_last() =~= self.findings@.take(i as int));
            if self.findings[i].source == source {
                n = n + 1;
            }
            i = i + 1;
        }
        assert(self.findings@.take(i as int) =~= self.findings@);
        n
    }

    /// Highest severity present in the findings, if any.
    pub fn worst_severity(&self) -> (r: Option<Severity>)
        ensures
            r == worst_severity_spec(self.findings@),
    {
        let mut worst: Option<Severity> = None;
        let mut i: usize = 0;
        while i < self.findings.len()
            invariant
                i <= self.findings.len(),
                worst == worst_severity_spec(self.findings@.take(i as int)),
            decreases self.findings.len() - i,
        {
            assert(self.findings@.take(i + 1).drop_last() =~= self.findings@.take(i as int));
            let s = self.findings[i].severity;
            worst = match worst {
                None => Some(s),
                Some(w) => if severity_ord(w) >= severity_ord(s) {
                    Some(w)
                } else {
                    Some(s)
                },
            };
            i = i + 1;
        }
        assert(self.findings@.take(i as int) =~= self.findings@);
        worst
    }
}

/// The name of a tool in check names.
pub open spec fn source_label_spec(s: FindingSource) -> Seq<char> {
    match s {
        FindingSource::Audit => "audit"@,
        FindingSource::Deny => "deny"@,
    }
}

/// The tag that marks the kind of a finding: `cve` for audit findings,
/// `policy` for deny findings.
pub open spec fn source_tag_spec(s: FindingSource) -> Seq<char> {
    match s {
        FindingSource::Audit => "cve"@,
        FindingSource::Deny => "policy"@,
    }
}

/// The key/value metadata of a finding: crate and id, then version and url
/// when known.
pub open spec fn finding_pairs(f: FindingView) -> Seq<(Seq<char>, Seq<char>)> {
    seq![("crate"@, f.affected_crate), ("id"@, f.id)] + match f.affected_version {
        Some(v) => seq![("version"@, v)],
        None => Seq::empty(),
    } + match f.url {
        Some(u) => seq![("url"@, u)],
        None => Seq::empty(),
    }
}

/// The check that reports one finding: a failure at the finding's severity,
/// named `security::<source>::<id>`, tagged `security` and `cve` or
/// `policy`, carrying the metadata and, when known, the description.
pub open spec fn finding_check(f: FindingView) -> CheckModel {
    CheckModel {
        name: "security::"@ + source_label_spec(f.source) + "::"@ + f.id,
        verdict: Verdict::Fail,
        severity: Some(f.severity),
        detail: Some(f.title + " (in "@ + f.affected_crate + ")"@),
        tags: seq!["security"@, source_tag_spec(f.source)],
        evidence: seq![
            EvidenceModel::KeyValue { label: "finding"@, pairs: pairs_map(finding_pairs(f)) },
        ] + match f.description {
            Some(d) => seq![EvidenceModel::Snippet { label: "description"@, text: d }],
            None => Seq::empty(),
        },
    }
}

/// The single passing check of a result without findings.
pub open spec fn clean_check(scope: AuditScope) -> CheckModel {
    CheckModel {
        name: "security::audit"@,
        verdict: Verdict::Pass,
        severity: None,
        detail: Some(scope_label_spec(scope) + " scope: no findings"@),
        tags: seq!["security"@],
        evidence: Seq::empty(),
    }
}

/// The checks of the report of a result: one passing check when there are
/// no findings, else one failing check per finding, in order.
pub open spec fn result_checks(scope: AuditScope, findings: Seq<FindingView>) -> Seq<CheckModel> {
    if findings.len() == 0 {
        seq![clean_check(scope)]
    } else {
        findings.map_values(|f: FindingView| finding_check(f))
    }
}

/// The check of a finding, whatever its source: it fails at the finding's
/// severity, is named `security::audit::<id>` or `security::deny::<id>`,
/// is tagged `security` and then `cve` (audit) or `policy` (deny), and its
/// evidence is the `finding` map (crate, id, version and url when known),
/// followed by a `description` snippet exactly when the finding has a
/// description.
pub proof fn lemma_finding_check_contents(f: FindingView)
    ensures
        finding_check(f).verdict == Verdict::Fail,
        finding_check(f).severity == Some(f.severity),
        f.source == FindingSource::Audit ==> finding_check(f).name == "security::audit::"@ + f.id,
        f.source == FindingSource::Deny ==> finding_check(f).name == "security::deny::"@ + f.id,
        finding_check(f).tags[0] == "security"@,
        f.source == FindingSource::Audit ==> finding_check(f).tags == seq!["security"@, "cve"@],
        f.source == FindingSource::Deny ==> finding_check(f).tags == seq!["security"@, "policy"@],
        f.description matches Some(d) ==> finding_check(f).evidence.len() == 2
            && finding_check(f).evidence.contains(
            EvidenceModel::Snippet { label: "description"@, text: d },
        ),
        f.description is None ==> finding_check(f).evidence.len() == 1,
        finding_check(f).evidence[0] matches EvidenceModel::KeyValue { label, pairs } ==> {
            &&& label == "finding"@
            &&& pairs.contains_key("crate"@) && pairs["crate"@] == f.affected_crate
            &&& pairs.contains_key("id"@) && pairs["id"@] == f.id
            &&& (f.affected_version matches Some(v) ==> pairs.contains_key("version"@)
                && pairs["version"@] == v)
            &&& (f.affected_version is None ==> !pairs.contains_key("version"@))
            &&& (f.url matches Some(u) ==> pairs.contains_key("url"@) && pairs["url"@] == u)
            &&& (f.url is None ==> !pairs.contains_key("url"@))
        },
        finding_check(f).evidence[0] is KeyValue,
{
    reveal_strlit("security::");
    reveal_strlit("audit");
    reveal_strlit("deny");
    reveal_strlit("::");
    reveal_strlit("security::audit::");
    reveal_strlit("security::deny::");
    reveal_strlit("crate");
    reveal_strlit("id");
    reveal_strlit("version");
    reveal_strlit("url");
    assert("crate"@.len() == 5 && "id"@.len() == 2 && "version"@.len() == 7 && "url"@.len() == 3);
    assert("crate"@ != "id"@ && "crate"@ != "version"@ && "crate"@ != "url"@);
    assert("id"@ != "version"@ && "id"@ != "url"@ && "version"@ != "url"@);
    let c = finding_check(f);
    if f.source == FindingSource::Audit {
        assert(c.name =~= "security::audit::"@ + f.id);
    } else {
        assert(c.name =~= "security::deny::"@ + f.id);
    }
    if let Some(d) = f.description {
        assert(c.evidence[1] == EvidenceModel::Snippet { label: "description"@, text: d });
    }
    let ps = finding_pairs(f);
    let base = seq![("crate"@, f.affected_crate), ("id"@, f.id)];
    let vpart: Seq<(Seq<char>, Seq<char>)> = match f.affected_version {
        Some(v) => seq![("version"@, v)],
        None => Seq::empty(),
    };
    let upart: Seq<(Seq<char>, Seq<char>)> = match f.url {
        Some(u) => seq![("url"@, u)],
        None => Seq::empty(),
    };
    assert(ps =~= base + vpart + upart);
    let b1: Seq<(Seq<char>, Seq<char>)> = seq![("crate"@, f.affected_crate)];
    let e0 = Seq::<(Seq<char>, Seq<char>)>::empty();
    assert(pairs_map(e0) == Map::<Seq<char>, Seq<char>>::empty());
    assert(b1.drop_last() =~= e0);
    assert(b1.last() == ("crate"@, f.affected_crate));
    assert(pairs_map(b1) == pairs_map(e0).insert("crate"@, f.affected_crate));
    assert(base.drop_last() =~= b1);
    assert(base.last() == ("id"@, f.id));
    let m2 = pairs_map(base);
    assert(m2 == pairs_map(b1).insert("id"@, f.id));
    let m3 = pairs_map(base + vpart);
    if let Some(v) = f.affected_version {
        assert((base + vpart).drop_last() =~= base);
        assert(m3 == m2.insert("version"@, v));
    } else {
        assert(base + vpart =~= base);
    }
    if let Some(u) = f.url {
        assert((base + vpart + upart).drop_last() =~= base + vpart);
        assert(pairs_map(ps) == m3.insert("url"@, u));
    } else {
        assert(base + vpart + upart =~= base + vpart);
    }
}

/// A result without findings is reported by one passing check named
/// `security::audit`, tagged `security` only, without severity or
/// evidence, whose detail names the scope.
pub proof fn lemma_clean_report(scope: AuditScope)
    ensures
        result_checks(scope, Seq::empty()) == seq![clean_check(scope)],
        clean_check(scope).name == "security::audit"@,
        clean_check(scope).verdict == Verdict::Pass,
        clean_check(scope).severity is None,
        clean_check(scope).tags == seq!["security"@],
        clean_check(scope).evidence.len() == 0,
        clean_check(scope).detail == Some(scope_label_spec(scope) + " scope: no findings"@),
{
}

/// In the report of a result with findings, the check of each finding
/// carries its description, whatever tool found it.
pub proof fn lemma_report_keeps_descriptions(scope: AuditScope, findings: Seq<FindingView>, i: int)
    requires
        0 <= i < findings.len(),
    ensures
        findings[i].description matches Some(d) ==> result_checks(scope, findings)[i].evidence.contains(
            EvidenceModel::Snippet { label: "description"@, text: d },
        ),
        result_checks(scope, findings)[i].severity == Some(findings[i].severity),
{
    lemma_finding_check_contents(findings[i]);
}

proof fn lemma_finding_pairs_distinct(f: FindingView)
    ensures
        distinct_keys(finding_pairs(f)),
{
    reveal_strlit("crate");
    reveal_strlit("id");
    reveal_strlit("version");
    reveal_strlit("url");
    let s = finding_pairs(f);
    assert forall|i: int, j: int| 0 <= i < j < s.len() implies s[i].0 != s[j].0 by {
        assert(s[i].0.len() != s[j].0.len());
    }
}

/// The label of a tool in check names.
fn source_label(s: FindingSource) -> (r: &'static str)
    ensures
        r@ == source_label_spec(s),
{
    match s {
        FindingSource::Audit => "audit",
        FindingSource::Deny => "deny",
    }
}

/// The tag of a tool's findings.
fn source_tag(s: FindingSource) -> (r: &'static str)
    ensures
        r@ == source_tag_spec(s),
{
    match s {
        FindingSource::Audit => "cve",
        FindingSource::Deny => "policy",
    }
}

/// The check that reports `f`.
fn finding_to_check(f: &Finding) -> (c: dev_report::CheckResult)
    ensures
        crate::report::check_contents(c) == finding_check(f@),
{
    let mut name = "security::".to_owned();
    name.append(source_label(f.source));
    name.append("::");
    name.append(f.id.as_str());
    let mut detail = f.title.clone();
    detail.append(" (in ");
    detail.append(f.affected_crate.as_str());
    detail.append(")");
    let mut check = check_fail(name, f.severity);
    check = check_with_detail(check, detail);
    check = check_with_tag(check, "security");
    check = check_with_tag(check, source_tag(f.source));
    let mut kv: Vec<(String, String)> = vec![
        ("crate".to_owned(), f.affected_crate.clone()),
        ("id".to_owned(), f.id.clone()),
    ];
    if let Some(v) = &f.affected_version {
        kv.push(("version".to_owned(), v.clone()));
    }
    if let Some(u) = &f.url {
        kv.push(("url".to_owned(), u.clone()));
    }
    proof {
        reveal_strlit("crate");
        reveal_strlit("id");
        reveal_strlit("version");
        reveal_strlit("url");
        assert(pairs_view(kv@) =~= finding_pairs(f@));
        lemma_finding_pairs_distinct(f@);
    }
    check = check_with_evidence(check, evidence_kv("finding", kv));
    if let Some(desc) = &f.description {
        check = check_with_evidence(check, evidence_snippet("description", desc.clone()));
    }
    proof {
        assert(crate::report::check_contents(check).evidence =~= finding_check(f@).evidence);
        assert(crate::report::check_contents(check).tags =~= finding_check(f@).tags);
    }
    check
}

impl AuditResult {
    /// Convert this result into a [`dev_report::Report`] produced by
    /// `dev-security`: one passing `security::audit` check when there are
    /// no findings, else one failing check per finding.
    pub fn into_report(self) -> (r: dev_report::Report)
        ensures
            report_checks(r) == result_checks(self.scope, findings_view(self.findings@)),
            report_header(r) == (ReportHeader {
                subject: self.name@,
                subject_version: self.version@,
                producer: Some("dev-security"@),
                finished: true,
            }),
    {
        let mut report = report_with_producer(
            report_new(self.name.as_str(), self.version.as_str()),
            "dev-security",
        );
        let ghost views = findings_view(self.findings@);
        if self.findings.len() == 0 {
            let mut detail = scope_label(self.scope).to_owned();
            detail.append(" scope: no findings");
            let check = check_with_tag(
                check_with_detail(check_pass("security::audit".to_owned()), detail),
                "security",
            );
            report_push(&mut report, check);
            proof {
                assert(report_checks(report) =~= result_checks(self.scope, views));
            }
        } else {
            let mut i: usize = 0;
            while i < self.findings.len()
                invariant
                    i <= self.findings.len(),
                    views == findings_view(self.findings@),
                    report_checks(report) =~= views.take(i as int).map_values(
                        |f: FindingView| finding_check(f),
                    ),
                    report_header(report) == (ReportHeader {
                        subject: self.name@,
                        subject_version: self.version@,
                        producer: Some("dev-security"@),
                        finished: false,
                    }),
                decreases self.findings.len() - i,
            {
                let check = finding_to_check(&self.findings[i]);
                report_push(&mut report, check);
                proof {
                    assert(views.take(i + 1) =~= views.take(i as int).push(views[i as int]));
                }
                i = i + 1;
            }
            proof {
                assert(views.take(i as int) =~= views);
            }
        }
        report_finish(&mut report);
        report
    }
}

} // verus!
