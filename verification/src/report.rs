//! The `dev_report` items that reports are built from, and the contracts
//! that this library relies on for each of them. Each contract below is
//! taken from the `dev_report` source: the constructors fill the fields
//! named in the contract and leave the collections empty, the `with_*`
//! builders set or append exactly one field, `push` appends one check, and
//! `finish` only marks the report finished, recording the finishing time.
//!
//! `dev_report` also stamps every check and report with the current time;
//! no contract here says anything of those time stamps.

use vstd::prelude::*;
use crate::Severity;

verus! {

#[verifier::external_type_specification]
#[verifier::external_body]
pub struct ExReport(dev_report::Report);

#[verifier::external_type_specification]
#[verifier::external_body]
pub struct ExCheckResult(dev_report::CheckResult);

#[verifier::external_type_specification]
#[verifier::external_body]
pub struct ExEvidence(dev_report::Evidence);

/// Outcome of one check.
#[derive(PartialEq, Eq, Structural)]
pub enum Verdict {
    /// The check passed.
    Pass,
    /// The check failed.
    Fail,
}

/// What an evidence item holds.
pub enum EvidenceModel {
    /// A labelled map of keys to values.
    KeyValue { label: Seq<char>, pairs: Map<Seq<char>, Seq<char>> },
    /// A labelled text snippet.
    Snippet { label: Seq<char>, text: Seq<char> },
}

/// What a check holds, apart from its time stamp.
pub struct CheckModel {
    pub name: Seq<char>,
    pub verdict: Verdict,
    pub severity: Option<Severity>,
    pub detail: Option<Seq<char>>,
    pub tags: Seq<Seq<char>>,
    pub evidence: Seq<EvidenceModel>,
}

/// Who and what a report is about, who produced it, and whether it is
/// finished (whether its finishing time is set).
pub struct ReportHeader {
    pub subject: Seq<char>,
    pub subject_version: Seq<char>,
    pub producer: Option<Seq<char>>,
    pub finished: bool,
}

/// The checks that a report holds, in order.
pub uninterp spec fn report_checks(r: dev_report::Report) -> Seq<CheckModel>;

/// The subject, subject version and producer of a report.
pub uninterp spec fn report_header(r: dev_report::Report) -> ReportHeader;

/// What a check holds.
pub uninterp spec fn check_contents(c: dev_report::CheckResult) -> CheckModel;

/// What an evidence item holds.
pub uninterp spec fn evidence_contents(e: dev_report::Evidence) -> EvidenceModel;

/// The map that a list of key/value pairs with distinct keys describes.
pub open spec fn pairs_map(s: Seq<(Seq<char>, Seq<char>)>) -> Map<Seq<char>, Seq<char>>
    decreases s.len(),
{
    if s.len() == 0 {
        Map::empty()
    } else {
        pairs_map(s.drop_last()).insert(s.last().0, s.last().1)
    }
}

/// No key occurs twice in `s`.
pub open spec fn distinct_keys(s: Seq<(Seq<char>, Seq<char>)>) -> bool {
    forall|i: int, j: int| 0 <= i < j < s.len() ==> s[i].0 != s[j].0
}

/// The characters of a list of string pairs.
pub open spec fn pairs_view(s: Seq<(String, String)>) -> Seq<(Seq<char>, Seq<char>)> {
    s.map_values(|p: (String, String)| (p.0@, p.1@))
}

/// `dev_report::Report::new`: a report about `subject` at `version`, with
/// no producer, no checks, and not finished.
#[verifier::external_body]
pub(crate) fn report_new(subject: &str, version: &str) -> (r: dev_report::Report)
    ensures
        report_checks(r) == Seq::<CheckModel>::empty(),
        report_header(r) == (ReportHeader {
            subject: subject@,
            subject_version: version@,
            producer: None,
            finished: false,
        }),
{
    dev_report::Report::new(subject, version)
}

/// `dev_report::Report::with_producer`: sets the producer, keeps the rest.
#[verifier::external_body]
pub(crate) fn report_with_producer(r: dev_report::Report, producer: &str) -> (out: dev_report::Report)
    ensures
        report_checks(out) == report_checks(r),
        report_header(out) == (ReportHeader { producer: Some(producer@), ..report_header(r) }),
{
    r.with_producer(producer)
}

/// `dev_report::Report::push`: appends one check.
#[verifier::external_body]
pub(crate) fn report_push(r: &mut dev_report::Report, c: dev_report::CheckResult)
    ensures
        report_checks(*final(r)) == report_checks(*old(r)).push(check_contents(c)),
        report_header(*final(r)) == report_header(*old(r)),
{
    r.push(c)
}

/// `dev_report::Report::finish`: sets the finishing time, so the report is
/// finished; which time it records is not stated. The checks and the rest
/// of the header stay as they were.
#[verifier::external_body]
pub(crate) fn report_finish(r: &mut dev_report::Report)
    ensures
        report_checks(*final(r)) == report_checks(*old(r)),
        report_header(*final(r)) == (ReportHeader { finished: true, ..report_header(*old(r)) }),
{
    r.finish()
}

/// `dev_report::CheckResult::pass`: a passing check named `name`, with no
/// severity, detail, tags or evidence.
#[verifier::external_body]
pub(crate) fn check_pass(name: String) -> (c: dev_report::CheckResult)
    ensures
        check_contents(c) == (CheckModel {
            name: name@,
            verdict: Verdict::Pass,
            severity: None,
            detail: None,
            tags: Seq::empty(),
            evidence: Seq::empty(),
        }),
{
    dev_report::CheckResult::pass(name)
}

/// `dev_report::CheckResult::fail`: a failing check named `name` at
/// `severity` (each severity maps to the `dev_report` variant of the same
/// name), with no detail, tags or evidence.
#[verifier::external_body]
pub(crate) fn check_fail(name: String, severity: Severity) -> (c: dev_report::CheckResult)
    ensures
        check_contents(c) == (CheckModel {
            name: name@,
            verdict: Verdict::Fail,
            severity: Some(severity),
            detail: None,
            tags: Seq::empty(),
            evidence: Seq::empty(),
        }),
{
    let s = match severity {
        Severity::Info => dev_report::Severity::Info,
        Severity::Warning => dev_report::Severity::Warning,
        Severity::Error => dev_report::Severity::Error,
        Severity::Critical => dev_report::Severity::Critical,
    };
    dev_report::CheckResult::fail(name, s)
}

/// `dev_report::CheckResult::with_detail`: sets the detail, keeps the rest.
#[verifier::external_body]
pub(crate) fn check_with_detail(c: dev_report::CheckResult, detail: String) -> (out: dev_report::CheckResult)
    ensures
        check_contents(out) == (CheckModel { detail: Some(detail@), ..check_contents(c) }),
{
    c.with_detail(detail)
}

/// `dev_report::CheckResult::with_tag`: appends one tag, keeps the rest.
#[verifier::external_body]
pub(crate) fn check_with_tag(c: dev_report::CheckResult, tag: &str) -> (out: dev_report::CheckResult)
    ensures
        check_contents(out) == (CheckModel {
            tags: check_contents(c).tags.push(tag@),
            ..check_contents(c)
        }),
{
    c.with_tag(tag)
}

/// `dev_report::CheckResult::with_evidence`: appends one evidence item,
/// keeps the rest.
#[verifier::external_body]
pub(crate) fn check_with_evidence(c: dev_report::CheckResult, e: dev_report::Evidence) -> (out: dev_report::CheckResult)
    ensures
        check_contents(out) == (CheckModel {
            evidence: check_contents(c).evidence.push(evidence_contents(e)),
            ..check_contents(c)
        }),
{
    c.with_evidence(e)
}

/// `dev_report::Evidence::kv`: key/value evidence labelled `label` whose map
/// holds the given pairs. The keys must be distinct: which value a
/// repeated key keeps is not stated.
#[verifier::external_body]
pub(crate) fn evidence_kv(label: &str, pairs: Vec<(String, String)>) -> (e: dev_report::Evidence)
    requires
        distinct_keys(pairs_view(pairs@)),
    ensures
        evidence_contents(e) == (EvidenceModel::KeyValue {
            label: label@,
            pairs: pairs_map(pairs_view(pairs@)),
        }),
{
    dev_report::Evidence::kv(label, pairs)
}

/// `dev_report::Evidence::snippet`: a text snippet labelled `label`.
#[verifier::external_body]
pub(crate) fn evidence_snippet(label: &str, text: String) -> (e: dev_report::Evidence)
    ensures
        evidence_contents(e) == (EvidenceModel::Snippet { label: label@, text: text@ }),
{
    dev_report::Evidence::snippet(label, text)
}

} // verus!
