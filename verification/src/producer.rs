//! The report that an audit run produces, whatever came of it.

use vstd::prelude::*;
use crate::report::{
    check_fail, check_with_detail, check_with_tag, report_checks, report_finish, report_header,
    report_new, report_push, report_with_producer, CheckModel, ReportHeader, Verdict,
};
use crate::result::{result_checks, AuditResult};
use crate::run::{AuditRun, AuditRunView};
use crate::{error_message, findings_view, AuditError, Severity};

verus! {

/// Runs an [`AuditRun`] and always yields a report: subprocess and parse
/// failures become a single failing check rather than a panic.
pub struct AuditProducer {
    run: AuditRun,
}

impl View for AuditProducer {
    type V = AuditRunView;

    closed spec fn view(&self) -> AuditRunView {
        self.run@
    }
}

/// The check that stands for a failed run: `security::audit`, failing at
/// `Critical`, with the error's message as detail, tagged `security` and
/// `subprocess`.
pub open spec fn error_check(e: AuditError) -> CheckModel {
    CheckModel {
        name: "security::audit"@,
        verdict: Verdict::Fail,
        severity: Some(Severity::Critical),
        detail: Some(error_message(e)),
        tags: seq!["security"@, "subprocess"@],
        evidence: Seq::empty(),
    }
}

/// Whatever the error, a failed run is reported by one check named
/// `security::audit` that fails at `Critical`, carries the error's message
/// as its detail, is tagged `security` and `subprocess`, and holds no
/// evidence.
pub proof fn lemma_error_check(e: AuditError)
    ensures
        error_check(e).name == "security::audit"@,
        error_check(e).verdict == Verdict::Fail,
        error_check(e).severity == Some(Severity::Critical),
        error_check(e).detail == Some(error_message(e)),
        error_check(e).tags == seq!["security"@, "subprocess"@],
        error_check(e).evidence.len() == 0,
{
}

impl AuditProducer {
    /// Wrap an `AuditRun` so it can be composed with other producers.
    pub fn new(run: AuditRun) -> (r: Self)
        ensures
            r@ == run@,
    {
        AuditProducer { run }
    }

    /// Access the wrapped run.
    pub fn run(&self) -> (r: &AuditRun)
        ensures
            r@ == self@,
    {
        &self.run
    }

    /// The report for what executing the run gave: the result's own report
    /// on success; on failure, a report about the run's subject holding the
    /// single failing check [`error_check`].
    pub fn report_for(&self, outcome: Result<AuditResult, AuditError>) -> (r: dev_report::Report)
        ensures
            match outcome {
                Ok(res) => {
                    &&& report_checks(r) == result_checks(res.scope, findings_view(res.findings@))
                    &&& report_header(r) == (ReportHeader {
                        subject: res.name@,
                        subject_version: res.version@,
                        producer: Some("dev-security"@),
                        finished: true,
                    })
                },
                Err(e) => {
                    &&& report_checks(r) == seq![error_check(e)]
                    &&& report_header(r) == (ReportHeader {
                        subject: self@.name,
                        subject_version: self@.version,
                        producer: Some("dev-security"@),
                        finished: true,
                    })
                },
            },
    {
        match outcome {
            Ok(res) => res.into_report(),
            Err(e) => {
                let mut report = report_with_producer(
                    report_new(self.run.subject(), self.run.subject_version()),
                    "dev-security",
                );
                let check = check_with_tag(
                    check_with_tag(
                        check_with_detail(
                            check_fail("security::audit".to_owned(), Severity::Critical),
                            e.message(),
                        ),
                        "security",
                    ),
                    "subprocess",
                );
                proof {
                    assert(crate::report::check_contents(check).tags =~= error_check(e).tags);
                    assert(crate::report::check_contents(check) == error_check(e));
                }
                report_push(&mut report, check);
                report_finish(&mut report);
                proof {
                    assert(report_checks(report) =~= seq![error_check(e)]);
                }
                report
            },
        }
    }
}

} // verus!
