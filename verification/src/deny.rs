//! Findings from the NDJSON output of `cargo deny --format json check`.
//!
//! The output holds one JSON object per line. The lines worth decoding are
//! picked out here; each is then decoded into a [`DenyRecord`], and the
//! decoded records are turned into findings here. Records of a type other
//! than `diagnostic`, and diagnostics of an unknown severity, give no
//! finding.

use vstd::prelude::*;
use vstd::string::StrSliceExecFns;
pub use crate::audit::non_empty;
use crate::audit::non_empty_spec;
use crate::text::{
    chars_of, eq_lowercased, find_newline, fit_len, lemma_fit_len, lemma_fit_len_fits,
    lemma_char_width_bounds, lemma_fit_len_maximal, lemma_newline_from, lemma_utf8_len_ascii, lemma_utf8_len_concat,
    lemma_utf8_len_prefix_monotonic, lines_from, lowercases_to, split_lines, trim,
    trimmed_range, utf8_len, utf8_width,
};
use crate::{findings_view, opt_view, Finding, FindingSource, FindingView, Severity};

verus! {

/// A node of a diagnostic's dependency graph: the affected crate.
#[derive(Debug)]
pub struct DenyGraph {
    /// Crate name, empty when the record has none.
    pub name: String,
    /// Crate version, empty when the record has none.
    pub version: String,
}

/// The `fields` of a record.
#[derive(Debug)]
pub struct DenyFields {
    /// Severity label: `error`, `warning`, `help` or `note`.
    pub severity: String,
    /// Diagnostic code, such as `L001`.
    pub code: Option<String>,
    /// Diagnostic message, empty when the record has none.
    pub message: String,
    /// Dependency graphs; the first names the affected crate.
    pub graphs: Vec<DenyGraph>,
}

/// One record of the output.
#[derive(Debug)]
pub struct DenyRecord {
    /// The record's `type`: `diagnostic`, `summary`, `note`, ...
    pub kind: String,
    /// The record's fields.
    pub fields: DenyFields,
}

/// A line of the output worth decoding: its trimmed text, not empty, and
/// its position among all lines, counted from 0.
#[derive(Debug)]
pub struct CandidateLine {
    /// Position of the line, counted from 0.
    pub index: usize,
    /// The line without leading and trailing white space.
    pub text: String,
}

/// A decoded line: its position, counted from 0, and the record it holds,
/// `None` when it is not a record.
#[derive(Debug)]
pub struct DecodedLine {
    /// Position of the line, counted from 0.
    pub index: usize,
    /// The record on the line, if it decoded as one.
    pub record: Option<DenyRecord>,
}

/// The severity that a `cargo deny` severity label stands for, in any ASCII case.
pub open spec fn deny_label_severity(label: Seq<char>) -> Option<Severity> {
    if lowercases_to(label, "error"@) {
        Some(Severity::Error)
    } else if lowercases_to(label, "warning"@) {
        Some(Severity::Warning)
    } else if lowercases_to(label, "help"@) || lowercases_to(label, "note"@) {
        Some(Severity::Info)
    } else {
        None
    }
}

/// The severity that a `cargo deny` severity label stands for: `error` →
/// `Error`, `warning` → `Warning`, `help` and `note` → `Info`, in any ASCII
/// case; `None` for any other label.
pub fn severity_from_label(label: &str) -> (r: Option<Severity>)
    ensures
        r == deny_label_severity(label@),
{
    if eq_lowercased(label, "error") {
        Some(Severity::Error)
    } else if eq_lowercased(label, "warning") {
        Some(Severity::Warning)
    } else if eq_lowercased(label, "help") || eq_lowercased(label, "note") {
        Some(Severity::Info)
    } else {
        None
    }
}

/// The title of a diagnostic: the first line of its message, trimmed; when
/// that takes more than 120 bytes, its longest prefix of at most 117 bytes
/// followed by `...`; `cargo-deny finding` when it is empty.
pub open spec fn short_title_spec(msg: Seq<char>) -> Seq<char> {
    let line = trim(split_lines(msg)[0]);
    if line.len() == 0 {
        "cargo-deny finding"@
    } else if utf8_len(line) <= 120 {
        line
    } else {
        line.take(fit_len(line, 117) as int) + "..."@
    }
}

/// A title never takes more than 120 bytes.
pub proof fn lemma_short_title_fits(msg: Seq<char>)
    ensures
        utf8_len(short_title_spec(msg)) <= 120,
{
    let line = trim(split_lines(msg)[0]);
    if line.len() == 0 {
        reveal_strlit("cargo-deny finding");
        lemma_utf8_len_ascii("cargo-deny finding"@);
    } else if utf8_len(line) > 120 {
        reveal_strlit("...");
        lemma_utf8_len_ascii("..."@);
        lemma_fit_len_fits(line, 117);
        lemma_utf8_len_concat(line.take(fit_len(line, 117) as int), "..."@);
    }
}

/// A title is the trimmed first line of the message when that is not empty
/// and fits in 120 bytes, a fixed text when it is empty, and otherwise a
/// prefix of it cut to as many whole characters as fit in 117 bytes,
/// followed by `...`: between 117 and 120 bytes in all.
pub proof fn lemma_short_title_shape(msg: Seq<char>)
    ensures
        ({
            let line = trim(split_lines(msg)[0]);
            &&& line.len() == 0 ==> short_title_spec(msg) == "cargo-deny finding"@
            &&& line.len() > 0 && utf8_len(line) <= 120 ==> short_title_spec(msg) == line
            &&& utf8_len(line) > 120 ==> {
                let t = short_title_spec(msg);
                let k = (t.len() - 3) as int;
                &&& t.len() >= 3
                &&& t.skip(k) == "..."@
                &&& t.take(k) == line.take(k)
                &&& 117 <= utf8_len(t) <= 120
                &&& utf8_len(line.take(k)) <= 117
                &&& utf8_len(line.take(k + 1)) > 117
            }
        }),
{
    let line = trim(split_lines(msg)[0]);
    if line.len() > 0 && utf8_len(line) > 120 {
        reveal_strlit("...");
        lemma_utf8_len_ascii("..."@);
        let k = fit_len(line, 117) as int;
        lemma_fit_len_fits(line, 117);
        lemma_fit_len_maximal(line, 117);
        if k == line.len() {
            assert(line.take(k) =~= line);
        }
        assert(line.take(k + 1).drop_last() =~= line.take(k));
        lemma_char_width_bounds(line.take(k + 1).last());
        let t = short_title_spec(msg);
        assert(t =~= line.take(k) + "..."@);
        assert(t.skip(k) =~= "..."@);
        assert(t.take(k) =~= line.take(k));
        lemma_utf8_len_concat(line.take(k), "..."@);
    } else if utf8_len(line) > 120 {
        assert(line.len() == 0 ==> utf8_len(line) == 0);
    }
}

/// The title of a diagnostic, from its message.
pub fn short_title(msg: &str) -> (r: String)
    ensures
        r@ == short_title_spec(msg@),
{
    let v = chars_of(msg);
    let k = find_newline(&v, 0);
    proof {
        lemma_newline_from(v@, 0);
        assert(split_lines(msg@)[0] == msg@.subrange(0, k as int));
    }
    let (a, b) = trimmed_range(&v, 0, k);
    let ghost line = v@.subrange(a as int, b as int);
    if a == b {
        return "cargo-deny finding".to_owned();
    }
    let mut j = a;
    let mut acc: usize = 0;
    while j < b && acc <= 120
        invariant
            a <= j <= b <= v.len(),
            line == v@.subrange(a as int, b as int),
            acc == utf8_len(line.take(j - a)),
            acc <= 124,
        decreases b - j,
    {
        assert(line.take(j - a + 1).drop_last() =~= line.take(j - a));
        acc = acc + utf8_width(v[j]);
        j = j + 1;
    }
    if acc <= 120 {
        proof {
            assert(line.take(j - a) =~= line);
        }
        return msg.substring_char(a, b).to_owned();
    }
    proof {
        lemma_utf8_len_prefix_monotonic(line, j - a, line.len() as int);
        assert(line.take(line.len() as int) =~= line);
    }
    let mut m = a;
    let mut used: usize = 0;
    while m < b && used + utf8_width(v[m]) <= 117
        invariant
            a <= m <= b <= v.len(),
            line == v@.subrange(a as int, b as int),
            used == utf8_len(line.take(m - a)),
            used <= 117,
        decreases b - m,
    {
        assert(line.take(m - a + 1).drop_last() =~= line.take(m - a));
        used = used + utf8_width(v[m]);
        m = m + 1;
    }
    proof {
        if m < b {
            assert(line.take(m - a + 1).drop_last() =~= line.take(m - a));
        }
        lemma_fit_len(line, 117, m - a);
        assert(msg@.subrange(a as int, m as int) =~= line.take(m - a));
    }
    let mut title = msg.substring_char(a, m).to_owned();
    title.append("...");
    title
}

/// The decimal digit `d`.
pub open spec fn digit_char(d: int) -> char {
    if d == 0 {
        '0'
    } else if d == 1 {
        '1'
    } else if d == 2 {
        '2'
    } else if d == 3 {
        '3'
    } else if d == 4 {
        '4'
    } else if d == 5 {
        '5'
    } else if d == 6 {
        '6'
    } else if d == 7 {
        '7'
    } else if d == 8 {
        '8'
    } else {
        '9'
    }
}

/// The decimal notation of `n`, without leading zeros.
pub open spec fn decimal(n: nat) -> Seq<char>
    decreases n,
{
    if n < 10 {
        seq![digit_char(n as int)]
    } else {
        decimal(n / 10).push(digit_char((n % 10) as int))
    }
}

/// `s` padded with leading zeros to at least four characters.
pub open spec fn zero_pad4(s: Seq<char>) -> Seq<char> {
    if s.len() < 4 {
        Seq::new((4 - s.len()) as nat, |i: int| '0') + s
    } else {
        s
    }
}

/// The id of a diagnostic without a code on the line at `index` (from 0):
/// `DENY-` and the line number, from 1, in at least four digits.
pub open spec fn synthetic_id_spec(index: int) -> Seq<char> {
    "DENY-"@ + zero_pad4(decimal((index + 1) as nat))
}

/// The number that a string of decimal digits denotes.
pub open spec fn digits_value(s: Seq<char>) -> int
    decreases s.len(),
{
    if s.len() == 0 {
        0
    } else {
        digits_value(s.drop_last()) * 10 + (s.last() as int - '0' as int)
    }
}

/// Every character of `s` is a decimal digit.
pub open spec fn all_digits(s: Seq<char>) -> bool {
    forall|i: int| 0 <= i < s.len() ==> '0' <= #[trigger] s[i] <= '9'
}

proof fn lemma_digit_char(d: int)
    requires
        0 <= d < 10,
    ensures
        '0' <= digit_char(d) <= '9',
        digit_char(d) as int - '0' as int == d,
{
}

proof fn lemma_decimal(n: nat)
    ensures
        all_digits(decimal(n)),
        digits_value(decimal(n)) == n,
        1 <= decimal(n).len(),
        n < 10 ==> decimal(n).len() == 1,
        n < 100 ==> decimal(n).len() <= 2,
        n < 1000 ==> decimal(n).len() <= 3,
        n < 10000 ==> decimal(n).len() <= 4,
    decreases n,
{
    if n >= 10 {
        lemma_decimal(n / 10);
        lemma_digit_char((n % 10) as int);
        let d = decimal(n);
        assert(d.drop_last() =~= decimal(n / 10));
        assert(d.last() == digit_char((n % 10) as int));
        assert(digits_value(d) == digits_value(decimal(n / 10)) * 10 + (n % 10));
        assert forall|i: int| 0 <= i < d.len() implies '0' <= #[trigger] d[i] <= '9' by {
            if i < d.len() - 1 {
                assert(d[i] == decimal(n / 10)[i]);
            }
        }
    } else {
        lemma_digit_char(n as int);
        let d = decimal(n);
        assert(d.drop_last() =~= Seq::<char>::empty());
        assert(digits_value(Seq::<char>::empty()) == 0);
        assert(d.last() == digit_char(n as int));
    }
}

proof fn lemma_zero_pad_value(z: nat, d: Seq<char>)
    ensures
        digits_value(Seq::new(z, |i: int| '0') + d) == digits_value(d),
    decreases d.len(), z,
{
    let zs = Seq::new(z, |i: int| '0');
    if d.len() > 0 {
        assert((zs + d).drop_last() =~= zs + d.drop_last());
        lemma_zero_pad_value(z, d.drop_last());
    } else {
        assert(zs + d =~= zs);
        if z > 0 {
            assert(zs.drop_last() =~= Seq::new((z - 1) as nat, |i: int| '0'));
            lemma_zero_pad_value((z - 1) as nat, d);
            assert(Seq::new((z - 1) as nat, |i: int| '0') + d =~= Seq::new((z - 1) as nat, |i: int| '0'));
        }
    }
}

/// A synthetic id is `DENY-` followed by decimal digits, at least four of
/// them and exactly four while the line number is below 10000, that denote
/// the line number, counted from 1.
pub proof fn lemma_synthetic_id_shape(index: nat)
    ensures
        ({
            let id = synthetic_id_spec(index as int);
            let digits = id.skip(5);
            &&& id.take(5) == "DENY-"@
            &&& all_digits(digits)
            &&& digits_value(digits) == index + 1
            &&& digits.len() >= 4
            &&& index + 1 < 10000 ==> digits.len() == 4
        }),
{
    reveal_strlit("DENY-");
    let n = (index + 1) as nat;
    lemma_decimal(n);
    let d = decimal(n);
    let id = synthetic_id_spec(index as int);
    let p = zero_pad4(d);
    assert(id =~= "DENY-"@ + p);
    assert(id.take(5) =~= "DENY-"@);
    assert(id.skip(5) =~= p);
    if d.len() < 4 {
        let z = (4 - d.len()) as nat;
        lemma_zero_pad_value(z, d);
        assert forall|i: int| 0 <= i < p.len() implies '0' <= #[trigger] p[i] <= '9' by {
            if i >= z {
                assert(p[i] == d[i - z]);
            }
        }
    }
}

/// The one-character string of the digit `d`.
fn digit_str(d: u128) -> (r: &'static str)
    requires
        d < 10,
    ensures
        r@ == seq![digit_char(d as int)],
{
    proof {
        reveal_strlit("0");
        reveal_strlit("1");
        reveal_strlit("2");
        reveal_strlit("3");
        reveal_strlit("4");
        reveal_strlit("5");
        reveal_strlit("6");
        reveal_strlit("7");
        reveal_strlit("8");
        reveal_strlit("9");
    }
    if d == 0 {
        "0"
    } else if d == 1 {
        "1"
    } else if d == 2 {
        "2"
    } else if d == 3 {
        "3"
    } else if d == 4 {
        "4"
    } else if d == 5 {
        "5"
    } else if d == 6 {
        "6"
    } else if d == 7 {
        "7"
    } else if d == 8 {
        "8"
    } else {
        "9"
    }
}

/// Appends the decimal notation of `n` to `out`.
fn push_decimal(out: &mut String, n: u128)
    ensures
        final(out)@ == old(out)@ + decimal(n as nat),
    decreases n,
{
    if n >= 10 {
        push_decimal(out, n / 10);
    }
    out.append(digit_str(n % 10));
    proof {
        if n >= 10 {
            assert(decimal(n as nat) == decimal((n / 10) as nat).push(digit_char((n % 10) as int)));
        }
    }
}

/// The id of a diagnostic without a code on the line at `index` (from 0),
/// as `format!("DENY-{:04}", index + 1)` writes it.
pub fn synthetic_id(index: usize) -> (r: String)
    ensures
        r@ == synthetic_id_spec(index as int),
{
    let n: u128 = index as u128 + 1;
    let mut digits = String::new();
    push_decimal(&mut digits, n);
    let len = digits.as_str().unicode_len();
    let mut id = "DENY-".to_owned();
    let mut pad: usize = len;
    proof {
        reveal_strlit("0");
    }
    while pad < 4
        invariant
            len == decimal(n as nat).len(),
            len <= pad <= 4 || (pad == len && len >= 4),
            id@ == "DENY-"@ + Seq::new((pad - len) as nat, |i: int| '0'),
        decreases 4 - pad,
    {
        proof {
            reveal_strlit("0");
        }
        id.append("0");
        pad = pad + 1;
        assert(id@ =~= "DENY-"@ + Seq::new((pad - len) as nat, |i: int| '0'));
    }
    id.append(digits.as_str());
    proof {
        if len >= 4 {
            assert(Seq::new(0nat, |i: int| '0') =~= Seq::<char>::empty());
        }
        assert(id@ =~= synthetic_id_spec(index as int));
    }
    id
}

/// The crate that a diagnostic is about: the name of its first graph,
/// `<workspace>` when there is none or it is empty.
pub open spec fn affected_crate_spec(graphs: Seq<DenyGraph>) -> Seq<char> {
    if graphs.len() > 0 && graphs[0].name@.len() > 0 {
        graphs[0].name@
    } else {
        "<workspace>"@
    }
}

/// The version of the crate that a diagnostic is about, when known.
pub open spec fn affected_version_spec(graphs: Seq<DenyGraph>) -> Option<Seq<char>> {
    if graphs.len() > 0 {
        non_empty_spec(graphs[0].version@)
    } else {
        None
    }
}

/// The finding for the record on the line at `index`, if it gives one: a
/// diagnostic of a known severity.
pub open spec fn record_finding(index: int, r: DenyRecord) -> Option<FindingView> {
    if r.kind@ != "diagnostic"@ {
        None
    } else {
        match deny_label_severity(r.fields.severity@) {
            None => None,
            Some(severity) => Some(
                FindingView {
                    id: match r.fields.code {
                        Some(c) => c@,
                        None => synthetic_id_spec(index),
                    },
                    title: short_title_spec(r.fields.message@),
                    severity,
                    affected_crate: affected_crate_spec(r.fields.graphs@),
                    affected_version: affected_version_spec(r.fields.graphs@),
                    url: None,
                    description: non_empty_spec(r.fields.message@),
                    source: FindingSource::Deny,
                },
            ),
        }
    }
}

/// A record gives a finding exactly when it is a diagnostic of a known
/// severity. The finding then comes from `cargo deny`, has no url, keeps
/// the whole message as its description when the message is not empty
/// (none when it is), takes the record's code as id when there is one, and
/// names the first graph's crate and version, or `<workspace>` and no
/// version when there is no graph.
pub proof fn lemma_record_finding_fields(index: int, r: DenyRecord)
    ensures
        record_finding(index, r) is Some <==> (r.kind@ == "diagnostic"@ && deny_label_severity(
            r.fields.severity@,
        ) is Some),
        record_finding(index, r) matches Some(f) ==> {
            &&& Some(f.severity) == deny_label_severity(r.fields.severity@)
            &&& f.source == FindingSource::Deny
            &&& f.url is None
            &&& f.description == if r.fields.message@.len() == 0 {
                None
            } else {
                Some(r.fields.message@)
            }
            &&& (r.fields.code matches Some(c) ==> f.id == c@)
            &&& (r.fields.graphs@.len() > 0 && r.fields.graphs@[0].name@.len() > 0
                ==> f.affected_crate == r.fields.graphs@[0].name@)
            &&& (r.fields.graphs@.len() > 0 && r.fields.graphs@[0].version@.len() > 0
                ==> f.affected_version == Some(r.fields.graphs@[0].version@))
            &&& (r.fields.graphs@.len() == 0 ==> f.affected_crate == "<workspace>"@
                && f.affected_version is None)
        },
{
}

/// The severity labels: `error` is an `Error`, `warning` a `Warning`,
/// `help` and `note` are `Info`, whatever their ASCII case.
pub proof fn lemma_deny_labels(label: Seq<char>)
    ensures
        lowercases_to(label, "error"@) ==> deny_label_severity(label) == Some(Severity::Error),
        lowercases_to(label, "warning"@) ==> deny_label_severity(label) == Some(Severity::Warning),
        lowercases_to(label, "help"@) ==> deny_label_severity(label) == Some(Severity::Info),
        lowercases_to(label, "note"@) ==> deny_label_severity(label) == Some(Severity::Info),
{
    reveal_strlit("error");
    reveal_strlit("warning");
    reveal_strlit("help");
    reveal_strlit("note");
}

/// The findings for decoded lines, in order: one for each line that holds
/// a diagnostic of a known severity.
pub open spec fn lines_findings(lines: Seq<DecodedLine>) -> Seq<FindingView>
    decreases lines.len(),
{
    if lines.len() == 0 {
        Seq::empty()
    } else {
        lines_findings(lines.drop_last()) + match lines.last().record {
            Some(r) => match record_finding(lines.last().index as int, r) {
                Some(f) => seq![f],
                None => Seq::empty(),
            },
            None => Seq::empty(),
        }
    }
}

/// Every decoded line whose record gives a finding contributes that
/// finding, and there is never more than one finding per line.
pub proof fn lemma_lines_findings_cover(lines: Seq<DecodedLine>, i: int)
    requires
        0 <= i < lines.len(),
    ensures
        lines_findings(lines).len() <= lines.len(),
        lines[i].record matches Some(r) ==> (record_finding(lines[i].index as int, r) matches Some(f)
            ==> lines_findings(lines).contains(f)),
    decreases lines.len(),
{
    let p = lines.drop_last();
    if i < lines.len() - 1 {
        assert(p[i] == lines[i]);
        lemma_lines_findings_cover(p, i);
        if let Some(r) = lines[i].record {
            if let Some(f) = record_finding(lines[i].index as int, r) {
                let x = choose|x: int| 0 <= x < lines_findings(p).len() && lines_findings(p)[x] == f;
                assert(lines_findings(lines)[x] == f);
            }
        }
    } else {
        if p.len() > 0 {
            lemma_lines_findings_cover(p, 0);
        }
        if let Some(r) = lines[i].record {
            if let Some(f) = record_finding(lines[i].index as int, r) {
                assert(lines_findings(lines)[lines_findings(p).len() as int] == f);
            }
        }
    }
}

/// `s` as an owned string, or `None` when it is empty.
pub fn non_empty_string(s: &str) -> (r: Option<String>)
    ensures
        opt_view(r) == non_empty_spec(s@),
{
    non_empty(s)
}

/// The finding for the record on the line at `index` (from 0), if the
/// record is a diagnostic of a known severity.
pub fn record_to_finding(index: usize, record: &DenyRecord) -> (r: Option<Finding>)
    ensures
        match r {
            Some(f) => record_finding(index as int, *record) == Some(f@),
            None => record_finding(index as int, *record) is None,
        },
{
    let diagnostic = "diagnostic".to_owned();
    if !(record.kind == diagnostic) {
        return None;
    }
    let severity = match severity_from_label(record.fields.severity.as_str()) {
        Some(s) => s,
        None => {
            return None;
        },
    };
    let id = match &record.fields.code {
        Some(c) => c.clone(),
        None => synthetic_id(index),
    };
    let (affected_crate, affected_version) = if record.fields.graphs.len() > 0 {
        let g = &record.fields.graphs[0];
        let name = match non_empty_string(g.name.as_str()) {
            Some(n) => n,
            None => "<workspace>".to_owned(),
        };
        (name, non_empty(g.version.as_str()))
    } else {
        ("<workspace>".to_owned(), None)
    };
    Some(
        Finding {
            id,
            title: short_title(record.fields.message.as_str()),
            severity,
            affected_crate,
            affected_version,
            url: None,
            description: non_empty(record.fields.message.as_str()),
            source: FindingSource::Deny,
        },
    )
}

/// The findings for the decoded lines of the output, in line order.
pub fn findings_from_lines(lines: &Vec<DecodedLine>) -> (out: Vec<Finding>)
    ensures
        findings_view(out@) == lines_findings(lines@),
{
    let mut out: Vec<Finding> = Vec::new();
    let mut i: usize = 0;
    while i < lines.len()
        invariant
            i <= lines.len(),
            findings_view(out@) == lines_findings(lines@.take(i as int)),
        decreases lines.len() - i,
    {
        assert(lines@.take(i + 1).drop_last() =~= lines@.take(i as int));
        let ghost prev = out@;
        if let Some(rec) = &lines[i].record {
            if let Some(f) = record_to_finding(lines[i].index, rec) {
                out.push(f);
                proof {
                    assert(out@ =~= prev.push(f));
                    assert(findings_view(out@) =~= findings_view(prev).push(f@));
                }
            }
        }
        i = i + 1;
    }
    assert(lines@.take(i as int) =~= lines@);
    out
}

/// The lines worth decoding among `segs`: for each piece that is not
/// empty once trimmed, its position and its trimmed text.
pub open spec fn candidates(segs: Seq<Seq<char>>) -> Seq<(int, Seq<char>)>
    decreases segs.len(),
{
    if segs.len() == 0 {
        Seq::empty()
    } else {
        candidates(segs.drop_last()) + if trim(segs.last()).len() > 0 {
            seq![((segs.len() - 1) as int, trim(segs.last()))]
        } else {
            Seq::empty()
        }
    }
}

/// The lines picked for decoding are the pieces that are not blank, each
/// trimmed and at its own position, in increasing position; no such piece
/// is left out.
pub proof fn lemma_candidates(segs: Seq<Seq<char>>)
    ensures
        forall|k: int| #![trigger candidates(segs)[k]] 0 <= k < candidates(segs).len() ==> {
            &&& 0 <= candidates(segs)[k].0 < segs.len()
            &&& candidates(segs)[k].1 == trim(segs[candidates(segs)[k].0])
            &&& candidates(segs)[k].1.len() > 0
        },
        forall|k1: int, k2: int|
            0 <= k1 < k2 < candidates(segs).len() ==> #[trigger] candidates(segs)[k1].0
                < #[trigger] candidates(segs)[k2].0,
        forall|j: int|
            0 <= j < segs.len() && #[trigger] trim(segs[j]).len() > 0 ==> exists|k: int|
                0 <= k < candidates(segs).len() && #[trigger] candidates(segs)[k].0 == j,
    decreases segs.len(),
{
    if segs.len() > 0 {
        let p = segs.drop_last();
        lemma_candidates(p);
        let c = candidates(segs);
        let cp = candidates(p);
        let n = (segs.len() - 1) as int;
        assert forall|k: int| 0 <= k < cp.len() implies #[trigger] c[k] == cp[k] by {}
        assert forall|k: int| #![trigger c[k]] 0 <= k < c.len() implies {
            &&& 0 <= c[k].0 < segs.len()
            &&& c[k].1 == trim(segs[c[k].0])
            &&& c[k].1.len() > 0
        } by {
            if k < cp.len() {
                assert(c[k] == cp[k]);
                assert(segs[cp[k].0] == p[cp[k].0]);
            } else {
                assert(c[k] == (n, trim(segs.last())));
            }
        }
        assert forall|k1: int, k2: int| 0 <= k1 < k2 < c.len() implies #[trigger] c[k1].0 < #[trigger] c[k2].0 by {
            assert(c[k1] == cp[k1]);
            if k2 < cp.len() {
                assert(c[k2] == cp[k2]);
            } else {
                assert(c[k2].0 == n);
                assert(0 <= cp[k1].0 < p.len());
            }
        }
        assert forall|j: int| 0 <= j < segs.len() && #[trigger] trim(segs[j]).len() > 0 implies exists|k: int|
            0 <= k < c.len() && #[trigger] c[k].0 == j by {
            if j < n {
                assert(segs[j] == p[j]);
                assert(trim(p[j]).len() > 0);
                let k = choose|k: int| 0 <= k < cp.len() && #[trigger] cp[k].0 == j;
                assert(c[k] == cp[k]);
            } else {
                assert(c[cp.len() as int].0 == n);
            }
        }
    }
}

/// Position and text of a candidate line.
pub open spec fn candidate_view(c: CandidateLine) -> (int, Seq<char>) {
    (c.index as int, c.text@)
}

/// The lines of the output worth decoding: every line that is not empty
/// once trimmed, trimmed, with its position among all lines.
pub fn candidate_lines(ndjson: &str) -> (out: Vec<CandidateLine>)
    ensures
        out@.map_values(|c: CandidateLine| candidate_view(c)) == candidates(split_lines(ndjson@)),
{
    let v = chars_of(ndjson);
    let mut out: Vec<CandidateLine> = Vec::new();
    let mut start: usize = 0;
    let mut index: usize = 0;
    let ghost mut done: Seq<Seq<char>> = Seq::empty();
    assert(done + lines_from(v@, 0) =~= split_lines(v@));
    loop
        invariant_except_break
            index == done.len(),
            split_lines(v@) == done + lines_from(v@, start as int),
        invariant
            v@ == ndjson@,
            start <= v.len(),
            index <= start,
            out@.map_values(|c: CandidateLine| candidate_view(c)) == candidates(done),
        ensures
            split_lines(v@) == done,
            out@.map_values(|c: CandidateLine| candidate_view(c)) == candidates(done),
        decreases v.len() - start,
    {
        let k = find_newline(&v, start);
        proof {
            lemma_newline_from(v@, start as int);
        }
        let ghost seg = v@.subrange(start as int, k as int);
        let (a, b) = trimmed_range(&v, start, k);
        let ghost prev = out@;
        if a < b {
            let line = CandidateLine { index, text: ndjson.substring_char(a, b).to_owned() };
            out.push(line);
            proof {
                assert(out@ =~= prev.push(line));
            }
        }
        proof {
            let next = done.push(seg);
            assert(next.drop_last() =~= done);
            assert(out@.map_values(|c: CandidateLine| candidate_view(c)) =~= candidates(next));
            done = next;
        }
        if k >= v.len() {
            proof {
                assert(split_lines(v@) =~= done);
            }
            break;
        }
        proof {
            assert(split_lines(v@) =~= done + lines_from(v@, k + 1));
        }
        start = k + 1;
        index = index + 1;
    }
    out
}

} // verus!
