//! Configuration of an audit run, and the normalisation of the findings
//! that the tools report: allow-list, severity threshold, ordering by
//! `(id, affected_crate)` and removal of duplicates.

use vstd::prelude::*;
use crate::order::{
    lemma_seq_lt_irreflexive, lemma_seq_lt_total, lemma_seq_lt_transitive, seq_lt, str_lt,
};
use crate::result::{count_at_or_above_spec, lemma_count_at_or_above_all, AuditResult};
use crate::{severity_ord, severity_rank, AuditError, AuditScope, Finding, Severity};

verus! {

/// `a` sorts strictly before `b` by `id`, ties broken by `affected_crate`.
pub open spec fn key_lt(a: Finding, b: Finding) -> bool {
    ||| seq_lt(a.id@, b.id@)
    ||| a.id@ == b.id@ && seq_lt(a.affected_crate@, b.affected_crate@)
}

/// `a` and `b` have the same `(id, affected_crate)`.
pub open spec fn same_key(a: Finding, b: Finding) -> bool {
    a.id@ == b.id@ && a.affected_crate@ == b.affected_crate@
}

/// A finding survives the allow-list and the severity threshold.
pub open spec fn passes(f: Finding, allow: Seq<Seq<char>>, threshold: Option<Severity>) -> bool {
    &&& !allow.contains(f.id@)
    &&& match threshold {
        Some(t) => severity_rank(f.severity) >= severity_rank(t),
        None => true,
    }
}

/// Keys increase strictly along `s`: it is sorted and holds no two findings with one key.
pub open spec fn strictly_sorted(s: Seq<Finding>) -> bool {
    forall|i: int, j: int| 0 <= i < j < s.len() ==> #[trigger] key_lt(s[i], s[j])
}

/// `input[j]` survives the filters and no earlier surviving finding has its key.
pub open spec fn first_passing(
    input: Seq<Finding>,
    j: int,
    allow: Seq<Seq<char>>,
    threshold: Option<Severity>,
) -> bool {
    &&& 0 <= j < input.len()
    &&& passes(input[j], allow, threshold)
    &&& forall|k: int|
        0 <= k < j && passes(#[trigger] input[k], allow, threshold) ==> !same_key(input[k], input[j])
}

/// Some finding among the first `n` of `input` that is first with its key
/// among the surviving ones is `f`.
pub open spec fn represented(
    input: Seq<Finding>,
    n: int,
    f: Finding,
    allow: Seq<Seq<char>>,
    threshold: Option<Severity>,
) -> bool {
    exists|j: int| 0 <= j < n && #[trigger] first_passing(input, j, allow, threshold) && input[j] == f
}

/// Some finding of `out` has the key of `f`.
pub open spec fn key_present(out: Seq<Finding>, f: Finding) -> bool {
    exists|i: int| 0 <= i < out.len() && #[trigger] same_key(out[i], f)
}

/// `out` is the normalisation of the first `n` findings of `input`.
pub open spec fn normalized_upto(
    out: Seq<Finding>,
    input: Seq<Finding>,
    n: int,
    allow: Seq<Seq<char>>,
    threshold: Option<Severity>,
) -> bool {
    &&& strictly_sorted(out)
    &&& forall|i: int| 0 <= i < out.len() ==> #[trigger] represented(input, n, out[i], allow, threshold)
    &&& forall|j: int|
        0 <= j < n && passes(input[j], allow, threshold) ==> #[trigger] key_present(out, input[j])
}

/// `out` is the normalisation of `input`: the findings that survive the
/// allow-list and the threshold, sorted by `(id, affected_crate)`, each key
/// once, represented by the first surviving finding of `input` with that key.
pub open spec fn normalized(
    out: Seq<Finding>,
    input: Seq<Finding>,
    allow: Seq<Seq<char>>,
    threshold: Option<Severity>,
) -> bool {
    normalized_upto(out, input, input.len() as int, allow, threshold)
}

proof fn lemma_key_lt_not_same(a: Finding, b: Finding)
    ensures
        key_lt(a, b) ==> !same_key(a, b),
        key_lt(a, b) ==> !key_lt(b, a),
        !same_key(a, b) ==> key_lt(a, b) || key_lt(b, a),
{
    lemma_seq_lt_irreflexive(a.id@);
    lemma_seq_lt_irreflexive(a.affected_crate@);
    lemma_seq_lt_total(a.id@, b.id@);
    lemma_seq_lt_total(a.affected_crate@, b.affected_crate@);
}

proof fn lemma_key_lt_transitive(a: Finding, b: Finding, c: Finding)
    requires
        key_lt(a, b),
        key_lt(b, c),
    ensures
        key_lt(a, c),
{
    if seq_lt(a.id@, b.id@) && seq_lt(b.id@, c.id@) {
        lemma_seq_lt_transitive(a.id@, b.id@, c.id@);
    } else if a.id@ == b.id@ && b.id@ == c.id@ {
        lemma_seq_lt_transitive(a.affected_crate@, b.affected_crate@, c.affected_crate@);
    }
}

/// Whether `a` sorts strictly before `b` by `(id, affected_crate)`.
fn finding_lt(a: &Finding, b: &Finding) -> (r: bool)
    ensures
        r == key_lt(*a, *b),
{
    if str_lt(a.id.as_str(), b.id.as_str()) {
        true
    } else if a.id == b.id {
        str_lt(a.affected_crate.as_str(), b.affected_crate.as_str())
    } else {
        false
    }
}

/// Whether `id` is on the allow-list.
fn allow_listed(allow: &Vec<String>, id: &String) -> (r: bool)
    ensures
        r == allow@.map_values(|s: String| s@).contains(id@),
{
    let ghost ids = allow@.map_values(|s: String| s@);
    let mut i: usize = 0;
    while i < allow.len()
        invariant
            i <= allow.len(),
            ids == allow@.map_values(|s: String| s@),
            forall|k: int| 0 <= k < i ==> ids[k] != id@,
        decreases allow.len() - i,
    {
        if allow[i] == *id {
            assert(ids[i as int] == id@);
            return true;
        }
        i = i + 1;
    }
    proof {
        if ids.contains(id@) {
            let k = choose|k: int| 0 <= k < ids.len() && ids[k] == id@;
            assert(ids[k] != id@);
        }
    }
    false
}

/// The position at which `f` belongs in the strictly sorted `out`, and
/// whether a finding with `f`'s key already stands there.
fn locate(out: &Vec<Finding>, f: &Finding) -> (r: (usize, bool))
    requires
        strictly_sorted(out@),
    ensures
        r.0 <= out.len(),
        forall|k: int| 0 <= k < r.0 ==> key_lt(out@[k], *f),
        r.1 == (r.0 < out.len() && same_key(out@[r.0 as int], *f)),
        !r.1 ==> forall|k: int| r.0 <= k < out.len() ==> key_lt(*f, out@[k]),
{
    let mut i: usize = 0;
    while i < out.len() && finding_lt(&out[i], f)
        invariant
            i <= out.len(),
            forall|k: int| 0 <= k < i ==> key_lt(out@[k], *f),
        decreases out.len() - i,
    {
        i = i + 1;
    }
    let found = i < out.len() && out[i].id == f.id && out[i].affected_crate == f.affected_crate;
    proof {
        if !found && i < out.len() {
            lemma_key_lt_not_same(out@[i as int], *f);
            assert forall|k: int| i <= k < out.len() implies key_lt(*f, out@[k]) by {
                if k > i {
                    assert(key_lt(out@[i as int], out@[k]));
                    lemma_key_lt_transitive(*f, out@[i as int], out@[k]);
                }
            }
        }
    }
    (i, found)
}

proof fn lemma_represented_extend(
    input: Seq<Finding>,
    n: int,
    f: Finding,
    allow: Seq<Seq<char>>,
    threshold: Option<Severity>,
)
    requires
        represented(input, n, f, allow, threshold),
    ensures
        represented(input, n + 1, f, allow, threshold),
{
    let j = choose|j: int| 0 <= j < n && #[trigger] first_passing(input, j, allow, threshold) && input[j] == f;
    assert(0 <= j < n + 1 && first_passing(input, j, allow, threshold) && input[j] == f);
}

proof fn lemma_step_kept_out(
    out: Seq<Finding>,
    all: Seq<Finding>,
    n: int,
    ids: Seq<Seq<char>>,
    threshold: Option<Severity>,
)
    requires
        0 <= n < all.len(),
        normalized_upto(out, all, n, ids, threshold),
        passes(all[n], ids, threshold) ==> key_present(out, all[n]),
    ensures
        normalized_upto(out, all, n + 1, ids, threshold),
{
    assert forall|i: int| 0 <= i < out.len() implies #[trigger] represented(all, n + 1, out[i], ids, threshold) by {
        lemma_represented_extend(all, n, out[i], ids, threshold);
    }
}

proof fn lemma_step_inserted(
    prev: Seq<Finding>,
    all: Seq<Finding>,
    n: int,
    ids: Seq<Seq<char>>,
    threshold: Option<Severity>,
    pos: int,
)
    requires
        0 <= n < all.len(),
        normalized_upto(prev, all, n, ids, threshold),
        passes(all[n], ids, threshold),
        0 <= pos <= prev.len(),
        forall|k: int| 0 <= k < pos ==> key_lt(prev[k], all[n]),
        forall|k: int| pos <= k < prev.len() ==> key_lt(all[n], prev[k]),
    ensures
        normalized_upto(prev.insert(pos, all[n]), all, n + 1, ids, threshold),
{
    let f = all[n];
    let out = prev.insert(pos, f);
    assert forall|i: int| 0 <= i < prev.len() implies !same_key(prev[i], f) by {
        if i < pos {
            lemma_key_lt_not_same(prev[i], f);
        } else {
            lemma_key_lt_not_same(f, prev[i]);
        }
    }
    assert forall|k: int| 0 <= k < n && passes(#[trigger] all[k], ids, threshold)
        implies !same_key(all[k], all[n]) by {
        assert(key_present(prev, all[k]));
        let i = choose|i: int| 0 <= i < prev.len() && #[trigger] same_key(prev[i], all[k]);
        if same_key(all[k], all[n]) {
            assert(same_key(prev[i], f));
        }
    }
    assert(first_passing(all, n, ids, threshold));
    assert forall|i: int, j: int| 0 <= i < j < out.len() implies #[trigger] key_lt(out[i], out[j]) by {
        if j < pos {
            assert(key_lt(prev[i], prev[j]));
        } else if j == pos {
        } else if i < pos {
            lemma_key_lt_transitive(prev[i], f, prev[j - 1]);
        } else if i == pos {
        } else {
            assert(key_lt(prev[i - 1], prev[j - 1]));
        }
    }
    assert forall|i: int| 0 <= i < out.len() implies #[trigger] represented(all, n + 1, out[i], ids, threshold) by {
        if i < pos {
            assert(out[i] == prev[i]);
            assert(represented(all, n, prev[i], ids, threshold));
            lemma_represented_extend(all, n, prev[i], ids, threshold);
        } else if i == pos {
            assert(all[n] == out[i]);
        } else {
            assert(out[i] == prev[i - 1]);
            assert(represented(all, n, prev[i - 1], ids, threshold));
            lemma_represented_extend(all, n, prev[i - 1], ids, threshold);
        }
    }
    assert forall|j: int| 0 <= j < n + 1 && passes(all[j], ids, threshold) implies #[trigger] key_present(out, all[j]) by {
        if j == n {
            assert(same_key(out[pos], all[j]));
        } else {
            assert(key_present(prev, all[j]));
            let i = choose|i: int| 0 <= i < prev.len() && #[trigger] same_key(prev[i], all[j]);
            if i < pos {
                assert(same_key(out[i], all[j]));
            } else {
                assert(same_key(out[i + 1], all[j]));
            }
        }
    }
}

/// Normalises `input`: drops the findings whose id is on `allow` or whose
/// severity is below `threshold`, sorts the rest by `(id, affected_crate)`
/// and keeps, of findings with one key, the first.
pub fn normalize_findings(
    input: Vec<Finding>,
    allow: &Vec<String>,
    threshold: Option<Severity>,
) -> (out: Vec<Finding>)
    ensures
        normalized(out@, input@, allow@.map_values(|s: String| s@), threshold),
{
    let ghost all = input@;
    let ghost ids = allow@.map_values(|s: String| s@);
    let mut out: Vec<Finding> = Vec::new();
    let ghost mut n: int = 0;
    for f in it: input
        invariant
            all == it.seq(),
            n == it.index(),
            ids == allow@.map_values(|s: String| s@),
            normalized_upto(out@, all, n, ids, threshold),
    {
        assert(f == all[n]);
        let keep = !allow_listed(allow, &f.id) && match threshold {
            Some(t) => severity_ord(f.severity) >= severity_ord(t),
            None => true,
        };
        if keep {
            let (pos, found) = locate(&out, &f);
            if !found {
                proof {
                    lemma_step_inserted(out@, all, n, ids, threshold, pos as int);
                }
                out.insert(pos, f);
            } else {
                proof {
                    assert(same_key(out@[pos as int], all[n]));
                    lemma_step_kept_out(out@, all, n, ids, threshold);
                }
            }
        } else {
            proof {
                lemma_step_kept_out(out@, all, n, ids, threshold);
            }
        }
        proof {
            n = n + 1;
        }
    }
    out
}

proof fn lemma_first_passing_unique(
    input: Seq<Finding>,
    j1: int,
    j2: int,
    allow: Seq<Seq<char>>,
    threshold: Option<Severity>,
)
    requires
        first_passing(input, j1, allow, threshold),
        first_passing(input, j2, allow, threshold),
        same_key(input[j1], input[j2]),
    ensures
        j1 == j2,
{
    if j1 < j2 {
        assert(passes(input[j1], allow, threshold));
    } else if j2 < j1 {
        assert(passes(input[j2], allow, threshold));
    }
}

proof fn lemma_sorted_same_keys(a: Seq<Finding>, b: Seq<Finding>)
    requires
        strictly_sorted(a),
        strictly_sorted(b),
        forall|i: int| 0 <= i < a.len() ==> #[trigger] key_present(b, a[i]),
        forall|i: int| 0 <= i < b.len() ==> #[trigger] key_present(a, b[i]),
    ensures
        a.len() == b.len(),
        forall|i: int| 0 <= i < a.len() ==> same_key(#[trigger] a[i], b[i]),
    decreases a.len() + b.len(),
{
    if a.len() == 0 {
        if b.len() > 0 {
            assert(key_present(a, b[0]));
        }
    } else if b.len() == 0 {
        assert(key_present(b, a[0]));
    } else {
        assert(key_present(b, a[0]));
        assert(key_present(a, b[0]));
        let p = choose|i: int| 0 <= i < b.len() && #[trigger] same_key(b[i], a[0]);
        let q = choose|i: int| 0 <= i < a.len() && #[trigger] same_key(a[i], b[0]);
        if p > 0 && q > 0 {
            assert(key_lt(b[0], b[p]));
            assert(key_lt(a[0], a[q]));
            lemma_key_lt_not_same(a[0], b[0]);
        }
        assert(same_key(a[0], b[0]));
        let a1 = a.drop_first();
        let b1 = b.drop_first();
        assert forall|i: int| 0 <= i < a1.len() implies #[trigger] key_present(b1, a1[i]) by {
            assert(a1[i] == a[i + 1]);
            assert(key_present(b, a[i + 1]));
            let r = choose|r: int| 0 <= r < b.len() && #[trigger] same_key(b[r], a[i + 1]);
            assert(key_lt(a[0], a[i + 1]));
            lemma_key_lt_not_same(a[0], a[i + 1]);
            assert(r != 0);
            assert(same_key(b1[r - 1], a1[i]));
        }
        assert forall|i: int| 0 <= i < b1.len() implies #[trigger] key_present(a1, b1[i]) by {
            assert(b1[i] == b[i + 1]);
            assert(key_present(a, b[i + 1]));
            let r = choose|r: int| 0 <= r < a.len() && #[trigger] same_key(a[r], b[i + 1]);
            assert(key_lt(b[0], b[i + 1]));
            lemma_key_lt_not_same(b[0], b[i + 1]);
            assert(r != 0);
            assert(same_key(a1[r - 1], b1[i]));
        }
        lemma_sorted_same_keys(a1, b1);
        assert forall|i: int| 0 <= i < a.len() implies same_key(#[trigger] a[i], b[i]) by {
            if i > 0 {
                assert(same_key(a1[i - 1], b1[i - 1]));
            }
        }
    }
}

/// Normalisation is deterministic: the same findings, allow-list and
/// threshold admit exactly one normalised list.
pub proof fn lemma_normalized_unique(
    out1: Seq<Finding>,
    out2: Seq<Finding>,
    input: Seq<Finding>,
    allow: Seq<Seq<char>>,
    threshold: Option<Severity>,
)
    requires
        normalized(out1, input, allow, threshold),
        normalized(out2, input, allow, threshold),
    ensures
        out1 == out2,
{
    let n = input.len() as int;
    assert forall|i: int| 0 <= i < out1.len() implies #[trigger] key_present(out2, out1[i]) by {
        assert(represented(input, n, out1[i], allow, threshold));
        let j = choose|j: int| 0 <= j < n && #[trigger] first_passing(input, j, allow, threshold) && input[j] == out1[i];
        assert(key_present(out2, input[j]));
    }
    assert forall|i: int| 0 <= i < out2.len() implies #[trigger] key_present(out1, out2[i]) by {
        assert(represented(input, n, out2[i], allow, threshold));
        let j = choose|j: int| 0 <= j < n && #[trigger] first_passing(input, j, allow, threshold) && input[j] == out2[i];
        assert(key_present(out1, input[j]));
    }
    lemma_sorted_same_keys(out1, out2);
    assert forall|i: int| 0 <= i < out1.len() implies out1[i] == out2[i] by {
        assert(same_key(out1[i], out2[i]));
        assert(represented(input, n, out1[i], allow, threshold));
        assert(represented(input, n, out2[i], allow, threshold));
        let j1 = choose|j: int| 0 <= j < n && #[trigger] first_passing(input, j, allow, threshold) && input[j] == out1[i];
        let j2 = choose|j: int| 0 <= j < n && #[trigger] first_passing(input, j, allow, threshold) && input[j] == out2[i];
        lemma_first_passing_unique(input, j1, j2, allow, threshold);
    }
    assert(out1 =~= out2);
}

/// Every finding of a normalised list survived the allow-list and the
/// threshold, and came from the input.
pub proof fn lemma_normalized_filters(
    out: Seq<Finding>,
    input: Seq<Finding>,
    allow: Seq<Seq<char>>,
    threshold: Option<Severity>,
)
    requires
        normalized(out, input, allow, threshold),
    ensures
        forall|i: int| 0 <= i < out.len() ==> passes(#[trigger] out[i], allow, threshold),
        forall|i: int| 0 <= i < out.len() ==> input.contains(#[trigger] out[i]),
{
    let n = input.len() as int;
    assert forall|i: int| 0 <= i < out.len() implies passes(#[trigger] out[i], allow, threshold)
        && input.contains(out[i]) by {
        assert(represented(input, n, out[i], allow, threshold));
        let j = choose|j: int| 0 <= j < n && #[trigger] first_passing(input, j, allow, threshold) && input[j] == out[i];
    }
}

/// With a severity threshold, every finding of the normalised list is at
/// or above it, and no finding's id is on the allow-list.
pub proof fn lemma_threshold_and_allow_list(
    out: Seq<Finding>,
    input: Seq<Finding>,
    allow: Seq<Seq<char>>,
    threshold: Severity,
)
    requires
        normalized(out, input, allow, Some(threshold)),
    ensures
        count_at_or_above_spec(out, threshold) == out.len(),
        forall|i: int| 0 <= i < out.len() ==> !allow.contains(#[trigger] out[i].id@),
{
    lemma_normalized_filters(out, input, allow, Some(threshold));
    assert forall|i: int| 0 <= i < out.len() implies severity_rank(#[trigger] out[i].severity) >= severity_rank(threshold) by {
        assert(passes(out[i], allow, Some(threshold)));
    }
    assert forall|i: int| 0 <= i < out.len() implies !allow.contains(#[trigger] out[i].id@) by {
        assert(passes(out[i], allow, Some(threshold)));
    }
    lemma_count_at_or_above_all(out, threshold);
}

/// Nothing at or above the threshold is lost: every finding of the input
/// whose id is not allow-listed and whose severity is at or above the
/// threshold (any severity, without one) has its `(id, affected_crate)`
/// in the normalised list.
pub proof fn lemma_threshold_keeps_at_or_above(
    out: Seq<Finding>,
    input: Seq<Finding>,
    allow: Seq<Seq<char>>,
    threshold: Option<Severity>,
    j: int,
)
    requires
        normalized(out, input, allow, threshold),
        0 <= j < input.len(),
        !allow.contains(input[j].id@),
        threshold matches Some(t) ==> severity_rank(input[j].severity) >= severity_rank(t),
    ensures
        exists|i: int|
            0 <= i < out.len() && out[i].id@ == input[j].id@ && out[i].affected_crate@
                == input[j].affected_crate@,
{
    assert(passes(input[j], allow, threshold));
    assert(key_present(out, input[j]));
    let i = choose|i: int| 0 <= i < out.len() && #[trigger] same_key(out[i], input[j]);
    assert(out[i].id@ == input[j].id@ && out[i].affected_crate@ == input[j].affected_crate@);
}

/// Of findings sharing a key, the earliest one is kept: a finding that
/// survives the allow-list and threshold, with no earlier finding of the
/// same `(id, affected_crate)` in the input, appears itself in the
/// normalised list.
pub proof fn lemma_first_is_kept(
    out: Seq<Finding>,
    input: Seq<Finding>,
    allow: Seq<Seq<char>>,
    threshold: Option<Severity>,
    j: int,
)
    requires
        normalized(out, input, allow, threshold),
        0 <= j < input.len(),
        !allow.contains(input[j].id@),
        threshold matches Some(t) ==> severity_rank(input[j].severity) >= severity_rank(t),
        forall|k: int|
            0 <= k < j ==> (#[trigger] input[k]).id@ != input[j].id@ || input[k].affected_crate@
                != input[j].affected_crate@,
    ensures
        exists|i: int| 0 <= i < out.len() && out[i] == input[j],
{
    assert(passes(input[j], allow, threshold));
    assert(first_passing(input, j, allow, threshold));
    assert(key_present(out, input[j]));
    let i = choose|i: int| 0 <= i < out.len() && #[trigger] same_key(out[i], input[j]);
    assert(represented(input, input.len() as int, out[i], allow, threshold));
    let j2 = choose|j2: int| 0 <= j2 < input.len() && #[trigger] first_passing(input, j2, allow, threshold) && input[j2] == out[i];
    lemma_first_passing_unique(input, j, j2, allow, threshold);
}

/// The order of the list: by id first, and by crate only between equal ids.
pub proof fn lemma_key_order(a: Finding, b: Finding)
    ensures
        seq_lt(a.id@, b.id@) ==> key_lt(a, b),
        a.id@ == b.id@ ==> (key_lt(a, b) <==> seq_lt(a.affected_crate@, b.affected_crate@)),
        seq_lt(b.id@, a.id@) ==> !key_lt(a, b),
{
    lemma_seq_lt_total(a.id@, b.id@);
    lemma_seq_lt_irreflexive(a.id@);
}

/// Normalising a normalised list again, with the same allow-list and
/// threshold, gives it back unchanged.
pub proof fn lemma_normalized_idempotent(
    out: Seq<Finding>,
    again: Seq<Finding>,
    input: Seq<Finding>,
    allow: Seq<Seq<char>>,
    threshold: Option<Severity>,
)
    requires
        normalized(out, input, allow, threshold),
        normalized(again, out, allow, threshold),
    ensures
        again == out,
{
    lemma_normalized_filters(out, input, allow, threshold);
    let n = out.len() as int;
    assert forall|i: int| 0 <= i < out.len() implies #[trigger] represented(out, n, out[i], allow, threshold) by {
        assert forall|k: int| 0 <= k < i && passes(#[trigger] out[k], allow, threshold)
            implies !same_key(out[k], out[i]) by {
            assert(key_lt(out[k], out[i]));
            lemma_key_lt_not_same(out[k], out[i]);
        }
        assert(first_passing(out, i, allow, threshold));
    }
    assert forall|j: int| 0 <= j < n && passes(out[j], allow, threshold) implies #[trigger] key_present(out, out[j]) by {
        assert(same_key(out[j], out[j]));
    }
    assert(normalized(out, out, allow, threshold));
    lemma_normalized_unique(again, out, out, allow, threshold);
}

/// No two findings of `s` share a key.
pub open spec fn distinct_keys(s: Seq<Finding>) -> bool {
    forall|i: int, j: int| 0 <= i < j < s.len() ==> !same_key(#[trigger] s[i], #[trigger] s[j])
}

/// Order does not matter when keys are distinct: two inputs that hold the
/// same findings, each with pairwise distinct keys (so one is a
/// reordering of the other), normalise to the same list.
pub proof fn lemma_normalized_reorder(
    out1: Seq<Finding>,
    in1: Seq<Finding>,
    out2: Seq<Finding>,
    in2: Seq<Finding>,
    allow: Seq<Seq<char>>,
    threshold: Option<Severity>,
)
    requires
        distinct_keys(in1),
        distinct_keys(in2),
        forall|f: Finding| in1.contains(f) <==> in2.contains(f),
        normalized(out1, in1, allow, threshold),
        normalized(out2, in2, allow, threshold),
    ensures
        out1 == out2,
{
    let n1 = in1.len() as int;
    let n2 = in2.len() as int;
    assert forall|i: int| 0 <= i < out1.len() implies #[trigger] represented(in2, n2, out1[i], allow, threshold) by {
        assert(represented(in1, n1, out1[i], allow, threshold));
        let j = choose|j: int| 0 <= j < n1 && #[trigger] first_passing(in1, j, allow, threshold) && in1[j] == out1[i];
        assert(in1.contains(out1[i]));
        assert(in2.contains(out1[i]));
        let k = choose|k: int| 0 <= k < n2 && in2[k] == out1[i];
        assert forall|m: int| 0 <= m < k && passes(#[trigger] in2[m], allow, threshold)
            implies !same_key(in2[m], in2[k]) by {
            assert(!same_key(in2[m], in2[k]));
        }
        assert(first_passing(in2, k, allow, threshold));
    }
    assert forall|j: int| 0 <= j < n2 && passes(in2[j], allow, threshold) implies #[trigger] key_present(out1, in2[j]) by {
        assert(in2.contains(in2[j]));
        assert(in1.contains(in2[j]));
        let m = choose|m: int| 0 <= m < n1 && in1[m] == in2[j];
        assert(key_present(out1, in1[m]));
    }
    assert(normalized(out1, in2, allow, threshold));
    lemma_normalized_unique(out1, out2, in2, allow, threshold);
}

/// `r` is the result of the run configured as `run` whose tools reported
/// `findings` (`cargo audit`'s first): it names the run's subject and scope
/// and holds the normalisation of `findings` under the run's allow-list and
/// threshold.
pub open spec fn assembled(run: AuditRunView, r: AuditResult, findings: Seq<Finding>) -> bool {
    &&& r.name@ == run.name
    &&& r.version@ == run.version
    &&& r.scope == run.scope
    &&& normalized(r.findings@, findings, run.allow_list, run.severity_threshold)
}

/// Whether a scope runs `cargo audit`.
pub open spec fn scope_runs_audit(s: AuditScope) -> bool {
    s == AuditScope::Vulnerabilities || s == AuditScope::All
}

/// Whether a scope runs `cargo deny`.
pub open spec fn scope_runs_deny(s: AuditScope) -> bool {
    s == AuditScope::Policy || s == AuditScope::All
}

/// What to do next while executing a run: `cargo audit` runs first, and a
/// failure of either tool ends the run with that failure.
pub enum ExecuteStep {
    /// Run `cargo audit`, then hand its outcome to [`AuditRun::after_audit`].
    RunAudit,
    /// Run `cargo deny`, then hand these findings of `cargo audit` and its
    /// outcome to [`AuditRun::after_deny`].
    RunDeny(Vec<Finding>),
    /// The run is over, with this outcome.
    Done(Result<AuditResult, AuditError>),
}

/// Configuration for an audit run.
#[derive(Debug, Clone)]
pub struct AuditRun {
    name: String,
    version: String,
    scope: AuditScope,
    workdir: Option<String>,
    deny_config: Option<String>,
    allow_list: Vec<String>,
    severity_threshold: Option<Severity>,
}

/// What an [`AuditRun`] is configured with.
pub struct AuditRunView {
    pub name: Seq<char>,
    pub version: Seq<char>,
    pub scope: AuditScope,
    pub workdir: Option<Seq<char>>,
    pub deny_config: Option<Seq<char>>,
    pub allow_list: Seq<Seq<char>>,
    pub severity_threshold: Option<Severity>,
}

impl View for AuditRun {
    type V = AuditRunView;

    closed spec fn view(&self) -> AuditRunView {
        AuditRunView {
            name: self.name@,
            version: self.version@,
            scope: self.scope,
            workdir: crate::opt_view(self.workdir),
            deny_config: crate::opt_view(self.deny_config),
            allow_list: self.allow_list@.map_values(|s: String| s@),
            severity_threshold: self.severity_threshold,
        }
    }
}

impl AuditRun {
    /// Begin a new audit run for the given subject name and version. The
    /// scope starts as [`AuditScope::All`]; nothing is allowed or filtered.
    pub fn new(name: &str, version: &str) -> (r: Self)
        ensures
            r@ == (AuditRunView {
                name: name@,
                version: version@,
                scope: AuditScope::All,
                workdir: None,
                deny_config: None,
                allow_list: Seq::empty(),
                severity_threshold: None,
            }),
    {
        let r = AuditRun {
            name: name.to_owned(),
            version: version.to_owned(),
            scope: AuditScope::All,
            workdir: None,
            deny_config: None,
            allow_list: Vec::new(),
            severity_threshold: None,
        };
        assert(r@.allow_list =~= Seq::<Seq<char>>::empty());
        r
    }

    /// Pick which checks to run.
    pub fn scope(self, scope: AuditScope) -> (r: Self)
        ensures
            r@ == (AuditRunView { scope, ..self@ }),
    {
        AuditRun { scope, ..self }
    }

    /// Selected scope.
    pub fn audit_scope(&self) -> (r: AuditScope)
        ensures
            r == self@.scope,
    {
        self.scope
    }

    /// Run the tools from `dir` instead of the current directory.
    pub fn in_dir(self, dir: &str) -> (r: Self)
        ensures
            r@ == (AuditRunView { workdir: Some(dir@), ..self@ }),
    {
        AuditRun { workdir: Some(dir.to_owned()), ..self }
    }

    /// Point `cargo deny` at a `deny.toml` other than the default one.
    pub fn deny_config(self, path: &str) -> (r: Self)
        ensures
            r@ == (AuditRunView { deny_config: Some(path@), ..self@ }),
    {
        AuditRun { deny_config: Some(path.to_owned()), ..self }
    }

    /// Suppress one advisory ID or rule code. May be called repeatedly.
    pub fn allow(self, id: &str) -> (r: Self)
        ensures
            r@ == (AuditRunView { allow_list: self@.allow_list.push(id@), ..self@ }),
    {
        let mut r = self;
        let ghost before = r.allow_list@;
        r.allow_list.push(id.to_owned());
        assert(r.allow_list@.map_values(|s: String| s@) =~= before.map_values(|s: String| s@).push(id@));
        r
    }

    /// Add several allow-list entries at once, in order.
    pub fn allow_all<const N: usize>(self, ids: [&str; N]) -> (r: Self)
        ensures
            r@ == (AuditRunView {
                allow_list: self@.allow_list + ids@.map_values(|s: &str| s@),
                ..self@
            }),
    {
        let mut r = self;
        let ghost start = r@.allow_list;
        let mut i: usize = 0;
        while i < N
            invariant
                i <= N,
                ids@.len() == N,
                r@.allow_list == start + ids@.take(i as int).map_values(|s: &str| s@),
                r@.name == self@.name,
                r@.version == self@.version,
                r@.scope == self@.scope,
                r@.workdir == self@.workdir,
                r@.deny_config == self@.deny_config,
                r@.severity_threshold == self@.severity_threshold,
                start == self@.allow_list,
            decreases N - i,
        {
            let ghost before = r.allow_list@;
            r.allow_list.push(ids[i].to_owned());
            assert(r.allow_list@.map_values(|s: String| s@) =~= before.map_values(|s: String| s@).push(ids@[i as int]@));
            assert(ids@.take(i + 1).map_values(|s: &str| s@) =~= ids@.take(i as int).map_values(|s: &str| s@).push(ids@[i as int]@));
            i = i + 1;
        }
        assert(ids@.take(N as int) =~= ids@);
        r
    }

    /// Discard findings whose severity is below `threshold`.
    pub fn severity_threshold(self, threshold: Severity) -> (r: Self)
        ensures
            r@ == (AuditRunView { severity_threshold: Some(threshold), ..self@ }),
    {
        AuditRun { severity_threshold: Some(threshold), ..self }
    }

    /// Subject name passed in via [`new`](Self::new).
    pub fn subject(&self) -> (r: &str)
        ensures
            r@ == self@.name,
    {
        self.name.as_str()
    }

    /// Subject version passed in via [`new`](Self::new).
    pub fn subject_version(&self) -> (r: &str)
        ensures
            r@ == self@.version,
    {
        self.version.as_str()
    }

    /// Directory to run the tools from, when one was set.
    pub fn working_dir(&self) -> (r: Option<&str>)
        ensures
            match r {
                Some(d) => self@.workdir == Some(d@),
                None => self@.workdir is None,
            },
    {
        match &self.workdir {
            Some(d) => Some(d.as_str()),
            None => None,
        }
    }

    /// The `deny.toml` to hand to `cargo deny`, when one was set.
    pub fn deny_config_path(&self) -> (r: Option<&str>)
        ensures
            match r {
                Some(d) => self@.deny_config == Some(d@),
                None => self@.deny_config is None,
            },
    {
        match &self.deny_config {
            Some(d) => Some(d.as_str()),
            None => None,
        }
    }

    /// The result of this run, given what `cargo audit` and `cargo deny`
    /// reported (empty for a tool that the scope does not run). The
    /// findings are merged, audit first, then normalised: filtered through
    /// the allow-list and the severity threshold, sorted by `id` then
    /// `affected_crate`, and de-duplicated by that pair.
    pub fn assemble(&self, audit_findings: Vec<Finding>, deny_findings: Vec<Finding>) -> (r: AuditResult)
        ensures
            assembled(self@, r, audit_findings@ + deny_findings@),
    {
        let mut all = audit_findings;
        let mut rest = deny_findings;
        let ghost a = all@;
        let ghost d = rest@;
        all.append(&mut rest);
        assert(all@ =~= a + d);
        let findings = normalize_findings(all, &self.allow_list, self.severity_threshold);
        AuditResult {
            name: self.name.clone(),
            version: self.version.clone(),
            scope: self.scope,
            findings,
        }
    }

    /// The first step of executing this run: `cargo audit` when the scope
    /// runs it, else `cargo deny` with no audit findings.
    pub fn start(&self) -> (r: ExecuteStep)
        ensures
            scope_runs_audit(self@.scope) ==> r is RunAudit,
            !scope_runs_audit(self@.scope) ==> (r matches ExecuteStep::RunDeny(v) && v@.len() == 0),
    {
        if self.scope.runs_audit() {
            ExecuteStep::RunAudit
        } else {
            ExecuteStep::RunDeny(Vec::new())
        }
    }

    /// The step after `cargo audit` ran: its failure ends the run; else
    /// `cargo deny` runs when the scope asks for it, and otherwise the run
    /// ends with its result.
    pub fn after_audit(&self, outcome: Result<Vec<Finding>, AuditError>) -> (r: ExecuteStep)
        ensures
            match outcome {
                Err(e) => r == ExecuteStep::Done(Err(e)),
                Ok(found) => if scope_runs_deny(self@.scope) {
                    r == ExecuteStep::RunDeny(found)
                } else {
                    (r matches ExecuteStep::Done(Ok(res)) && assembled(self@, res, found@))
                },
            },
    {
        match outcome {
            Err(e) => ExecuteStep::Done(Err(e)),
            Ok(found) => if self.scope.runs_deny() {
                ExecuteStep::RunDeny(found)
            } else {
                let ghost f = found@;
                let res = self.assemble(found, Vec::new());
                assert(f + Seq::<Finding>::empty() =~= f);
                ExecuteStep::Done(Ok(res))
            },
        }
    }

    /// The outcome of the run once `cargo deny` ran after `audit_findings`
    /// were gathered: its failure, or the result of both tools' findings.
    pub fn after_deny(
        &self,
        audit_findings: Vec<Finding>,
        outcome: Result<Vec<Finding>, AuditError>,
    ) -> (r: Result<AuditResult, AuditError>)
        ensures
            match outcome {
                Err(e) => r == Err::<AuditResult, AuditError>(e),
                Ok(found) => (r matches Ok(res) && assembled(self@, res, audit_findings@ + found@)),
            },
    {
        match outcome {
            Err(e) => Err(e),
            Ok(found) => Ok(self.assemble(audit_findings, found)),
        }
    }
}

} // verus!
