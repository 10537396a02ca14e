use vstd::prelude::*;
use vstd::multiset::Multiset;
use crate::models::{
    Classification, HostFacts, IngestionDiagnostics, ScanReport, Severity, SummaryCounts,
    severity_rank,
};
use crate::order::{
    lemma_lex_le_antisymmetric, lemma_lex_le_total, lemma_lex_le_transitive, lex_le, str_le,
};

verus! {

/// The score used for ordering: the numeric score in tenths, with a
/// scoreless record ordered below every scored one.
pub open spec fn score_key(c: Classification) -> int {
    match c.record.score_tenths {
        Some(s) => s as int,
        None => -1,
    }
}

/// Report order: severity tier descending, then numeric score descending,
/// then identifier ascending, for determinism.
pub open spec fn cls_le(a: Classification, b: Classification) -> bool {
    let ra = severity_rank(a.record.severity);
    let rb = severity_rank(b.record.severity);
    if ra != rb {
        ra > rb
    } else if score_key(a) != score_key(b) {
        score_key(a) > score_key(b)
    } else {
        lex_le(a.record.cve_id@, b.record.cve_id@)
    }
}

/// The sequence is in report order.
pub open spec fn cls_sorted(s: Seq<Classification>) -> bool {
    forall|i: int, j: int| 0 <= i < j < s.len() ==> cls_le(#[trigger] s[i], #[trigger] s[j])
}

/// `cls_le` orders any two classifications.
pub proof fn lemma_cls_le_total(a: Classification, b: Classification)
    ensures
        cls_le(a, b) || cls_le(b, a),
{
    lemma_lex_le_total(a.record.cve_id@, b.record.cve_id@);
}

/// `cls_le` is transitive.
pub proof fn lemma_cls_le_transitive(a: Classification, b: Classification, c: Classification)
    ensures
        cls_le(a, b) && cls_le(b, c) ==> cls_le(a, c),
{
    if cls_le(a, b) && cls_le(b, c) && severity_rank(a.record.severity) == severity_rank(
        b.record.severity,
    ) && severity_rank(b.record.severity) == severity_rank(c.record.severity) && score_key(a)
        == score_key(b) && score_key(b) == score_key(c) {
        lemma_lex_le_transitive(a.record.cve_id@, b.record.cve_id@, c.record.cve_id@);
    }
}

/// Ordered both ways, two classifications agree on tier, score, and
/// identifier.
pub proof fn lemma_cls_le_antisymmetric_key(a: Classification, b: Classification)
    requires
        cls_le(a, b),
        cls_le(b, a),
    ensures
        severity_rank(a.record.severity) == severity_rank(b.record.severity),
        score_key(a) == score_key(b),
        a.record.cve_id@ == b.record.cve_id@,
{
    lemma_lex_le_antisymmetric(a.record.cve_id@, b.record.cve_id@);
}

/// Decides `cls_le` executably.
fn cls_le_exec(a: &Classification, b: &Classification) -> (r: bool)
    ensures
        r == cls_le(*a, *b),
{
    let ra = a.record.severity.rank();
    let rb = b.record.severity.rank();
    if ra != rb {
        ra > rb
    } else {
        let decided: Option<bool> = match (&a.record.score_tenths, &b.record.score_tenths) {
            (Some(x), Some(y)) => if *x != *y {
                Some(*x > *y)
            } else {
                None
            },
            (Some(_), None) => Some(true),
            (None, Some(_)) => Some(false),
            (None, None) => None,
        };
        match decided {
            Some(r) => r,
            None => str_le(&a.record.cve_id, &b.record.cve_id),
        }
    }
}

/// Sorts classifications into report order by insertion; keeps the
/// multiset: no classification is ever discarded.
pub fn sort_classifications(v: Vec<Classification>) -> (r: Vec<Classification>)
    ensures
        r@.to_multiset() == v@.to_multiset(),
        r@.len() == v@.len(),
        cls_sorted(r@),
{
    broadcast use vstd::seq_lib::group_to_multiset_ensures;
    broadcast use vstd::multiset::group_multiset_axioms;

    let mut rest = v;
    let mut out: Vec<Classification> = Vec::new();
    proof {
        assert(out@.to_multiset() =~= Multiset::<Classification>::empty());
        assert(out@.to_multiset().add(rest@.to_multiset()) =~= v@.to_multiset());
    }
    while rest.len() > 0
        invariant
            out@.to_multiset().add(rest@.to_multiset()) == v@.to_multiset(),
            out@.len() + rest@.len() == v@.len(),
            cls_sorted(out@),
        decreases rest@.len(),
    {
        broadcast use vstd::seq_lib::group_to_multiset_ensures;
        broadcast use vstd::multiset::group_multiset_axioms;

        let ghost rest_before = rest@;
        let x = match rest.pop() {
            Some(x) => x,
            None => {
                proof {
                    assert(false);
                }
                unreached()
            },
        };
        proof {
            assert(rest_before =~= rest@.push(x));
            assert(rest_before.to_multiset() =~= rest@.to_multiset().insert(x));
        }
        let ghost prev = out@;
        let mut j: usize = 0;
        while j < out.len() && cls_le_exec(&out[j], &x)
            invariant
                0 <= j <= out@.len(),
                out@ == prev,
                forall|k: int| 0 <= k < j ==> cls_le(#[trigger] out@[k], x),
            decreases out@.len() - j,
        {
            j = j + 1;
        }
        proof {
            if j < out@.len() {
                lemma_cls_le_total(out@[j as int], x);
            }
        }
        out.insert(j, x);
        proof {
            assert(out@ == prev.insert(j as int, x));
            vstd::seq_lib::to_multiset_insert(prev, j as int, x);
            assert(out@.to_multiset().add(rest@.to_multiset()) =~= v@.to_multiset());
            assert forall|p: int, q: int| 0 <= p < q < out@.len() implies cls_le(
                #[trigger] out@[p],
                #[trigger] out@[q],
            ) by {
                let jj = j as int;
                if q < jj {
                    assert(cls_le(prev[p], prev[q]));
                } else if p < jj && q == jj {
                    assert(cls_le(prev[p], x));
                } else if p < jj && q > jj {
                    assert(cls_le(prev[p], prev[q - 1]));
                } else if p == jj {
                    assert(out@[p] == x);
                    if jj < prev.len() {
                        assert(cls_le(x, prev[jj]));
                        if q > jj + 1 {
                            assert(cls_le(prev[jj], prev[q - 1]));
                            lemma_cls_le_transitive(x, prev[jj], prev[q - 1]);
                        }
                    }
                } else {
                    assert(cls_le(prev[p - 1], prev[q - 1]));
                }
            }
        }
    }
    proof {
        assert(rest@.to_multiset() =~= Multiset::<Classification>::empty());
        assert(out@.to_multiset() =~= v@.to_multiset());
        vstd::seq_lib::to_multiset_len(out@);
        vstd::seq_lib::to_multiset_len(v@);
    }
    out
}

/// Report ordering is a deterministic total order: any two report-ordered
/// sequences holding the same classifications are identical, provided each
/// identifier names at most one classification — which one run guarantees,
/// one classification per distinct record identifier. So assembling a
/// permuted input yields an identical ordered output.
pub proof fn lemma_report_order_deterministic(x: Seq<Classification>, y: Seq<Classification>)
    requires
        cls_sorted(x),
        cls_sorted(y),
        x.to_multiset() == y.to_multiset(),
        forall|a: Classification, b: Classification|
            #[trigger] x.to_multiset().contains(a) && #[trigger] x.to_multiset().contains(b)
                && a.record.cve_id@ == b.record.cve_id@ ==> a == b,
    ensures
        x =~= y,
    decreases x.len(),
{
    broadcast use vstd::seq_lib::group_to_multiset_ensures;
    broadcast use vstd::multiset::group_multiset_axioms;

    if x.len() == 0 {
        vstd::seq_lib::to_multiset_len(x);
        vstd::seq_lib::to_multiset_len(y);
    } else if y.len() == 0 {
        vstd::seq_lib::to_multiset_len(x);
        vstd::seq_lib::to_multiset_len(y);
    } else {
        assert(x.contains(x[0]));
        assert(x.to_multiset().contains(x[0]));
        assert(y.contains(y[0]));
        assert(y.to_multiset().contains(y[0]));
        assert(x.to_multiset().contains(y[0]));
        assert(y.contains(x[0]));
        if x[0] != y[0] {
            let i = choose|i: int| 0 <= i < x.len() && x[i] == y[0];
            let j = choose|j: int| 0 <= j < y.len() && y[j] == x[0];
            assert(i > 0 && j > 0);
            assert(cls_le(x[0], x[i]));
            assert(cls_le(y[0], y[j]));
            assert(cls_le(x[0], y[0]));
            assert(cls_le(y[0], x[0]));
            lemma_cls_le_antisymmetric_key(x[0], y[0]);
        }
        assert(x[0] == y[0]);
        assert(x.drop_first() =~= x.remove(0));
        assert(y.drop_first() =~= y.remove(0));
        assert(x.remove(0).to_multiset() == x.to_multiset().remove(x[0]));
        assert(y.remove(0).to_multiset() == y.to_multiset().remove(y[0]));
        assert(x.drop_first().to_multiset() == x.to_multiset().remove(x[0]));
        assert(y.drop_first().to_multiset() == y.to_multiset().remove(y[0]));
        assert forall|a: Classification, b: Classification|
            #[trigger] x.drop_first().to_multiset().contains(a)
                && #[trigger] x.drop_first().to_multiset().contains(b) && a.record.cve_id@
                == b.record.cve_id@ implies a == b by {
            assert(x.to_multiset().contains(a));
            assert(x.to_multiset().contains(b));
        }
        lemma_report_order_deterministic(x.drop_first(), y.drop_first());
        assert(x =~= seq![x[0]] + x.drop_first());
        assert(y =~= seq![y[0]] + y.drop_first());
    }
}

/// Applicable (non-`NotApplicable`) classifications of the given severity
/// tier.
pub open spec fn count_sev(s: Seq<Classification>, sev: Severity) -> int
    decreases s.len(),
{
    if s.len() == 0 {
        0
    } else {
        count_sev(s.drop_last(), sev) + if !(s.last().status is NotApplicable)
            && s.last().record.severity == sev {
            1int
        } else {
            0int
        }
    }
}

/// Classifications whose status is `Patched`.
pub open spec fn count_patched(s: Seq<Classification>) -> int
    decreases s.len(),
{
    if s.len() == 0 {
        0
    } else {
        count_patched(s.drop_last()) + if s.last().status is Patched {
            1int
        } else {
            0int
        }
    }
}

/// Classifications whose status is `Unpatched`.
pub open spec fn count_unpatched(s: Seq<Classification>) -> int
    decreases s.len(),
{
    if s.len() == 0 {
        0
    } else {
        count_unpatched(s.drop_last()) + if s.last().status is Unpatched {
            1int
        } else {
            0int
        }
    }
}

/// Classifications whose status is `NotApplicable`; tracked separately and
/// excluded from the severity tier counts.
pub open spec fn count_na(s: Seq<Classification>) -> int
    decreases s.len(),
{
    if s.len() == 0 {
        0
    } else {
        count_na(s.drop_last()) + if s.last().status is NotApplicable {
            1int
        } else {
            0int
        }
    }
}

/// Computes the summary counts of a classification sequence.
pub fn summarize(cls: &Vec<Classification>) -> (r: SummaryCounts)
    ensures
        r.critical == count_sev(cls@, Severity::Critical),
        r.high == count_sev(cls@, Severity::High),
        r.medium == count_sev(cls@, Severity::Medium),
        r.low == count_sev(cls@, Severity::Low),
        r.unknown == count_sev(cls@, Severity::Unknown),
        r.patched == count_patched(cls@),
        r.unpatched == count_unpatched(cls@),
        r.not_applicable == count_na(cls@),
{
    let mut r = SummaryCounts {
        critical: 0,
        high: 0,
        medium: 0,
        low: 0,
        unknown: 0,
        patched: 0,
        unpatched: 0,
        not_applicable: 0,
    };
    let mut i: usize = 0;
    while i < cls.len()
        invariant
            0 <= i <= cls@.len(),
            r.critical == count_sev(cls@.subrange(0, i as int), Severity::Critical),
            r.high == count_sev(cls@.subrange(0, i as int), Severity::High),
            r.medium == count_sev(cls@.subrange(0, i as int), Severity::Medium),
            r.low == count_sev(cls@.subrange(0, i as int), Severity::Low),
            r.unknown == count_sev(cls@.subrange(0, i as int), Severity::Unknown),
            r.patched == count_patched(cls@.subrange(0, i as int)),
            r.unpatched == count_unpatched(cls@.subrange(0, i as int)),
            r.not_applicable == count_na(cls@.subrange(0, i as int)),
            r.critical <= i && r.high <= i && r.medium <= i && r.low <= i && r.unknown <= i,
            r.patched <= i && r.unpatched <= i && r.not_applicable <= i,
        decreases cls@.len() - i,
    {
        proof {
            assert(cls@.subrange(0, i as int + 1).drop_last() =~= cls@.subrange(0, i as int));
            assert(cls@.subrange(0, i as int + 1).last() == cls@[i as int]);
        }
        let na = match &cls[i].status {
            crate::models::Status::NotApplicable => true,
            _ => false,
        };
        if na {
            r.not_applicable = r.not_applicable + 1;
        } else {
            match &cls[i].record.severity {
                Severity::Critical => {
                    r.critical = r.critical + 1;
                },
                Severity::High => {
                    r.high = r.high + 1;
                },
                Severity::Medium => {
                    r.medium = r.medium + 1;
                },
                Severity::Low => {
                    r.low = r.low + 1;
                },
                Severity::Unknown => {
                    r.unknown = r.unknown + 1;
                },
            }
        }
        match &cls[i].status {
            crate::models::Status::Patched(_) => {
                r.patched = r.patched + 1;
            },
            crate::models::Status::Unpatched(_) => {
                r.unpatched = r.unpatched + 1;
            },
            crate::models::Status::NotApplicable => {},
        }
        i = i + 1;
    }
    proof {
        assert(cls@.subrange(0, cls@.len() as int) =~= cls@);
    }
    r
}

/// What report assembly guarantees of its output relative to the
/// classifications it was handed.
pub open spec fn report_correct(r: ScanReport, cls: Seq<Classification>) -> bool {
    &&& r.classifications@.to_multiset() == cls.to_multiset()
    &&& r.classifications@.len() == cls.len()
    &&& cls_sorted(r.classifications@)
    &&& r.summary.critical == count_sev(r.classifications@, Severity::Critical)
    &&& r.summary.high == count_sev(r.classifications@, Severity::High)
    &&& r.summary.medium == count_sev(r.classifications@, Severity::Medium)
    &&& r.summary.low == count_sev(r.classifications@, Severity::Low)
    &&& r.summary.unknown == count_sev(r.classifications@, Severity::Unknown)
    &&& r.summary.patched == count_patched(r.classifications@)
    &&& r.summary.unpatched == count_unpatched(r.classifications@)
    &&& r.summary.not_applicable == count_na(r.classifications@)
}

/// Assembles the final report: classifications in report order, summary
/// counts, and the ingestion diagnostics, so the operator can judge
/// completeness. Nothing is discarded.
pub fn assemble(
    facts: HostFacts,
    classifications: Vec<Classification>,
    diagnostics: IngestionDiagnostics,
    scan_time: i64,
) -> (r: ScanReport)
    ensures
        report_correct(r, classifications@),
        r.facts == facts,
        r.scan_time == scan_time,
        r.diagnostics == diagnostics,
{
    let sorted = sort_classifications(classifications);
    let summary = summarize(&sorted);
    ScanReport { facts, scan_time, classifications: sorted, summary, diagnostics }
}

} // verus!
