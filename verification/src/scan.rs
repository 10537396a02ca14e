use vstd::prelude::*;
use crate::models::{
    Classification, HostFacts, IngestionDiagnostics, PatchCandidate, ScanReport,
    VulnerabilityRecord, cand_ids_distinct,
};
use crate::correlate::{answers_for, correlate};
use crate::report::assemble;

verus! {

/// The classification `c` answers for some of the given records.
pub open spec fn entry_answers(
    c: Classification,
    f: HostFacts,
    records: Seq<VulnerabilityRecord>,
    cands: Seq<PatchCandidate>,
) -> bool {
    exists|j: int| 0 <= j < records.len() && answers_for(c, f, records[j], cands)
}

/// Some classification in `cls` answers for the record `rec`.
pub open spec fn record_answered(
    rec: VulnerabilityRecord,
    f: HostFacts,
    cls: Seq<Classification>,
    cands: Seq<PatchCandidate>,
) -> bool {
    exists|i: int| 0 <= i < cls.len() && answers_for(cls[i], f, rec, cands)
}

/// What a scan report promises about its classifications: one per ingested
/// record in each direction — every classification answers for some record
/// and every record is answered for — each status correct for its record,
/// in report order with correct summary counts.
pub open spec fn scan_report_correct(
    r: ScanReport,
    facts: HostFacts,
    records: Seq<VulnerabilityRecord>,
    candidates: Seq<PatchCandidate>,
) -> bool {
    &&& r.classifications@.len() == records.len()
    &&& forall|i: int|
        0 <= i < r.classifications@.len() ==> entry_answers(
            #[trigger] r.classifications@[i],
            facts,
            records,
            candidates,
        )
    &&& forall|j: int|
        0 <= j < records.len() ==> record_answered(
            #[trigger] records[j],
            facts,
            r.classifications@,
            candidates,
        )
}

/// Lifts correlate's per-index guarantees across the report sort: the
/// sorted sequence answers for every record, and every entry of it answers
/// for some record.
proof fn lemma_classifications_answer(
    facts: HostFacts,
    records: Seq<VulnerabilityRecord>,
    candidates: Seq<PatchCandidate>,
    cls: Seq<Classification>,
    sorted: Seq<Classification>,
)
    requires
        cls.len() == records.len(),
        forall|k: int|
            0 <= k < records.len() ==> answers_for(#[trigger] cls[k], facts, records[k], candidates),
        sorted.to_multiset() == cls.to_multiset(),
    ensures
        forall|i: int|
            0 <= i < sorted.len() ==> entry_answers(#[trigger] sorted[i], facts, records, candidates),
        forall|j: int|
            0 <= j < records.len() ==> record_answered(#[trigger] records[j], facts, sorted, candidates),
{
    broadcast use vstd::seq_lib::group_to_multiset_ensures;

    assert forall|i: int|
        0 <= i < sorted.len() implies entry_answers(
        #[trigger] sorted[i],
        facts,
        records,
        candidates,
    ) by {
        let c = sorted[i];
        assert(sorted.contains(c));
        assert(sorted.to_multiset().count(c) > 0);
        assert(cls.to_multiset().count(c) > 0);
        assert(cls.contains(c));
        let k = choose|k: int| 0 <= k < cls.len() && cls[k] == c;
        assert(answers_for(c, facts, records[k], candidates));
    }
    assert forall|j: int|
        0 <= j < records.len() implies record_answered(
        #[trigger] records[j],
        facts,
        sorted,
        candidates,
    ) by {
        let c = cls[j];
        assert(answers_for(cls[j], facts, records[j], candidates));
        assert(cls.contains(c));
        assert(cls.to_multiset().count(c) > 0);
        assert(sorted.to_multiset().count(c) > 0);
        assert(sorted.contains(c));
        let i = choose|i: int| 0 <= i < sorted.len() && sorted[i] == c;
        assert(answers_for(sorted[i], facts, records[j], candidates));
    }
}

/// The pure half of a scan: correlates already-ingested records and
/// candidates against the host facts and assembles the ordered report.
pub fn run_scan(
    facts: HostFacts,
    records: &Vec<VulnerabilityRecord>,
    candidates: &Vec<PatchCandidate>,
    diagnostics: IngestionDiagnostics,
    scan_time: i64,
) -> (r: ScanReport)
    requires
        cand_ids_distinct(candidates@),
    ensures
        r.facts == facts,
        r.scan_time == scan_time,
        r.diagnostics == diagnostics,
        crate::report::cls_sorted(r.classifications@),
        scan_report_correct(r, facts, records@, candidates@),
{
    let cls = correlate(&facts, records, candidates);
    let ghost cls_view = cls@;
    let report = assemble(facts, cls, diagnostics, scan_time);
    proof {
        lemma_classifications_answer(
            report.facts,
            records@,
            candidates@,
            cls_view,
            report.classifications@,
        );
    }
    report
}

/// Relies on std::time::SystemTime::now and duration_since: the current
/// time as whole seconds since the Unix epoch; a clock set before the
/// epoch or past the representable range reads as 0. The value depends on
/// the clock, so nothing is promised of it.
#[verifier::external_body]
fn unix_time_seconds() -> i64 {
    match std::time::SystemTime::now().duration_since(std::time::UNIX_EPOCH) {
        Ok(d) => i64::try_from(d.as_secs()).unwrap_or(0),
        Err(_) => 0,
    }
}

/// `run_scan`, stamped with the clock's current time.
pub fn run_scan_now(
    facts: HostFacts,
    records: &Vec<VulnerabilityRecord>,
    candidates: &Vec<PatchCandidate>,
    diagnostics: IngestionDiagnostics,
) -> (r: ScanReport)
    requires
        cand_ids_distinct(candidates@),
    ensures
        r.facts == facts,
        r.diagnostics == diagnostics,
        crate::report::cls_sorted(r.classifications@),
        scan_report_correct(r, facts, records@, candidates@),
{
    let t = unix_time_seconds();
    run_scan(facts, records, candidates, diagnostics, t)
}

} // verus!
