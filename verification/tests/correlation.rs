use cvepatcher::models::{
    AffectedRange, HostFacts, PatchCandidate, PatchEvidence, Severity, Status, UpdateCategory,
    VersionTuple, VulnerabilityRecord,
};
use cvepatcher::correlate::{classify_record, collect_remediation, correlate};
use cvepatcher::matcher::{applicable, in_range, is_patched};
use cvepatcher::models::{severity_of_label, IngestionDiagnostics};
use cvepatcher::report::assemble;

fn facts() -> HostFacts {
    HostFacts {
        os_family: "windows".to_string(),
        version: VersionTuple::new(10, 0, 19041),
        architecture: "x86_64".to_string(),
        installed: vec!["KB5001".to_string()],
    }
}

fn range(lo: (u64, u64, u64), hi: Option<(u64, u64, u64)>) -> AffectedRange {
    AffectedRange {
        os_family: "windows".to_string(),
        min_version: VersionTuple::new(lo.0, lo.1, lo.2),
        max_version: hi.map(|h| VersionTuple::new(h.0, h.1, h.2)),
        architecture: None,
    }
}

fn record(id: &str, ranges: Vec<AffectedRange>, fix_ids: Vec<&str>) -> VulnerabilityRecord {
    VulnerabilityRecord {
        cve_id: id.to_string(),
        description: "a vulnerability".to_string(),
        severity: Severity::High,
        score_tenths: Some(75),
        published: 1_600_000_000,
        ranges,
        fix_ids: fix_ids.into_iter().map(|s| s.to_string()).collect(),
        fixed_in: None,
        universal: false,
    }
}

fn candidate(id: &str, released: i64, supersedes: Option<&str>) -> PatchCandidate {
    PatchCandidate {
        id: id.to_string(),
        title: format!("update {}", id),
        released,
        category: UpdateCategory::Security,
        supersedes: supersedes.map(|s| s.to_string()),
    }
}

#[test]
fn version_triple_order_is_lexicographic() {
    let a = VersionTuple::new(10, 0, 19041);
    assert!(VersionTuple::new(9, 9, 99999).le(&a));
    assert!(VersionTuple::new(10, 0, 19041).le(&a));
    assert!(!VersionTuple::new(10, 0, 19042).le(&a));
    assert!(!VersionTuple::new(10, 1, 0).le(&a));
}

#[test]
fn in_range_checks_family_arch_and_bounds() {
    let f = facts();
    assert!(in_range(&f, &range((10, 0, 0), Some((10, 0, 19043)))));
    assert!(!in_range(&f, &range((10, 0, 19042), None)));
    let mut r = range((10, 0, 0), None);
    r.os_family = "linux".to_string();
    assert!(!in_range(&f, &r));
    let mut r2 = range((10, 0, 0), None);
    r2.architecture = Some("arm64".to_string());
    assert!(!in_range(&f, &r2));
    let mut r3 = range((10, 0, 0), None);
    r3.architecture = Some("x86_64".to_string());
    assert!(in_range(&f, &r3));
}

#[test]
fn no_matching_range_is_never_patched_or_unpatched() {
    let f = facts();
    let rec = record("CVE-2021-A", vec![range((11, 0, 0), None)], vec!["KB5001"]);
    assert!(!applicable(&f, &rec));
    let c = classify_record(&f, &rec, &vec![]);
    assert!(matches!(c.status, Status::NotApplicable));
}

#[test]
fn empty_range_set_applies_only_when_flagged_universal() {
    let f = facts();
    let mut rec = record("CVE-2021-U", vec![], vec![]);
    assert!(!applicable(&f, &rec));
    rec.universal = true;
    assert!(applicable(&f, &rec));
}

#[test]
fn installed_fix_takes_precedence_over_version_bound() {
    let f = facts();
    let mut rec = record(
        "CVE-2021-B",
        vec![range((10, 0, 0), Some((10, 0, 19043)))],
        vec!["KB5001"],
    );
    rec.fixed_in = Some(VersionTuple::new(10, 0, 19000));
    match is_patched(&f, &rec) {
        Some(PatchEvidence::InstalledId(id)) => assert_eq!(id, "KB5001"),
        other => panic!("expected installed-id evidence, got {:?}", other.is_some()),
    }
}

#[test]
fn patched_status_survives_fix_id_reordering() {
    let f = facts();
    let rec1 = record(
        "CVE-2021-C",
        vec![range((10, 0, 0), Some((10, 0, 19043)))],
        vec!["KB9998", "KB5001", "KB7777"],
    );
    let rec2 = record(
        "CVE-2021-C",
        vec![range((10, 0, 0), Some((10, 0, 19043)))],
        vec!["KB5001", "KB7777", "KB9998"],
    );
    let c1 = classify_record(&f, &rec1, &vec![]);
    let c2 = classify_record(&f, &rec2, &vec![]);
    assert!(matches!(c1.status, Status::Patched(PatchEvidence::InstalledId(_))));
    assert!(matches!(c2.status, Status::Patched(PatchEvidence::InstalledId(_))));
}

#[test]
fn version_bound_evidence_when_no_id_matches() {
    let f = facts();
    let mut rec = record(
        "CVE-2021-D",
        vec![range((10, 0, 0), Some((10, 0, 19043)))],
        vec!["KB9999"],
    );
    rec.fixed_in = Some(VersionTuple::new(10, 0, 19000));
    match is_patched(&f, &rec) {
        Some(PatchEvidence::VersionBound(v)) => {
            assert_eq!(v.build, 19000);
        },
        _ => panic!("expected version-bound evidence"),
    }
}

#[test]
fn scenario_installed_fix_yields_patched() {
    let f = facts();
    let rec = record(
        "CVE-2021-X",
        vec![range((10, 0, 0), Some((10, 0, 19043)))],
        vec!["KB5001"],
    );
    let c = classify_record(&f, &rec, &vec![]);
    match &c.status {
        Status::Patched(PatchEvidence::InstalledId(id)) => assert_eq!(id, "KB5001"),
        _ => panic!("expected patched with installed id"),
    }
}

#[test]
fn scenario_missing_fix_yields_unpatched_with_remediation() {
    let f = facts();
    let rec = record(
        "CVE-2021-Y",
        vec![range((10, 0, 0), Some((10, 0, 19043)))],
        vec!["KB9999"],
    );
    let cands = vec![candidate("KB9999", 1_700_000_000, None)];
    let c = classify_record(&f, &rec, &cands);
    match &c.status {
        Status::Unpatched(rem) => {
            assert_eq!(rem.len(), 1);
            assert_eq!(rem[0].id, "KB9999");
        },
        _ => panic!("expected unpatched"),
    }
}

#[test]
fn remediation_surfaces_superseding_candidate_first() {
    let rec = record("CVE-2021-E", vec![range((10, 0, 0), None)], vec!["KB1000"]);
    let cands = vec![
        candidate("KB1000", 1_600_000_000, None),
        candidate("KB2000", 1_650_000_000, Some("KB1000")),
        candidate("KB3000", 1_700_000_000, Some("KB2000")),
        candidate("KB4000", 1_800_000_000, None),
    ];
    let rem = collect_remediation(&rec, &cands);
    let ids: Vec<&str> = rem.iter().map(|c| c.id.as_str()).collect();
    assert_eq!(ids, vec!["KB3000", "KB2000", "KB1000"]);
}

#[test]
fn unfixed_vulnerability_has_empty_remediation() {
    let f = facts();
    let rec = record("CVE-2021-F", vec![range((10, 0, 0), None)], vec![]);
    let cands = vec![candidate("KB1000", 1_600_000_000, None)];
    let c = classify_record(&f, &rec, &cands);
    match &c.status {
        Status::Unpatched(rem) => assert_eq!(rem.len(), 0),
        _ => panic!("expected unpatched with empty remediation"),
    }
}

#[test]
fn correlate_yields_one_classification_per_record() {
    let f = facts();
    let records = vec![
        record("CVE-2021-X", vec![range((10, 0, 0), Some((10, 0, 19043)))], vec!["KB5001"]),
        record("CVE-2021-Y", vec![range((10, 0, 0), Some((10, 0, 19043)))], vec!["KB9999"]),
        record("CVE-2021-Z", vec![range((11, 0, 0), None)], vec![]),
    ];
    let cands = vec![candidate("KB9999", 1_700_000_000, None)];
    let out = correlate(&f, &records, &cands);
    assert_eq!(out.len(), 3);
    assert!(matches!(out[0].status, Status::Patched(_)));
    assert!(matches!(out[1].status, Status::Unpatched(_)));
    assert!(matches!(out[2].status, Status::NotApplicable));
}

#[test]
fn family_mismatch_is_excluded_from_severity_summary() {
    let f = facts();
    let mut r = range((10, 0, 0), None);
    r.os_family = "linux".to_string();
    let rec = record("CVE-2021-G", vec![r], vec![]);
    let out = correlate(&f, &vec![rec], &vec![]);
    assert!(matches!(out[0].status, Status::NotApplicable));
    let report = assemble(facts(), out, IngestionDiagnostics::new(), 1_800_000_000);
    assert_eq!(report.summary.high, 0);
    assert_eq!(report.summary.critical, 0);
    assert_eq!(report.summary.medium, 0);
    assert_eq!(report.summary.low, 0);
    assert_eq!(report.summary.unknown, 0);
    assert_eq!(report.summary.not_applicable, 1);
    assert_eq!(report.classifications.len(), 1);
}

#[test]
fn report_order_is_severity_then_score_then_id() {
    let f = facts();
    let mut low = record("CVE-2021-L", vec![range((10, 0, 0), None)], vec![]);
    low.severity = Severity::Low;
    let mut crit_low_score = record("CVE-2021-N", vec![range((10, 0, 0), None)], vec![]);
    crit_low_score.severity = Severity::Critical;
    crit_low_score.score_tenths = Some(80);
    let mut crit_hi_score = record("CVE-2021-M", vec![range((10, 0, 0), None)], vec![]);
    crit_hi_score.severity = Severity::Critical;
    crit_hi_score.score_tenths = Some(98);
    let mut crit_tie_a = record("CVE-2021-AA", vec![range((10, 0, 0), None)], vec![]);
    crit_tie_a.severity = Severity::Critical;
    crit_tie_a.score_tenths = Some(80);
    let records = vec![low, crit_low_score, crit_hi_score, crit_tie_a];
    let out = correlate(&f, &records, &vec![]);
    let report = assemble(facts(), out, IngestionDiagnostics::new(), 0);
    let ids: Vec<&str> = report.classifications.iter().map(|c| c.record.cve_id.as_str()).collect();
    assert_eq!(ids, vec!["CVE-2021-M", "CVE-2021-AA", "CVE-2021-N", "CVE-2021-L"]);
}

#[test]
fn assemble_is_deterministic_under_input_permutation() {
    let f = facts();
    let mk = || {
        vec![
            record("CVE-2021-X", vec![range((10, 0, 0), Some((10, 0, 19043)))], vec!["KB5001"]),
            record("CVE-2021-Y", vec![range((10, 0, 0), Some((10, 0, 19043)))], vec!["KB9999"]),
            record("CVE-2021-Z", vec![range((11, 0, 0), None)], vec![]),
        ]
    };
    let out1 = correlate(&f, &mk(), &vec![]);
    let mut records2 = mk();
    records2.reverse();
    let out2 = correlate(&f, &records2, &vec![]);
    let r1 = assemble(facts(), out1, IngestionDiagnostics::new(), 5);
    let r2 = assemble(facts(), out2, IngestionDiagnostics::new(), 5);
    assert_eq!(r1.classifications.len(), r2.classifications.len());
    for (a, b) in r1.classifications.iter().zip(r2.classifications.iter()) {
        assert_eq!(a.record.cve_id, b.record.cve_id);
        assert_eq!(
            std::mem::discriminant(&a.status),
            std::mem::discriminant(&b.status)
        );
    }
}

#[test]
fn severity_labels_map_to_tiers() {
    assert_eq!(severity_of_label(&"critical".to_string()), Severity::Critical);
    assert_eq!(severity_of_label(&"high".to_string()), Severity::High);
    assert_eq!(severity_of_label(&"medium".to_string()), Severity::Medium);
    assert_eq!(severity_of_label(&"low".to_string()), Severity::Low);
    assert_eq!(severity_of_label(&"moderate".to_string()), Severity::Unknown);
    assert_eq!(severity_of_label(&"".to_string()), Severity::Unknown);
}
