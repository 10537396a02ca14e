use cvepatcher::models::{
    AffectedRange, PatchCandidate, Severity, UpdateCategory, VersionTuple, VulnerabilityRecord,
};
use cvepatcher::catalog::{
    chain_terminates, dedup_candidates, validate_supersession, UpdateChecker,
};
use cvepatcher::ingest::{
    advance_cursor, backoff_delay, contains_range, every_source_failed, feed_query_url, fetch_step,
    merge_pair, next_page, FetchOutcome, FetchState, IngestAccumulator, RetryPolicy,
};

fn range(lo: (u64, u64, u64), hi: Option<(u64, u64, u64)>) -> AffectedRange {
    AffectedRange {
        os_family: "windows".to_string(),
        min_version: VersionTuple::new(lo.0, lo.1, lo.2),
        max_version: hi.map(|h| VersionTuple::new(h.0, h.1, h.2)),
        architecture: None,
    }
}

fn record_at(id: &str, published: i64, ranges: Vec<AffectedRange>) -> VulnerabilityRecord {
    VulnerabilityRecord {
        cve_id: id.to_string(),
        description: format!("record published at {}", published),
        severity: Severity::Medium,
        score_tenths: Some(50),
        published,
        ranges,
        fix_ids: vec![],
        fixed_in: None,
        universal: false,
    }
}

fn candidate(id: &str, released: i64, supersedes: Option<&str>) -> PatchCandidate {
    PatchCandidate {
        id: id.to_string(),
        title: format!("update {}", id),
        released,
        category: UpdateCategory::Security,
        supersedes: supersedes.map(|s| s.to_string()),
    }
}

fn same_range_set(a: &Vec<AffectedRange>, b: &Vec<AffectedRange>) -> bool {
    a.iter().all(|r| contains_range(b, r)) && b.iter().all(|r| contains_range(a, r))
}

#[test]
fn merge_keeps_later_record_and_unions_ranges() {
    let older = record_at("CVE-2021-H", 100, vec![range((10, 0, 0), Some((10, 0, 5)))]);
    let newer = record_at("CVE-2021-H", 200, vec![range((10, 0, 6), None)]);
    let m = merge_pair(&older, &newer);
    assert_eq!(m.published, 200);
    assert_eq!(m.description, newer.description);
    assert_eq!(m.ranges.len(), 2);
    assert!(contains_range(&m.ranges, &older.ranges[0]));
    assert!(contains_range(&m.ranges, &newer.ranges[0]));
}

#[test]
fn merge_is_commutative_for_distinct_timestamps() {
    let a = record_at("CVE-2021-I", 100, vec![range((10, 0, 0), Some((10, 0, 5)))]);
    let b = record_at("CVE-2021-I", 200, vec![range((10, 0, 6), None)]);
    let ab = merge_pair(&a, &b);
    let ba = merge_pair(&b, &a);
    assert_eq!(ab.published, ba.published);
    assert_eq!(ab.description, ba.description);
    assert_eq!(ab.severity, ba.severity);
    assert_eq!(ab.fix_ids, ba.fix_ids);
    assert!(same_range_set(&ab.ranges, &ba.ranges));
}

#[test]
fn merge_is_associative_for_distinct_timestamps() {
    let a = record_at("CVE-2021-J", 100, vec![range((10, 0, 0), Some((10, 0, 1)))]);
    let b = record_at("CVE-2021-J", 300, vec![range((10, 0, 2), Some((10, 0, 3)))]);
    let c = record_at("CVE-2021-J", 200, vec![range((10, 0, 4), None)]);
    let left = merge_pair(&merge_pair(&a, &b), &c);
    let right = merge_pair(&a, &merge_pair(&b, &c));
    assert_eq!(left.published, right.published);
    assert_eq!(left.description, right.description);
    assert!(same_range_set(&left.ranges, &right.ranges));
}

#[test]
fn add_page_deduplicates_and_counts_malformed() {
    let mut acc = IngestAccumulator::new();
    let page1 = vec![
        record_at("CVE-2021-K", 100, vec![range((10, 0, 0), None)]),
        record_at("CVE-2021-L", 100, vec![]),  // malformed: no range, not universal
    ];
    let page2 = vec![record_at("CVE-2021-K", 200, vec![range((9, 0, 0), None)])];
    acc.add_page(&page1);
    acc.add_page(&page2);
    assert_eq!(acc.records.len(), 1);
    assert_eq!(acc.records[0].cve_id, "CVE-2021-K");
    assert_eq!(acc.records[0].published, 200);
    assert_eq!(acc.records[0].ranges.len(), 2);
    assert_eq!(acc.diagnostics.skipped_records, 1);
}

#[test]
fn cycle_is_detected_and_both_links_cleared() {
    let cands = vec![
        candidate("KBA", 100, Some("KBB")),
        candidate("KBB", 200, Some("KBA")),
        candidate("KBC", 300, Some("KBB")),
        candidate("KBD", 400, None),
    ];
    assert!(!chain_terminates(&cands, &"KBA".to_string()));
    assert!(!chain_terminates(&cands, &"KBC".to_string()));
    assert!(chain_terminates(&cands, &"KBD".to_string()));
    let (validated, warnings) = validate_supersession(&cands);
    assert_eq!(validated.len(), 4);
    assert_eq!(validated[0].id, "KBA");
    assert!(validated[0].supersedes.is_none());
    assert!(validated[1].supersedes.is_none());
    assert!(validated[2].supersedes.is_none());
    assert_eq!(validated[3].supersedes, None);
    assert_eq!(warnings, vec!["KBA", "KBB", "KBC"]);
}

#[test]
fn acyclic_chains_are_kept_intact() {
    let cands = vec![
        candidate("KB1", 100, None),
        candidate("KB2", 200, Some("KB1")),
        candidate("KB3", 300, Some("KB2")),
    ];
    let (validated, warnings) = validate_supersession(&cands);
    assert_eq!(warnings.len(), 0);
    assert_eq!(validated[1].supersedes.as_deref(), Some("KB1"));
    assert_eq!(validated[2].supersedes.as_deref(), Some("KB2"));
}

#[test]
fn dedup_keeps_latest_release_per_identifier() {
    let cands = vec![
        candidate("KB1", 100, None),
        candidate("KB1", 300, Some("KB0")),
        candidate("KB1", 200, None),
        candidate("KB2", 50, None),
    ];
    let out = dedup_candidates(&cands);
    assert_eq!(out.len(), 2);
    assert_eq!(out[0].id, "KB1");
    assert_eq!(out[0].released, 300);
    assert_eq!(out[1].id, "KB2");
}

#[test]
fn transient_faults_retry_then_succeed() {
    let policy = RetryPolicy { max_attempts: 5, base_delay_ms: 100, max_delay_ms: 1000 };
    let mut acc = IngestAccumulator::new();
    let mut st = FetchState::Pending;
    for _ in 0..3 {
        st = fetch_step(&policy, &st, &FetchOutcome::Transient);
        acc.note_retry();
        assert!(matches!(st, FetchState::Retrying(_)));
    }
    assert_eq!(st, FetchState::Retrying(3));
    st = fetch_step(&policy, &st, &FetchOutcome::Success);
    assert_eq!(st, FetchState::Succeeded);
    let page = vec![record_at("CVE-2021-M", 100, vec![range((10, 0, 0), None)])];
    acc.add_page(&page);
    assert_eq!(acc.records.len(), 1);
    assert_eq!(acc.diagnostics.retries, 3);
    assert_eq!(acc.diagnostics.failed_sources.len(), 0);
}

#[test]
fn attempt_budget_exhaustion_fails_transiently() {
    let policy = RetryPolicy { max_attempts: 2, base_delay_ms: 100, max_delay_ms: 1000 };
    let st = fetch_step(&policy, &FetchState::Pending, &FetchOutcome::Transient);
    assert_eq!(st, FetchState::Retrying(1));
    let st = fetch_step(&policy, &st, &FetchOutcome::Transient);
    assert_eq!(st, FetchState::FailedTransient);
}

#[test]
fn permanent_fault_fails_at_once_and_terminal_states_hold() {
    let policy = RetryPolicy { max_attempts: 5, base_delay_ms: 100, max_delay_ms: 1000 };
    let st = fetch_step(&policy, &FetchState::Pending, &FetchOutcome::Permanent);
    assert_eq!(st, FetchState::FailedPermanent);
    let st2 = fetch_step(&policy, &st, &FetchOutcome::Success);
    assert_eq!(st2, FetchState::FailedPermanent);
    let st3 = fetch_step(&policy, &FetchState::Succeeded, &FetchOutcome::Transient);
    assert_eq!(st3, FetchState::Succeeded);
}

#[test]
fn backoff_doubles_up_to_the_cap() {
    let policy = RetryPolicy { max_attempts: 10, base_delay_ms: 100, max_delay_ms: 1000 };
    assert_eq!(backoff_delay(&policy, 0), 100);
    assert_eq!(backoff_delay(&policy, 1), 200);
    assert_eq!(backoff_delay(&policy, 2), 400);
    assert_eq!(backoff_delay(&policy, 3), 800);
    assert_eq!(backoff_delay(&policy, 4), 1000);
    assert_eq!(backoff_delay(&policy, 9), 1000);
}

#[test]
fn scan_fails_only_when_every_source_failed() {
    assert!(!every_source_failed(0, 0));
    assert!(!every_source_failed(3, 2));
    assert!(every_source_failed(3, 3));
    assert!(every_source_failed(1, 1));
}

#[test]
fn source_failures_are_recorded_not_fatal() {
    let mut acc = IngestAccumulator::new();
    acc.note_source_failed("feed-a".to_string());
    let page = vec![record_at("CVE-2021-N", 100, vec![range((10, 0, 0), None)])];
    acc.add_page(&page);
    assert_eq!(acc.diagnostics.failed_sources, vec!["feed-a"]);
    assert_eq!(acc.records.len(), 1);
}

#[test]
fn feed_query_url_names_the_product_version() {
    let url = feed_query_url(&"10.0".to_string());
    assert_eq!(
        url,
        "https://services.nvd.nist.gov/rest/json/cves/2.0?keywordSearch=Windows 10.0"
    );
}

#[test]
fn update_checker_maps_candidates_to_update_info() {
    let checker = UpdateChecker::new();
    let mut c = candidate("KB42", 100, None);
    c.category = UpdateCategory::Cumulative;
    let updates = checker.check_updates(&vec![c, candidate("KB43", 200, None)]);
    assert_eq!(updates.len(), 2);
    assert_eq!(updates[0].kb_number, "KB42");
    assert_eq!(updates[0].title, "update KB42");
    assert_eq!(updates[0].update_type, "cumulative");
    assert!(updates[0].installation_date.is_none());
    assert_eq!(updates[1].update_type, "security");
}

#[test]
fn pagination_stops_at_source_end_or_page_bound() {
    assert_eq!(next_page(1, 20, Some(100)), Some(100));
    assert_eq!(next_page(20, 20, Some(100)), None);
    assert_eq!(next_page(3, 20, None), None);
    assert_eq!(advance_cursor(0, 100, 250), Some(100));
    assert_eq!(advance_cursor(100, 100, 250), Some(200));
    assert_eq!(advance_cursor(200, 100, 250), None);
    assert_eq!(advance_cursor(0, 0, 0), None);
}

#[test]
fn arrival_order_of_same_id_pages_does_not_change_the_merge() {
    let held = record_at("CVE-2021-O", 100, vec![range((10, 0, 0), Some((10, 0, 1)))]);
    let a = record_at("CVE-2021-O", 300, vec![range((10, 0, 2), None)]);
    let b = record_at("CVE-2021-O", 200, vec![range((10, 0, 3), Some((10, 0, 4)))]);
    let first = merge_pair(&merge_pair(&held, &a), &b);
    let second = merge_pair(&merge_pair(&held, &b), &a);
    assert_eq!(first.published, second.published);
    assert_eq!(first.description, second.description);
    assert!(same_range_set(&first.ranges, &second.ranges));
}
