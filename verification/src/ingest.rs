use vstd::prelude::*;
use crate::models::{
    AffectedRange, IngestionDiagnostics, RangeModel, RecordModel, VulnerabilityRecord, ranges_model,
};

verus! {

/// Of two records sharing an identifier, the one with the most recent
/// publication timestamp wins; on a tie the record already held wins.
pub open spec fn spec_winner(a: RecordModel, b: RecordModel) -> RecordModel {
    if b.published > a.published {
        b
    } else {
        a
    }
}

/// The merge of two records sharing an identifier: the winner's fields,
/// except that the affected ranges are the union of both range sets.
pub open spec fn spec_merge(a: RecordModel, b: RecordModel) -> RecordModel {
    RecordModel {
        id: a.id,
        description: spec_winner(a, b).description,
        severity: spec_winner(a, b).severity,
        score_tenths: spec_winner(a, b).score_tenths,
        published: spec_winner(a, b).published,
        ranges: a.ranges.union(b.ranges),
        fix_ids: spec_winner(a, b).fix_ids,
        fixed_in: spec_winner(a, b).fixed_in,
        universal: spec_winner(a, b).universal,
    }
}

/// Merging is commutative: the order in which two pages carrying the same
/// identifier arrive does not change the merged record, as long as their
/// publication times differ.
pub proof fn lemma_merge_commutative(a: RecordModel, b: RecordModel)
    requires
        a.id == b.id,
        a.published != b.published,
    ensures
        spec_merge(a, b) == spec_merge(b, a),
{
    assert(spec_merge(a, b) =~= spec_merge(b, a));
}

/// Merging is associative for records sharing an identifier with pairwise
/// distinct publication times.
pub proof fn lemma_merge_associative(a: RecordModel, b: RecordModel, c: RecordModel)
    requires
        a.id == b.id,
        b.id == c.id,
        a.published != b.published,
        b.published != c.published,
        a.published != c.published,
    ensures
        spec_merge(spec_merge(a, b), c) == spec_merge(a, spec_merge(b, c)),
{
    assert(spec_merge(spec_merge(a, b), c) =~= spec_merge(a, spec_merge(b, c)));
}

/// True iff some range in `v` has the same model as `r`.
pub fn contains_range(v: &Vec<AffectedRange>, r: &AffectedRange) -> (b: bool)
    ensures
        b == exists|i: int| 0 <= i < v@.len() && v@[i].model() == r.model(),
{
    let mut i: usize = 0;
    while i < v.len()
        invariant
            0 <= i <= v@.len(),
            forall|k: int| 0 <= k < i ==> v@[k].model() != r.model(),
        decreases v@.len() - i,
    {
        if v[i].same_range(r) {
            return true;
        }
        i = i + 1;
    }
    false
}

/// Appending a range adds exactly its model to the modelled set.
proof fn lemma_ranges_model_push(rs: Seq<AffectedRange>, r: AffectedRange)
    ensures
        ranges_model(rs.push(r)) =~= ranges_model(rs).insert(r.model()),
{
    assert forall|m: RangeModel| ranges_model(rs.push(r)).contains(m) implies ranges_model(
        rs,
    ).insert(r.model()).contains(m) by {
        let i = choose|i: int| 0 <= i < rs.push(r).len() && rs.push(r)[i].model() == m;
        if i < rs.len() {
            assert(rs[i].model() == m);
            assert(ranges_model(rs).contains(m));
        }
    }
    assert forall|m: RangeModel| ranges_model(rs).insert(r.model()).contains(m) implies ranges_model(
        rs.push(r),
    ).contains(m) by {
        if m == r.model() {
            assert(rs.push(r)[rs.len() as int].model() == m);
        } else {
            let i = choose|i: int| 0 <= i < rs.len() && rs[i].model() == m;
            assert(rs.push(r)[i].model() == m);
        }
    }
}

/// Merges two records sharing an identifier per the union rule.
pub fn merge_pair(a: &VulnerabilityRecord, b: &VulnerabilityRecord) -> (m: VulnerabilityRecord)
    requires
        a.cve_id@ == b.cve_id@,
    ensures
        m.model() == spec_merge(a.model(), b.model()),
        m.cve_id@ == a.cve_id@,
{
    let w = if b.published > a.published {
        b.duplicate()
    } else {
        a.duplicate()
    };
    let mut ranges: Vec<AffectedRange> = Vec::new();
    let mut i: usize = 0;
    while i < a.ranges.len()
        invariant
            0 <= i <= a.ranges@.len(),
            ranges@ =~= a.ranges@.subrange(0, i as int),
        decreases a.ranges@.len() - i,
    {
        ranges.push(a.ranges[i].duplicate());
        i = i + 1;
    }
    proof {
        assert(ranges@ =~= a.ranges@);
    }
    let mut j: usize = 0;
    while j < b.ranges.len()
        invariant
            0 <= j <= b.ranges@.len(),
            ranges_model(ranges@) =~= ranges_model(a.ranges@).union(
                ranges_model(b.ranges@.subrange(0, j as int)),
            ),
        decreases b.ranges@.len() - j,
    {
        let ghost prev = ranges@;
        let present = contains_range(&ranges, &b.ranges[j]);
        if !present {
            ranges.push(b.ranges[j].duplicate());
        }
        proof {
            let m = b.ranges@[j as int].model();
            assert(b.ranges@.subrange(0, j as int + 1) =~= b.ranges@.subrange(0, j as int).push(
                b.ranges@[j as int],
            ));
            lemma_ranges_model_push(b.ranges@.subrange(0, j as int), b.ranges@[j as int]);
            if present {
                assert(ranges_model(ranges@).contains(m));
            } else {
                assert(ranges@ == prev.push(b.ranges@[j as int]));
                lemma_ranges_model_push(prev, b.ranges@[j as int]);
            }
            assert(ranges_model(ranges@) =~= ranges_model(a.ranges@).union(
                ranges_model(b.ranges@.subrange(0, j as int + 1)),
            ));
        }
        j = j + 1;
    }
    proof {
        assert(b.ranges@.subrange(0, b.ranges@.len() as int) =~= b.ranges@);
    }
    let m = VulnerabilityRecord {
        cve_id: a.cve_id.clone(),
        description: w.description,
        severity: w.severity,
        score_tenths: w.score_tenths,
        published: w.published,
        ranges,
        fix_ids: w.fix_ids,
        fixed_in: w.fixed_in,
        universal: w.universal,
    };
    proof {
        assert(m.model() =~= spec_merge(a.model(), b.model()));
    }
    m
}

/// Record identifiers are pairwise distinct.
pub open spec fn rec_ids_distinct(rs: Seq<VulnerabilityRecord>) -> bool {
    forall|i: int, j: int| 0 <= i < j < rs.len() ==> rs[i].cve_id@ != rs[j].cve_id@
}

/// Some record in `rs` carries the identifier `id`.
pub open spec fn rec_has_id(rs: Seq<VulnerabilityRecord>, id: Seq<char>) -> bool {
    exists|i: int| 0 <= i < rs.len() && rs[i].cve_id@ == id
}

/// The index of the record carrying `id`; well defined when identifiers
/// are distinct and the identifier is present.
pub open spec fn rec_idx_of(rs: Seq<VulnerabilityRecord>, id: Seq<char>) -> int {
    choose|i: int| 0 <= i < rs.len() && rs[i].cve_id@ == id
}

/// With distinct identifiers, any index carrying `id` is the index.
pub proof fn lemma_rec_idx_of_unique(rs: Seq<VulnerabilityRecord>, id: Seq<char>, i: int)
    requires
        rec_ids_distinct(rs),
        0 <= i < rs.len(),
        rs[i].cve_id@ == id,
    ensures
        rec_idx_of(rs, id) == i,
{
    assert(rec_has_id(rs, id));
    let j = rec_idx_of(rs, id);
    assert(0 <= j < rs.len() && rs[j].cve_id@ == id);
    if i < j {
        assert(rs[i].cve_id@ != rs[j].cve_id@);
    } else if j < i {
        assert(rs[j].cve_id@ != rs[i].cve_id@);
    }
}

/// The model of the record carrying `id`, where one is present.
pub open spec fn rec_model_of(rs: Seq<VulnerabilityRecord>, id: Seq<char>) -> Option<RecordModel> {
    if rec_has_id(rs, id) {
        Some(rs[rec_idx_of(rs, id)].model())
    } else {
        None
    }
}

/// What the first `k` records of one page fold an identifier's held record
/// into: each well-formed page record carrying the identifier is merged
/// in, in page order; others leave it untouched.
pub open spec fn page_fold(
    st: Option<RecordModel>,
    page: Seq<VulnerabilityRecord>,
    id: Seq<char>,
    k: int,
) -> Option<RecordModel>
    decreases k,
{
    if k <= 0 {
        st
    } else {
        let prev = page_fold(st, page, id, k - 1);
        if page[k - 1].spec_wf() && page[k - 1].cve_id@ == id {
            merge_opt(prev, page[k - 1].model())
        } else {
            prev
        }
    }
}

/// Folds one record into the deduplicated set: merged with the existing
/// record of the same identifier, or appended.
pub fn merge_into(acc: &mut Vec<VulnerabilityRecord>, rec: VulnerabilityRecord)
    requires
        rec_ids_distinct(old(acc)@),
    ensures
        rec_ids_distinct(final(acc)@),
        forall|id: Seq<char>|
            #[trigger] rec_has_id(final(acc)@, id) <==> (rec_has_id(old(acc)@, id) || id
                == rec.cve_id@),
        rec_has_id(old(acc)@, rec.cve_id@) ==> {
            &&& final(acc)@.len() == old(acc)@.len()
            &&& exists|i: int|
                0 <= i < old(acc)@.len() && old(acc)@[i].cve_id@ == rec.cve_id@
                    && final(acc)@[i].model() == spec_merge(old(acc)@[i].model(), rec.model())
                    && (forall|j: int|
                    0 <= j < final(acc)@.len() && j != i ==> final(acc)@[j] == old(acc)@[j])
        },
        !rec_has_id(old(acc)@, rec.cve_id@) ==> final(acc)@ == old(acc)@.push(rec),
{
    let mut i: usize = 0;
    while i < acc.len()
        invariant
            0 <= i <= acc@.len(),
            acc@ == old(acc)@,
            rec_ids_distinct(old(acc)@),
            forall|k: int| 0 <= k < i ==> acc@[k].cve_id@ != rec.cve_id@,
        decreases acc@.len() - i,
    {
        if acc[i].cve_id.eq(&rec.cve_id) {
            let merged = merge_pair(&acc[i], &rec);
            let ghost prev = acc@;
            acc.set(i, merged);
            proof {
                assert(rec_has_id(prev, rec.cve_id@));
                assert(acc@[i as int].cve_id@ == prev[i as int].cve_id@);
                assert(rec_ids_distinct(prev));
                assert forall|p: int, q: int| 0 <= p < q < acc@.len() implies acc@[p].cve_id@
                    != acc@[q].cve_id@ by {
                    assert(0 <= p < q < prev.len());
                    assert(acc@[p].cve_id@ == prev[p].cve_id@);
                    assert(acc@[q].cve_id@ == prev[q].cve_id@);
                }
                assert forall|id: Seq<char>| #[trigger]
                    rec_has_id(acc@, id) implies (rec_has_id(prev, id)
                    || id == rec.cve_id@) by {
                    let k = choose|k: int| 0 <= k < acc@.len() && acc@[k].cve_id@ == id;
                    if k != i {
                        assert(prev[k].cve_id@ == id);
                    }
                }
                assert forall|id: Seq<char>| rec_has_id(prev, id) || id
                    == rec.cve_id@ implies #[trigger] rec_has_id(acc@, id) by {
                    if id == rec.cve_id@ {
                        assert(acc@[i as int].cve_id@ == id);
                    } else {
                        let k = choose|k: int| 0 <= k < prev.len() && prev[k].cve_id@ == id;
                        assert(acc@[k].cve_id@ == id);
                    }
                }
            }
            return ;
        }
        i = i + 1;
    }
    let ghost prev = acc@;
    acc.push(rec);
    proof {
        assert forall|id: Seq<char>| #[trigger]
            rec_has_id(acc@, id) implies (rec_has_id(prev, id) || id == rec.cve_id@) by {
            let k = choose|k: int| 0 <= k < acc@.len() && acc@[k].cve_id@ == id;
            if k < prev.len() {
                assert(prev[k].cve_id@ == id);
            }
        }
        assert forall|id: Seq<char>| rec_has_id(prev, id) || id == rec.cve_id@ implies #[trigger]
            rec_has_id(acc@, id) by {
            if id == rec.cve_id@ {
                assert(acc@[prev.len() as int].cve_id@ == id);
            } else {
                let k = choose|k: int| 0 <= k < prev.len() && prev[k].cve_id@ == id;
                assert(acc@[k].cve_id@ == id);
            }
        }
    }
}

/// Counts the ill-formed records in a page.
pub open spec fn malformed_count(rs: Seq<VulnerabilityRecord>) -> int
    decreases rs.len(),
{
    if rs.len() == 0 {
        0
    } else {
        malformed_count(rs.drop_last()) + if rs.last().spec_wf() {
            0int
        } else {
            1int
        }
    }
}

/// The growing deduplicated record set of one ingestion run, together with
/// its diagnostics.
pub struct IngestAccumulator {
    pub records: Vec<VulnerabilityRecord>,
    pub diagnostics: IngestionDiagnostics,
}

impl IngestAccumulator {
    pub open spec fn wf(self) -> bool {
        rec_ids_distinct(self.records@)
    }

    pub fn new() -> (r: IngestAccumulator)
        ensures
            r.wf(),
            r.records@.len() == 0,
            r.diagnostics.skipped_records == 0,
            r.diagnostics.retries == 0,
            r.diagnostics.failed_sources@.len() == 0,
            r.diagnostics.warnings@.len() == 0,
            !r.diagnostics.truncated,
    {
        IngestAccumulator { records: Vec::new(), diagnostics: IngestionDiagnostics::new() }
    }

    /// Merges one fetched page: well-formed records are folded in under the
    /// union rule; malformed records are skipped and counted, never fatal.
    pub fn add_page(&mut self, page: &Vec<VulnerabilityRecord>)
        requires
            old(self).wf(),
            old(self).diagnostics.skipped_records + page@.len() <= u64::MAX,
        ensures
            final(self).wf(),
            forall|id: Seq<char>|
                #[trigger] rec_has_id(final(self).records@, id) <==> (rec_has_id(
                    old(self).records@,
                    id,
                ) || exists|i: int|
                    0 <= i < page@.len() && page@[i].spec_wf() && page@[i].cve_id@ == id),
            forall|id: Seq<char>|
                #[trigger] rec_has_id(final(self).records@, id) ==> rec_model_of(
                    final(self).records@,
                    id,
                ) == page_fold(
                    rec_model_of(old(self).records@, id),
                    page@,
                    id,
                    page@.len() as int,
                ),
            final(self).diagnostics.skipped_records == old(self).diagnostics.skipped_records
                + malformed_count(page@),
            final(self).diagnostics.retries == old(self).diagnostics.retries,
            final(self).diagnostics.failed_sources@ == old(self).diagnostics.failed_sources@,
            final(self).diagnostics.warnings@ == old(self).diagnostics.warnings@,
            final(self).diagnostics.truncated == old(self).diagnostics.truncated,
    {
        let mut i: usize = 0;
        while i < page.len()
            invariant
                0 <= i <= page@.len(),
                self.wf(),
                forall|id: Seq<char>|
                    #[trigger] rec_has_id(self.records@, id) <==> (rec_has_id(
                        old(self).records@,
                        id,
                    ) || exists|k: int|
                        0 <= k < i && page@[k].spec_wf() && page@[k].cve_id@ == id),
                forall|id: Seq<char>|
                    #[trigger] rec_has_id(self.records@, id) ==> rec_model_of(self.records@, id)
                        == page_fold(
                        rec_model_of(old(self).records@, id),
                        page@,
                        id,
                        i as int,
                    ),
                forall|id: Seq<char>|
                    !(#[trigger] rec_has_id(self.records@, id)) ==> page_fold(
                        rec_model_of(old(self).records@, id),
                        page@,
                        id,
                        i as int,
                    ) is None,
                self.diagnostics.skipped_records == old(self).diagnostics.skipped_records
                    + malformed_count(page@.subrange(0, i as int)),
                self.diagnostics.skipped_records + page@.len() - i <= u64::MAX,
                self.diagnostics.retries == old(self).diagnostics.retries,
                self.diagnostics.failed_sources@ == old(self).diagnostics.failed_sources@,
                self.diagnostics.warnings@ == old(self).diagnostics.warnings@,
                self.diagnostics.truncated == old(self).diagnostics.truncated,
            decreases page@.len() - i,
        {
            proof {
                assert(page@.subrange(0, i as int + 1).drop_last() =~= page@.subrange(0, i as int));
                assert(page@.subrange(0, i as int + 1).last() == page@[i as int]);
            }
            let rec = page[i].duplicate();
            proof {
                assert(rec.spec_wf() == page@[i as int].spec_wf());
                assert(rec.model() == page@[i as int].model());
            }
            let ghost pre = self.records@;
            if rec.is_well_formed() {
                proof {
                    assert(rec.cve_id@ == page@[i as int].cve_id@);
                }
                merge_into(&mut self.records, rec);
                proof {
                    let rid = page@[i as int].cve_id@;
                    assert forall|id: Seq<char>| #[trigger]
                        rec_has_id(self.records@, id) implies rec_model_of(self.records@, id)
                        == page_fold(
                        rec_model_of(old(self).records@, id),
                        page@,
                        id,
                        i as int + 1,
                    ) by {
                        let base = rec_model_of(old(self).records@, id);
                        if id == rid {
                            if rec_has_id(pre, id) {
                                let i0 = choose|i0: int|
                                    0 <= i0 < pre.len() && pre[i0].cve_id@ == rec.cve_id@
                                        && self.records@[i0].model() == spec_merge(
                                        pre[i0].model(),
                                        rec.model(),
                                    ) && (forall|j: int|
                                        0 <= j < self.records@.len() && j != i0
                                            ==> self.records@[j] == pre[j]);
                                lemma_rec_idx_of_unique(pre, id, i0);
                                assert(rec_model_of(pre, id) == Some(pre[i0].model()));
                                assert(self.records@[i0].model().id == id);
                                assert(self.records@[i0].cve_id@ == id);
                                lemma_rec_idx_of_unique(self.records@, id, i0);
                                assert(rec_model_of(self.records@, id) == Some(
                                    self.records@[i0].model(),
                                ));
                                assert(page_fold(base, page@, id, i as int) == Some(
                                    pre[i0].model(),
                                ));
                            } else {
                                assert(self.records@ == pre.push(rec));
                                assert(page_fold(base, page@, id, i as int) is None);
                                assert(self.records@[pre.len() as int].cve_id@ == id);
                                lemma_rec_idx_of_unique(self.records@, id, pre.len() as int);
                                assert(rec_model_of(self.records@, id) == Some(rec.model()));
                            }
                        } else {
                            assert(rec_has_id(pre, id));
                            let k = choose|k: int| 0 <= k < pre.len() && pre[k].cve_id@ == id;
                            lemma_rec_idx_of_unique(pre, id, k);
                            assert(rec_model_of(pre, id) == Some(pre[k].model()));
                            if rec_has_id(pre, rid) {
                                let i0 = choose|i0: int|
                                    0 <= i0 < pre.len() && pre[i0].cve_id@ == rec.cve_id@
                                        && self.records@[i0].model() == spec_merge(
                                        pre[i0].model(),
                                        rec.model(),
                                    ) && (forall|j: int|
                                        0 <= j < self.records@.len() && j != i0
                                            ==> self.records@[j] == pre[j]);
                                assert(k != i0);
                                assert(self.records@[k] == pre[k]);
                            } else {
                                assert(self.records@ == pre.push(rec));
                                assert(self.records@[k] == pre[k]);
                            }
                            lemma_rec_idx_of_unique(self.records@, id, k);
                            assert(rec_model_of(self.records@, id) == Some(
                                self.records@[k].model(),
                            ));
                            assert(page_fold(base, page@, id, i as int + 1) == page_fold(
                                base,
                                page@,
                                id,
                                i as int,
                            ));
                        }
                    }
                    assert forall|id: Seq<char>|
                        !(#[trigger] rec_has_id(self.records@, id)) implies page_fold(
                        rec_model_of(old(self).records@, id),
                        page@,
                        id,
                        i as int + 1,
                    ) is None by {
                        assert(!rec_has_id(pre, id));
                        assert(id != rid) by {
                            if id == rid {
                                assert(rec_has_id(self.records@, id));
                            }
                        }
                        assert(page_fold(
                            rec_model_of(old(self).records@, id),
                            page@,
                            id,
                            i as int + 1,
                        ) == page_fold(rec_model_of(old(self).records@, id), page@, id, i as int));
                    }
                }
            } else {
                self.diagnostics.skipped_records = self.diagnostics.skipped_records + 1;
                proof {
                    assert(!page@[i as int].spec_wf());
                    assert forall|id: Seq<char>| #[trigger]
                        rec_has_id(self.records@, id) implies rec_model_of(self.records@, id)
                        == page_fold(
                        rec_model_of(old(self).records@, id),
                        page@,
                        id,
                        i as int + 1,
                    ) by {
                        assert(page_fold(
                            rec_model_of(old(self).records@, id),
                            page@,
                            id,
                            i as int + 1,
                        ) == page_fold(rec_model_of(old(self).records@, id), page@, id, i as int));
                    }
                    assert forall|id: Seq<char>|
                        !(#[trigger] rec_has_id(self.records@, id)) implies page_fold(
                        rec_model_of(old(self).records@, id),
                        page@,
                        id,
                        i as int + 1,
                    ) is None by {
                        assert(page_fold(
                            rec_model_of(old(self).records@, id),
                            page@,
                            id,
                            i as int + 1,
                        ) == page_fold(rec_model_of(old(self).records@, id), page@, id, i as int));
                    }
                }
            }
            i = i + 1;
        }
        proof {
            assert(page@.subrange(0, page@.len() as int) =~= page@);
        }
    }

    /// Records that a source failed permanently; its siblings go on.
    pub fn note_source_failed(&mut self, source: String)
        requires
            old(self).wf(),
        ensures
            final(self).wf(),
            final(self).records@ == old(self).records@,
            final(self).diagnostics.failed_sources@ == old(self).diagnostics.failed_sources@.push(
                source,
            ),
            final(self).diagnostics.skipped_records == old(self).diagnostics.skipped_records,
            final(self).diagnostics.retries == old(self).diagnostics.retries,
            final(self).diagnostics.warnings@ == old(self).diagnostics.warnings@,
            final(self).diagnostics.truncated == old(self).diagnostics.truncated,
    {
        self.diagnostics.failed_sources.push(source);
    }

    /// Counts one retry after a transient fault.
    pub fn note_retry(&mut self)
        requires
            old(self).wf(),
        ensures
            final(self).wf(),
            final(self).records@ == old(self).records@,
            final(self).diagnostics.retries == (if old(self).diagnostics.retries < u64::MAX {
                old(self).diagnostics.retries + 1
            } else {
                old(self).diagnostics.retries as int
            }),
            final(self).diagnostics.failed_sources@ == old(self).diagnostics.failed_sources@,
            final(self).diagnostics.skipped_records == old(self).diagnostics.skipped_records,
            final(self).diagnostics.warnings@ == old(self).diagnostics.warnings@,
            final(self).diagnostics.truncated == old(self).diagnostics.truncated,
    {
        if self.diagnostics.retries < u64::MAX {
            self.diagnostics.retries = self.diagnostics.retries + 1;
        }
    }

    /// Marks the report as truncated by the overall deadline.
    pub fn note_truncated(&mut self)
        requires
            old(self).wf(),
        ensures
            final(self).wf(),
            final(self).records@ == old(self).records@,
            final(self).diagnostics.truncated,
            final(self).diagnostics.failed_sources@ == old(self).diagnostics.failed_sources@,
            final(self).diagnostics.skipped_records == old(self).diagnostics.skipped_records,
            final(self).diagnostics.retries == old(self).diagnostics.retries,
            final(self).diagnostics.warnings@ == old(self).diagnostics.warnings@,
    {
        self.diagnostics.truncated = true;
    }
}

/// Per-source fetch policy: bounded attempts with exponential backoff
/// capped at a maximum delay.
#[derive(Clone, Copy, PartialEq, Eq, Structural, Debug)]
pub struct RetryPolicy {
    pub max_attempts: u64,
    pub base_delay_ms: u64,
    pub max_delay_ms: u64,
}

/// What one page request came back as: success, a transient fault (network
/// fault, rate limited, server error — retryable), or a permanent fault
/// (other client error or malformed payload — not retried).
#[derive(Clone, Copy, PartialEq, Eq, Structural, Debug)]
pub enum FetchOutcome {
    Success,
    Transient,
    Permanent,
}

/// The per-source fetch task state machine.
#[derive(Clone, Copy, PartialEq, Eq, Structural, Debug)]
pub enum FetchState {
    Pending,
    Retrying(u64),
    Succeeded,
    FailedTransient,
    FailedPermanent,
}

/// How many attempts a state has already consumed.
pub open spec fn attempts_of(s: FetchState) -> int {
    match s {
        FetchState::Retrying(n) => n as int,
        _ => 0,
    }
}

/// The transition relation of the fetch state machine: success and
/// permanent faults are terminal at once; transient faults retry until the
/// attempt budget is exhausted. Terminal states never move.
pub open spec fn spec_fetch_step(p: RetryPolicy, s: FetchState, e: FetchOutcome) -> FetchState {
    match s {
        FetchState::Pending | FetchState::Retrying(_) => match e {
            FetchOutcome::Success => FetchState::Succeeded,
            FetchOutcome::Permanent => FetchState::FailedPermanent,
            FetchOutcome::Transient => if attempts_of(s) + 1 < p.max_attempts {
                FetchState::Retrying((attempts_of(s) + 1) as u64)
            } else {
                FetchState::FailedTransient
            },
        },
        _ => s,
    }
}

/// Advances one fetch task by one observed outcome.
pub fn fetch_step(p: &RetryPolicy, s: &FetchState, e: &FetchOutcome) -> (r: FetchState)
    ensures
        r == spec_fetch_step(*p, *s, *e),
{
    match s {
        FetchState::Pending | FetchState::Retrying(_) => {
            let n: u64 = match s {
                FetchState::Retrying(k) => *k,
                _ => 0,
            };
            match e {
                FetchOutcome::Success => FetchState::Succeeded,
                FetchOutcome::Permanent => FetchState::FailedPermanent,
                FetchOutcome::Transient => {
                    if p.max_attempts > 0 && n < p.max_attempts - 1 {
                        FetchState::Retrying(n + 1)
                    } else {
                        FetchState::FailedTransient
                    }
                },
            }
        },
        FetchState::Succeeded => FetchState::Succeeded,
        FetchState::FailedTransient => FetchState::FailedTransient,
        FetchState::FailedPermanent => FetchState::FailedPermanent,
    }
}

/// The backoff delay before retry attempt `n`: the base delay doubled per
/// attempt, capped at the maximum.
pub open spec fn spec_backoff(base: u64, cap: u64, n: nat) -> int
    decreases n,
{
    if n == 0 {
        if base > cap {
            cap as int
        } else {
            base as int
        }
    } else {
        let p = spec_backoff(base, cap, (n - 1) as nat);
        if p * 2 > cap {
            cap as int
        } else {
            p * 2
        }
    }
}

/// Computes `spec_backoff` executably; the caller adds jitter and sleeps.
pub fn backoff_delay(p: &RetryPolicy, attempt: u64) -> (d: u64)
    ensures
        d as int == spec_backoff(p.base_delay_ms, p.max_delay_ms, attempt as nat),
{
    let cap = p.max_delay_ms;
    let mut d: u64 = if p.base_delay_ms > cap {
        cap
    } else {
        p.base_delay_ms
    };
    let mut k: u64 = 0;
    while k < attempt
        invariant
            0 <= k <= attempt,
            d <= cap,
            d as int == spec_backoff(p.base_delay_ms, cap, k as nat),
        decreases attempt - k,
    {
        if d > cap / 2 {
            d = cap;
        } else {
            d = d * 2;
        }
        k = k + 1;
    }
    d
}

/// Merging one more record into an optional accumulator: the first record
/// of an identifier starts it, later ones fold in under the union rule.
pub open spec fn merge_opt(st: Option<RecordModel>, m: RecordModel) -> Option<RecordModel> {
    match st {
        None => Some(m),
        Some(p) => Some(spec_merge(p, m)),
    }
}

/// Two records sharing an identifier may arrive in either order: folding
/// them into any held state gives the same merged outcome, as long as the
/// publication times involved are pairwise distinct.
pub proof fn lemma_arrival_order_irrelevant(st: Option<RecordModel>, a: RecordModel, b: RecordModel)
    requires
        a.id == b.id,
        a.published != b.published,
        st matches Some(p) ==> p.id == a.id && p.published != a.published && p.published
            != b.published,
    ensures
        merge_opt(merge_opt(st, a), b) == merge_opt(merge_opt(st, b), a),
{
    match st {
        None => {
            lemma_merge_commutative(a, b);
        },
        Some(p) => {
            lemma_merge_associative(p, a, b);
            lemma_merge_associative(p, b, a);
            lemma_merge_commutative(a, b);
        },
    }
}

/// Pagination: the next page is fetched only while the source reports a
/// further page and the configured page bound is not yet reached — the
/// guard against runaway pagination.
pub fn next_page(pages_fetched: u64, max_pages: u64, next_cursor: Option<u64>) -> (r: Option<u64>)
    ensures
        r == (if pages_fetched < max_pages {
            next_cursor
        } else {
            None::<u64>
        }),
{
    if pages_fetched < max_pages {
        next_cursor
    } else {
        None
    }
}

/// The cursor of a paged source after one page: one past the items seen so
/// far, or none once every result has been delivered.
pub fn advance_cursor(start_index: u64, page_len: u64, total: u64) -> (r: Option<u64>)
    ensures
        r == (if start_index + page_len < total {
            Some((start_index + page_len) as u64)
        } else {
            None::<u64>
        }),
{
    if page_len < total && start_index < total - page_len {
        Some(start_index + page_len)
    } else {
        None
    }
}

/// The feed query for a host's product version, as one URL string.
pub fn feed_query_url(windows_version: &String) -> (r: String)
    ensures
        r@ == "https://services.nvd.nist.gov/rest/json/cves/2.0?keywordSearch=Windows "@
            + windows_version@,
{
    let base = String::from_str(
        "https://services.nvd.nist.gov/rest/json/cves/2.0?keywordSearch=Windows ",
    );
    base.concat(windows_version.as_str())
}

/// A scan fails outright only when host facts were unavailable or every
/// configured source failed permanently; this decides the latter.
pub fn every_source_failed(total_sources: u64, failed_sources: u64) -> (b: bool)
    ensures
        b == (total_sources > 0 && failed_sources >= total_sources),
{
    total_sources > 0 && failed_sources >= total_sources
}

} // verus!
