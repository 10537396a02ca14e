use vstd::prelude::*;
use crate::models::{
    Classification, HostFacts, PatchCandidate, PatchEvidence, Status, VulnerabilityRecord,
    cand_id_set, cand_ids_distinct, contains_str, has_str,
};
use crate::matcher::{
    applicable, is_patched, spec_applicable, spec_has_installed_fix, spec_version_fixed,
};
use crate::catalog::{find_in, from_input};
use crate::order::{
    lex_le, lemma_lex_le_total, lemma_lex_le_transitive, str_le,
};

verus! {

/// One widening step of the supersession closure: the ids already chosen,
/// plus the id of every candidate whose supersedes link points into them.
pub open spec fn superseder_step(cands: Seq<PatchCandidate>, ids: Set<Seq<char>>) -> Set<
    Seq<char>,
> {
    ids.union(
        Set::new(
            |x: Seq<char>|
                exists|i: int|
                    0 <= i < cands.len() && (#[trigger] cands[i]).id@ == x && match cands[
                        i
                    ].supersedes {
                        Some(s) => ids.contains(s@),
                        None => false,
                    },
        ),
    )
}

/// The supersession closure after `n` widening steps.
pub open spec fn superseder_closure(
    cands: Seq<PatchCandidate>,
    base: Set<Seq<char>>,
    n: nat,
) -> Set<Seq<char>>
    decreases n,
{
    if n == 0 {
        base
    } else {
        superseder_step(cands, superseder_closure(cands, base, (n - 1) as nat))
    }
}

/// The ids of the candidates named directly by the record's fix ids.
pub open spec fn direct_fix_ids(rec: VulnerabilityRecord, cands: Seq<PatchCandidate>) -> Set<
    Seq<char>,
> {
    Set::new(
        |x: Seq<char>|
            exists|i: int|
                0 <= i < cands.len() && (#[trigger] cands[i]).id@ == x && has_str(rec.fix_ids@, x),
    )
}

/// The remediation set of a record: the directly named fix candidates and
/// every candidate that transitively supersedes one of them. As many
/// widening steps as there are candidates reach the fixed point.
pub open spec fn remediation_ids(rec: VulnerabilityRecord, cands: Seq<PatchCandidate>) -> Set<
    Seq<char>,
> {
    superseder_closure(cands, direct_fix_ids(rec, cands), cands.len())
}

/// Appending a candidate adds exactly its id to the id set.
proof fn lemma_cand_id_set_push(cs: Seq<PatchCandidate>, c: PatchCandidate)
    ensures
        cand_id_set(cs.push(c)) =~= cand_id_set(cs).insert(c.id@),
{
    assert forall|x: Seq<char>| cand_id_set(cs.push(c)).contains(x) implies cand_id_set(
        cs,
    ).insert(c.id@).contains(x) by {
        let i = choose|i: int| 0 <= i < cs.push(c).len() && cs.push(c)[i].id@ == x;
        if i < cs.len() {
            assert(cs[i].id@ == x);
        }
    }
    assert forall|x: Seq<char>| cand_id_set(cs).insert(c.id@).contains(x) implies cand_id_set(
        cs.push(c),
    ).contains(x) by {
        if x == c.id@ {
            assert(cs.push(c)[cs.len() as int].id@ == x);
        } else {
            let i = choose|i: int| 0 <= i < cs.len() && cs[i].id@ == x;
            assert(cs.push(c)[i].id@ == x);
        }
    }
}

/// Newest release first; ties broken by identifier, ascending.
pub open spec fn cand_le(a: PatchCandidate, b: PatchCandidate) -> bool {
    a.released > b.released || (a.released == b.released && lex_le(a.id@, b.id@))
}

/// The sequence is ordered under `cand_le`: newest release first.
pub open spec fn cands_sorted(s: Seq<PatchCandidate>) -> bool {
    forall|i: int, j: int| 0 <= i < j < s.len() ==> cand_le(#[trigger] s[i], #[trigger] s[j])
}

/// Two candidate sequences holding the same multiset hold the same ids.
proof fn lemma_cand_id_set_multiset(a: Seq<PatchCandidate>, b: Seq<PatchCandidate>)
    requires
        a.to_multiset() == b.to_multiset(),
    ensures
        cand_id_set(a) =~= cand_id_set(b),
{
    broadcast use vstd::seq_lib::group_to_multiset_ensures;

    assert forall|x: Seq<char>| cand_id_set(a).contains(x) implies cand_id_set(b).contains(x) by {
        let i = choose|i: int| 0 <= i < a.len() && a[i].id@ == x;
        assert(a.contains(a[i]));
        assert(a.to_multiset().count(a[i]) > 0);
        assert(b.to_multiset().count(a[i]) > 0);
        assert(b.contains(a[i]));
        let j = choose|j: int| 0 <= j < b.len() && b[j] == a[i];
        assert(b[j].id@ == x);
    }
    assert forall|x: Seq<char>| cand_id_set(b).contains(x) implies cand_id_set(a).contains(x) by {
        let i = choose|i: int| 0 <= i < b.len() && b[i].id@ == x;
        assert(b.contains(b[i]));
        assert(b.to_multiset().count(b[i]) > 0);
        assert(a.to_multiset().count(b[i]) > 0);
        assert(a.contains(b[i]));
        let j = choose|j: int| 0 <= j < a.len() && a[j] == b[i];
        assert(a[j].id@ == x);
    }
}

/// `cand_le` orders any two candidates.
pub proof fn lemma_cand_le_total(a: PatchCandidate, b: PatchCandidate)
    ensures
        cand_le(a, b) || cand_le(b, a),
{
    lemma_lex_le_total(a.id@, b.id@);
}

/// `cand_le` is transitive.
pub proof fn lemma_cand_le_transitive(a: PatchCandidate, b: PatchCandidate, c: PatchCandidate)
    ensures
        cand_le(a, b) && cand_le(b, c) ==> cand_le(a, c),
{
    if cand_le(a, b) && cand_le(b, c) && a.released == b.released && b.released == c.released {
        lemma_lex_le_transitive(a.id@, b.id@, c.id@);
    }
}

/// Decides `cand_le` executably.
fn cand_le_exec(a: &PatchCandidate, b: &PatchCandidate) -> (r: bool)
    ensures
        r == cand_le(*a, *b),
{
    if a.released > b.released {
        true
    } else if a.released == b.released {
        str_le(&a.id, &b.id)
    } else {
        false
    }
}

/// Sorts candidates newest release first (ties by identifier ascending) by
/// insertion; keeps the multiset, the elements' provenance, and distinct
/// identifiers.
pub fn sort_candidates(v: &Vec<PatchCandidate>) -> (r: Vec<PatchCandidate>)
    requires
        cand_ids_distinct(v@),
    ensures
        r@.to_multiset() == v@.to_multiset(),
        cands_sorted(r@),
        cand_ids_distinct(r@),
        r@.len() == v@.len(),
        forall|k: int| 0 <= k < r@.len() ==> from_input(#[trigger] r@[k], v@, v@.len() as int),
{
    broadcast use vstd::seq_lib::group_to_multiset_ensures;

    let mut out: Vec<PatchCandidate> = Vec::new();
    let mut i: usize = 0;
    proof {
        assert(v@.subrange(0, 0) =~= Seq::<PatchCandidate>::empty());
        assert(out@.to_multiset() =~= v@.subrange(0, 0).to_multiset());
    }
    while i < v.len()
        invariant
            cand_ids_distinct(v@),
            0 <= i <= v@.len(),
            out@.len() == i,
            out@.to_multiset() == v@.subrange(0, i as int).to_multiset(),
            cands_sorted(out@),
            cand_ids_distinct(out@),
            forall|k: int| 0 <= k < out@.len() ==> from_input(#[trigger] out@[k], v@, i as int),
        decreases v@.len() - i,
    {
        broadcast use vstd::seq_lib::group_to_multiset_ensures;

        let x = v[i].duplicate();
        let ghost prev = out@;
        let mut j: usize = 0;
        while j < out.len() && cand_le_exec(&out[j], &x)
            invariant
                0 <= j <= out@.len(),
                out@ == prev,
                x == v@[i as int],
                forall|k: int| 0 <= k < j ==> cand_le(#[trigger] out@[k], x),
            decreases out@.len() - j,
        {
            j = j + 1;
        }
        proof {
            if j < out@.len() {
                lemma_cand_le_total(out@[j as int], x);
            }
        }
        out.insert(j, x);
        proof {
            assert(out@ == prev.insert(j as int, x));
            vstd::seq_lib::to_multiset_insert(prev, j as int, x);
            assert(v@.subrange(0, i as int + 1) =~= v@.subrange(0, i as int).push(v@[i as int]));
            assert(out@.to_multiset() =~= v@.subrange(0, i as int + 1).to_multiset());
            assert forall|p: int, q: int| 0 <= p < q < out@.len() implies cand_le(
                #[trigger] out@[p],
                #[trigger] out@[q],
            ) by {
                let jj = j as int;
                if q < jj {
                    assert(cand_le(prev[p], prev[q]));
                } else if p < jj && q == jj {
                    assert(cand_le(prev[p], x));
                } else if p < jj && q > jj {
                    assert(cand_le(prev[p], prev[q - 1]));
                } else if p == jj {
                    assert(out@[p] == x);
                    if jj < prev.len() {
                        assert(cand_le(x, prev[jj]));
                        if q > jj + 1 {
                            assert(cand_le(prev[jj], prev[q - 1]));
                            lemma_cand_le_transitive(x, prev[jj], prev[q - 1]);
                        }
                    }
                } else {
                    assert(cand_le(prev[p - 1], prev[q - 1]));
                }
            }
            assert forall|k: int|
                0 <= k < out@.len() implies from_input(#[trigger] out@[k], v@, i as int + 1) by {
                let jj = j as int;
                if k == jj {
                    assert(out@[k] == v@[i as int]);
                } else {
                    let e = if k < jj {
                        prev[k]
                    } else {
                        prev[k - 1]
                    };
                    assert(out@[k] == e);
                    assert(from_input(e, v@, i as int));
                    let w = choose|w: int| 0 <= w < i && e == v@[w];
                    assert(out@[k] == v@[w]);
                }
            }
            assert forall|p: int, q: int| 0 <= p < q < out@.len() implies out@[p].id@
                != out@[q].id@ by {
                let jj = j as int;
                let a = out@[p];
                let b = out@[q];
                if p == jj || q == jj {
                    let e = if p == jj {
                        b
                    } else {
                        a
                    };
                    assert(from_input(e, v@, i as int));
                    let w = choose|w: int| 0 <= w < i && e == v@[w];
                    assert(v@[w].id@ != v@[i as int].id@);
                } else {
                    let pp = if p < jj {
                        p
                    } else {
                        p - 1
                    };
                    let qq = if q < jj {
                        q
                    } else {
                        q - 1
                    };
                    assert(a == prev[pp] && b == prev[qq]);
                    assert(prev[pp].id@ != prev[qq].id@);
                }
            }
        }
        i = i + 1;
    }
    proof {
        assert(v@.subrange(0, v@.len() as int) =~= v@);
    }
    out
}

/// Collects the remediation candidates of an unpatched record: those named
/// by its fix ids and every transitive superseder, newest release first.
pub fn collect_remediation(rec: &VulnerabilityRecord, cands: &Vec<PatchCandidate>) -> (r: Vec<
    PatchCandidate,
>)
    requires
        cand_ids_distinct(cands@),
    ensures
        cand_ids_distinct(r@),
        cand_id_set(r@) == remediation_ids(*rec, cands@),
        cands_sorted(r@),
        forall|k: int|
            0 <= k < r@.len() ==> from_input(#[trigger] r@[k], cands@, cands@.len() as int),
{
    let mut sel: Vec<PatchCandidate> = Vec::new();
    let mut i: usize = 0;
    proof {
        assert(cand_id_set(sel@) =~= Set::<Seq<char>>::empty());
    }
    while i < cands.len()
        invariant
            cand_ids_distinct(cands@),
            0 <= i <= cands@.len(),
            cand_ids_distinct(sel@),
            forall|x: Seq<char>|
                #[trigger] cand_id_set(sel@).contains(x) <==> exists|k: int|
                    0 <= k < i && (#[trigger] cands@[k]).id@ == x && has_str(rec.fix_ids@, x),
            forall|k: int|
                0 <= k < sel@.len() ==> from_input(#[trigger] sel@[k], cands@, i as int),
        decreases cands@.len() - i,
    {
        let ghost prev = sel@;
        if contains_str(&rec.fix_ids, &cands[i].id) {
            sel.push(cands[i].duplicate());
            proof {
                lemma_cand_id_set_push(prev, cands@[i as int]);
                assert forall|p: int, q: int| 0 <= p < q < sel@.len() implies sel@[p].id@
                    != sel@[q].id@ by {
                    if q == sel@.len() - 1 {
                        assert(from_input(prev[p], cands@, i as int));
                        let w = choose|w: int| 0 <= w < i && prev[p] == cands@[w];
                        assert(cands@[w].id@ != cands@[i as int].id@);
                    } else {
                        assert(prev[p].id@ != prev[q].id@);
                    }
                }
            }
        }
        i = i + 1;
    }
    proof {
        assert(cand_id_set(sel@) =~= direct_fix_ids(*rec, cands@));
    }
    let ghost direct = direct_fix_ids(*rec, cands@);
    let mut round: usize = 0;
    while round < cands.len()
        invariant
            cand_ids_distinct(cands@),
            0 <= round <= cands@.len(),
            cand_ids_distinct(sel@),
            cand_id_set(sel@) == superseder_closure(cands@, direct, round as nat),
            forall|k: int|
                0 <= k < sel@.len() ==> from_input(
                    #[trigger] sel@[k],
                    cands@,
                    cands@.len() as int,
                ),
        decreases cands@.len() - round,
    {
        let ghost base = cand_id_set(sel@);
        let mut snapshot: Vec<PatchCandidate> = Vec::new();
        let mut s: usize = 0;
        while s < sel.len()
            invariant
                0 <= s <= sel@.len(),
                snapshot@ =~= sel@.subrange(0, s as int),
            decreases sel@.len() - s,
        {
            snapshot.push(sel[s].duplicate());
            s = s + 1;
        }
        proof {
            assert(snapshot@ =~= sel@);
        }
        let mut j: usize = 0;
        while j < cands.len()
            invariant
                cand_ids_distinct(cands@),
                0 <= j <= cands@.len(),
                cand_ids_distinct(sel@),
                cand_id_set(snapshot@) == base,
                cand_id_set(sel@) =~= base.union(
                    Set::new(
                        |x: Seq<char>|
                            exists|m: int|
                                0 <= m < j && (#[trigger] cands@[m]).id@ == x && match cands@[
                                    m
                                ].supersedes {
                                    Some(s2) => base.contains(s2@),
                                    None => false,
                                },
                    ),
                ),
                forall|k: int|
                    0 <= k < sel@.len() ==> from_input(
                        #[trigger] sel@[k],
                        cands@,
                        cands@.len() as int,
                    ),
            decreases cands@.len() - j,
    {
            let ghost prev = sel@;
            let qualifies: bool = match &cands[j].supersedes {
                Some(s2) => find_in(&snapshot, s2),
                None => false,
            };
            if qualifies {
                if !find_in(&sel, &cands[j].id) {
                    sel.push(cands[j].duplicate());
                    proof {
                        lemma_cand_id_set_push(prev, cands@[j as int]);
                        assert forall|p: int, q: int| 0 <= p < q < sel@.len() implies sel@[p].id@
                            != sel@[q].id@ by {
                            if q == sel@.len() - 1 {
                                assert(cand_id_set(prev).contains(sel@[p].id@)) by {
                                    assert(prev[p].id@ == sel@[p].id@);
                                }
                            } else {
                                assert(prev[p].id@ != prev[q].id@);
                            }
                        }
                    }
                }
            }
            proof {
                assert(cand_id_set(sel@) =~= base.union(
                    Set::new(
                        |x: Seq<char>|
                            exists|m: int|
                                0 <= m < j + 1 && (#[trigger] cands@[m]).id@ == x && match cands@[
                                    m
                                ].supersedes {
                                    Some(s2) => base.contains(s2@),
                                    None => false,
                                },
                    ),
                ));
            }
            j = j + 1;
        }
        proof {
            assert(cand_id_set(sel@) =~= superseder_step(cands@, base));
        }
        round = round + 1;
    }
    let out = sort_candidates(&sel);
    proof {
        lemma_cand_id_set_multiset(out@, sel@);
        assert forall|k: int|
            0 <= k < out@.len() implies from_input(
            #[trigger] out@[k],
            cands@,
            cands@.len() as int,
        ) by {
            assert(from_input(out@[k], sel@, sel@.len() as int));
            let w = choose|w: int| 0 <= w < sel@.len() && out@[k] == sel@[w];
            assert(from_input(sel@[w], cands@, cands@.len() as int));
            let u = choose|u: int| 0 <= u < cands@.len() && sel@[w] == cands@[u];
            assert(out@[k] == cands@[u]);
        }
    }
    out
}

/// Everything the status of one classification must satisfy for the host,
/// record, and candidate set at hand.
#[verifier::opaque]
pub open spec fn status_correct(
    f: HostFacts,
    rec: VulnerabilityRecord,
    cands: Seq<PatchCandidate>,
    st: Status,
) -> bool {
    &&& (st is NotApplicable <==> !spec_applicable(f, rec))
    &&& (st is Patched <==> (spec_applicable(f, rec) && (spec_has_installed_fix(f, rec)
        || spec_version_fixed(f, rec))))
    &&& (match st {
        Status::Patched(PatchEvidence::InstalledId(id)) => {
            &&& spec_has_installed_fix(f, rec)
            &&& has_str(f.installed@, id@)
            &&& exists|i: int| 0 <= i < rec.fix_ids@.len() && rec.fix_ids@[i]@ == id@
        },
        Status::Patched(PatchEvidence::VersionBound(v)) => {
            &&& !spec_has_installed_fix(f, rec)
            &&& spec_version_fixed(f, rec)
            &&& rec.fixed_in == Some(v)
        },
        Status::Unpatched(rem) => {
            &&& cand_ids_distinct(rem@)
            &&& cand_id_set(rem@) == remediation_ids(rec, cands)
            &&& cands_sorted(rem@)
            &&& forall|k: int|
                0 <= k < rem@.len() ==> from_input(#[trigger] rem@[k], cands, cands.len() as int)
        },
        Status::NotApplicable => true,
    })
}

/// The classification `c` answers for record `rec` on this host and
/// candidate set: it carries the record's content and a status correct
/// for it.
#[verifier::opaque]
pub open spec fn answers_for(
    c: Classification,
    f: HostFacts,
    rec: VulnerabilityRecord,
    cands: Seq<PatchCandidate>,
) -> bool {
    &&& c.record.model() == rec.model()
    &&& status_correct(f, rec, cands, c.status)
}

/// Classifies one record against the host: `NotApplicable` where no range
/// matches, `Patched` with its evidence where a fix is in place, otherwise
/// `Unpatched` with the remediation candidates, newest first.
pub fn classify_record(
    f: &HostFacts,
    rec: &VulnerabilityRecord,
    cands: &Vec<PatchCandidate>,
) -> (c: Classification)
    requires
        cand_ids_distinct(cands@),
    ensures
        c.record.model() == rec.model(),
        status_correct(*f, *rec, cands@, c.status),
        answers_for(c, *f, *rec, cands@),
{
    proof {
        reveal(status_correct);
        reveal(answers_for);
    }
    let record = rec.duplicate();
    if !applicable(f, rec) {
        Classification { record, status: Status::NotApplicable }
    } else {
        match is_patched(f, rec) {
            Some(ev) => Classification { record, status: Status::Patched(ev) },
            None => {
                let rem = collect_remediation(rec, cands);
                Classification { record, status: Status::Unpatched(rem) }
            },
        }
    }
}

/// Correlates every record against the host facts and candidate set: one
/// classification per record, in input order; ordering for presentation is
/// re-established by report assembly.
pub fn correlate(
    f: &HostFacts,
    records: &Vec<VulnerabilityRecord>,
    cands: &Vec<PatchCandidate>,
) -> (out: Vec<Classification>)
    requires
        cand_ids_distinct(cands@),
    ensures
        out@.len() == records@.len(),
        forall|i: int|
            0 <= i < records@.len() ==> {
                &&& (#[trigger] out@[i]).record.model() == records@[i].model()
                &&& status_correct(*f, records@[i], cands@, out@[i].status)
                &&& answers_for(out@[i], *f, records@[i], cands@)
            },
{
    let mut out: Vec<Classification> = Vec::new();
    let mut i: usize = 0;
    while i < records.len()
        invariant
            cand_ids_distinct(cands@),
            0 <= i <= records@.len(),
            out@.len() == i,
            forall|k: int|
                0 <= k < i ==> {
                    &&& (#[trigger] out@[k]).record.model() == records@[k].model()
                    &&& status_correct(*f, records@[k], cands@, out@[k].status)
                    &&& answers_for(out@[k], *f, records@[k], cands@)
                },
        decreases records@.len() - i,
    {
        out.push(classify_record(f, &records[i], cands));
        i = i + 1;
    }
    out
}

} // verus!
