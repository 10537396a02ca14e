use vstd::prelude::*;
use crate::models::{
    PatchCandidate, UpdateCategory, UpdateInfo, cand_ids_distinct,
};

verus! {

/// Some candidate in `cs` carries the identifier `id`.
pub open spec fn cand_has_id(cs: Seq<PatchCandidate>, id: Seq<char>) -> bool {
    exists|i: int| 0 <= i < cs.len() && cs[i].id@ == id
}

/// The index of the candidate carrying `id`; well defined when identifiers
/// are distinct and the identifier is present.
pub open spec fn idx_of(cs: Seq<PatchCandidate>, id: Seq<char>) -> int {
    choose|i: int| 0 <= i < cs.len() && cs[i].id@ == id
}

/// With distinct identifiers, any index carrying `id` is the index.
pub proof fn lemma_idx_of_unique(cs: Seq<PatchCandidate>, id: Seq<char>, i: int)
    requires
        cand_ids_distinct(cs),
        0 <= i < cs.len(),
        cs[i].id@ == id,
    ensures
        idx_of(cs, id) == i,
{
    assert(cand_has_id(cs, id));
    let j = idx_of(cs, id);
    assert(0 <= j < cs.len() && cs[j].id@ == id);
    if i < j {
        assert(cs[i].id@ != cs[j].id@);
    } else if j < i {
        assert(cs[j].id@ != cs[i].id@);
    }
}

/// One step along a supersession chain: the supersedes link of the
/// candidate carrying `id`, or `None` where the chain ends.
pub open spec fn step_of(cs: Seq<PatchCandidate>, id: Seq<char>) -> Option<Seq<char>> {
    if cand_has_id(cs, id) {
        match cs[idx_of(cs, id)].supersedes {
            Some(s) => Some(s@),
            None => None,
        }
    } else {
        None
    }
}

/// The chain starting at `id` reaches an end within `fuel` steps. A chain
/// longer than the candidate count must revisit a candidate, so fuel one
/// past the count decides acyclicity.
pub open spec fn terminates_within(cs: Seq<PatchCandidate>, id: Seq<char>, fuel: nat) -> bool
    decreases fuel,
{
    if fuel == 0 {
        false
    } else {
        match step_of(cs, id) {
            None => true,
            Some(next) => terminates_within(cs, next, (fuel - 1) as nat),
        }
    }
}

/// Finds the candidate carrying `id`, if any.
fn find_candidate(cs: &Vec<PatchCandidate>, id: &String) -> (r: Option<usize>)
    ensures
        (r is Some) == cand_has_id(cs@, id@),
        match r {
            Some(i) => 0 <= i < cs@.len() && cs@[i as int].id@ == id@,
            None => true,
        },
{
    let mut i: usize = 0;
    while i < cs.len()
        invariant
            0 <= i <= cs@.len(),
            forall|k: int| 0 <= k < i ==> cs@[k].id@ != id@,
        decreases cs@.len() - i,
    {
        if cs[i].id.eq(id) {
            return Some(i);
        }
        i = i + 1;
    }
    None
}

/// Decides `cand_has_id` executably.
pub fn find_in(cs: &Vec<PatchCandidate>, id: &String) -> (b: bool)
    ensures
        b == cand_has_id(cs@, id@),
{
    let r = find_candidate(cs, id);
    match r {
        Some(_) => true,
        None => false,
    }
}

/// Decides whether the supersession chain starting at `start` terminates,
/// by a bounded walk: no recursion, no infinite loop on cyclic data.
pub fn chain_terminates(cs: &Vec<PatchCandidate>, start: &String) -> (b: bool)
    requires
        cand_ids_distinct(cs@),
        cs@.len() < usize::MAX,
    ensures
        b == terminates_within(cs@, start@, (cs@.len() + 1) as nat),
{
    let mut cur: String = start.clone();
    let mut fuel: usize = cs.len() + 1;
    loop
        invariant
            cand_ids_distinct(cs@),
            fuel <= cs@.len() + 1,
            terminates_within(cs@, start@, (cs@.len() + 1) as nat) == terminates_within(
                cs@,
                cur@,
                fuel as nat,
            ),
        decreases fuel,
    {
        if fuel == 0 {
            return false;
        }
        match find_candidate(cs, &cur) {
            None => {
                return true;
            },
            Some(idx) => {
                proof {
                    lemma_idx_of_unique(cs@, cur@, idx as int);
                }
                match &cs[idx].supersedes {
                    None => {
                        return true;
                    },
                    Some(nxt) => {
                        cur = nxt.clone();
                        fuel = fuel - 1;
                    },
                }
            },
        }
    }
}

/// The identifiers of the candidates among the first `k` whose chains do
/// not terminate, in order.
pub open spec fn cyclic_ids(cs: Seq<PatchCandidate>, k: int) -> Seq<Seq<char>>
    decreases k,
{
    if k <= 0 {
        Seq::empty()
    } else {
        cyclic_ids(cs, k - 1) + if terminates_within(cs, cs[k - 1].id@, (cs.len() + 1) as nat) {
            Seq::empty()
        } else {
            seq![cs[k - 1].id@]
        }
    }
}

/// Validates supersession chains: every candidate is kept; a candidate on a
/// cyclic chain keeps its other fields but has its supersedes link dropped,
/// and its identifier is recorded as a warning.
pub fn validate_supersession(cands: &Vec<PatchCandidate>) -> (r: (
    Vec<PatchCandidate>,
    Vec<String>,
))
    requires
        cand_ids_distinct(cands@),
        cands@.len() < usize::MAX,
    ensures
        r.0@.len() == cands@.len(),
        forall|i: int|
            0 <= i < cands@.len() ==> (if terminates_within(
                cands@,
                cands@[i].id@,
                (cands@.len() + 1) as nat,
            ) {
                r.0@[i] == cands@[i]
            } else {
                &&& r.0@[i].id@ == cands@[i].id@
                &&& r.0@[i].title@ == cands@[i].title@
                &&& r.0@[i].released == cands@[i].released
                &&& r.0@[i].category == cands@[i].category
                &&& r.0@[i].supersedes is None
            }),
        r.1@.map_values(|s: String| s@) == cyclic_ids(cands@, cands@.len() as int),
{
    let mut out: Vec<PatchCandidate> = Vec::new();
    let mut warned: Vec<String> = Vec::new();
    let mut i: usize = 0;
    while i < cands.len()
        invariant
            cand_ids_distinct(cands@),
            cands@.len() < usize::MAX,
            0 <= i <= cands@.len(),
            out@.len() == i,
            forall|k: int|
                0 <= k < i ==> (if terminates_within(
                    cands@,
                    cands@[k].id@,
                    (cands@.len() + 1) as nat,
                ) {
                    out@[k] == cands@[k]
                } else {
                    &&& out@[k].id@ == cands@[k].id@
                    &&& out@[k].title@ == cands@[k].title@
                    &&& out@[k].released == cands@[k].released
                    &&& out@[k].category == cands@[k].category
                    &&& out@[k].supersedes is None
                }),
            warned@.map_values(|s: String| s@) == cyclic_ids(cands@, i as int),
        decreases cands@.len() - i,
    {
        if chain_terminates(cands, &cands[i].id) {
            out.push(cands[i].duplicate());
        } else {
            out.push(
                PatchCandidate {
                    id: cands[i].id.clone(),
                    title: cands[i].title.clone(),
                    released: cands[i].released,
                    category: cands[i].category,
                    supersedes: None,
                },
            );
            warned.push(cands[i].id.clone());
        }
        proof {
            assert(warned@.map_values(|s: String| s@) =~= cyclic_ids(cands@, i as int + 1));
        }
        i = i + 1;
    }
    (out, warned)
}

/// The candidate value `c` occurs among the first `n` input candidates.
pub open spec fn from_input(c: PatchCandidate, cands: Seq<PatchCandidate>, n: int) -> bool {
    exists|j: int| 0 <= j < n && c == cands[j]
}

/// Occurrence within a prefix carries to any longer prefix.
proof fn lemma_from_input_widen(c: PatchCandidate, cands: Seq<PatchCandidate>, n: int, m: int)
    requires
        from_input(c, cands, n),
        n <= m,
    ensures
        from_input(c, cands, m),
{
    let j = choose|j: int| 0 <= j < n && c == cands[j];
    assert(c == cands[j]);
}

/// Deduplicates the catalog by identifier; of two candidates sharing an
/// identifier, the one with the later release timestamp is kept.
pub fn dedup_candidates(cands: &Vec<PatchCandidate>) -> (r: Vec<PatchCandidate>)
    ensures
        cand_ids_distinct(r@),
        forall|id: Seq<char>| #[trigger] cand_has_id(r@, id) <==> cand_has_id(cands@, id),
        forall|i: int|
            0 <= i < r@.len() ==> from_input(#[trigger] r@[i], cands@, cands@.len() as int),
        forall|i: int, j: int|
            0 <= i < r@.len() && 0 <= j < cands@.len() && cands@[j].id@ == r@[i].id@
                ==> cands@[j].released <= r@[i].released,
{
    let mut out: Vec<PatchCandidate> = Vec::new();
    let mut i: usize = 0;
    while i < cands.len()
        invariant
            0 <= i <= cands@.len(),
            cand_ids_distinct(out@),
            forall|id: Seq<char>| #[trigger]
                cand_has_id(out@, id) <==> cand_has_id(cands@.subrange(0, i as int), id),
            forall|k: int|
                0 <= k < out@.len() ==> from_input(#[trigger] out@[k], cands@, i as int),
            forall|k: int, j: int|
                0 <= k < out@.len() && 0 <= j < i && cands@[j].id@ == out@[k].id@
                    ==> cands@[j].released <= out@[k].released,
        decreases cands@.len() - i,
    {
        let ghost prev = out@;
        let ghost ci = cands@[i as int];
        let ghost subi = cands@.subrange(0, i as int);
        let ghost subi1 = cands@.subrange(0, i as int + 1);
        proof {
            assert(subi1 =~= subi.push(ci));
            assert forall|id: Seq<char>|
                cand_has_id(subi1, id) implies (cand_has_id(subi, id) || id == ci.id@) by {
                let m = choose|m: int| 0 <= m < subi1.len() && #[trigger] subi1[m].id@ == id;
                if m < i {
                    assert(subi[m].id@ == id);
                }
            }
            assert forall|id: Seq<char>|
                cand_has_id(subi, id) implies cand_has_id(subi1, id) by {
                let m = choose|m: int| 0 <= m < subi.len() && #[trigger] subi[m].id@ == id;
                assert(subi1[m].id@ == id);
            }
            assert(cand_has_id(subi1, ci.id@)) by {
                assert(subi1[i as int].id@ == ci.id@);
            }
        }
        match find_candidate(&out, &cands[i].id) {
            None => {
                out.push(cands[i].duplicate());
                proof {
                    assert(out@[out@.len() - 1] == ci);
                    assert(!cand_has_id(subi, ci.id@));
                    assert forall|p: int, q: int| 0 <= p < q < out@.len() implies out@[p].id@
                        != out@[q].id@ by {
                        if q < prev.len() {
                            assert(prev[p].id@ != prev[q].id@);
                        } else {
                            assert(out@[p].id@ == prev[p].id@);
                        }
                    }
                    assert forall|id: Seq<char>| #[trigger]
                        cand_has_id(out@, id) implies cand_has_id(subi1, id) by {
                        let k = choose|k: int| 0 <= k < out@.len() && #[trigger] out@[k].id@ == id;
                        if k < prev.len() {
                            assert(cand_has_id(prev, id));
                        } else {
                            assert(id == ci.id@);
                        }
                    }
                    assert forall|id: Seq<char>|
                        cand_has_id(subi1, id) implies #[trigger] cand_has_id(out@, id) by {
                        if id == ci.id@ {
                            assert(out@[out@.len() - 1].id@ == id);
                        } else {
                            assert(cand_has_id(subi, id));
                            assert(cand_has_id(prev, id));
                            let k = choose|k: int|
                                0 <= k < prev.len() && #[trigger] prev[k].id@ == id;
                            assert(out@[k].id@ == id);
                        }
                    }
                    assert forall|p: int|
                        0 <= p < out@.len() implies from_input(
                        #[trigger] out@[p],
                        cands@,
                        i as int + 1,
                    ) by {
                        if p < prev.len() {
                            assert(from_input(prev[p], cands@, i as int));
                            lemma_from_input_widen(prev[p], cands@, i as int, i as int + 1);
                        } else {
                            assert(out@[p] == cands@[i as int]);
                        }
                    }
                    assert forall|p: int, j: int|
                        0 <= p < out@.len() && 0 <= j < i + 1 && cands@[j].id@
                            == out@[p].id@ implies cands@[j].released <= out@[p].released by {
                        if p < prev.len() {
                            if j < i {
                                assert(cands@[j].released <= prev[p].released);
                            } else {
                                assert(prev[p].id@ == ci.id@);
                                assert(cand_has_id(prev, ci.id@));
                            }
                        } else {
                            if j < i {
                                assert(cands@[j].id@ == ci.id@);
                                assert(subi[j].id@ == ci.id@);
                                assert(cand_has_id(subi, ci.id@));
                            }
                        }
                    }
                }
            },
            Some(k) => {
                proof {
                    assert(cand_has_id(prev, ci.id@));
                }
                if cands[i].released > out[k].released {
                    let ghost pk = prev[k as int];
                    out.set(k, cands[i].duplicate());
                    proof {
                        assert(out@[k as int] == ci);
                        assert(pk.id@ == ci.id@);
                        assert forall|p: int, q: int| 0 <= p < q < out@.len() implies out@[p].id@
                            != out@[q].id@ by {
                            assert(prev[p].id@ != prev[q].id@);
                            assert(out@[p].id@ == prev[p].id@ || p == k);
                            assert(out@[q].id@ == prev[q].id@ || q == k);
                        }
                        assert forall|p: int| 0 <= p < out@.len() implies out@[p].id@
                            == prev[p].id@ by {
                            if p != k {
                                assert(out@[p] == prev[p]);
                            }
                        }
                        assert forall|id: Seq<char>| #[trigger]
                            cand_has_id(out@, id) implies cand_has_id(subi1, id) by {
                            let m = choose|m: int|
                                0 <= m < out@.len() && #[trigger] out@[m].id@ == id;
                            assert(prev[m].id@ == id);
                            assert(cand_has_id(prev, id));
                            assert(cand_has_id(subi, id));
                        }
                        assert forall|id: Seq<char>|
                            cand_has_id(subi1, id) implies #[trigger] cand_has_id(out@, id) by {
                            if id == ci.id@ {
                                assert(out@[k as int].id@ == id);
                            } else {
                                assert(cand_has_id(subi, id));
                                assert(cand_has_id(prev, id));
                                let m = choose|m: int|
                                    0 <= m < prev.len() && #[trigger] prev[m].id@ == id;
                                assert(out@[m].id@ == id);
                            }
                        }
                        assert forall|p: int|
                            0 <= p < out@.len() implies from_input(
                            #[trigger] out@[p],
                            cands@,
                            i as int + 1,
                        ) by {
                            if p != k {
                                assert(out@[p] == prev[p]);
                                assert(from_input(prev[p], cands@, i as int));
                                lemma_from_input_widen(prev[p], cands@, i as int, i as int + 1);
                            } else {
                                assert(out@[p] == cands@[i as int]);
                            }
                        }
                        assert forall|p: int, j: int|
                            0 <= p < out@.len() && 0 <= j < i + 1 && cands@[j].id@
                                == out@[p].id@ implies cands@[j].released <= out@[p].released by {
                            if p == k {
                                if j < i {
                                    assert(cands@[j].released <= pk.released);
                                    assert(pk.released <= ci.released);
                                }
                            } else {
                                assert(out@[p] == prev[p]);
                                if j < i {
                                    assert(cands@[j].released <= prev[p].released);
                                } else {
                                    assert(prev[p].id@ == ci.id@);
                                    assert(prev[k as int].id@ == ci.id@);
                                    assert(cand_ids_distinct(prev));
                                }
                            }
                        }
                    }
                } else {
                    proof {
                        assert forall|p: int|
                            0 <= p < out@.len() implies from_input(
                            #[trigger] out@[p],
                            cands@,
                            i as int + 1,
                        ) by {
                            assert(from_input(out@[p], cands@, i as int));
                            lemma_from_input_widen(out@[p], cands@, i as int, i as int + 1);
                        }
                        assert forall|p: int, j: int|
                            0 <= p < out@.len() && 0 <= j < i + 1 && cands@[j].id@
                                == out@[p].id@ implies cands@[j].released <= out@[p].released by {
                            if j == i {
                                assert(out@[p].id@ == ci.id@);
                                assert(out@[k as int].id@ == ci.id@);
                                assert(cand_ids_distinct(out@));
                                if p != k {
                                    assert(out@[p].id@ != out@[k as int].id@);
                                }
                            }
                        }
                    }
                }
            },
        }
        i = i + 1;
    }
    proof {
        assert(cands@.subrange(0, cands@.len() as int) =~= cands@);
        assert forall|p: int|
            0 <= p < out@.len() implies from_input(
            #[trigger] out@[p],
            cands@,
            cands@.len() as int,
        ) by {
            assert(from_input(out@[p], cands@, i as int));
        }
    }
    out
}


/// The display label of an update category.
pub open spec fn category_label(c: UpdateCategory) -> Seq<char> {
    match c {
        UpdateCategory::Security => "security"@,
        UpdateCategory::Cumulative => "cumulative"@,
        UpdateCategory::Driver => "driver"@,
        UpdateCategory::Other => "other"@,
    }
}

/// Renders `category_label` executably.
pub fn category_label_string(c: &UpdateCategory) -> (r: String)
    ensures
        r@ == category_label(*c),
{
    match c {
        UpdateCategory::Security => String::from_str("security"),
        UpdateCategory::Cumulative => String::from_str("cumulative"),
        UpdateCategory::Driver => String::from_str("driver"),
        UpdateCategory::Other => String::from_str("other"),
    }
}

/// Checks for available security updates over an already-fetched catalog.
pub struct UpdateChecker;

impl UpdateChecker {
    pub fn new() -> (r: UpdateChecker)
        ensures
            r == (UpdateChecker {  }),
    {
        UpdateChecker
    }

    /// The pure half of update checking: turns fetched, deduplicated patch
    /// candidates into the update list handed to the presentation layer,
    /// field for field.
    pub fn check_updates(&self, catalog: &Vec<PatchCandidate>) -> (r: Vec<UpdateInfo>)
        ensures
            r@.len() == catalog@.len(),
            forall|i: int|
                0 <= i < catalog@.len() ==> {
                    &&& (#[trigger] r@[i]).kb_number@ == catalog@[i].id@
                    &&& r@[i].title@ == catalog@[i].title@
                    &&& r@[i].update_type@ == category_label(catalog@[i].category)
                    &&& r@[i].installation_date is None
                },
    {
        let mut out: Vec<UpdateInfo> = Vec::new();
        let mut i: usize = 0;
        while i < catalog.len()
            invariant
                0 <= i <= catalog@.len(),
                out@.len() == i,
                forall|k: int|
                    0 <= k < i ==> {
                        &&& (#[trigger] out@[k]).kb_number@ == catalog@[k].id@
                        &&& out@[k].title@ == catalog@[k].title@
                        &&& out@[k].update_type@ == category_label(catalog@[k].category)
                        &&& out@[k].installation_date is None
                    },
            decreases catalog@.len() - i,
        {
            out.push(
                UpdateInfo {
                    kb_number: catalog[i].id.clone(),
                    title: catalog[i].title.clone(),
                    update_type: category_label_string(&catalog[i].category),
                    installation_date: None,
                },
            );
            i = i + 1;
        }
        out
    }
}

} // verus!
