use vstd::prelude::*;
use crate::models::{
    AffectedRange, HostFacts, PatchEvidence, VulnerabilityRecord, has_str, version_le,
};

verus! {

/// A host falls inside a range when the OS family matches, the architecture
/// filter (if present) matches, and the version triple lies between the
/// bounds (upper bound inclusive, absent means unbounded).
pub open spec fn spec_in_range(f: HostFacts, r: AffectedRange) -> bool {
    &&& f.os_family@ == r.os_family@
    &&& match r.architecture {
        Some(a) => f.architecture@ == a@,
        None => true,
    }
    &&& version_le(r.min_version, f.version)
    &&& match r.max_version {
        Some(hi) => version_le(f.version, hi),
        None => true,
    }
}

/// Decides `spec_in_range` executably.
pub fn in_range(f: &HostFacts, r: &AffectedRange) -> (b: bool)
    ensures
        b == spec_in_range(*f, *r),
{
    if !f.os_family.eq(&r.os_family) {
        return false;
    }
    let arch_ok = match &r.architecture {
        Some(a) => f.architecture.eq(a),
        None => true,
    };
    if !arch_ok {
        return false;
    }
    if !r.min_version.le(&f.version) {
        return false;
    }
    match &r.max_version {
        Some(hi) => f.version.le(hi),
        None => true,
    }
}

/// A record applies to the host when some affected range matches; an empty
/// range set applies only where the feed flagged the record universal.
pub open spec fn spec_applicable(f: HostFacts, rec: VulnerabilityRecord) -> bool {
    if rec.ranges@.len() == 0 {
        rec.universal
    } else {
        exists|i: int| 0 <= i < rec.ranges@.len() && spec_in_range(f, rec.ranges@[i])
    }
}

/// Decides `spec_applicable` executably, short-circuiting on the first
/// matching range.
pub fn applicable(f: &HostFacts, rec: &VulnerabilityRecord) -> (b: bool)
    ensures
        b == spec_applicable(*f, *rec),
{
    if rec.ranges.len() == 0 {
        return rec.universal;
    }
    let mut i: usize = 0;
    while i < rec.ranges.len()
        invariant
            0 <= i <= rec.ranges@.len(),
            forall|k: int| 0 <= k < i ==> !spec_in_range(*f, rec.ranges@[k]),
        decreases rec.ranges@.len() - i,
    {
        if in_range(f, &rec.ranges[i]) {
            return true;
        }
        i = i + 1;
    }
    false
}

/// Some fix identifier of the record is in the installed patch set.
pub open spec fn spec_has_installed_fix(f: HostFacts, rec: VulnerabilityRecord) -> bool {
    exists|i: int| 0 <= i < rec.fix_ids@.len() && has_str(f.installed@, rec.fix_ids@[i]@)
}

/// The host version already meets the record's fixed-in bound.
pub open spec fn spec_version_fixed(f: HostFacts, rec: VulnerabilityRecord) -> bool {
    match rec.fixed_in {
        Some(v) => version_le(v, f.version),
        None => false,
    }
}

/// Evidence that the host is patched against the record, or `None`.
/// Installed-identifier evidence takes precedence over a version bound; the
/// identifier returned is the first fix identifier (in record order) found
/// in the installed set.
pub fn is_patched(f: &HostFacts, rec: &VulnerabilityRecord) -> (r: Option<PatchEvidence>)
    ensures
        r is Some <==> (spec_has_installed_fix(*f, *rec) || spec_version_fixed(*f, *rec)),
        spec_has_installed_fix(*f, *rec) ==> (match r {
            Some(PatchEvidence::InstalledId(id)) => exists|i: int|
                0 <= i < rec.fix_ids@.len() && rec.fix_ids@[i]@ == id@ && has_str(
                    f.installed@,
                    id@,
                ) && (forall|k: int| 0 <= k < i ==> !has_str(f.installed@, rec.fix_ids@[k]@)),
            _ => false,
        }),
        (!spec_has_installed_fix(*f, *rec) && spec_version_fixed(*f, *rec)) ==> r == Some(
            PatchEvidence::VersionBound(rec.fixed_in->Some_0),
        ),
{
    let mut i: usize = 0;
    while i < rec.fix_ids.len()
        invariant
            0 <= i <= rec.fix_ids@.len(),
            forall|k: int| 0 <= k < i ==> !has_str(f.installed@, rec.fix_ids@[k]@),
        decreases rec.fix_ids@.len() - i,
    {
        if crate::models::contains_str(&f.installed, &rec.fix_ids[i]) {
            return Some(PatchEvidence::InstalledId(rec.fix_ids[i].clone()));
        }
        i = i + 1;
    }
    match &rec.fixed_in {
        Some(v) => {
            if v.le(&f.version) {
                Some(PatchEvidence::VersionBound(*v))
            } else {
                None
            }
        },
        None => None,
    }
}

/// Whether some listed identifier is installed does not depend on the
/// order in which the identifiers are listed.
proof fn lemma_installed_fix_reorder(installed: Seq<String>, a: Seq<String>, b: Seq<String>)
    requires
        a.to_multiset() == b.to_multiset(),
    ensures
        (exists|i: int| 0 <= i < a.len() && has_str(installed, a[i]@)) <==> (exists|j: int|
            0 <= j < b.len() && has_str(installed, b[j]@)),
{
    broadcast use vstd::seq_lib::group_to_multiset_ensures;

    if exists|i: int| 0 <= i < a.len() && has_str(installed, a[i]@) {
        let i = choose|i: int| 0 <= i < a.len() && has_str(installed, a[i]@);
        assert(a.contains(a[i]));
        assert(a.to_multiset().count(a[i]) > 0);
        assert(b.to_multiset().count(a[i]) > 0);
        assert(b.contains(a[i]));
        let j = choose|j: int| 0 <= j < b.len() && b[j] == a[i];
        assert(has_str(installed, b[j]@));
    }
    if exists|j: int| 0 <= j < b.len() && has_str(installed, b[j]@) {
        let j = choose|j: int| 0 <= j < b.len() && has_str(installed, b[j]@);
        assert(b.contains(b[j]));
        assert(b.to_multiset().count(b[j]) > 0);
        assert(a.to_multiset().count(b[j]) > 0);
        assert(a.contains(b[j]));
        let i = choose|i: int| 0 <= i < a.len() && a[i] == b[j];
        assert(has_str(installed, a[i]@));
    }
}

/// Being patched through an installed fix identifier is invariant under
/// any reordering (or duplication) of the record's fix identifiers: two
/// records listing the same identifiers agree on it.
pub proof fn lemma_patched_independent_of_fix_order(
    f: HostFacts,
    a: VulnerabilityRecord,
    b: VulnerabilityRecord,
)
    requires
        a.fix_ids@.to_multiset() == b.fix_ids@.to_multiset(),
    ensures
        spec_has_installed_fix(f, a) == spec_has_installed_fix(f, b),
{
    lemma_installed_fix_reorder(f.installed@, a.fix_ids@, b.fix_ids@);
}

} // verus!
