use vstd::prelude::*;

verus! {

/// An operating-system version as an ordered (major, minor, build) triple.
#[derive(Clone, Copy, PartialEq, Eq, Structural, Debug)]
pub struct VersionTuple {
    pub major: u64,
    pub minor: u64,
    pub build: u64,
}

/// Lexicographic order on version triples: major decides first, then minor,
/// then build.
pub open spec fn version_le(a: VersionTuple, b: VersionTuple) -> bool {
    if a.major != b.major {
        a.major < b.major
    } else if a.minor != b.minor {
        a.minor < b.minor
    } else {
        a.build <= b.build
    }
}

impl VersionTuple {
    pub fn new(major: u64, minor: u64, build: u64) -> (r: VersionTuple)
        ensures
            r.major == major,
            r.minor == minor,
            r.build == build,
    {
        VersionTuple { major, minor, build }
    }

    /// Decides `version_le` executably.
    pub fn le(&self, other: &VersionTuple) -> (r: bool)
        ensures
            r == version_le(*self, *other),
    {
        if self.major != other.major {
            self.major < other.major
        } else if self.minor != other.minor {
            self.minor < other.minor
        } else {
            self.build <= other.build
        }
    }
}

/// Severity tier of a vulnerability, ordered Critical > High > Medium > Low >
/// Unknown.
#[derive(Clone, Copy, PartialEq, Eq, Structural, Debug)]
pub enum Severity {
    Critical,
    High,
    Medium,
    Low,
    Unknown,
}

/// Numeric rank of a severity tier; a higher rank means a more severe tier.
pub open spec fn severity_rank(s: Severity) -> int {
    match s {
        Severity::Critical => 4,
        Severity::High => 3,
        Severity::Medium => 2,
        Severity::Low => 1,
        Severity::Unknown => 0,
    }
}

impl Severity {
    /// Decides `severity_rank` executably.
    pub fn rank(&self) -> (r: u64)
        ensures
            r as int == severity_rank(*self),
    {
        match self {
            Severity::Critical => 4,
            Severity::High => 3,
            Severity::Medium => 2,
            Severity::Low => 1,
            Severity::Unknown => 0,
        }
    }
}

/// The severity tier named by a feed label; an unrecognized label reads as
/// Unknown.
pub open spec fn spec_severity_of_label(s: Seq<char>) -> Severity {
    if s == "critical"@ {
        Severity::Critical
    } else if s == "high"@ {
        Severity::High
    } else if s == "medium"@ {
        Severity::Medium
    } else if s == "low"@ {
        Severity::Low
    } else {
        Severity::Unknown
    }
}

/// Decides `spec_severity_of_label` executably.
pub fn severity_of_label(label: &String) -> (s: Severity)
    ensures
        s == spec_severity_of_label(label@),
{
    if label.eq(&String::from_str("critical")) {
        Severity::Critical
    } else if label.eq(&String::from_str("high")) {
        Severity::High
    } else if label.eq(&String::from_str("medium")) {
        Severity::Medium
    } else if label.eq(&String::from_str("low")) {
        Severity::Low
    } else {
        Severity::Unknown
    }
}

/// Category of a vendor update.
#[derive(Clone, Copy, PartialEq, Eq, Structural, Debug)]
pub enum UpdateCategory {
    Security,
    Cumulative,
    Driver,
    Other,
}

/// True iff some element of `v` has the character sequence `s` as its view.
pub open spec fn has_str(v: Seq<String>, s: Seq<char>) -> bool {
    exists|i: int| 0 <= i < v.len() && v[i]@ == s
}

/// Decides `has_str` executably.
pub fn contains_str(v: &Vec<String>, s: &String) -> (b: bool)
    ensures
        b == has_str(v@, s@),
{
    let mut i: usize = 0;
    while i < v.len()
        invariant
            0 <= i <= v@.len(),
            forall|k: int| 0 <= k < i ==> v@[k]@ != s@,
        decreases v@.len() - i,
    {
        if v[i].eq(s) {
            return true;
        }
        i = i + 1;
    }
    false
}

/// The host's fact set: one immutable snapshot per scan.
pub struct HostFacts {
    pub os_family: String,
    pub version: VersionTuple,
    pub architecture: String,
    /// Installed patch identifiers; a set, so order carries no meaning.
    pub installed: Vec<String>,
}

/// Raw system information as an OS-facts collaborator reports it.
#[derive(Debug)]
pub struct SystemInfo {
    pub windows_version: String,
    pub build_number: String,
    pub architecture: String,
    pub installed_updates: Vec<String>,
}

/// Mathematical model of an affected range, over character sequences.
#[verifier::ext_equal]
pub ghost struct RangeModel {
    pub family: Seq<char>,
    pub lo: VersionTuple,
    pub hi: Option<VersionTuple>,
    pub arch: Option<Seq<char>>,
}

/// A version interval within which a vulnerability applies: OS family,
/// inclusive lower bound, optional inclusive upper bound, optional
/// architecture filter.
pub struct AffectedRange {
    pub os_family: String,
    pub min_version: VersionTuple,
    pub max_version: Option<VersionTuple>,
    pub architecture: Option<String>,
}

impl AffectedRange {
    pub open spec fn model(self) -> RangeModel {
        RangeModel {
            family: self.os_family@,
            lo: self.min_version,
            hi: self.max_version,
            arch: match self.architecture {
                Some(a) => Some(a@),
                None => None,
            },
        }
    }

    /// Field-by-field copy; `String::clone` keeps the value, so the copy
    /// equals the original.
    pub fn duplicate(&self) -> (r: AffectedRange)
        ensures
            r == *self,
    {
        AffectedRange {
            os_family: self.os_family.clone(),
            min_version: self.min_version,
            max_version: self.max_version,
            architecture: match &self.architecture {
                Some(a) => Some(a.clone()),
                None => None,
            },
        }
    }

    /// Decides model equality executably.
    pub fn same_range(&self, other: &AffectedRange) -> (b: bool)
        ensures
            b == (self.model() == other.model()),
    {
        let families = self.os_family == other.os_family;
        let lows = self.min_version == other.min_version;
        let highs = match (&self.max_version, &other.max_version) {
            (Some(a), Some(b)) => *a == *b,
            (None, None) => true,
            _ => false,
        };
        let archs = match (&self.architecture, &other.architecture) {
            (Some(a), Some(b)) => *a == *b,
            (None, None) => true,
            _ => false,
        };
        let r = families && lows && highs && archs;
        proof {
            if r {
                assert(self.model() =~= other.model());
            }
        }
        r
    }
}

/// The set of range models named by a sequence of ranges.
pub open spec fn ranges_model(rs: Seq<AffectedRange>) -> Set<RangeModel> {
    Set::new(|m: RangeModel| exists|i: int| 0 <= i < rs.len() && rs[i].model() == m)
}

/// Mathematical model of a vulnerability record.
#[verifier::ext_equal]
pub ghost struct RecordModel {
    pub id: Seq<char>,
    pub description: Seq<char>,
    pub severity: Severity,
    pub score_tenths: Option<u64>,
    pub published: i64,
    pub ranges: Set<RangeModel>,
    pub fix_ids: Seq<String>,
    pub fixed_in: Option<VersionTuple>,
    pub universal: bool,
}

/// One normalized vulnerability record from the feed.
pub struct VulnerabilityRecord {
    /// Globally unique identifier, e.g. a CVE id.
    pub cve_id: String,
    pub description: String,
    pub severity: Severity,
    /// Numeric score in tenths (0 to 100 stands for 0.0 to 10.0).
    pub score_tenths: Option<u64>,
    /// Publication time in seconds since the Unix epoch.
    pub published: i64,
    pub ranges: Vec<AffectedRange>,
    /// Patch identifiers known to remediate this record.
    pub fix_ids: Vec<String>,
    /// A fixed-in version bound, where the feed encodes one instead of a
    /// discrete fix identifier.
    pub fixed_in: Option<VersionTuple>,
    /// Set only when the feed explicitly flags the record as applying
    /// universally; only then may the range set be empty.
    pub universal: bool,
}

impl VulnerabilityRecord {
    pub open spec fn model(self) -> RecordModel {
        RecordModel {
            id: self.cve_id@,
            description: self.description@,
            severity: self.severity,
            score_tenths: self.score_tenths,
            published: self.published,
            ranges: ranges_model(self.ranges@),
            fix_ids: self.fix_ids@,
            fixed_in: self.fixed_in,
            universal: self.universal,
        }
    }

    /// A record is well formed when its score stays within 0.0 to 10.0 and
    /// it either names an affected range or is flagged universal.
    pub open spec fn spec_wf(self) -> bool {
        &&& match self.score_tenths {
            Some(s) => s <= 100,
            None => true,
        }
        &&& (self.ranges@.len() > 0 || self.universal)
    }

    /// Decides `spec_wf` executably; ill-formed records are skipped and
    /// counted during ingestion, never fatal to a page.
    pub fn is_well_formed(&self) -> (b: bool)
        ensures
            b == self.spec_wf(),
    {
        let score_ok = match &self.score_tenths {
            Some(s) => *s <= 100,
            None => true,
        };
        score_ok && (self.ranges.len() > 0 || self.universal)
    }

    /// Field-by-field copy; every field keeps its value (the `Vec` fields
    /// keep their views).
    pub fn duplicate(&self) -> (r: VulnerabilityRecord)
        ensures
            r.cve_id == self.cve_id,
            r.description == self.description,
            r.severity == self.severity,
            r.score_tenths == self.score_tenths,
            r.published == self.published,
            r.ranges@ == self.ranges@,
            r.fix_ids@ == self.fix_ids@,
            r.fixed_in == self.fixed_in,
            r.universal == self.universal,
            r.model() == self.model(),
    {
        let mut ranges: Vec<AffectedRange> = Vec::new();
        let mut i: usize = 0;
        while i < self.ranges.len()
            invariant
                0 <= i <= self.ranges@.len(),
                ranges@ =~= self.ranges@.subrange(0, i as int),
            decreases self.ranges@.len() - i,
        {
            ranges.push(self.ranges[i].duplicate());
            i = i + 1;
        }
        let mut fix_ids: Vec<String> = Vec::new();
        let mut j: usize = 0;
        while j < self.fix_ids.len()
            invariant
                0 <= j <= self.fix_ids@.len(),
                fix_ids@ =~= self.fix_ids@.subrange(0, j as int),
            decreases self.fix_ids@.len() - j,
        {
            fix_ids.push(self.fix_ids[j].clone());
            j = j + 1;
        }
        proof {
            assert(ranges@ =~= self.ranges@);
            assert(fix_ids@ =~= self.fix_ids@);
        }
        VulnerabilityRecord {
            cve_id: self.cve_id.clone(),
            description: self.description.clone(),
            severity: self.severity,
            score_tenths: self.score_tenths,
            published: self.published,
            ranges,
            fix_ids,
            fixed_in: self.fixed_in,
            universal: self.universal,
        }
    }
}

/// One vendor update candidate from the patch catalog.
pub struct PatchCandidate {
    pub id: String,
    pub title: String,
    /// Release time in seconds since the Unix epoch.
    pub released: i64,
    pub category: UpdateCategory,
    /// The identifier of the candidate this one supersedes, if any.
    pub supersedes: Option<String>,
}

impl PatchCandidate {
    /// Field-by-field copy equal to the original.
    pub fn duplicate(&self) -> (r: PatchCandidate)
        ensures
            r == *self,
    {
        PatchCandidate {
            id: self.id.clone(),
            title: self.title.clone(),
            released: self.released,
            category: self.category,
            supersedes: match &self.supersedes {
                Some(s) => Some(s.clone()),
                None => None,
            },
        }
    }
}

/// The identifiers of a candidate sequence, as a set of character sequences.
pub open spec fn cand_id_set(cs: Seq<PatchCandidate>) -> Set<Seq<char>> {
    Set::new(|x: Seq<char>| exists|i: int| 0 <= i < cs.len() && cs[i].id@ == x)
}

/// Candidate identifiers are pairwise distinct.
pub open spec fn cand_ids_distinct(cs: Seq<PatchCandidate>) -> bool {
    forall|i: int, j: int| 0 <= i < j < cs.len() ==> cs[i].id@ != cs[j].id@
}

/// Why a vulnerability counts as patched: a matching installed identifier,
/// or the host version meeting the record's fixed-in bound. Installed-id
/// evidence takes precedence, being the more specific.
pub enum PatchEvidence {
    InstalledId(String),
    VersionBound(VersionTuple),
}

/// Per-vulnerability verdict for one host.
pub enum Status {
    Patched(PatchEvidence),
    /// The remediating patch candidates, newest release first; empty when
    /// the vulnerability is known but currently unfixed.
    Unpatched(Vec<PatchCandidate>),
    NotApplicable,
}

/// Pairs one vulnerability record with its status for the host.
pub struct Classification {
    pub record: VulnerabilityRecord,
    pub status: Status,
}

/// Counts per severity tier (over applicable classifications only) and per
/// status.
#[derive(Clone, Copy, PartialEq, Eq, Structural, Debug)]
pub struct SummaryCounts {
    pub critical: u64,
    pub high: u64,
    pub medium: u64,
    pub low: u64,
    pub unknown: u64,
    pub patched: u64,
    pub unpatched: u64,
    pub not_applicable: u64,
}

/// What ingestion absorbed rather than escalated: failed sources, skipped
/// records, retries, supersession warnings, and whether a deadline truncated
/// the scan.
pub struct IngestionDiagnostics {
    pub failed_sources: Vec<String>,
    pub skipped_records: u64,
    pub retries: u64,
    pub warnings: Vec<String>,
    pub truncated: bool,
}

impl IngestionDiagnostics {
    pub fn new() -> (r: IngestionDiagnostics)
        ensures
            r.failed_sources@.len() == 0,
            r.skipped_records == 0,
            r.retries == 0,
            r.warnings@.len() == 0,
            !r.truncated,
    {
        IngestionDiagnostics {
            failed_sources: Vec::new(),
            skipped_records: 0,
            retries: 0,
            warnings: Vec::new(),
            truncated: false,
        }
    }
}

/// The engine's sole output artifact: immutable once assembled.
pub struct ScanReport {
    pub facts: HostFacts,
    /// Scan time in seconds since the Unix epoch.
    pub scan_time: i64,
    /// Sorted by severity tier descending, then score descending, then
    /// identifier ascending.
    pub classifications: Vec<Classification>,
    pub summary: SummaryCounts,
    pub diagnostics: IngestionDiagnostics,
}

/// The failures this engine surfaces to its caller.
pub enum ScannerError {
    SystemError(String),
    NetworkError(String),
    IoError(String),
    SerializationError(String),
    WindowsApiError(String),
}

/// Available-update metadata handed to the presentation layer.
pub struct UpdateInfo {
    pub kb_number: String,
    pub title: String,
    pub update_type: String,
    pub installation_date: Option<String>,
}

} // verus!
