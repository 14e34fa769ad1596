//! Conflict reports: their model, their identifiers and their order.
use vstd::prelude::*;
use crate::ids::{blake3_hex, blake3_hex_chars, uuid_chars, uuid_text, utf8_bytes};
use crate::text::{from_chars, slice_subrange, slice_to_vec, to_chars};
use crate::deployment::DeploymentManifest;

verus! {

#[derive(Debug, Clone, Copy, PartialEq, Eq, Structural)]
pub enum ConflictKind {
    DeploymentPath,
    EfmiNamespace,
    EfmiTextureOverride,
    EfmiShaderOverride,
}

#[derive(Debug, Clone, Copy, PartialEq, Eq, Structural)]
pub enum ConflictSeverity {
    Information,
    Warning,
    Error,
}

/// Where a participant touches the contested resource.
#[derive(Debug, Clone, PartialEq, Eq)]
pub struct ConflictEvidence {
    pub source_path: String,
    pub section: Option<String>,
    pub detail: String,
}

/// One mod taking part in a conflict (mod ids are UUIDs as 128-bit numbers).
#[derive(Debug, Clone, PartialEq, Eq)]
pub struct ConflictParticipant {
    pub mod_id: u128,
    pub mod_name: String,
    pub load_order: u32,
    pub evidence: Vec<ConflictEvidence>,
}

/// A resource claimed by two or more enabled mods. No winner is ever
/// chosen: `winning_mod_id` stays empty because load order is not verified.
#[derive(Debug, Clone, PartialEq, Eq)]
pub struct Conflict {
    pub id: String,
    pub analyzer_id: String,
    pub kind: ConflictKind,
    pub severity: ConflictSeverity,
    pub resource_key: String,
    pub summary: String,
    pub participants: Vec<ConflictParticipant>,
    pub winning_mod_id: Option<u128>,
}

/// The conflict report of the active profile.
#[derive(Debug, Clone, PartialEq, Eq)]
pub struct ConflictReport {
    pub profile_id: u128,
    pub generated_at: i64,
    pub enabled_mods: u64,
    pub analyzed_ini_files: u64,
    pub affected_mods: u64,
    pub conflicts: Vec<Conflict>,
    pub load_order_verified: bool,
    pub load_order_note: String,
    pub warnings: Vec<String>,
}

/// A `String` option as an option of character sequences.
pub open spec fn opt_text(o: Option<String>) -> Option<Seq<char>> {
    match o {
        Some(s) => Some(s@),
        None => None,
    }
}

/// What a piece of evidence says, as character sequences.
pub struct EvidenceView {
    pub source_path: Seq<char>,
    pub section: Option<Seq<char>>,
    pub detail: Seq<char>,
}

impl View for ConflictEvidence {
    type V = EvidenceView;

    open spec fn view(&self) -> EvidenceView {
        EvidenceView {
            source_path: self.source_path@,
            section: opt_text(self.section),
            detail: self.detail@,
        }
    }
}

pub struct ParticipantView {
    pub mod_id: u128,
    pub mod_name: Seq<char>,
    pub load_order: u32,
    pub evidence: Seq<EvidenceView>,
}

impl View for ConflictParticipant {
    type V = ParticipantView;

    open spec fn view(&self) -> ParticipantView {
        ParticipantView {
            mod_id: self.mod_id,
            mod_name: self.mod_name@,
            load_order: self.load_order,
            evidence: self.evidence@.map_values(|e: ConflictEvidence| e@),
        }
    }
}

pub struct ConflictView {
    pub id: Seq<char>,
    pub analyzer_id: Seq<char>,
    pub kind: ConflictKind,
    pub severity: ConflictSeverity,
    pub resource_key: Seq<char>,
    pub summary: Seq<char>,
    pub participants: Seq<ParticipantView>,
    pub winning_mod_id: Option<u128>,
}

impl View for Conflict {
    type V = ConflictView;

    open spec fn view(&self) -> ConflictView {
        ConflictView {
            id: self.id@,
            analyzer_id: self.analyzer_id@,
            kind: self.kind,
            severity: self.severity,
            resource_key: self.resource_key@,
            summary: self.summary@,
            participants: self.participants@.map_values(|p: ConflictParticipant| p@),
            winning_mod_id: self.winning_mod_id,
        }
    }
}

pub open spec fn conflict_views(v: Seq<Conflict>) -> Seq<ConflictView> {
    v.map_values(|c: Conflict| c@)
}

pub open spec fn text_views(v: Seq<String>) -> Seq<Seq<char>> {
    v.map_values(|s: String| s@)
}

/// An enabled mod as the analyzers see it: its name, its place in the load
/// order and the record of its deployment.
#[derive(Debug, Clone)]
pub struct ConflictAnalysisSubject {
    pub mod_name: String,
    pub load_order: u32,
    pub manifest: DeploymentManifest,
}

impl ConflictAnalysisSubject {
    pub fn mod_id(&self) -> (r: u128)
        ensures
            r == self.manifest.mod_id,
    {
        self.manifest.mod_id
    }
}

/// What one analyzer, or all of them together, found.
#[derive(Debug)]
pub struct AnalyzerOutput {
    pub conflicts: Vec<Conflict>,
    pub analyzed_ini_files: u64,
    pub warnings: Vec<String>,
}

impl Default for AnalyzerOutput {
    fn default() -> (r: Self)
        ensures
            r.conflicts@.len() == 0,
            r.analyzed_ini_files == 0,
            r.warnings@.len() == 0,
    {
        AnalyzerOutput { conflicts: Vec::new(), analyzed_ini_files: 0, warnings: Vec::new() }
    }
}

/// Errors sort first, then warnings, then information.
pub open spec fn spec_severity_rank(severity: ConflictSeverity) -> u8 {
    match severity {
        ConflictSeverity::Error => 0,
        ConflictSeverity::Warning => 1,
        ConflictSeverity::Information => 2,
    }
}

pub fn severity_rank(severity: ConflictSeverity) -> (r: u8)
    ensures
        r == spec_severity_rank(severity),
{
    match severity {
        ConflictSeverity::Error => 0,
        ConflictSeverity::Warning => 1,
        ConflictSeverity::Information => 2,
    }
}

/// Deployment-path conflicts first, then namespaces, texture and shader
/// overrides.
pub open spec fn spec_kind_rank(kind: ConflictKind) -> u8 {
    match kind {
        ConflictKind::DeploymentPath => 0,
        ConflictKind::EfmiNamespace => 1,
        ConflictKind::EfmiTextureOverride => 2,
        ConflictKind::EfmiShaderOverride => 3,
    }
}

pub fn kind_rank(kind: ConflictKind) -> (r: u8)
    ensures
        r == spec_kind_rank(kind),
{
    match kind {
        ConflictKind::DeploymentPath => 0,
        ConflictKind::EfmiNamespace => 1,
        ConflictKind::EfmiTextureOverride => 2,
        ConflictKind::EfmiShaderOverride => 3,
    }
}

/// The name of a kind as `Debug` prints it.
pub open spec fn kind_name(kind: ConflictKind) -> Seq<char> {
    match kind {
        ConflictKind::DeploymentPath => "DeploymentPath"@,
        ConflictKind::EfmiNamespace => "EfmiNamespace"@,
        ConflictKind::EfmiTextureOverride => "EfmiTextureOverride"@,
        ConflictKind::EfmiShaderOverride => "EfmiShaderOverride"@,
    }
}

fn kind_name_chars(kind: ConflictKind) -> (r: Vec<char>)
    ensures
        r@ == kind_name(kind),
{
    match kind {
        ConflictKind::DeploymentPath => to_chars("DeploymentPath"),
        ConflictKind::EfmiNamespace => to_chars("EfmiNamespace"),
        ConflictKind::EfmiTextureOverride => to_chars("EfmiTextureOverride"),
        ConflictKind::EfmiShaderOverride => to_chars("EfmiShaderOverride"),
    }
}

/// `ids` in ascending order.
pub open spec fn sorted_ids(ids: Seq<u128>) -> bool {
    forall|i: int, j: int| 0 <= i < j < ids.len() ==> ids[i] <= ids[j]
}

/// Sorts identifiers in ascending order.
pub fn sort_ids(ids: Vec<u128>) -> (r: Vec<u128>)
    ensures
        sorted_ids(r@),
        r@.to_multiset() == ids@.to_multiset(),
{
    let mut r: Vec<u128> = Vec::new();
    let mut i: usize = 0;
    proof {
        assert(ids@.take(0) =~= Seq::<u128>::empty());
    }
    while i < ids.len()
        invariant
            i <= ids@.len(),
            sorted_ids(r@),
            r@.to_multiset() == ids@.take(i as int).to_multiset(),
        decreases ids@.len() - i,
    {
        let x = ids[i];
        let mut p: usize = 0;
        while p < r.len() && r[p] <= x
            invariant
                p <= r@.len(),
                forall|j: int| 0 <= j < p ==> r@[j] <= x,
            decreases r@.len() - p,
        {
            p = p + 1;
        }
        let ghost old_r = r@;
        r.insert(p, x);
        proof {
            assert(r@ == old_r.insert(p as int, x));
            assert forall|a: int, b: int| 0 <= a < b < r@.len() implies r@[a] <= r@[b] by {
                if a < p && b == p {
                } else if a < p && b > p {
                    assert(old_r[a] <= old_r[b - 1]);
                } else if a == p && b > p {
                    assert(old_r[p as int] > x);
                    assert(old_r[p as int] <= old_r[b - 1]);
                } else if a > p {
                    assert(old_r[a - 1] <= old_r[b - 1]);
                }
            }
            vstd::seq_lib::to_multiset_insert(old_r, p as int, x);
            assert(ids@.take(i + 1) =~= ids@.take(i as int).push(x));
            ids@.take(i as int).to_multiset_ensures();
        }
        i = i + 1;
    }
    proof {
        assert(ids@.take(ids@.len() as int) =~= ids@);
    }
    r
}

/// The bytes a conflict identifier is derived from: the analyzer id, the
/// kind name and the resource key separated by zero bytes, then each mod id
/// (ascending, as UUID text) behind a zero byte.
pub open spec fn conflict_id_input(
    analyzer_id: Seq<char>,
    kind: ConflictKind,
    resource_key: Seq<char>,
    sorted: Seq<u128>,
) -> Seq<u8> {
    vstd::utf8::encode_utf8(analyzer_id) + seq![0u8] + vstd::utf8::encode_utf8(kind_name(kind)) + seq![
        0u8,
    ] + vstd::utf8::encode_utf8(resource_key) + id_bytes(sorted)
}

pub open spec fn id_bytes(ids: Seq<u128>) -> Seq<u8>
    decreases ids.len(),
{
    if ids.len() == 0 {
        Seq::empty()
    } else {
        id_bytes(ids.drop_last()) + seq![0u8] + vstd::utf8::encode_utf8(uuid_text(ids.last()))
    }
}

/// A stable conflict identifier: `conflict-` and the first 20 hexadecimal
/// digits of the BLAKE3 digest of `conflict_id_input` with the mod ids in
/// ascending order.
pub open spec fn spec_conflict_id(
    analyzer_id: Seq<char>,
    kind: ConflictKind,
    resource_key: Seq<char>,
    mod_ids: Seq<u128>,
) -> Seq<char> {
    let sorted = choose|s: Seq<u128>|
        sorted_ids(s) && s.to_multiset() == mod_ids.to_multiset();
    "conflict-"@ + blake3_hex(conflict_id_input(analyzer_id, kind, resource_key, sorted)).take(20)
}

proof fn lemma_sorted_unique(a: Seq<u128>, b: Seq<u128>)
    requires
        sorted_ids(a),
        sorted_ids(b),
        a.to_multiset() == b.to_multiset(),
    ensures
        a == b,
    decreases a.len(),
{
    a.to_multiset_ensures();
    b.to_multiset_ensures();
    assert(a.len() == b.len());
    if a.len() > 0 {
        let m = a.to_multiset();
        // The last elements are the maxima of the same multiset.
        assert(a.contains(a.last())) by {
            assert(a[a.len() - 1] == a.last());
        }
        assert(b.contains(b.last())) by {
            assert(b[b.len() - 1] == b.last());
        }
        assert(m.count(a.last()) > 0);
        assert(b.contains(a.last()));
        assert(b.to_multiset().count(b.last()) > 0);
        assert(m.count(b.last()) > 0);
        assert(a.contains(b.last()));
        let ka = choose|k: int| 0 <= k < b.len() && b[k] == a.last();
        let kb = choose|k: int| 0 <= k < a.len() && a[k] == b.last();
        assert(a.last() <= b.last());
        assert(b.last() <= a.last());
        assert(a.last() == b.last());
        vstd::seq_lib::to_multiset_remove(a, a.len() - 1);
        vstd::seq_lib::to_multiset_remove(b, b.len() - 1);
        assert(a.remove(a.len() - 1) =~= a.drop_last());
        assert(b.remove(b.len() - 1) =~= b.drop_last());
        lemma_sorted_unique(a.drop_last(), b.drop_last());
        assert(a =~= a.drop_last().push(a.last()));
        assert(b =~= b.drop_last().push(b.last()));
    }
}

/// The identifier of a conflict, stable across runs and independent of the
/// order in which mod ids are given.
pub fn conflict_id(analyzer_id: &str, kind: ConflictKind, resource_key: &str, mod_ids: Vec<u128>) -> (r:
    String)
    ensures
        r@ == spec_conflict_id(analyzer_id@, kind, resource_key@, mod_ids@),
{
    let ghost input = mod_ids@;
    let ids = sort_ids(mod_ids);
    let a = to_chars(analyzer_id);
    let k = kind_name_chars(kind);
    let rk = to_chars(resource_key);
    let mut bytes = utf8_bytes(a.as_slice());
    bytes.push(0u8);
    let kb = utf8_bytes(k.as_slice());
    bytes.extend_from_slice(kb.as_slice());
    bytes.push(0u8);
    let rb = utf8_bytes(rk.as_slice());
    bytes.extend_from_slice(rb.as_slice());
    let ghost head = bytes@;
    let mut i: usize = 0;
    proof {
        assert(ids@.take(0) =~= Seq::<u128>::empty());
        assert(head + id_bytes(ids@.take(0)) =~= bytes@);
    }
    while i < ids.len()
        invariant
            i <= ids@.len(),
            bytes@ == head + id_bytes(ids@.take(i as int)),
        decreases ids@.len() - i,
    {
        let text = uuid_chars(ids[i]);
        let tb = utf8_bytes(text.as_slice());
        let ghost before = bytes@;
        bytes.push(0u8);
        bytes.extend_from_slice(tb.as_slice());
        proof {
            assert(ids@.take(i + 1).drop_last() =~= ids@.take(i as int));
            assert(ids@.take(i + 1).last() == ids@[i as int]);
            assert(bytes@ =~= head + id_bytes(ids@.take(i + 1)));
        }
        i = i + 1;
    }
    proof {
        assert(ids@.take(ids@.len() as int) =~= ids@);
        assert(bytes@ =~= conflict_id_input(analyzer_id@, kind, resource_key@, ids@));
    }
    let hex = blake3_hex_chars(bytes.as_slice());
    let mut out = to_chars("conflict-");
    let ghost prefix = out@;
    out.extend_from_slice(slice_subrange(hex.as_slice(), 0, 20));
    proof {
        let sorted = choose|s: Seq<u128>| sorted_ids(s) && s.to_multiset() == input.to_multiset();
        assert(sorted_ids(ids@) && ids@.to_multiset() == input.to_multiset());
        lemma_sorted_unique(sorted, ids@);
        assert(out@ =~= prefix + hex@.take(20));
    }
    from_chars(out.as_slice())
}

/// A conflict's identifier depends on which mods take part, not on the
/// order in which they are listed.
pub proof fn lemma_conflict_id_ignores_order(
    analyzer_id: Seq<char>,
    kind: ConflictKind,
    resource_key: Seq<char>,
    a: Seq<u128>,
    b: Seq<u128>,
)
    requires
        a.to_multiset() == b.to_multiset(),
    ensures
        spec_conflict_id(analyzer_id, kind, resource_key, a) == spec_conflict_id(
            analyzer_id,
            kind,
            resource_key,
            b,
        ),
{
}

} // verus!
