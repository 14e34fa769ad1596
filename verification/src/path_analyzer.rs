//! The deployment-path analyzer: two enabled mods that deploy a file to the
//! same place conflict.
use vstd::prelude::*;
use crate::conflicts::{
    conflict_id, conflict_views, spec_conflict_id, text_views, AnalyzerOutput, Conflict,
    ConflictAnalysisSubject, ConflictEvidence, ConflictKind, ConflictParticipant, ConflictSeverity,
    ConflictView, EvidenceView, ParticipantView,
};
use crate::deployment::{DeploymentEntry, EFMI_DIRECT_STRATEGY_ID};
use crate::error::{msg, AppError};
use crate::facts::{
    as_ints, fact_subject_set, facts_view, key_facts, lemma_lookup_entry, lemma_lookup_found,
    lemma_table_add_all_lookup, lemma_table_add_in_range, subjects_in_range, table_add, table_add_all,
    table_in_range, table_lookup, Fact, FactTable, FactView,
};
use crate::order::{
    lemma_insert_present, lemma_sorted_insert, lemma_sorted_of, lex_lt, sorted_by, sorted_of, strict_total,
};
use crate::path_safety::{
    direct_child, is_absolute_chars, is_absolute_path, is_direct_child, join_chars, join_path,
    storage_chars, storage_form, valid_relative, validate_relative_chars,
};
use crate::text::{
    chars_eq, concat, concat_str, copy_str, from_chars, slice_to_vec, to_chars, to_lowercase,
    unicode_lower,
};

verus! {

pub const DEPLOYMENT_PATH_ANALYZER_ID: &'static str = "deployment.path.v1";

/// The analyzer of actual deployment targets.
#[derive(Debug, Clone, Copy)]
pub struct DeploymentPathConflictAnalyzer;

/// The key under which deployment targets are compared: the lower-cased
/// storage forms of the deployment root and of the target, joined by `|`.
pub open spec fn normalized_absolute_key(root: Seq<char>, target: Seq<char>) -> Seq<char> {
    unicode_lower(storage_form(root)) + seq!['|'] + unicode_lower(storage_form(target))
}

pub fn normalized_absolute_key_chars(root: &[char], target: &[char]) -> (r: Vec<char>)
    ensures
        r@ == normalized_absolute_key(root@, target@),
        crate::text::all_ascii(storage_form(root@)) && crate::text::all_ascii(storage_form(target@)) ==> r@
            == crate::text::lower_seq(storage_form(root@)) + seq!['|'] + crate::text::lower_seq(storage_form(target@)),
{
    let rs = from_chars(storage_chars(root).as_slice());
    let ts = from_chars(storage_chars(target).as_slice());
    let rl = to_chars(to_lowercase(rs.as_str()).as_str());
    let tl = to_chars(to_lowercase(ts.as_str()).as_str());
    let mut r = rl;
    r.push('|');
    let ghost head = r@;
    r.extend_from_slice(tl.as_slice());
    r
}

/// Where a subject's manifest may place files: a direct-folder deployment
/// must name an absolute direct child of its deployment root; any other
/// deployment a safe relative directory.
pub open spec fn destination_ok(s: ConflictAnalysisSubject) -> bool {
    if s.manifest.strategy_id@ == "efmi.direct-folder.v1"@ {
        is_absolute_path(s.manifest.destination_directory@) && direct_child(
            s.manifest.destination_root@,
            s.manifest.destination_directory@,
        )
    } else {
        valid_relative(s.manifest.destination_directory@)
    }
}

/// Every subject's destination is acceptable and every entry's destination
/// is a safe relative path.
pub open spec fn subjects_valid(subs: Seq<ConflictAnalysisSubject>) -> bool {
    forall|i: int|
        0 <= i < subs.len() ==> destination_ok(#[trigger] subs[i]) && forall|k: int|
            0 <= k < subs[i].manifest.entries@.len() ==> valid_relative(
                #[trigger] subs[i].manifest.entries@[k].destination_relative@,
            )
}

/// Where an entry lands: the deployment directory joined with the entry's
/// destination.
pub open spec fn target_of(s: ConflictAnalysisSubject, e: DeploymentEntry) -> Seq<char> {
    join_path(s.manifest.destination_directory@, e.destination_relative@)
}

/// The fact an entry states: under its target key, the subject, the
/// entry's source and (as detail) its target in storage form.
pub open spec fn path_fact(i: int, s: ConflictAnalysisSubject, e: DeploymentEntry) -> (Seq<char>, FactView) {
    (
        normalized_absolute_key(s.manifest.destination_root@, target_of(s, e)),
        FactView {
            subject: i,
            source_path: e.source_relative@,
            section: None,
            detail: storage_form(target_of(s, e)),
        },
    )
}

/// The facts of all entries of all subjects, subject by subject.
pub open spec fn all_path_facts(subs: Seq<ConflictAnalysisSubject>) -> Seq<(Seq<char>, FactView)>
    decreases subs.len(),
{
    if subs.len() == 0 {
        Seq::empty()
    } else {
        all_path_facts(subs.drop_last()) + subs.last().manifest.entries@.map_values(
            |e: DeploymentEntry| path_fact(subs.len() - 1, subs.last(), e),
        )
    }
}

pub open spec fn int_order() -> spec_fn(int, int) -> bool {
    |a: int, b: int| a < b
}

pub open spec fn subject_is(i: int) -> spec_fn(FactView) -> bool {
    |f: FactView| f.subject == i
}

pub open spec fn target_evidence(f: FactView) -> EvidenceView {
    EvidenceView { source_path: f.source_path, section: None, detail: "部署到同一目标 "@ + f.detail }
}

/// The evidence of subject `i`: each of its facts, in the order stated.
pub open spec fn path_evidence(facts: Seq<FactView>, i: int) -> Seq<EvidenceView> {
    facts.filter(subject_is(i)).map_values(|f: FactView| target_evidence(f))
}

/// The conflict over one target: participants in subject order; the
/// resource is the target of the first fact of the first participant.
pub open spec fn path_conflict(subs: Seq<ConflictAnalysisSubject>, facts: Seq<FactView>) -> ConflictView {
    let order = sorted_of(fact_subject_set(facts), int_order());
    let display = facts.filter(subject_is(order[0]))[0].detail;
    ConflictView {
        id: spec_conflict_id(
            "deployment.path.v1"@,
            ConflictKind::DeploymentPath,
            display,
            order.map_values(|i: int| subs[i].manifest.mod_id),
        ),
        analyzer_id: "deployment.path.v1"@,
        kind: ConflictKind::DeploymentPath,
        severity: ConflictSeverity::Error,
        resource_key: display,
        summary: "多个已启用模组写入同一实际部署文件。"@,
        participants: order.map_values(
            |i: int|
                ParticipantView {
                    mod_id: subs[i].manifest.mod_id,
                    mod_name: subs[i].mod_name@,
                    load_order: subs[i].load_order,
                    evidence: path_evidence(facts, i),
                },
        ),
        winning_mod_id: None,
    }
}

/// One conflict for each target, in key order, that two or more subjects
/// deploy to.
pub open spec fn path_conflicts(
    subs: Seq<ConflictAnalysisSubject>,
    table: Seq<(Seq<char>, Seq<FactView>)>,
) -> Seq<ConflictView>
    decreases table.len(),
{
    if table.len() == 0 {
        Seq::empty()
    } else {
        let rest = path_conflicts(subs, table.drop_last());
        let facts = table.last().1;
        if sorted_of(fact_subject_set(facts), int_order()).len() >= 2 {
            rest.push(path_conflict(subs, facts))
        } else {
            rest
        }
    }
}

/// The facts of a target are shared: two or more subjects state them.
pub open spec fn shared(facts: Seq<FactView>) -> bool {
    sorted_of(fact_subject_set(facts), int_order()).len() >= 2
}

/// The positions of the table's shared entries, in order.
pub open spec fn shared_positions(table: Seq<(Seq<char>, Seq<FactView>)>) -> Seq<int>
    decreases table.len(),
{
    if table.len() == 0 {
        Seq::empty()
    } else {
        let rest = shared_positions(table.drop_last());
        if shared(table.last().1) {
            rest.push(table.len() - 1)
        } else {
            rest
        }
    }
}

proof fn lemma_shared_positions(subs: Seq<ConflictAnalysisSubject>, t: Seq<(Seq<char>, Seq<FactView>)>)
    ensures
        path_conflicts(subs, t).len() == shared_positions(t).len(),
        forall|a: int|
            0 <= a < shared_positions(t).len() ==> 0 <= #[trigger] shared_positions(t)[a] < t.len()
                && path_conflicts(subs, t)[a] == path_conflict(subs, t[shared_positions(t)[a]].1) && shared(
                t[shared_positions(t)[a]].1,
            ),
        forall|a: int, b: int|
            0 <= a < b < shared_positions(t).len() ==> #[trigger] shared_positions(t)[a]
                < #[trigger] shared_positions(t)[b],
        forall|j: int|
            0 <= j < t.len() && shared(#[trigger] t[j].1) ==> exists|a: int|
                0 <= a < shared_positions(t).len() && #[trigger] shared_positions(t)[a] == j,
    decreases t.len(),
{
    if t.len() > 0 {
        let u = t.drop_last();
        lemma_shared_positions(subs, u);
        let pu = shared_positions(u);
        let pt = shared_positions(t);
        assert forall|j: int| 0 <= j < t.len() && shared(#[trigger] t[j].1) implies exists|a: int|
            0 <= a < pt.len() && #[trigger] pt[a] == j by {
            if j < t.len() - 1 {
                assert(u[j] == t[j]);
                let a = choose|a: int| 0 <= a < pu.len() && #[trigger] pu[a] == j;
                assert(pt[a] == pu[a]);
            } else {
                assert(pt[pt.len() - 1] == j);
            }
        }
        assert forall|a: int|
            0 <= a < pt.len() implies 0 <= #[trigger] pt[a] < t.len() && path_conflicts(subs, t)[a]
            == path_conflict(subs, t[pt[a]].1) && shared(t[pt[a]].1) by {
            if a < pu.len() {
                assert(pt[a] == pu[a]);
                assert(u[pu[a]] == t[pu[a]]);
            }
        }
    }
}

/// `out` lists one deployment-path conflict per target key that two or
/// more subjects deploy to, ordered by key: the `a`-th conflict is the one
/// over the facts stated under the `a`-th shared key, every shared key has
/// its conflict, and no key has two. Every such conflict is an error that
/// no mod wins, with at least two participants listed in input order.
pub open spec fn grouped_by_target(subs: Seq<ConflictAnalysisSubject>, out: Seq<ConflictView>) -> bool {
    let facts = all_path_facts(subs);
    let table = table_add_all(Seq::empty(), facts);
    let keys = shared_positions(table).map_values(|j: int| table[j].0);
    &&& out.len() == keys.len()
    &&& forall|a: int|
        0 <= a < keys.len() ==> out[a] == path_conflict(subs, key_facts(facts, #[trigger] keys[a])) && shared(
            key_facts(facts, keys[a]),
        )
    &&& forall|a: int, b: int| 0 <= a < b < keys.len() ==> lex_lt(#[trigger] keys[a], #[trigger] keys[b])
    &&& forall|k: Seq<char>| #[trigger] shared(key_facts(facts, k)) ==> keys.contains(k)
    &&& forall|a: int|
        0 <= a < out.len() ==> (#[trigger] out[a]).severity == ConflictSeverity::Error && out[a].winning_mod_id is None
            && out[a].kind == ConflictKind::DeploymentPath && out[a].participants.len() >= 2
}

/// The conflicts the analysis computes are grouped by target as
/// `grouped_by_target` states.
pub proof fn lemma_path_conflicts_by_key(subs: Seq<ConflictAnalysisSubject>)
    ensures
        grouped_by_target(subs, path_conflicts(subs, table_add_all(Seq::empty(), all_path_facts(subs)))),
{
    let facts = all_path_facts(subs);
    let table = table_add_all(Seq::empty(), facts);
    let out = path_conflicts(subs, table);
    let pos = shared_positions(table);
    let keys = pos.map_values(|j: int| table[j].0);
    lemma_table_add_all_lookup(facts);
    lemma_shared_positions(subs, table);
    assert forall|a: int|
        0 <= a < keys.len() implies out[a] == path_conflict(subs, key_facts(facts, #[trigger] keys[a])) && shared(
        key_facts(facts, keys[a]),
    ) by {
        lemma_lookup_entry(table, pos[a]);
        assert(table_lookup(table, table[pos[a]].0) == key_facts(facts, table[pos[a]].0));
    }
    assert forall|a: int, b: int| 0 <= a < b < keys.len() implies lex_lt(#[trigger] keys[a], #[trigger] keys[b]) by {
        assert(pos[a] < pos[b]);
    }
    assert forall|k: Seq<char>| #[trigger] shared(key_facts(facts, k)) implies keys.contains(k) by {
        let fs = key_facts(facts, k);
        if fs.len() == 0 {
            lemma_int_order();
            let e = Seq::<int>::empty();
            assert(sorted_by(e, int_order()));
            lemma_sorted_of(e, int_order());
            assert(fact_subject_set(fs) =~= e.to_set());
        }
        assert(table_lookup(table, k) == fs);
        lemma_lookup_found(table, k);
        let j = choose|j: int| 0 <= j < table.len() && (#[trigger] table[j]).0 == k;
        lemma_lookup_entry(table, j);
        assert(shared(table[j].1));
        let a = choose|a: int| 0 <= a < pos.len() && #[trigger] pos[a] == j;
        assert(keys[a] == k);
    }
    assert forall|a: int| 0 <= a < out.len() implies (#[trigger] out[a]).severity == ConflictSeverity::Error
        && out[a].winning_mod_id is None && out[a].kind == ConflictKind::DeploymentPath
        && out[a].participants.len() >= 2 by {
        assert(out[a] == path_conflict(subs, table[pos[a]].1));
    }
}

proof fn lemma_int_order()
    ensures
        strict_total(int_order()),
{
}

/// The subjects of `facts` in ascending order.
fn subject_indices(facts: &Vec<Fact>) -> (r: Vec<usize>)
    ensures
        sorted_by(as_ints(r@), int_order()),
        as_ints(r@).to_set() == fact_subject_set(facts_view(facts@)),
{
    let ghost fv = facts_view(facts@);
    let ghost lt = int_order();
    proof {
        lemma_int_order();
        assert(as_ints(Seq::<usize>::empty()) =~= Seq::<int>::empty());
        assert(fv.take(0) =~= Seq::<FactView>::empty());
        assert(as_ints(Seq::<usize>::empty()).to_set() =~= Set::<int>::empty());
    }
    let mut r: Vec<usize> = Vec::new();
    let mut k: usize = 0;
    while k < facts.len()
        invariant
            k <= facts@.len(),
            fv == facts_view(facts@),
            lt == int_order(),
            strict_total(lt),
            sorted_by(as_ints(r@), lt),
            as_ints(r@).to_set() == fact_subject_set(fv.take(k as int)),
        decreases facts@.len() - k,
    {
        let x = facts[k].subject_index;
        let mut p: usize = 0;
        while p < r.len() && r[p] < x
            invariant
                p <= r@.len(),
                forall|j: int| 0 <= j < p ==> #[trigger] r@[j] < x,
            decreases r@.len() - p,
        {
            p = p + 1;
        }
        let ghost before = as_ints(r@);
        if p < r.len() && r[p] == x {
            proof {
                assert(before[p as int] == x as int);
                lemma_insert_present(before, p as int, x as int);
            }
        } else {
            r.insert(p, x);
            proof {
                assert forall|j: int| 0 <= j < p implies lt(#[trigger] before[j], x as int) by {
                    assert(r@[j] < x);
                }
                lemma_sorted_insert(before, p as int, x as int, lt);
                assert(as_ints(r@) =~= before.insert(p as int, x as int));
            }
        }
        proof {
            assert(fv.take(k + 1).drop_last() =~= fv.take(k as int));
            assert(fv.take(k + 1).last() == fv[k as int]);
        }
        k = k + 1;
    }
    proof {
        assert(fv.take(fv.len() as int) =~= fv);
    }
    r
}

/// Subject `i` as a participant: its evidence in the order stated.
fn path_participant(subs: &Vec<ConflictAnalysisSubject>, facts: &Vec<Fact>, i: usize) -> (r: (
    ConflictParticipant,
    Option<Vec<char>>,
))
    requires
        i < subs@.len(),
    ensures
        r.0@ == (ParticipantView {
            mod_id: subs@[i as int].manifest.mod_id,
            mod_name: subs@[i as int].mod_name@,
            load_order: subs@[i as int].load_order,
            evidence: path_evidence(facts_view(facts@), i as int),
        }),
        r.1 matches Some(t) ==> facts_view(facts@).filter(subject_is(i as int)).len() > 0 && t@
            == facts_view(facts@).filter(subject_is(i as int))[0].detail,
        r.1 is None ==> facts_view(facts@).filter(subject_is(i as int)).len() == 0,
{
    let ghost fv = facts_view(facts@);
    let ghost pred = subject_is(i as int);
    let mut evidence: Vec<ConflictEvidence> = Vec::new();
    let mut first: Option<Vec<char>> = None;
    let prefix = to_chars("部署到同一目标 ");
    let mut k: usize = 0;
    proof {
        assert(fv.take(0) =~= Seq::<FactView>::empty());
        assert(fv.take(0).filter(pred) =~= Seq::<FactView>::empty());
        assert(evidence@.map_values(|e: ConflictEvidence| e@) =~= Seq::<EvidenceView>::empty());
    }
    while k < facts.len()
        invariant
            k <= facts@.len(),
            fv == facts_view(facts@),
            pred == subject_is(i as int),
            prefix@ == "部署到同一目标 "@,
            evidence@.map_values(|e: ConflictEvidence| e@) == fv.take(k as int).filter(pred).map_values(
                |f: FactView| target_evidence(f),
            ),
            first matches Some(t) ==> fv.take(k as int).filter(pred).len() > 0 && t@ == fv.take(
                k as int,
            ).filter(pred)[0].detail,
            first is None ==> fv.take(k as int).filter(pred).len() == 0,
        decreases facts@.len() - k,
    {
        let f = &facts[k];
        proof {
            assert(fv[k as int] == f@);
            assert(fv.take(k + 1) =~= fv.take(k as int).push(fv[k as int]));
            fv.take(k as int).lemma_filter_push(fv[k as int], pred);
        }
        if f.subject_index == i {
            let detail = concat(prefix.as_slice(), f.detail.as_slice());
            let e = ConflictEvidence {
                source_path: from_chars(f.source_path.as_slice()),
                section: None,
                detail: from_chars(detail.as_slice()),
            };
            let ghost before = evidence@;
            evidence.push(e);
            proof {
                assert(e@ == target_evidence(f@));
                assert(evidence@.map_values(|e: ConflictEvidence| e@) =~= before.map_values(
                    |e: ConflictEvidence| e@,
                ).push(target_evidence(f@)));
                assert(fv.take(k + 1).filter(pred) == fv.take(k as int).filter(pred).push(f@));
                assert(fv.take(k + 1).filter(pred).map_values(|f: FactView| target_evidence(f))
                    =~= fv.take(k as int).filter(pred).map_values(|f: FactView| target_evidence(f)).push(
                    target_evidence(f@),
                ));
            }
            if first.is_none() {
                first = Some(slice_to_vec(f.detail.as_slice()));
                proof {
                    assert(fv.take(k + 1).filter(pred)[0] == f@);
                }
            } else {
                proof {
                    assert(fv.take(k + 1).filter(pred)[0] == fv.take(k as int).filter(pred)[0]);
                }
            }
        }
        k = k + 1;
    }
    proof {
        assert(fv.take(fv.len() as int) =~= fv);
    }
    let subject = &subs[i];
    let p = ConflictParticipant {
        mod_id: subject.mod_id(),
        mod_name: copy_str(subject.mod_name.as_str()),
        load_order: subject.load_order,
        evidence,
    };
    (p, first)
}

/// The conflict over the target of one key when two or more subjects
/// deploy to it.
fn path_conflict_for(subs: &Vec<ConflictAnalysisSubject>, facts: &Vec<Fact>) -> (r: Option<Conflict>)
    requires
        subjects_in_range(facts_view(facts@), subs@.len() as int),
    ensures
        r is Some <==> sorted_of(fact_subject_set(facts_view(facts@)), int_order()).len() >= 2,
        r matches Some(c) ==> c@ == path_conflict(subs@, facts_view(facts@)),
{
    let ghost fv = facts_view(facts@);
    let order = subject_indices(facts);
    let ghost oi = as_ints(order@);
    proof {
        lemma_int_order();
        lemma_sorted_of(oi, int_order());
    }
    if order.len() < 2 {
        return None;
    }
    proof {
        // Every listed subject states a fact, so it is in range.
        assert forall|q: int| 0 <= q < order@.len() implies #[trigger] order@[q] < subs@.len() by {
            assert(oi.to_set().contains(oi[q]));
            lemma_subject_set_in_range(fv, subs@.len() as int, oi[q]);
        }
    }
    let mut participants: Vec<ConflictParticipant> = Vec::new();
    let mut ids: Vec<u128> = Vec::new();
    let mut display: Vec<char> = Vec::new();
    let mut j: usize = 0;
    while j < order.len()
        invariant
            j <= order@.len(),
            2 <= order@.len(),
            oi == as_ints(order@),
            fv == facts_view(facts@),
            forall|q: int| 0 <= q < order@.len() ==> #[trigger] order@[q] < subs@.len(),
            participants@.map_values(|p: ConflictParticipant| p@) == oi.map_values(
                |i: int|
                    ParticipantView {
                        mod_id: subs@[i].manifest.mod_id,
                        mod_name: subs@[i].mod_name@,
                        load_order: subs@[i].load_order,
                        evidence: path_evidence(fv, i),
                    },
            ).take(j as int),
            ids@ == oi.map_values(|i: int| subs@[i].manifest.mod_id).take(j as int),
            j > 0 ==> display@ == fv.filter(subject_is(oi[0]))[0].detail,
            oi.to_set() == fact_subject_set(fv),
        decreases order@.len() - j,
    {
        let i = order[j];
        let pair = path_participant(subs, facts, i);
        let p = pair.0;
        let ghost pv = p@;
        let ghost before = participants@;
        participants.push(p);
        ids.push(subs[i].mod_id());
        if j == 0 {
            match pair.1 {
                Some(t) => {
                    display = t;
                },
                None => {
                    proof {
                        // Subject `i` states a fact, so its filter is not empty.
                        assert(oi.to_set().contains(oi[0]));
                        lemma_subject_has_fact(fv, oi[0]);
                    }
                },
            }
        }
        proof {
            assert(oi[j as int] == i as int);
            assert(participants@.map_values(|p: ConflictParticipant| p@) =~= before.map_values(
                |p: ConflictParticipant| p@,
            ).push(pv));
            assert(participants@.map_values(|p: ConflictParticipant| p@) =~= oi.map_values(
                |i: int|
                    ParticipantView {
                        mod_id: subs@[i].manifest.mod_id,
                        mod_name: subs@[i].mod_name@,
                        load_order: subs@[i].load_order,
                        evidence: path_evidence(fv, i),
                    },
            ).take(j + 1));
            assert(ids@ =~= oi.map_values(|i: int| subs@[i].manifest.mod_id).take(j + 1));
        }
        j = j + 1;
    }
    proof {
        let pv = oi.map_values(
            |i: int|
                ParticipantView {
                    mod_id: subs@[i].manifest.mod_id,
                    mod_name: subs@[i].mod_name@,
                    load_order: subs@[i].load_order,
                    evidence: path_evidence(fv, i),
                },
        );
        let iv = oi.map_values(|i: int| subs@[i].manifest.mod_id);
        assert(pv.take(pv.len() as int) =~= pv);
        assert(iv.take(iv.len() as int) =~= iv);
    }
    let resource_key = from_chars(display.as_slice());
    let id = conflict_id(DEPLOYMENT_PATH_ANALYZER_ID, ConflictKind::DeploymentPath, resource_key.as_str(), ids);
    Some(
        Conflict {
            id,
            analyzer_id: copy_str(DEPLOYMENT_PATH_ANALYZER_ID),
            kind: ConflictKind::DeploymentPath,
            severity: ConflictSeverity::Error,
            resource_key,
            summary: copy_str("多个已启用模组写入同一实际部署文件。"),
            participants,
            winning_mod_id: None,
        },
    )
}

impl DeploymentPathConflictAnalyzer {
    pub fn analyzer_id(&self) -> (r: &'static str)
        ensures
            r@ == "deployment.path.v1"@,
    {
        DEPLOYMENT_PATH_ANALYZER_ID
    }

    /// Groups the entries of all subjects by the place they are deployed to
    /// and reports every place that two or more subjects share. Refuses a
    /// manifest whose destination is not acceptable or whose entries are not
    /// safe relative paths.
    pub fn analyze(&self, subjects: &Vec<ConflictAnalysisSubject>) -> (r: Result<AnalyzerOutput, AppError>)
        ensures
            r is Ok <==> subjects_valid(subjects@),
            r matches Err(e) ==> e is UnsafePath,
            r matches Ok(o) ==> conflict_views(o.conflicts@) == path_conflicts(
                subjects@,
                table_add_all(Seq::empty(), all_path_facts(subjects@)),
            ) && o.analyzed_ini_files == 0 && o.warnings@.len() == 0,
            r matches Ok(o) ==> grouped_by_target(subjects@, conflict_views(o.conflicts@)),
    {
        let ghost subs = subjects@;
        let mut table = FactTable::new();
        let direct_id = to_chars(EFMI_DIRECT_STRATEGY_ID);
        let mut i: usize = 0;
        proof {
            assert(subs.take(0) =~= Seq::<ConflictAnalysisSubject>::empty());
        }
        while i < subjects.len()
            invariant
                i <= subs.len(),
                subs == subjects@,
                direct_id@ == "efmi.direct-folder.v1"@,
                table.wf(),
                table_in_range(table@, subs.len() as int),
                table@ == table_add_all(Seq::empty(), all_path_facts(subs.take(i as int))),
                forall|j: int| 0 <= j < i ==> destination_ok(#[trigger] subs[j]) && forall|k: int|
                    0 <= k < subs[j].manifest.entries@.len() ==> valid_relative(
                        #[trigger] subs[j].manifest.entries@[k].destination_relative@,
                    ),
            decreases subs.len() - i,
        {
            let s = &subjects[i];
            let dir = to_chars(s.manifest.destination_directory.as_str());
            let root = to_chars(s.manifest.destination_root.as_str());
            let strategy = to_chars(s.manifest.strategy_id.as_str());
            if chars_eq(strategy.as_slice(), direct_id.as_slice()) {
                if !is_absolute_chars(dir.as_slice()) || !is_direct_child(root.as_slice(), dir.as_slice()) {
                    proof {
                        assert(!destination_ok(subs[i as int]));
                    }
                    return Err(AppError::UnsafePath(msg("EFMI 原地模组清单不是 Mods 的直属目录。")));
                }
            } else {
                match validate_relative_chars(dir.as_slice()) {
                    Ok(()) => {},
                    Err(e) => {
                        proof {
                            assert(!destination_ok(subs[i as int]));
                        }
                        return Err(e);
                    },
                }
            }
            let ghost t_i = table@;
            let ghost facts_i = s.manifest.entries@.map_values(
                |e: DeploymentEntry| path_fact(i as int, subs[i as int], e),
            );
            let n = s.manifest.entries.len();
            let mut k: usize = 0;
            proof {
                assert(facts_i.take(0) =~= Seq::<(Seq<char>, FactView)>::empty());
            }
            while k < n
                invariant
                    k <= n,
                    i < subs.len(),
                    subs == subjects@,
                    s == &subs[i as int],
                    n == s.manifest.entries@.len(),
                    dir@ == s.manifest.destination_directory@,
                    root@ == s.manifest.destination_root@,
                    facts_i == s.manifest.entries@.map_values(
                        |e: DeploymentEntry| path_fact(i as int, subs[i as int], e),
                    ),
                    table.wf(),
                    table_in_range(table@, subs.len() as int),
                    table@ == table_add_all(t_i, facts_i.take(k as int)),
                    forall|q: int| 0 <= q < k ==> valid_relative(
                        #[trigger] s.manifest.entries@[q].destination_relative@,
                    ),
                decreases n - k,
            {
                let entry = &s.manifest.entries[k];
                let dest = to_chars(entry.destination_relative.as_str());
                match validate_relative_chars(dest.as_slice()) {
                    Ok(()) => {},
                    Err(e) => {
                        proof {
                            assert(!valid_relative(subs[i as int].manifest.entries@[k as int].destination_relative@));
                        }
                        return Err(e);
                    },
                }
                let target = join_chars(dir.as_slice(), dest.as_slice());
                let key = normalized_absolute_key_chars(root.as_slice(), target.as_slice());
                let fact = Fact {
                    subject_index: i,
                    source_path: to_chars(entry.source_relative.as_str()),
                    section: None,
                    detail: storage_chars(target.as_slice()),
                };
                let ghost f = fact@;
                let ghost before = table@;
                table.add(key, fact);
                proof {
                    lemma_table_add_in_range(before, key@, f, subs.len() as int);
                    assert(facts_i[k as int] == (key@, f));
                    assert(facts_i.take(k + 1).drop_last() =~= facts_i.take(k as int));
                    assert(facts_i.take(k + 1).last() == facts_i[k as int]);
                }
                k = k + 1;
            }
            proof {
                assert(facts_i.take(n as int) =~= facts_i);
                assert(subs.take(i + 1).drop_last() =~= subs.take(i as int));
                assert(subs.take(i + 1).last() == subs[i as int]);
                crate::facts::lemma_table_add_all_concat(
                    Seq::empty(),
                    all_path_facts(subs.take(i as int)),
                    facts_i,
                );
            }
            i = i + 1;
        }
        proof {
            assert(subs.take(subs.len() as int) =~= subs);
        }
        let ghost t = table@;
        let mut conflicts: Vec<Conflict> = Vec::new();
        let mut k: usize = 0;
        proof {
            assert(t.take(0) =~= Seq::<(Seq<char>, Seq<FactView>)>::empty());
            assert(conflict_views(conflicts@) =~= Seq::<ConflictView>::empty());
        }
        while k < table.entries.len()
            invariant
                k <= table.entries@.len(),
                t == table@,
                t.len() == table.entries@.len(),
                table_in_range(t, subs.len() as int),
                subs == subjects@,
                conflict_views(conflicts@) == path_conflicts(subs, t.take(k as int)),
            decreases table.entries@.len() - k,
        {
            let entry = &table.entries[k];
            proof {
                assert(t[k as int] == (entry.0@, facts_view(entry.1@)));
                assert(t.take(k + 1).drop_last() =~= t.take(k as int));
                assert(t.take(k + 1).last() == t[k as int]);
                assert(subjects_in_range(t[k as int].1, subs.len() as int));
            }
            match path_conflict_for(subjects, &entry.1) {
                Some(c) => {
                    let ghost before = conflicts@;
                    conflicts.push(c);
                    proof {
                        assert(conflict_views(conflicts@) =~= conflict_views(before).push(c@));
                    }
                },
                None => {},
            }
            k = k + 1;
        }
        proof {
            assert(t.take(t.len() as int) =~= t);
        }
        proof {
            lemma_path_conflicts_by_key(subs);
        }
        Ok(AnalyzerOutput { conflicts, analyzed_ini_files: 0, warnings: Vec::new() })
    }
}

proof fn lemma_subject_set_in_range(facts: Seq<FactView>, n: int, i: int)
    requires
        subjects_in_range(facts, n),
        fact_subject_set(facts).contains(i),
    ensures
        0 <= i < n,
    decreases facts.len(),
{
    if facts.len() > 0 {
        if facts.last().subject != i {
            assert(subjects_in_range(facts.drop_last(), n)) by {
                assert forall|k: int| 0 <= k < facts.drop_last().len() implies 0
                    <= #[trigger] facts.drop_last()[k].subject < n by {
                    assert(facts.drop_last()[k] == facts[k]);
                }
            }
            lemma_subject_set_in_range(facts.drop_last(), n, i);
        } else {
            assert(facts[facts.len() - 1].subject == i);
        }
    }
}

proof fn lemma_subject_has_fact(facts: Seq<FactView>, i: int)
    requires
        fact_subject_set(facts).contains(i),
    ensures
        facts.filter(subject_is(i)).len() > 0,
    decreases facts.len(),
{
    let pred = subject_is(i);
    if facts.len() > 0 {
        let rest = facts.drop_last();
        assert(facts =~= rest.push(facts.last()));
        rest.lemma_filter_push(facts.last(), pred);
        if facts.last().subject != i {
            lemma_subject_has_fact(rest, i);
        }
    }
}

/// Every deployment-path conflict is shared by two or more mods, is an
/// error and names no winner.
pub proof fn lemma_path_conflicts_shared(
    subs: Seq<ConflictAnalysisSubject>,
    table: Seq<(Seq<char>, Seq<FactView>)>,
)
    ensures
        forall|k: int|
            0 <= k < path_conflicts(subs, table).len() ==> {
                let c = #[trigger] path_conflicts(subs, table)[k];
                &&& c.participants.len() >= 2
                &&& c.winning_mod_id is None
                &&& c.kind == ConflictKind::DeploymentPath
                &&& c.severity == ConflictSeverity::Error
            },
    decreases table.len(),
{
    if table.len() > 0 {
        lemma_path_conflicts_shared(subs, table.drop_last());
    }
}

} // verus!
