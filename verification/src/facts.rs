//! Facts that enabled mods state about shared resources (a namespace, an
//! override hash), grouped by the resource they name, and the conflicts
//! drawn from the resources that two or more mods claim.
use vstd::prelude::*;
use crate::conflicts::{
    conflict_id, spec_conflict_id, Conflict, ConflictAnalysisSubject, ConflictEvidence, ConflictKind,
    ConflictParticipant, ConflictSeverity, ConflictView, EvidenceView, ParticipantView, conflict_views,
};
use crate::ini_parse::opt_view;
use crate::order::{
    compare_chars, lemma_insert_present, lemma_lex_order, lemma_sorted_insert, lemma_sorted_of, lex_lt,
    sorted_by, sorted_of, strict_total,
};
use crate::path_safety::{storage_chars, storage_form};
use crate::text::{chars_eq, copy_str, from_chars, slice_to_vec, to_chars};

verus! {

/// One statement of a fact by one mod: which subject made it, in which file
/// and section, and what it says.
#[derive(Debug)]
pub struct Fact {
    pub subject_index: usize,
    pub source_path: Vec<char>,
    pub section: Option<Vec<char>>,
    pub detail: Vec<char>,
}

pub struct FactView {
    pub subject: int,
    pub source_path: Seq<char>,
    pub section: Option<Seq<char>>,
    pub detail: Seq<char>,
}

impl View for Fact {
    type V = FactView;

    open spec fn view(&self) -> FactView {
        FactView {
            subject: self.subject_index as int,
            source_path: self.source_path@,
            section: opt_view(self.section),
            detail: self.detail@,
        }
    }
}

pub open spec fn facts_view(v: Seq<Fact>) -> Seq<FactView> {
    v.map_values(|f: Fact| f@)
}

pub open spec fn as_ints(v: Seq<usize>) -> Seq<int> {
    v.map_values(|i: usize| i as int)
}

/// The evidence a fact contributes.
pub open spec fn evidence_of(f: FactView) -> EvidenceView {
    EvidenceView { source_path: f.source_path, section: f.section, detail: f.detail }
}

// ---------------------------------------------------------------------------
// Orders
// ---------------------------------------------------------------------------
/// No section sorts before any section; sections sort by their names.
pub open spec fn opt_lt(a: Option<Seq<char>>, b: Option<Seq<char>>) -> bool {
    match (a, b) {
        (None, Some(_)) => true,
        (Some(x), Some(y)) => lex_lt(x, y),
        _ => false,
    }
}

/// Evidence sorts by the storage form of its file, then by section, then by
/// detail; the file as written breaks the remaining ties.
pub open spec fn evidence_lt(a: EvidenceView, b: EvidenceView) -> bool {
    let pa = storage_form(a.source_path);
    let pb = storage_form(b.source_path);
    ||| lex_lt(pa, pb)
    ||| pa == pb && opt_lt(a.section, b.section)
    ||| pa == pb && a.section == b.section && lex_lt(a.detail, b.detail)
    ||| pa == pb && a.section == b.section && a.detail == b.detail && lex_lt(
        a.source_path,
        b.source_path,
    )
}

pub open spec fn evidence_order() -> spec_fn(EvidenceView, EvidenceView) -> bool {
    |a: EvidenceView, b: EvidenceView| evidence_lt(a, b)
}

/// Participants sort by load order, then by mod name, then by mod id; the
/// position of the subject breaks the remaining ties.
pub open spec fn participant_lt(subs: Seq<ConflictAnalysisSubject>, a: int, b: int) -> bool {
    let x = subs[a];
    let y = subs[b];
    ||| x.load_order < y.load_order
    ||| x.load_order == y.load_order && lex_lt(x.mod_name@, y.mod_name@)
    ||| x.load_order == y.load_order && x.mod_name@ == y.mod_name@ && x.manifest.mod_id
        < y.manifest.mod_id
    ||| x.load_order == y.load_order && x.mod_name@ == y.mod_name@ && x.manifest.mod_id
        == y.manifest.mod_id && a < b
}

pub open spec fn participant_order(subs: Seq<ConflictAnalysisSubject>) -> spec_fn(int, int) -> bool {
    |a: int, b: int| participant_lt(subs, a, b)
}

pub proof fn lemma_evidence_order()
    ensures
        strict_total(evidence_order()),
{
    lemma_lex_order();
    let lt = evidence_order();
    assert forall|a: EvidenceView, b: EvidenceView, c: EvidenceView|
        #[trigger] lt(a, b) && #[trigger] lt(b, c) implies lt(a, c) by {
        assert(evidence_lt(a, b) && evidence_lt(b, c));
    }
    assert forall|a: EvidenceView, b: EvidenceView|
        a == b || lt(a, b) || #[trigger] lt(b, a) by {
        if a != b && !evidence_lt(a, b) && !evidence_lt(b, a) {
            assert(storage_form(a.source_path) == storage_form(b.source_path));
            assert(a.section == b.section);
            assert(a.detail == b.detail);
            assert(a.source_path == b.source_path);
        }
    }
}

pub proof fn lemma_participant_order(subs: Seq<ConflictAnalysisSubject>)
    ensures
        strict_total(participant_order(subs)),
{
    lemma_lex_order();
    let lt = participant_order(subs);
    assert forall|a: int, b: int, c: int| #[trigger] lt(a, b) && #[trigger] lt(b, c) implies lt(a, c) by {
        assert(participant_lt(subs, a, b) && participant_lt(subs, b, c));
    }
    assert forall|a: int, b: int| a == b || lt(a, b) || #[trigger] lt(b, a) by {
        let x = subs[a];
        let y = subs[b];
        if a != b && !participant_lt(subs, a, b) {
            assert(participant_lt(subs, b, a));
        }
    }
}

// ---------------------------------------------------------------------------
// Comparisons
// ---------------------------------------------------------------------------
fn compare_opt(a: &Option<Vec<char>>, b: &Option<Vec<char>>) -> (r: i8)
    ensures
        r < 0 <==> opt_lt(opt_view(*a), opt_view(*b)),
        r == 0 <==> opt_view(*a) == opt_view(*b),
        r > 0 <==> opt_lt(opt_view(*b), opt_view(*a)),
{
    match (a, b) {
        (None, None) => 0,
        (None, Some(_)) => -1,
        (Some(_), None) => 1,
        (Some(x), Some(y)) => compare_chars(x.as_slice(), y.as_slice()),
    }
}

/// Three-way comparison of the evidence of two facts.
fn compare_evidence(a: &Fact, b: &Fact) -> (r: i8)
    ensures
        r < 0 <==> evidence_lt(evidence_of(a@), evidence_of(b@)),
        r == 0 <==> evidence_of(a@) == evidence_of(b@),
        r > 0 <==> evidence_lt(evidence_of(b@), evidence_of(a@)),
{
    proof {
        lemma_lex_order();
    }
    let sa = storage_chars(a.source_path.as_slice());
    let sb = storage_chars(b.source_path.as_slice());
    let c = compare_chars(sa.as_slice(), sb.as_slice());
    if c != 0 {
        return c;
    }
    let c = compare_opt(&a.section, &b.section);
    if c != 0 {
        return c;
    }
    let c = compare_chars(a.detail.as_slice(), b.detail.as_slice());
    if c != 0 {
        return c;
    }
    compare_chars(a.source_path.as_slice(), b.source_path.as_slice())
}

/// Three-way comparison of two subjects in participant order.
fn compare_participants(subs: &Vec<ConflictAnalysisSubject>, a: usize, b: usize) -> (r: i8)
    requires
        a < subs@.len(),
        b < subs@.len(),
    ensures
        r < 0 <==> participant_lt(subs@, a as int, b as int),
        r == 0 <==> a == b,
        r > 0 <==> participant_lt(subs@, b as int, a as int),
{
    proof {
        lemma_lex_order();
    }
    let x = &subs[a];
    let y = &subs[b];
    if x.load_order != y.load_order {
        return if x.load_order < y.load_order {
            -1
        } else {
            1
        };
    }
    let nx = to_chars(x.mod_name.as_str());
    let ny = to_chars(y.mod_name.as_str());
    let c = compare_chars(nx.as_slice(), ny.as_slice());
    if c != 0 {
        return c;
    }
    if x.manifest.mod_id != y.manifest.mod_id {
        return if x.manifest.mod_id < y.manifest.mod_id {
            -1
        } else {
            1
        };
    }
    if a < b {
        -1
    } else if a == b {
        0
    } else {
        1
    }
}

// ---------------------------------------------------------------------------
// The table of facts, keyed by resource
// ---------------------------------------------------------------------------
pub open spec fn keys_sorted(s: Seq<(Seq<char>, Seq<FactView>)>) -> bool {
    forall|i: int, j: int| 0 <= i < j < s.len() ==> lex_lt(#[trigger] s[i].0, #[trigger] s[j].0)
}

/// The table after recording `f` under `key`: appended to the facts of that
/// key, or as the first fact of a new key placed in key order.
pub open spec fn table_add(s: Seq<(Seq<char>, Seq<FactView>)>, key: Seq<char>, f: FactView) -> Seq<
    (Seq<char>, Seq<FactView>),
>
    decreases s.len(),
{
    if s.len() == 0 {
        seq![(key, seq![f])]
    } else if s[0].0 == key {
        s.update(0, (key, s[0].1.push(f)))
    } else if lex_lt(key, s[0].0) {
        seq![(key, seq![f])] + s
    } else {
        seq![s[0]] + table_add(s.drop_first(), key, f)
    }
}

proof fn lemma_table_add_at(s: Seq<(Seq<char>, Seq<FactView>)>, key: Seq<char>, f: FactView, p: int)
    requires
        keys_sorted(s),
        0 <= p <= s.len(),
        forall|j: int| 0 <= j < p ==> lex_lt(#[trigger] s[j].0, key),
        p < s.len() ==> !lex_lt(s[p].0, key),
    ensures
        table_add(s, key, f) == (if p < s.len() && s[p].0 == key {
            s.update(p, (key, s[p].1.push(f)))
        } else {
            s.insert(p, (key, seq![f]))
        }),
    decreases p,
{
    lemma_lex_order();
    if p == 0 {
        if s.len() == 0 {
            assert(seq![(key, seq![f])] =~= s.insert(0, (key, seq![f])));
        } else if s[0].0 != key {
            assert(lex_lt(key, s[0].0));
            assert(seq![(key, seq![f])] + s =~= s.insert(0, (key, seq![f])));
        }
    } else {
        let t = s.drop_first();
        assert(lex_lt(s[0].0, key));
        assert(!lex_lt(key, s[0].0));
        assert forall|j: int| 0 <= j < p - 1 implies lex_lt(#[trigger] t[j].0, key) by {
            assert(s[j + 1].0 == t[j].0);
        }
        lemma_table_add_at(t, key, f, p - 1);
        if p < s.len() && s[p].0 == key {
            assert(seq![s[0]] + t.update(p - 1, (key, t[p - 1].1.push(f))) =~= s.update(
                p,
                (key, s[p].1.push(f)),
            ));
        } else {
            assert(seq![s[0]] + t.insert(p - 1, (key, seq![f])) =~= s.insert(p, (key, seq![f])));
        }
    }
}

/// The facts recorded under `k` in `t`, none when `k` has no entry.
pub open spec fn table_lookup(t: Seq<(Seq<char>, Seq<FactView>)>, k: Seq<char>) -> Seq<FactView>
    decreases t.len(),
{
    if t.len() == 0 {
        Seq::empty()
    } else if t[0].0 == k {
        t[0].1
    } else {
        table_lookup(t.drop_first(), k)
    }
}

/// The facts of `facts` stated under `k`, in order.
pub open spec fn key_facts(facts: Seq<(Seq<char>, FactView)>, k: Seq<char>) -> Seq<FactView>
    decreases facts.len(),
{
    if facts.len() == 0 {
        Seq::empty()
    } else if facts.last().0 == k {
        key_facts(facts.drop_last(), k).push(facts.last().1)
    } else {
        key_facts(facts.drop_last(), k)
    }
}

proof fn lemma_lookup_below(s: Seq<(Seq<char>, Seq<FactView>)>, k: Seq<char>)
    requires
        keys_sorted(s),
        s.len() > 0,
        lex_lt(k, s[0].0),
    ensures
        table_lookup(s, k) == Seq::<FactView>::empty(),
    decreases s.len(),
{
    lemma_lex_order();
    assert(s[0].0 != k);
    assert(table_lookup(s, k) == table_lookup(s.drop_first(), k));
    if s.len() > 1 {
        let t = s.drop_first();
        assert(lex_lt(s[0].0, s[1].0));
        assert forall|i: int, j: int| 0 <= i < j < t.len() implies lex_lt(#[trigger] t[i].0, #[trigger] t[j].0) by {
            assert(t[i] == s[i + 1] && t[j] == s[j + 1]);
        }
        lemma_lookup_below(t, k);
    }
}

/// Lookups in a table that keeps its keys sorted find each entry's own
/// facts.
pub proof fn lemma_lookup_entry(t: Seq<(Seq<char>, Seq<FactView>)>, j: int)
    requires
        keys_sorted(t),
        0 <= j < t.len(),
    ensures
        table_lookup(t, t[j].0) == t[j].1,
    decreases j,
{
    lemma_lex_order();
    if j > 0 {
        let u = t.drop_first();
        assert forall|a: int, b: int| 0 <= a < b < u.len() implies lex_lt(#[trigger] u[a].0, #[trigger] u[b].0) by {
            assert(u[a] == t[a + 1] && u[b] == t[b + 1]);
        }
        assert(lex_lt(t[0].0, t[j].0));
        assert(u[j - 1] == t[j]);
        lemma_lookup_entry(u, j - 1);
    }
}

/// A key with facts has an entry in the table.
pub proof fn lemma_lookup_found(t: Seq<(Seq<char>, Seq<FactView>)>, k: Seq<char>)
    requires
        table_lookup(t, k).len() > 0,
    ensures
        exists|j: int| 0 <= j < t.len() && (#[trigger] t[j]).0 == k,
    decreases t.len(),
{
    if t[0].0 != k {
        lemma_lookup_found(t.drop_first(), k);
        let j = choose|j: int| 0 <= j < t.drop_first().len() && (#[trigger] t.drop_first()[j]).0 == k;
        assert(t[j + 1] == t.drop_first()[j]);
    } else {
        assert(t[0].0 == k);
    }
}

/// Recording a fact appends it to its key's facts and leaves every other
/// key's facts as they were; the keys stay sorted.
pub proof fn lemma_table_add_lookup(s: Seq<(Seq<char>, Seq<FactView>)>, key: Seq<char>, f: FactView)
    requires
        keys_sorted(s),
    ensures
        keys_sorted(table_add(s, key, f)),
        forall|j: int|
            0 <= j < table_add(s, key, f).len() ==> (#[trigger] table_add(s, key, f)[j]).0 == key || exists|
                i: int,
            | 0 <= i < s.len() && (#[trigger] s[i]).0 == table_add(s, key, f)[j].0,
        forall|k: Seq<char>|
            #[trigger] table_lookup(table_add(s, key, f), k) == if k == key {
                table_lookup(s, k).push(f)
            } else {
                table_lookup(s, k)
            },
    decreases s.len(),
{
    lemma_lex_order();
    let r = table_add(s, key, f);
    if s.len() == 0 {
        assert(r == seq![(key, seq![f])]);
        assert forall|k: Seq<char>| #[trigger] table_lookup(r, k) == if k == key {
            table_lookup(s, k).push(f)
        } else {
            table_lookup(s, k)
        } by {
            assert(r.drop_first().len() == 0);
            assert(table_lookup(r.drop_first(), k) == Seq::<FactView>::empty());
            assert(table_lookup(s, k) == Seq::<FactView>::empty());
            assert(r[0] == (key, seq![f]));
            assert(seq![f] =~= Seq::<FactView>::empty().push(f));
            if k == key {
                assert(table_lookup(r, k) == seq![f]);
            } else {
                assert(table_lookup(r, k) == table_lookup(r.drop_first(), k));
            }
        }
    } else if s[0].0 == key {
        assert(r == s.update(0, (key, s[0].1.push(f))));
        assert forall|i: int, j: int| 0 <= i < j < r.len() implies lex_lt(#[trigger] r[i].0, #[trigger] r[j].0) by {
            assert(r[i].0 == s[i].0 && r[j].0 == s[j].0);
        }
        assert forall|j: int| 0 <= j < r.len() implies (#[trigger] r[j]).0 == key || exists|i: int|
            0 <= i < s.len() && (#[trigger] s[i]).0 == r[j].0 by {
            assert(s[j].0 == r[j].0);
        }
        assert(r.drop_first() =~= s.drop_first());
        assert forall|k: Seq<char>| #[trigger] table_lookup(r, k) == if k == key {
            table_lookup(s, k).push(f)
        } else {
            table_lookup(s, k)
        } by {
            if k != key {
                assert(table_lookup(r, k) == table_lookup(r.drop_first(), k));
                assert(table_lookup(s, k) == table_lookup(s.drop_first(), k));
            }
        }
    } else if lex_lt(key, s[0].0) {
        assert(r == seq![(key, seq![f])] + s);
        assert forall|i: int, j: int| 0 <= i < j < r.len() implies lex_lt(#[trigger] r[i].0, #[trigger] r[j].0) by {
            if i == 0 {
                assert(r[j] == s[j - 1]);
                if j > 1 {
                    assert(lex_lt(s[0].0, s[j - 1].0));
                }
            } else {
                assert(r[i] == s[i - 1] && r[j] == s[j - 1]);
            }
        }
        assert forall|j: int| 0 <= j < r.len() implies (#[trigger] r[j]).0 == key || exists|i: int|
            0 <= i < s.len() && (#[trigger] s[i]).0 == r[j].0 by {
            if j > 0 {
                assert(s[j - 1] == r[j]);
            }
        }
        assert(r.drop_first() =~= s);
        lemma_lookup_below(s, key);
        assert(seq![f] =~= Seq::<FactView>::empty().push(f));
        assert forall|k: Seq<char>| #[trigger] table_lookup(r, k) == if k == key {
            table_lookup(s, k).push(f)
        } else {
            table_lookup(s, k)
        } by {
            if k != key {
                assert(table_lookup(r, k) == table_lookup(r.drop_first(), k));
            } else {
                assert(table_lookup(r, k) == seq![f]);
            }
        }
    } else {
        let t = s.drop_first();
        assert forall|i: int, j: int| 0 <= i < j < t.len() implies lex_lt(#[trigger] t[i].0, #[trigger] t[j].0) by {
            assert(t[i] == s[i + 1] && t[j] == s[j + 1]);
        }
        lemma_table_add_lookup(t, key, f);
        let rt = table_add(t, key, f);
        assert(r == seq![s[0]] + rt);
        assert(lex_lt(s[0].0, key));
        assert forall|j: int| 0 <= j < rt.len() implies lex_lt(s[0].0, #[trigger] rt[j].0) by {
            if rt[j].0 != key {
                let i = choose|i: int| 0 <= i < t.len() && (#[trigger] t[i]).0 == rt[j].0;
                assert(t[i] == s[i + 1]);
                assert(lex_lt(s[0].0, s[i + 1].0));
            }
        }
        assert forall|i: int, j: int| 0 <= i < j < r.len() implies lex_lt(#[trigger] r[i].0, #[trigger] r[j].0) by {
            if i == 0 {
                assert(r[j] == rt[j - 1]);
            } else {
                assert(r[i] == rt[i - 1] && r[j] == rt[j - 1]);
            }
        }
        assert forall|j: int| 0 <= j < r.len() implies (#[trigger] r[j]).0 == key || exists|i: int|
            0 <= i < s.len() && (#[trigger] s[i]).0 == r[j].0 by {
            if j == 0 {
                assert(s[0].0 == r[0].0);
            } else {
                assert(r[j] == rt[j - 1]);
                if rt[j - 1].0 != key {
                    let i = choose|i: int| 0 <= i < t.len() && (#[trigger] t[i]).0 == rt[j - 1].0;
                    assert(t[i] == s[i + 1]);
                }
            }
        }
        assert(r.drop_first() =~= rt);
        assert forall|k: Seq<char>| #[trigger] table_lookup(r, k) == if k == key {
            table_lookup(s, k).push(f)
        } else {
            table_lookup(s, k)
        } by {
            if k == s[0].0 {
                assert(table_lookup(r, k) == s[0].1);
            } else {
                assert(table_lookup(r, k) == table_lookup(rt, k));
                assert(table_lookup(s, k) == table_lookup(t, k));
                assert(table_lookup(rt, k) == if k == key {
                    table_lookup(t, k).push(f)
                } else {
                    table_lookup(t, k)
                });
            }
        }
    }
}

/// Recording facts one by one from an empty table files each under its
/// key: the facts of a key are exactly those stated under it, in order.
pub proof fn lemma_table_add_all_lookup(facts: Seq<(Seq<char>, FactView)>)
    ensures
        keys_sorted(table_add_all(Seq::empty(), facts)),
        forall|k: Seq<char>| #[trigger] table_lookup(table_add_all(Seq::empty(), facts), k) == key_facts(facts, k),
    decreases facts.len(),
{
    if facts.len() > 0 {
        lemma_table_add_all_lookup(facts.drop_last());
        let t = table_add_all(Seq::empty(), facts.drop_last());
        lemma_table_add_lookup(t, facts.last().0, facts.last().1);
        assert forall|k: Seq<char>| #[trigger] table_lookup(table_add_all(Seq::empty(), facts), k) == key_facts(
            facts,
            k,
        ) by {
            assert(table_lookup(table_add(t, facts.last().0, facts.last().1), k) == if k == facts.last().0 {
                table_lookup(t, k).push(facts.last().1)
            } else {
                table_lookup(t, k)
            });
        }
    } else {
        assert forall|k: Seq<char>| #[trigger] table_lookup(table_add_all(Seq::empty(), facts), k) == key_facts(
            facts,
            k,
        ) by {
        }
    }
}

/// `t` after recording each of `facts` in order.
pub open spec fn table_add_all(
    t: Seq<(Seq<char>, Seq<FactView>)>,
    facts: Seq<(Seq<char>, FactView)>,
) -> Seq<(Seq<char>, Seq<FactView>)>
    decreases facts.len(),
{
    if facts.len() == 0 {
        t
    } else {
        table_add(table_add_all(t, facts.drop_last()), facts.last().0, facts.last().1)
    }
}

pub proof fn lemma_table_add_all_concat(
    t: Seq<(Seq<char>, Seq<FactView>)>,
    a: Seq<(Seq<char>, FactView)>,
    b: Seq<(Seq<char>, FactView)>,
)
    ensures
        table_add_all(t, a + b) == table_add_all(table_add_all(t, a), b),
    decreases b.len(),
{
    if b.len() == 0 {
        assert(a + b =~= a);
    } else {
        lemma_table_add_all_concat(t, a, b.drop_last());
        assert((a + b).drop_last() =~= a + b.drop_last());
        assert((a + b).last() == b.last());
    }
}

pub open spec fn table_in_range(t: Seq<(Seq<char>, Seq<FactView>)>, n: int) -> bool {
    forall|k: int| 0 <= k < t.len() ==> subjects_in_range(#[trigger] t[k].1, n)
}

pub proof fn lemma_table_add_in_range(t: Seq<(Seq<char>, Seq<FactView>)>, key: Seq<char>, f: FactView, n: int)
    requires
        table_in_range(t, n),
        0 <= f.subject < n,
    ensures
        table_in_range(table_add(t, key, f), n),
    decreases t.len(),
{
    let r = table_add(t, key, f);
    if t.len() == 0 {
        assert(subjects_in_range(r[0].1, n));
    } else if t[0].0 == key {
        assert(subjects_in_range(t[0].1, n));
        assert forall|k: int| 0 <= k < r.len() implies subjects_in_range(#[trigger] r[k].1, n) by {
            if k == 0 {
                assert(r[0].1 == t[0].1.push(f));
                assert forall|q: int| 0 <= q < r[0].1.len() implies 0 <= #[trigger] r[0].1[q].subject
                    < n by {
                    if q < t[0].1.len() {
                        assert(r[0].1[q] == t[0].1[q]);
                    }
                }
            } else {
                assert(r[k] == t[k]);
            }
        }
    } else if lex_lt(key, t[0].0) {
        assert forall|k: int| 0 <= k < r.len() implies subjects_in_range(#[trigger] r[k].1, n) by {
            if k > 0 {
                assert(r[k] == t[k - 1]);
            } else {
                assert(r[0].1 =~= seq![f]);
            }
        }
    } else {
        let rest = t.drop_first();
        assert forall|k: int| 0 <= k < rest.len() implies subjects_in_range(#[trigger] rest[k].1, n) by {
            assert(rest[k] == t[k + 1]);
        }
        lemma_table_add_in_range(rest, key, f, n);
        let tail = table_add(rest, key, f);
        assert forall|k: int| 0 <= k < r.len() implies subjects_in_range(#[trigger] r[k].1, n) by {
            if k > 0 {
                assert(r[k] == tail[k - 1]);
            } else {
                assert(r[0] == t[0]);
            }
        }
    }
}

/// Facts grouped by the resource they name, in ascending key order.
#[derive(Debug)]
pub struct FactTable {
    pub entries: Vec<(Vec<char>, Vec<Fact>)>,
}

impl View for FactTable {
    type V = Seq<(Seq<char>, Seq<FactView>)>;

    open spec fn view(&self) -> Seq<(Seq<char>, Seq<FactView>)> {
        self.entries@.map_values(|e: (Vec<char>, Vec<Fact>)| (e.0@, facts_view(e.1@)))
    }
}

impl FactTable {
    pub open spec fn wf(&self) -> bool {
        keys_sorted(self@)
    }

    pub fn new() -> (t: FactTable)
        ensures
            t.wf(),
            t@ == Seq::<(Seq<char>, Seq<FactView>)>::empty(),
    {
        let t = FactTable { entries: Vec::new() };
        proof {
            assert(t@ =~= Seq::<(Seq<char>, Seq<FactView>)>::empty());
        }
        t
    }

    /// Records `fact` under `key`.
    pub fn add(&mut self, key: Vec<char>, fact: Fact)
        requires
            old(self).wf(),
        ensures
            final(self).wf(),
            final(self)@ == table_add(old(self)@, key@, fact@),
    {
        let ghost s = self@;
        let ghost f = fact@;
        proof {
            lemma_lex_order();
        }
        let mut i: usize = 0;
        while i < self.entries.len()
            invariant
                i <= self.entries@.len(),
                self@ == s,
                keys_sorted(s),
                forall|j: int| 0 <= j < i ==> lex_lt(#[trigger] s[j].0, key@),
            ensures
                i <= self.entries@.len(),
                self@ == s,
                forall|j: int| 0 <= j < i ==> lex_lt(#[trigger] s[j].0, key@),
                i < s.len() ==> !lex_lt(s[i as int].0, key@),
            decreases self.entries@.len() - i,
        {
            let c = compare_chars(self.entries[i].0.as_slice(), key.as_slice());
            proof {
                assert(s[i as int].0 == self.entries@[i as int].0@);
            }
            if c >= 0 {
                break;
            }
            i = i + 1;
        }
        proof {
            lemma_table_add_at(s, key@, f, i as int);
        }
        let found = i < self.entries.len() && chars_eq(self.entries[i].0.as_slice(), key.as_slice());
        if found {
            let mut entry = self.entries.remove(i);
            entry.1.push(fact);
            self.entries.insert(i, entry);
            proof {
                assert(facts_view(entry.1@) =~= s[i as int].1.push(f));
                assert(self@ =~= s.update(i as int, (key@, s[i as int].1.push(f))));
            }
        } else {
            let mut facts: Vec<Fact> = Vec::new();
            facts.push(fact);
            proof {
                assert(facts_view(facts@) =~= seq![f]);
            }
            self.entries.insert(i, (key, facts));
            proof {
                assert(self@ =~= s.insert(i as int, (key@, seq![f])));
            }
        }
        proof {
            let n = self@;
            assert forall|a: int, b: int| 0 <= a < b < n.len() implies lex_lt(
                #[trigger] n[a].0,
                #[trigger] n[b].0,
            ) by {
                if found {
                    assert(lex_lt(s[a].0, s[b].0));
                } else {
                    if i < s.len() {
                        assert(lex_lt(key@, s[i as int].0));
                    }
                    if a < i && b == i {
                    } else if a < i && b > i {
                        assert(lex_lt(s[a].0, key@));
                        if b - 1 > i {
                            assert(lex_lt(s[i as int].0, s[b - 1].0));
                        }
                    } else if a == i && b > i {
                        if b - 1 > i {
                            assert(lex_lt(s[i as int].0, s[b - 1].0));
                        }
                    } else if a > i {
                        assert(lex_lt(s[a - 1].0, s[b - 1].0));
                    } else {
                        assert(lex_lt(s[a].0, s[b].0));
                    }
                }
            }
        }
    }
}


// ---------------------------------------------------------------------------
// Conflicts drawn from the table
// ---------------------------------------------------------------------------
/// The subjects that state at least one of `facts`.
pub open spec fn fact_subject_set(facts: Seq<FactView>) -> Set<int>
    decreases facts.len(),
{
    if facts.len() == 0 {
        Set::empty()
    } else {
        fact_subject_set(facts.drop_last()).insert(facts.last().subject)
    }
}

/// The evidence subject `i` gives through `facts`, duplicates merged.
pub open spec fn evidence_set(facts: Seq<FactView>, i: int) -> Set<EvidenceView>
    decreases facts.len(),
{
    if facts.len() == 0 {
        Set::empty()
    } else {
        let rest = evidence_set(facts.drop_last(), i);
        if facts.last().subject == i {
            rest.insert(evidence_of(facts.last()))
        } else {
            rest
        }
    }
}

/// The subjects taking part, in participant order.
pub open spec fn participant_indices(subs: Seq<ConflictAnalysisSubject>, facts: Seq<FactView>) -> Seq<
    int,
> {
    sorted_of(fact_subject_set(facts), participant_order(subs))
}

/// Subject `i` as a participant: its identity and its evidence in evidence
/// order.
pub open spec fn participant_view(subs: Seq<ConflictAnalysisSubject>, facts: Seq<FactView>, i: int) -> ParticipantView {
    ParticipantView {
        mod_id: subs[i].manifest.mod_id,
        mod_name: subs[i].mod_name@,
        load_order: subs[i].load_order,
        evidence: sorted_of(evidence_set(facts, i), evidence_order()),
    }
}

/// The resource key of a conflict: the kind's prefix, `:` and the fact key.
pub open spec fn resource_key_of(prefix: Seq<char>, key: Seq<char>) -> Seq<char> {
    prefix + seq![':'] + key
}

/// The conflict over the resource `key` stated by `facts`.
pub open spec fn fact_conflict(
    subs: Seq<ConflictAnalysisSubject>,
    analyzer_id: Seq<char>,
    kind: ConflictKind,
    severity: ConflictSeverity,
    prefix: Seq<char>,
    summary: Seq<char>,
    key: Seq<char>,
    facts: Seq<FactView>,
) -> ConflictView {
    let order = participant_indices(subs, facts);
    let rk = resource_key_of(prefix, key);
    ConflictView {
        id: spec_conflict_id(analyzer_id, kind, rk, order.map_values(|i: int| subs[i].manifest.mod_id)),
        analyzer_id: analyzer_id,
        kind: kind,
        severity: severity,
        resource_key: rk,
        summary: summary,
        participants: order.map_values(|i: int| participant_view(subs, facts, i)),
        winning_mod_id: None,
    }
}

/// One conflict for each key, in key order, that two or more subjects state.
pub open spec fn fact_conflicts(
    subs: Seq<ConflictAnalysisSubject>,
    analyzer_id: Seq<char>,
    kind: ConflictKind,
    severity: ConflictSeverity,
    prefix: Seq<char>,
    summary: Seq<char>,
    table: Seq<(Seq<char>, Seq<FactView>)>,
) -> Seq<ConflictView>
    decreases table.len(),
{
    if table.len() == 0 {
        Seq::empty()
    } else {
        let rest = fact_conflicts(subs, analyzer_id, kind, severity, prefix, summary, table.drop_last());
        let (key, facts) = table.last();
        if participant_indices(subs, facts).len() >= 2 {
            rest.push(fact_conflict(subs, analyzer_id, kind, severity, prefix, summary, key, facts))
        } else {
            rest
        }
    }
}

pub open spec fn subjects_in_range(facts: Seq<FactView>, n: int) -> bool {
    forall|k: int| 0 <= k < facts.len() ==> 0 <= #[trigger] facts[k].subject < n
}

/// The subjects stating `facts`, in participant order.
fn participants_of(subs: &Vec<ConflictAnalysisSubject>, facts: &Vec<Fact>) -> (r: Vec<usize>)
    requires
        subjects_in_range(facts_view(facts@), subs@.len() as int),
    ensures
        sorted_by(as_ints(r@), participant_order(subs@)),
        as_ints(r@).to_set() == fact_subject_set(facts_view(facts@)),
        forall|j: int| 0 <= j < r@.len() ==> #[trigger] r@[j] < subs@.len(),
{
    let ghost lt = participant_order(subs@);
    let ghost fv = facts_view(facts@);
    proof {
        lemma_participant_order(subs@);
        assert(as_ints(Seq::<usize>::empty()) =~= Seq::<int>::empty());
        assert(fv.take(0) =~= Seq::<FactView>::empty());
        assert(as_ints(Seq::<usize>::empty()).to_set() =~= Set::<int>::empty());
    }
    let mut r: Vec<usize> = Vec::new();
    let mut k: usize = 0;
    while k < facts.len()
        invariant
            k <= facts@.len(),
            fv == facts_view(facts@),
            lt == participant_order(subs@),
            strict_total(lt),
            subjects_in_range(fv, subs@.len() as int),
            sorted_by(as_ints(r@), lt),
            as_ints(r@).to_set() == fact_subject_set(fv.take(k as int)),
            forall|j: int| 0 <= j < r@.len() ==> #[trigger] r@[j] < subs@.len(),
        decreases facts@.len() - k,
    {
        let x = facts[k].subject_index;
        proof {
            assert(fv[k as int].subject == x as int);
        }
        let mut p: usize = 0;
        let mut present = false;
        while p < r.len()
            invariant_except_break
                !present,
            invariant
                p <= r@.len(),
                x < subs@.len(),
                forall|j: int| 0 <= j < r@.len() ==> #[trigger] r@[j] < subs@.len(),
                forall|j: int| 0 <= j < p ==> participant_lt(subs@, #[trigger] r@[j] as int, x as int),
            ensures
                p <= r@.len(),
                forall|j: int| 0 <= j < p ==> participant_lt(subs@, #[trigger] r@[j] as int, x as int),
                present ==> p < r@.len() && r@[p as int] == x,
                !present && p < r@.len() ==> participant_lt(subs@, x as int, r@[p as int] as int),
            decreases r@.len() - p,
        {
            let c = compare_participants(subs, r[p], x);
            if c == 0 {
                present = true;
                break;
            }
            if c > 0 {
                break;
            }
            p = p + 1;
        }
        let ghost before = as_ints(r@);
        if present {
            proof {
                assert(before[p as int] == x as int);
                lemma_insert_present(before, p as int, x as int);
            }
        } else {
            r.insert(p, x);
            proof {
                assert forall|j: int| 0 <= j < p implies lt(#[trigger] before[j], x as int) by {
                    assert(participant_lt(subs@, r@[j] as int, x as int));
                }
                lemma_sorted_insert(before, p as int, x as int, lt);
                assert(as_ints(r@) =~= before.insert(p as int, x as int));
            }
        }
        proof {
            assert(fv.take(k + 1).drop_last() =~= fv.take(k as int));
            assert(fv.take(k + 1).last() == fv[k as int]);
        }
        k = k + 1;
    }
    proof {
        assert(fv.take(fv.len() as int) =~= fv);
    }
    r
}

pub open spec fn evidence_views(facts: Seq<Fact>, r: Seq<usize>) -> Seq<EvidenceView> {
    r.map_values(|k: usize| evidence_of(facts[k as int]@))
}

/// The facts of subject `i`, as indices in evidence order with duplicate
/// evidence merged.
fn evidence_indices(facts: &Vec<Fact>, i: usize) -> (r: Vec<usize>)
    ensures
        sorted_by(evidence_views(facts@, r@), evidence_order()),
        evidence_views(facts@, r@).to_set() == evidence_set(facts_view(facts@), i as int),
        forall|j: int| 0 <= j < r@.len() ==> #[trigger] r@[j] < facts@.len(),
{
    let ghost lt = evidence_order();
    let ghost fv = facts_view(facts@);
    proof {
        lemma_evidence_order();
        assert(evidence_views(facts@, Seq::<usize>::empty()) =~= Seq::<EvidenceView>::empty());
        assert(fv.take(0) =~= Seq::<FactView>::empty());
        assert(Seq::<EvidenceView>::empty().to_set() =~= Set::<EvidenceView>::empty());
    }
    let mut r: Vec<usize> = Vec::new();
    let mut k: usize = 0;
    while k < facts.len()
        invariant
            k <= facts@.len(),
            fv == facts_view(facts@),
            lt == evidence_order(),
            strict_total(lt),
            sorted_by(evidence_views(facts@, r@), lt),
            evidence_views(facts@, r@).to_set() == evidence_set(fv.take(k as int), i as int),
            forall|j: int| 0 <= j < r@.len() ==> #[trigger] r@[j] < facts@.len(),
        decreases facts@.len() - k,
    {
        let ghost before = evidence_views(facts@, r@);
        proof {
            assert(fv.take(k + 1).drop_last() =~= fv.take(k as int));
            assert(fv.take(k + 1).last() == fv[k as int]);
            assert(fv[k as int] == facts@[k as int]@);
        }
        if facts[k].subject_index == i {
            let mut p: usize = 0;
            let mut present = false;
            while p < r.len()
                invariant_except_break
                    !present,
                invariant
                    p <= r@.len(),
                    k < facts@.len(),
                    before == evidence_views(facts@, r@),
                    forall|j: int| 0 <= j < r@.len() ==> #[trigger] r@[j] < facts@.len(),
                    forall|j: int|
                        0 <= j < p ==> evidence_lt(#[trigger] before[j], evidence_of(facts@[k as int]@)),
                ensures
                    p <= r@.len(),
                    forall|j: int|
                        0 <= j < p ==> evidence_lt(#[trigger] before[j], evidence_of(facts@[k as int]@)),
                    present ==> p < r@.len() && before[p as int] == evidence_of(facts@[k as int]@),
                    !present && p < r@.len() ==> evidence_lt(
                        evidence_of(facts@[k as int]@),
                        before[p as int],
                    ),
                decreases r@.len() - p,
            {
                let c = compare_evidence(&facts[r[p]], &facts[k]);
                if c == 0 {
                    present = true;
                    break;
                }
                if c > 0 {
                    break;
                }
                p = p + 1;
            }
            let ghost e = evidence_of(facts@[k as int]@);
            if present {
                proof {
                    lemma_insert_present(before, p as int, e);
                }
            } else {
                r.insert(p, k);
                proof {
                    assert forall|j: int| 0 <= j < p implies lt(#[trigger] before[j], e) by {
                    }
                    lemma_sorted_insert(before, p as int, e, lt);
                    assert(evidence_views(facts@, r@) =~= before.insert(p as int, e));
                }
            }
        }
        k = k + 1;
    }
    proof {
        assert(fv.take(fv.len() as int) =~= fv);
    }
    r
}

fn text_option(o: &Option<Vec<char>>) -> (r: Option<String>)
    ensures
        crate::conflicts::opt_text(r) == opt_view(*o),
{
    match o {
        Some(v) => Some(from_chars(v.as_slice())),
        None => None,
    }
}

/// The evidence of `fact` as reported.
fn evidence_from(fact: &Fact) -> (e: ConflictEvidence)
    ensures
        e@ == evidence_of(fact@),
{
    ConflictEvidence {
        source_path: from_chars(fact.source_path.as_slice()),
        section: text_option(&fact.section),
        detail: from_chars(fact.detail.as_slice()),
    }
}

/// Subject `i` as a participant of the conflict stated by `facts`.
fn participant_from(subs: &Vec<ConflictAnalysisSubject>, facts: &Vec<Fact>, i: usize) -> (p:
    ConflictParticipant)
    requires
        i < subs@.len(),
    ensures
        p@ == participant_view(subs@, facts_view(facts@), i as int),
{
    let idx = evidence_indices(facts, i);
    let mut evidence: Vec<ConflictEvidence> = Vec::new();
    let mut j: usize = 0;
    while j < idx.len()
        invariant
            j <= idx@.len(),
            forall|q: int| 0 <= q < idx@.len() ==> #[trigger] idx@[q] < facts@.len(),
            evidence@.map_values(|e: ConflictEvidence| e@) == evidence_views(facts@, idx@).take(
                j as int,
            ),
        decreases idx@.len() - j,
    {
        let e = evidence_from(&facts[idx[j]]);
        let ghost before = evidence@;
        evidence.push(e);
        proof {
            let ev = evidence_views(facts@, idx@);
            assert(ev[j as int] == evidence_of(facts@[idx@[j as int] as int]@));
            assert(evidence@.map_values(|e: ConflictEvidence| e@) =~= before.map_values(
                |e: ConflictEvidence| e@,
            ).push(ev[j as int]));
            assert(evidence@.map_values(|e: ConflictEvidence| e@) =~= evidence_views(
                facts@,
                idx@,
            ).take(j + 1));
        }
        j = j + 1;
    }
    proof {
        let ev = evidence_views(facts@, idx@);
        assert(ev.take(ev.len() as int) =~= ev);
        lemma_evidence_order();
        lemma_sorted_of(ev, evidence_order());
    }
    let subject = &subs[i];
    ConflictParticipant {
        mod_id: subject.mod_id(),
        mod_name: copy_str(subject.mod_name.as_str()),
        load_order: subject.load_order,
        evidence,
    }
}

/// The conflict over `key` when two or more subjects state its facts.
fn conflict_for(
    subs: &Vec<ConflictAnalysisSubject>,
    analyzer_id: &str,
    kind: ConflictKind,
    severity: ConflictSeverity,
    prefix: &str,
    summary: &str,
    key: &Vec<char>,
    facts: &Vec<Fact>,
) -> (r: Option<Conflict>)
    requires
        subjects_in_range(facts_view(facts@), subs@.len() as int),
    ensures
        r is Some <==> participant_indices(subs@, facts_view(facts@)).len() >= 2,
        r matches Some(c) ==> c@ == fact_conflict(
            subs@,
            analyzer_id@,
            kind,
            severity,
            prefix@,
            summary@,
            key@,
            facts_view(facts@),
        ),
{
    let ghost fv = facts_view(facts@);
    let order = participants_of(subs, facts);
    let ghost oi = as_ints(order@);
    proof {
        lemma_participant_order(subs@);
        lemma_sorted_of(oi, participant_order(subs@));
    }
    if order.len() < 2 {
        return None;
    }
    let mut participants: Vec<ConflictParticipant> = Vec::new();
    let mut ids: Vec<u128> = Vec::new();
    let mut j: usize = 0;
    while j < order.len()
        invariant
            j <= order@.len(),
            oi == as_ints(order@),
            fv == facts_view(facts@),
            forall|q: int| 0 <= q < order@.len() ==> #[trigger] order@[q] < subs@.len(),
            participants@.map_values(|p: ConflictParticipant| p@) == oi.map_values(
                |i: int| participant_view(subs@, fv, i),
            ).take(j as int),
            ids@ == oi.map_values(|i: int| subs@[i].manifest.mod_id).take(j as int),
        decreases order@.len() - j,
    {
        let i = order[j];
        let p = participant_from(subs, facts, i);
        let ghost pv = p@;
        proof {
            assert(pv == participant_view(subs@, fv, i as int));
        }
        let ghost before = participants@;
        participants.push(p);
        ids.push(subs[i].mod_id());
        proof {
            assert(oi[j as int] == i as int);
            assert(participants@.map_values(|p: ConflictParticipant| p@) =~= before.map_values(
                |p: ConflictParticipant| p@,
            ).push(pv));
            assert(participants@.map_values(|p: ConflictParticipant| p@) =~= oi.map_values(
                |i: int| participant_view(subs@, fv, i),
            ).take(j + 1));
            assert(ids@ =~= oi.map_values(|i: int| subs@[i].manifest.mod_id).take(j + 1));
        }
        j = j + 1;
    }
    proof {
        let pv = oi.map_values(|i: int| participant_view(subs@, fv, i));
        let iv = oi.map_values(|i: int| subs@[i].manifest.mod_id);
        assert(pv.take(pv.len() as int) =~= pv);
        assert(iv.take(iv.len() as int) =~= iv);
    }
    let mut rk = to_chars(prefix);
    rk.push(':');
    let ghost head = rk@;
    rk.extend_from_slice(key.as_slice());
    proof {
        assert(rk@ =~= resource_key_of(prefix@, key@));
    }
    let resource_key = from_chars(rk.as_slice());
    let id = conflict_id(analyzer_id, kind, resource_key.as_str(), ids);
    Some(
        Conflict {
            id,
            analyzer_id: copy_str(analyzer_id),
            kind,
            severity,
            resource_key,
            summary: copy_str(summary),
            participants,
            winning_mod_id: None,
        },
    )
}

/// Appends, in key order, the conflict of every key of `table` that two or
/// more subjects state.
pub fn append_fact_conflicts(
    subs: &Vec<ConflictAnalysisSubject>,
    table: &FactTable,
    analyzer_id: &str,
    kind: ConflictKind,
    severity: ConflictSeverity,
    prefix: &str,
    summary: &str,
    conflicts: &mut Vec<Conflict>,
)
    requires
        forall|k: int|
            0 <= k < table@.len() ==> subjects_in_range(#[trigger] table@[k].1, subs@.len() as int),
    ensures
        conflict_views(final(conflicts)@) == conflict_views(old(conflicts)@) + fact_conflicts(
            subs@,
            analyzer_id@,
            kind,
            severity,
            prefix@,
            summary@,
            table@,
        ),
{
    let ghost base = conflict_views(conflicts@);
    let ghost t = table@;
    let mut k: usize = 0;
    proof {
        assert(t.take(0) =~= Seq::<(Seq<char>, Seq<FactView>)>::empty());
        assert(conflict_views(conflicts@) =~= base + Seq::<ConflictView>::empty());
    }
    while k < table.entries.len()
        invariant
            k <= table.entries@.len(),
            t == table@,
            t.len() == table.entries@.len(),
            forall|q: int| 0 <= q < t.len() ==> subjects_in_range(#[trigger] t[q].1, subs@.len() as int),
            conflict_views(conflicts@) == base + fact_conflicts(
                subs@,
                analyzer_id@,
                kind,
                severity,
                prefix@,
                summary@,
                t.take(k as int),
            ),
        decreases table.entries@.len() - k,
    {
        let entry = &table.entries[k];
        proof {
            assert(t[k as int] == (entry.0@, facts_view(entry.1@)));
            assert(t.take(k + 1).drop_last() =~= t.take(k as int));
            assert(t.take(k + 1).last() == t[k as int]);
            assert(subjects_in_range(t[k as int].1, subs@.len() as int));
            assert(t[k as int].1 == facts_view(entry.1@));
        }
        let found = conflict_for(subs, analyzer_id, kind, severity, prefix, summary, &entry.0, &entry.1);
        match found {
            Some(c) => {
                let ghost before = conflicts@;
                conflicts.push(c);
                proof {
                    assert(conflict_views(conflicts@) =~= conflict_views(before).push(c@));
                }
            },
            None => {},
        }
        k = k + 1;
    }
    proof {
        assert(t.take(t.len() as int) =~= t);
    }
}

/// Every conflict drawn from a fact table is shared by two or more mods and
/// names no winner.
pub proof fn lemma_fact_conflicts_shared(
    subs: Seq<ConflictAnalysisSubject>,
    analyzer_id: Seq<char>,
    kind: ConflictKind,
    severity: ConflictSeverity,
    prefix: Seq<char>,
    summary: Seq<char>,
    table: Seq<(Seq<char>, Seq<FactView>)>,
)
    ensures
        forall|k: int|
            0 <= k < fact_conflicts(subs, analyzer_id, kind, severity, prefix, summary, table).len()
                ==> {
                let c = #[trigger] fact_conflicts(
                    subs,
                    analyzer_id,
                    kind,
                    severity,
                    prefix,
                    summary,
                    table,
                )[k];
                &&& c.participants.len() >= 2
                &&& c.winning_mod_id is None
                &&& c.kind == kind
                &&& c.severity == severity
            },
    decreases table.len(),
{
    if table.len() > 0 {
        lemma_fact_conflicts_shared(subs, analyzer_id, kind, severity, prefix, summary, table.drop_last());
    }
}

} // verus!
