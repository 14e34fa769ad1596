//! Combining the outputs of all analyzers into one report.
use vstd::prelude::*;
use crate::conflicts::{
    conflict_views, kind_rank, severity_rank, spec_kind_rank, spec_severity_rank, text_views,
    AnalyzerOutput, Conflict, ConflictView,
};
use crate::error::{msg, AppError};
use crate::order::{compare_chars, lemma_lex_order, lex_lt, sorted_insert, strictly_sorted, views};
use crate::text::{from_chars, to_chars};

verus! {

/// The report order: errors first, then by kind, resource and identifier.
pub open spec fn conflict_key_lt(a: ConflictView, b: ConflictView) -> bool {
    let (sa, sb) = (spec_severity_rank(a.severity), spec_severity_rank(b.severity));
    let (ka, kb) = (spec_kind_rank(a.kind), spec_kind_rank(b.kind));
    ||| sa < sb
    ||| sa == sb && ka < kb
    ||| sa == sb && ka == kb && lex_lt(a.resource_key, b.resource_key)
    ||| sa == sb && ka == kb && a.resource_key == b.resource_key && lex_lt(a.id, b.id)
}

/// No conflict sorts strictly before one listed ahead of it.
pub open spec fn conflicts_in_order(s: Seq<ConflictView>) -> bool {
    forall|i: int, j: int| 0 <= i < j < s.len() ==> !conflict_key_lt(#[trigger] s[j], #[trigger] s[i])
}

/// All conflicts of all outputs, output by output.
pub open spec fn all_conflicts(outs: Seq<AnalyzerOutput>) -> Seq<ConflictView>
    decreases outs.len(),
{
    if outs.len() == 0 {
        Seq::empty()
    } else {
        all_conflicts(outs.drop_last()) + conflict_views(outs.last().conflicts@)
    }
}

/// All warnings of all outputs.
pub open spec fn all_warnings(outs: Seq<AnalyzerOutput>) -> Seq<Seq<char>>
    decreases outs.len(),
{
    if outs.len() == 0 {
        Seq::empty()
    } else {
        all_warnings(outs.drop_last()) + text_views(outs.last().warnings@)
    }
}

/// The number of INI files all outputs analyzed.
pub open spec fn total_files(outs: Seq<AnalyzerOutput>) -> int
    decreases outs.len(),
{
    if outs.len() == 0 {
        0
    } else {
        total_files(outs.drop_last()) + outs.last().analyzed_ini_files
    }
}

/// Whether `a` sorts strictly before `b` in report order.
fn conflict_before(a: &Conflict, b: &Conflict) -> (r: bool)
    ensures
        r == conflict_key_lt(a@, b@),
{
    let sa = severity_rank(a.severity);
    let sb = severity_rank(b.severity);
    if sa != sb {
        return sa < sb;
    }
    let ka = kind_rank(a.kind);
    let kb = kind_rank(b.kind);
    if ka != kb {
        return ka < kb;
    }
    let ra = to_chars(a.resource_key.as_str());
    let rb = to_chars(b.resource_key.as_str());
    let c = compare_chars(ra.as_slice(), rb.as_slice());
    if c != 0 {
        return c < 0;
    }
    let ia = to_chars(a.id.as_str());
    let ib = to_chars(b.id.as_str());
    compare_chars(ia.as_slice(), ib.as_slice()) < 0
}

/// Two conflicts sort alike: same severity, kind, resource and identifier.
pub open spec fn same_key(a: ConflictView, b: ConflictView) -> bool {
    &&& spec_severity_rank(a.severity) == spec_severity_rank(b.severity)
    &&& spec_kind_rank(a.kind) == spec_kind_rank(b.kind)
    &&& a.resource_key == b.resource_key
    &&& a.id == b.id
}

/// Selects the conflicts that sort alike with `k`.
pub open spec fn same_key_as(k: ConflictView) -> spec_fn(ConflictView) -> bool {
    |x: ConflictView| same_key(x, k)
}

/// The report order is a strict weak order whose ties are exactly the
/// conflicts that sort alike.
proof fn lemma_conflict_order()
    ensures
        forall|a: ConflictView, b: ConflictView| #[trigger] conflict_key_lt(a, b) ==> !same_key(a, b),
        forall|a: ConflictView, b: ConflictView, c: ConflictView|
            #[trigger] conflict_key_lt(a, b) && #[trigger] conflict_key_lt(b, c) ==> conflict_key_lt(a, c),
        forall|a: ConflictView, b: ConflictView|
            !(#[trigger] conflict_key_lt(a, b)) && !(#[trigger] conflict_key_lt(b, a)) ==> same_key(a, b),
        forall|a: ConflictView, b: ConflictView, c: ConflictView|
            #[trigger] conflict_key_lt(a, b) && same_key(b, c) ==> #[trigger] conflict_key_lt(a, c),
        forall|a: ConflictView, b: ConflictView, c: ConflictView|
            #[trigger] conflict_key_lt(a, b) && same_key(a, c) ==> #[trigger] conflict_key_lt(c, b),
{
    lemma_lex_order();
}

/// Inserts `c` before the first conflict that does not sort before it, so
/// that conflicts sorting alike keep the order they were inserted in,
/// reversed.
fn insert_conflict(sorted: &mut Vec<Conflict>, c: Conflict)
    requires
        conflicts_in_order(conflict_views(old(sorted)@)),
    ensures
        conflicts_in_order(conflict_views(final(sorted)@)),
        conflict_views(final(sorted)@).to_multiset() == conflict_views(old(sorted)@).to_multiset().insert(
            c@,
        ),
        forall|k: ConflictView|
            #[trigger] conflict_views(final(sorted)@).filter(same_key_as(k)) == if same_key(c@, k) {
                seq![c@] + conflict_views(old(sorted)@).filter(same_key_as(k))
            } else {
                conflict_views(old(sorted)@).filter(same_key_as(k))
            },
{
    let ghost s = conflict_views(sorted@);
    let mut p: usize = 0;
    while p < sorted.len() && conflict_before(&sorted[p], &c)
        invariant
            p <= sorted@.len(),
            s == conflict_views(sorted@),
            forall|j: int| 0 <= j < p ==> conflict_key_lt(#[trigger] s[j], c@),
        decreases sorted@.len() - p,
    {
        p = p + 1;
    }
    let ghost x = c@;
    sorted.insert(p, c);
    proof {
        lemma_conflict_order();
        let n = conflict_views(sorted@);
        assert(n =~= s.insert(p as int, x));
        assert forall|i: int, j: int| 0 <= i < j < n.len() implies !conflict_key_lt(
            #[trigger] n[j],
            #[trigger] n[i],
        ) by {
            if i < p && j == p {
                assert(conflict_key_lt(s[i], x));
            } else if i < p && j > p {
                assert(!conflict_key_lt(s[j - 1], s[i]));
            } else if i == p && j > p {
                assert(!conflict_key_lt(s[p as int], x));
                if j - 1 > p {
                    assert(!conflict_key_lt(s[j - 1], s[p as int]));
                }
                if conflict_key_lt(s[j - 1], x) {
                    if j - 1 > p {
                        if !conflict_key_lt(s[p as int], s[j - 1]) {
                            assert(same_key(s[p as int], s[j - 1]));
                        }
                    }
                }
            } else if i > p {
                assert(!conflict_key_lt(s[j - 1], s[i - 1]));
            } else {
                assert(!conflict_key_lt(s[j], s[i]));
            }
        }
        vstd::seq_lib::to_multiset_insert(s, p as int, x);
        let a = s.take(p as int);
        let b = s.skip(p as int);
        assert(s =~= a + b);
        assert(n =~= a.push(x) + b);
        assert forall|k: ConflictView| #[trigger] n.filter(same_key_as(k)) == if same_key(x, k) {
            seq![x] + s.filter(same_key_as(k))
        } else {
            s.filter(same_key_as(k))
        } by {
            let f = same_key_as(k);
            Seq::filter_distributes_over_add(a.push(x), b, f);
            Seq::filter_distributes_over_add(a, b, f);
            a.lemma_filter_push(x, f);
            if same_key(x, k) {
                assert forall|j: int| 0 <= j < a.len() implies !f(#[trigger] a[j]) by {
                    assert(a[j] == s[j]);
                    assert(conflict_key_lt(s[j], x));
                }
                assert(a.filter(f) =~= Seq::<ConflictView>::empty()) by {
                    if a.filter(f).len() > 0 {
                        a.lemma_filter_pred(f, 0);
                        a.lemma_filter_contains_rev(f, a.filter(f)[0]);
                    }
                }
                assert(f(x));
                assert(seq![x] =~= Seq::<ConflictView>::empty().push(x));
            }
        }
    }
}

/// Combines the outputs of all analyzers: every conflict, in report order;
/// the total number of INI files analyzed; the warnings sorted and without
/// duplicates. Fails when the file count cannot be represented.
pub fn merge_outputs(outputs: Vec<AnalyzerOutput>) -> (r: Result<AnalyzerOutput, AppError>)
    ensures
        r is Err <==> total_files(outputs@) > u64::MAX,
        r matches Err(e) ==> e is Conflict,
        r matches Ok(o) ==> merged(o, outputs@),
{
    let ghost outs = outputs@;
    let mut total: u64 = 0;
    let mut i: usize = 0;
    proof {
        assert(outs.take(0) =~= Seq::<AnalyzerOutput>::empty());
    }
    while i < outputs.len()
        invariant
            i <= outs.len(),
            outs == outputs@,
            total == total_files(outs.take(i as int)),
        decreases outs.len() - i,
    {
        proof {
            assert(outs.take(i + 1).drop_last() =~= outs.take(i as int));
            assert(outs.take(i + 1).last() == outs[i as int]);
        }
        match total.checked_add(outputs[i].analyzed_ini_files) {
            Some(t) => {
                total = t;
            },
            None => {
                proof {
                    lemma_total_prefix_bound(outs, i + 1);
                }
                return Err(AppError::Conflict(msg("冲突分析文件计数超过支持范围。")));
            },
        }
        i = i + 1;
    }
    proof {
        assert(outs.take(outs.len() as int) =~= outs);
    }
    let mut remaining = outputs;
    let mut sorted: Vec<Conflict> = Vec::new();
    let mut warnings: Vec<Vec<char>> = Vec::new();
    proof {
        broadcast use vstd::multiset::group_multiset_axioms;

        assert(conflict_views(sorted@) =~= Seq::<ConflictView>::empty());
        lemma_empty_multiset(conflict_views(sorted@));
        assert(remaining@ == outs);
        assert(views(warnings@) =~= Seq::<Seq<char>>::empty());
        assert(conflict_views(sorted@).to_multiset().add(all_conflicts(remaining@).to_multiset())
            =~= all_conflicts(outs).to_multiset());
        assert(views(warnings@).to_set().union(all_warnings(remaining@).to_set())
            =~= all_warnings(outs).to_set());
    }
    while remaining.len() > 0
        invariant
            conflicts_in_order(conflict_views(sorted@)),
            conflict_views(sorted@).to_multiset().add(all_conflicts(remaining@).to_multiset())
                == all_conflicts(outs).to_multiset(),
            forall|k: ConflictView|
                #[trigger] all_conflicts(outs).filter(same_key_as(k)) == all_conflicts(remaining@).filter(
                    same_key_as(k),
                ) + conflict_views(sorted@).filter(same_key_as(k)),
            strictly_sorted(views(warnings@)),
            views(warnings@).to_set().union(all_warnings(remaining@).to_set()) == all_warnings(
                outs,
            ).to_set(),
        decreases remaining@.len(),
    {
        let ghost before = remaining@;
        let out = remaining.pop().unwrap();
        let ghost rest = remaining@;
        proof {
            assert(before =~= rest.push(out));
            assert(before.drop_last() =~= rest);
            vstd::seq_lib::lemma_multiset_commutative(all_conflicts(rest), conflict_views(out.conflicts@));
        }
        let mut cs = out.conflicts;
        proof {
            assert forall|k: ConflictView|
                #[trigger] all_conflicts(outs).filter(same_key_as(k)) == (all_conflicts(rest) + conflict_views(
                    cs@,
                )).filter(same_key_as(k)) + conflict_views(sorted@).filter(same_key_as(k)) by {
                assert(all_conflicts(before) == all_conflicts(rest) + conflict_views(cs@));
            }
        }
        while cs.len() > 0
            invariant
                conflicts_in_order(conflict_views(sorted@)),
                conflict_views(sorted@).to_multiset().add(conflict_views(cs@).to_multiset()).add(
                    all_conflicts(rest).to_multiset(),
                ) == all_conflicts(outs).to_multiset(),
                forall|k: ConflictView|
                    #[trigger] all_conflicts(outs).filter(same_key_as(k)) == (all_conflicts(rest) + conflict_views(
                        cs@,
                    )).filter(same_key_as(k)) + conflict_views(sorted@).filter(same_key_as(k)),
            decreases cs@.len(),
        {
            let ghost cs_before = cs@;
            let c = cs.pop().unwrap();
            let ghost x = c@;
            let ghost sorted_before = conflict_views(sorted@);
            insert_conflict(&mut sorted, c);
            proof {
                broadcast use vstd::multiset::group_multiset_axioms;

                assert(conflict_views(cs_before) =~= conflict_views(cs@).push(x));
                conflict_views(cs@).to_multiset_ensures();
                assert(conflict_views(sorted@).to_multiset().add(conflict_views(cs@).to_multiset())
                    =~= sorted_before.to_multiset().add(conflict_views(cs_before).to_multiset()));
                let a = all_conflicts(rest) + conflict_views(cs@);
                assert(all_conflicts(rest) + conflict_views(cs_before) =~= a.push(x));
                assert forall|k: ConflictView|
                    #[trigger] all_conflicts(outs).filter(same_key_as(k)) == (all_conflicts(rest) + conflict_views(
                        cs@,
                    )).filter(same_key_as(k)) + conflict_views(sorted@).filter(same_key_as(k)) by {
                    let f = same_key_as(k);
                    a.lemma_filter_push(x, f);
                    assert(conflict_views(sorted@).filter(f) == if same_key(x, k) {
                        seq![x] + sorted_before.filter(f)
                    } else {
                        sorted_before.filter(f)
                    });
                    if f(x) {
                        assert(a.filter(f).push(x) + sorted_before.filter(f) =~= a.filter(f) + (seq![x]
                            + sorted_before.filter(f)));
                    }
                }
            }
        }
        proof {
            broadcast use vstd::multiset::group_multiset_axioms;

            assert(conflict_views(cs@) =~= Seq::<ConflictView>::empty());
            lemma_empty_multiset(conflict_views(cs@));
            assert(conflict_views(sorted@).to_multiset().add(all_conflicts(rest).to_multiset())
                =~= all_conflicts(outs).to_multiset());
        }
        let ws = out.warnings;
        let ghost wv = text_views(ws@);
        let mut k: usize = 0;
        proof {
            assert(wv.take(0) =~= Seq::<Seq<char>>::empty());
            assert(views(warnings@).to_set().union(wv.take(0).to_set()) =~= views(warnings@).to_set());
        }
        let ghost w0 = views(warnings@).to_set();
        while k < ws.len()
            invariant
                k <= ws@.len(),
                wv == text_views(ws@),
                strictly_sorted(views(warnings@)),
                views(warnings@).to_set() == w0.union(wv.take(k as int).to_set()),
            decreases ws@.len() - k,
        {
            let w = to_chars(ws[k].as_str());
            sorted_insert(&mut warnings, w);
            proof {
                assert(wv.take(k + 1) =~= wv.take(k as int).push(wv[k as int]));
                wv.take(k as int).lemma_push_to_set_commute(wv[k as int]);
                assert(wv.take(k + 1).to_set() =~= wv.take(k as int).to_set().insert(wv[k as int]));
                assert(views(warnings@).to_set() =~= w0.union(wv.take(k + 1).to_set()));
            }
            k = k + 1;
        }
        proof {
            assert(wv.take(wv.len() as int) =~= wv);
            assert(all_warnings(before) == all_warnings(rest) + wv);
            assert((all_warnings(rest) + wv).to_set() =~= all_warnings(rest).to_set().union(wv.to_set()))
                by {
                broadcast use vstd::seq_lib::group_seq_properties;

            }
            assert(views(warnings@).to_set().union(all_warnings(rest).to_set()) =~= all_warnings(
                outs,
            ).to_set());
        }
    }
    proof {
        broadcast use vstd::multiset::group_multiset_axioms;

        assert(all_conflicts(remaining@) =~= Seq::<ConflictView>::empty());
        lemma_empty_multiset(all_conflicts(remaining@));
        assert(conflict_views(sorted@).to_multiset() =~= all_conflicts(outs).to_multiset());
        assert(all_warnings(remaining@) =~= Seq::<Seq<char>>::empty());
        assert(views(warnings@).to_set() =~= all_warnings(outs).to_set());
    }
    let mut texts: Vec<String> = Vec::new();
    let mut j: usize = 0;
    while j < warnings.len()
        invariant
            j <= warnings@.len(),
            text_views(texts@) == views(warnings@).take(j as int),
        decreases warnings@.len() - j,
    {
        let ghost before = texts@;
        let t = from_chars(warnings[j].as_slice());
        texts.push(t);
        proof {
            assert(views(warnings@)[j as int] == warnings@[j as int]@);
            assert(text_views(texts@) =~= text_views(before).push(t@));
            assert(text_views(texts@) =~= views(warnings@).take(j + 1));
        }
        j = j + 1;
    }
    proof {
        assert(views(warnings@).take(warnings@.len() as int) =~= views(warnings@));
    }
    Ok(AnalyzerOutput { conflicts: sorted, analyzed_ini_files: total, warnings: texts })
}

/// The outputs of analyzers that all succeeded.
pub open spec fn ok_values(rs: Seq<Result<AnalyzerOutput, AppError>>) -> Seq<AnalyzerOutput> {
    rs.map_values(|x: Result<AnalyzerOutput, AppError>| x->Ok_0)
}

/// The analyzers before the `k`-th all succeeded.
pub open spec fn ok_before(rs: Seq<Result<AnalyzerOutput, AppError>>, k: int) -> bool {
    forall|i: int| 0 <= i < k ==> (#[trigger] rs[i]) is Ok
}

/// `o` is what merging `outs` gives: every conflict in report order, those
/// that sort alike in the order the outputs list them, the total number of
/// INI files, the warnings sorted and without duplicates.
pub open spec fn merged(o: AnalyzerOutput, outs: Seq<AnalyzerOutput>) -> bool {
    &&& o.analyzed_ini_files == total_files(outs)
    &&& conflicts_in_order(conflict_views(o.conflicts@))
    &&& conflict_views(o.conflicts@).to_multiset() == all_conflicts(outs).to_multiset()
    &&& forall|k: ConflictView|
        #[trigger] conflict_views(o.conflicts@).filter(same_key_as(k)) == all_conflicts(outs).filter(same_key_as(k))
    &&& strictly_sorted(text_views(o.warnings@))
    &&& text_views(o.warnings@).to_set() == all_warnings(outs).to_set()
}

/// The law of a detection over the analyzers' results in their order: the
/// first analyzer that failed fails it with its own error, unless the file
/// count of the analyzers before it already overflowed (a `Conflict`
/// error); when all succeed, the result is their merge (every conflict in
/// report order, the warnings sorted without duplicates, the file counts
/// summed), or a `Conflict` error exactly when that sum overflows.
pub open spec fn detected(rs: Seq<Result<AnalyzerOutput, AppError>>, r: Result<AnalyzerOutput, AppError>) -> bool {
    &&& forall|k: int|
        0 <= k < rs.len() && (#[trigger] rs[k]) is Err && ok_before(rs, k) && total_files(ok_values(rs.take(k)))
            <= u64::MAX ==> r == rs[k]
    &&& forall|k: int|
        0 <= k < rs.len() && (#[trigger] rs[k]) is Err && ok_before(rs, k) && total_files(ok_values(rs.take(k)))
            > u64::MAX ==> (r matches Err(e) && e is Conflict)
    &&& ok_before(rs, rs.len() as int) ==> (r is Err <==> total_files(ok_values(rs)) > u64::MAX)
    &&& ok_before(rs, rs.len() as int) ==> (r matches Err(e) ==> e is Conflict)
    &&& ok_before(rs, rs.len() as int) ==> (r matches Ok(o) ==> merged(o, ok_values(rs)))
}

/// Runs the detection over the analyzers' results, as `detected` states.
pub fn detect(results: Vec<Result<AnalyzerOutput, AppError>>) -> (r: Result<AnalyzerOutput, AppError>)
    ensures
        detected(results@, r),
{
    let ghost rs = results@;
    let mut remaining = results;
    let mut outputs: Vec<AnalyzerOutput> = Vec::new();
    let mut total: u64 = 0;
    let mut i: usize = 0;
    proof {
        assert(rs.skip(0) =~= rs);
        assert(ok_values(rs.take(0)) =~= outputs@);
    }
    while remaining.len() > 0
        invariant
            rs == results@,
            i <= rs.len(),
            remaining@ == rs.skip(i as int),
            outputs@ == ok_values(rs.take(i as int)),
            ok_before(rs, i as int),
            total == total_files(outputs@),
        decreases remaining@.len(),
    {
        proof {
            assert(rs.skip(i as int).len() == rs.len() - i);
        }
        let item = remaining.remove(0);
        proof {
            assert(item == rs[i as int]);
            assert(remaining@ =~= rs.skip(i + 1));
        }
        match item {
            Err(e) => {
                proof {
                    assert(rs[i as int] == Err::<AnalyzerOutput, AppError>(e));
                    assert(total_files(ok_values(rs.take(i as int))) <= u64::MAX);
                    assert forall|k: int|
                        0 <= k < rs.len() && (#[trigger] rs[k]) is Err && ok_before(rs, k) implies k
                        == i by {
                        if k > i {
                            assert(rs[i as int] is Ok);
                        }
                    }
                }
                return Err(e);
            },
            Ok(o) => {
                let ghost o_view = o;
                match total.checked_add(o.analyzed_ini_files) {
                    Some(t) => {
                        total = t;
                        outputs.push(o);
                        proof {
                            assert(outputs@.drop_last() =~= ok_values(rs.take(i as int)));
                            assert(ok_values(rs.take(i + 1)) =~= outputs@);
                        }
                        i = outputs.len();
                    },
                    None => {
                        proof {
                            let pre = ok_values(rs.take(i + 1));
                            assert(pre.drop_last() =~= ok_values(rs.take(i as int)));
                            assert(pre.last() == o_view);
                            assert(total_files(pre) > u64::MAX);
                            assert forall|k: int| i < k <= rs.len() && ok_before(rs, k) implies total_files(
                                ok_values(#[trigger] rs.take(k)),
                            ) > u64::MAX by {
                                lemma_total_prefix_bound(ok_values(rs.take(k)), i + 1);
                                assert(ok_values(rs.take(k)).take(i + 1) =~= pre);
                            }
                            assert(rs.take(rs.len() as int) =~= rs);
                            assert forall|k: int|
                                0 <= k < rs.len() && (#[trigger] rs[k]) is Err && ok_before(rs, k) implies k
                                > i by {
                                if k <= i {
                                    assert(rs[k] is Ok);
                                }
                            }
                        }
                        return Err(AppError::Conflict(msg("冲突分析文件计数超过支持范围。")));
                    },
                }
            },
        }
    }
    proof {
        assert(rs.take(i as int) =~= rs);
    }
    merge_outputs(outputs)
}

proof fn lemma_empty_multiset<A>(s: Seq<A>)
    requires
        s.len() == 0,
    ensures
        s.to_multiset() == vstd::multiset::Multiset::<A>::empty(),
{
    s.to_multiset_ensures();
    vstd::multiset::lemma_multiset_empty_len(s.to_multiset());
}

proof fn lemma_total_prefix_bound(outs: Seq<AnalyzerOutput>, n: int)
    requires
        0 <= n <= outs.len(),
    ensures
        total_files(outs) >= total_files(outs.take(n)),
    decreases outs.len(),
{
    if n < outs.len() {
        lemma_total_prefix_bound(outs.drop_last(), n);
        assert(outs.drop_last().take(n) =~= outs.take(n));
    } else {
        assert(outs.take(n) =~= outs);
    }
}

} // verus!
