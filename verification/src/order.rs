//! Lexicographic order on character sequences (the order of Rust strings:
//! code point by code point) and sorted, duplicate-free collections of them.
use vstd::prelude::*;

verus! {

/// `a` sorts strictly before `b`.
pub open spec fn lex_lt(a: Seq<char>, b: Seq<char>) -> bool
    decreases a.len(),
{
    if a.len() == 0 {
        b.len() > 0
    } else if b.len() == 0 {
        false
    } else if a[0] != b[0] {
        a[0] < b[0]
    } else {
        lex_lt(a.drop_first(), b.drop_first())
    }
}

pub proof fn lemma_lex_irreflexive(a: Seq<char>)
    ensures
        !lex_lt(a, a),
    decreases a.len(),
{
    if a.len() > 0 {
        lemma_lex_irreflexive(a.drop_first());
    }
}

pub proof fn lemma_lex_transitive(a: Seq<char>, b: Seq<char>, c: Seq<char>)
    requires
        lex_lt(a, b),
        lex_lt(b, c),
    ensures
        lex_lt(a, c),
    decreases a.len(),
{
    if a.len() > 0 && b.len() > 0 && c.len() > 0 {
        if a[0] == b[0] && b[0] == c[0] {
            lemma_lex_transitive(a.drop_first(), b.drop_first(), c.drop_first());
        }
    }
}

pub proof fn lemma_lex_total(a: Seq<char>, b: Seq<char>)
    ensures
        a == b || lex_lt(a, b) || lex_lt(b, a),
    decreases a.len(),
{
    if a.len() > 0 && b.len() > 0 && a[0] == b[0] {
        lemma_lex_total(a.drop_first(), b.drop_first());
        if a.drop_first() == b.drop_first() {
            assert(a =~= seq![a[0]] + a.drop_first());
            assert(b =~= seq![b[0]] + b.drop_first());
        }
    } else if a.len() == 0 && b.len() == 0 {
        assert(a =~= b);
    }
}

pub proof fn lemma_lex_asymmetric(a: Seq<char>, b: Seq<char>)
    requires
        lex_lt(a, b),
    ensures
        !lex_lt(b, a),
{
    if lex_lt(b, a) {
        lemma_lex_transitive(a, b, a);
        lemma_lex_irreflexive(a);
    }
}

/// Three-way comparison: negative, zero or positive as `a` sorts before,
/// equal to or after `b`.
pub fn compare_chars(a: &[char], b: &[char]) -> (r: i8)
    ensures
        r < 0 <==> lex_lt(a@, b@),
        r == 0 <==> a@ == b@,
        r > 0 <==> lex_lt(b@, a@),
{
    let mut i: usize = 0;
    proof {
        assert(a@.skip(0) =~= a@);
        assert(b@.skip(0) =~= b@);
    }
    while i < a.len() && i < b.len() && a[i] == b[i]
        invariant
            i <= a.len(),
            i <= b.len(),
            forall|j: int| 0 <= j < i ==> a@[j] == b@[j],
            lex_lt(a@, b@) == lex_lt(a@.skip(i as int), b@.skip(i as int)),
            lex_lt(b@, a@) == lex_lt(b@.skip(i as int), a@.skip(i as int)),
        decreases a.len() - i,
    {
        proof {
            assert(a@.skip(i as int)[0] == a@[i as int]);
            assert(b@.skip(i as int)[0] == b@[i as int]);
            assert(a@.skip(i as int).drop_first() =~= a@.skip(i + 1));
            assert(b@.skip(i as int).drop_first() =~= b@.skip(i + 1));
        }
        i = i + 1;
    }
    proof {
        lemma_lex_irreflexive(a@);
    }
    if i == a.len() && i == b.len() {
        proof {
            assert(a@ =~= b@);
        }
        0
    } else if i == a.len() {
        proof {
            assert(a@.skip(i as int).len() == 0);
            assert(a@ != b@);
        }
        -1
    } else if i == b.len() {
        proof {
            assert(b@.skip(i as int).len() == 0);
            assert(a@ != b@);
        }
        1
    } else {
        proof {
            assert(a@.skip(i as int)[0] == a@[i as int]);
            assert(b@.skip(i as int)[0] == b@[i as int]);
            assert(a@[i as int] != b@[i as int]);
        }
        if a[i] < b[i] {
            -1
        } else {
            1
        }
    }
}

/// Every element sorts strictly before the next: sorted and duplicate-free.
pub open spec fn strictly_sorted(s: Seq<Seq<char>>) -> bool {
    forall|i: int, j: int| 0 <= i < j < s.len() ==> lex_lt(#[trigger] s[i], #[trigger] s[j])
}

pub open spec fn views(v: Seq<Vec<char>>) -> Seq<Seq<char>> {
    v.map_values(|x: Vec<char>| x@)
}

/// Inserts `x` into a strictly sorted collection unless it is already there.
pub fn sorted_insert(set: &mut Vec<Vec<char>>, x: Vec<char>)
    requires
        strictly_sorted(views(old(set)@)),
    ensures
        strictly_sorted(views(final(set)@)),
        views(final(set)@).to_set() == views(old(set)@).to_set().insert(x@),
{
    let ghost old_v = views(set@);
    let mut i: usize = 0;
    while i < set.len()
        invariant
            i <= set@.len(),
            set@ == old(set)@,
            old_v == views(set@),
            strictly_sorted(old_v),
            forall|j: int| 0 <= j < i ==> lex_lt(#[trigger] old_v[j], x@),
        ensures
            i <= set@.len(),
            set@ == old(set)@,
            old_v == views(set@),
            strictly_sorted(old_v),
            forall|j: int| 0 <= j < i ==> lex_lt(#[trigger] old_v[j], x@),
            i < set@.len() ==> lex_lt(x@, old_v[i as int]),
        decreases set@.len() - i,
    {
        let c = compare_chars(set[i].as_slice(), x.as_slice());
        if c == 0 {
            proof {
                assert(old_v[i as int] == x@);
                assert(old_v.to_set().contains(x@));
                assert(old_v.to_set().insert(x@) =~= old_v.to_set());
            }
            return;
        }
        if c > 0 {
            break;
        }
        i = i + 1;
    }
    let ghost pos = i;
    set.insert(i, x);
    proof {
        let nv = views(set@);
        assert(nv =~= old_v.insert(pos as int, x@));
        assert forall|a: int, b: int| 0 <= a < b < nv.len() implies lex_lt(#[trigger] nv[a], #[trigger] nv[b]) by {
            if pos < old_v.len() {
                assert(lex_lt(x@, old_v[pos as int]));
            }
            if a < pos && b == pos {
            } else if a < pos && b > pos {
                assert(lex_lt(old_v[a], x@));
                if b - 1 > pos {
                    assert(lex_lt(old_v[pos as int], old_v[b - 1]));
                    lemma_lex_transitive(x@, old_v[pos as int], old_v[b - 1]);
                }
                lemma_lex_transitive(old_v[a], x@, old_v[b - 1]);
            } else if a == pos && b > pos {
                if b - 1 > pos {
                    assert(lex_lt(old_v[pos as int], old_v[b - 1]));
                    lemma_lex_transitive(x@, old_v[pos as int], old_v[b - 1]);
                }
            } else if a > pos {
                assert(lex_lt(old_v[a - 1], old_v[b - 1]));
            } else {
                assert(lex_lt(old_v[a], old_v[b]));
            }
        }
        assert(nv.to_set() =~= old_v.to_set().insert(x@)) by {
            assert forall|e: Seq<char>| nv.to_set().contains(e) implies old_v.to_set().insert(
                x@,
            ).contains(e) by {
                let k = choose|k: int| 0 <= k < nv.len() && nv[k] == e;
                if k < pos {
                    assert(old_v[k] == e);
                } else if k > pos {
                    assert(old_v[k - 1] == e);
                }
            }
            assert forall|e: Seq<char>| old_v.to_set().insert(x@).contains(e) implies nv.to_set().contains(
                e,
            ) by {
                if e == x@ {
                    assert(nv[pos as int] == e);
                } else {
                    let k = choose|k: int| 0 <= k < old_v.len() && old_v[k] == e;
                    if k < pos {
                        assert(nv[k] == e);
                    } else {
                        assert(nv[k + 1] == e);
                    }
                }
            }
        }
    }
}


/// `lex_lt` is a strict total order.
pub proof fn lemma_lex_order()
    ensures
        forall|a: Seq<char>| !(#[trigger] lex_lt(a, a)),
        forall|a: Seq<char>, b: Seq<char>, c: Seq<char>|
            #[trigger] lex_lt(a, b) && #[trigger] lex_lt(b, c) ==> lex_lt(a, c),
        forall|a: Seq<char>, b: Seq<char>|
            #![trigger lex_lt(a, b)]
            #![trigger lex_lt(b, a)]
            a == b || lex_lt(a, b) || lex_lt(b, a),
{
    assert forall|a: Seq<char>| !(#[trigger] lex_lt(a, a)) by {
        lemma_lex_irreflexive(a);
    }
    assert forall|a: Seq<char>, b: Seq<char>, c: Seq<char>|
        #[trigger] lex_lt(a, b) && #[trigger] lex_lt(b, c) implies lex_lt(a, c) by {
        lemma_lex_transitive(a, b, c);
    }
    assert forall|a: Seq<char>, b: Seq<char>| a == b || lex_lt(a, b) || #[trigger] lex_lt(b, a) by {
        lemma_lex_total(a, b);
    }
}

// ---------------------------------------------------------------------------
// Sequences sorted by an arbitrary strict total order
// ---------------------------------------------------------------------------
/// Every element of `s` sorts strictly before the next under `lt`.
pub open spec fn sorted_by<A>(s: Seq<A>, lt: spec_fn(A, A) -> bool) -> bool {
    forall|i: int, j: int| 0 <= i < j < s.len() ==> lt(#[trigger] s[i], #[trigger] s[j])
}

/// `lt` is irreflexive, transitive and relates any two distinct values.
pub open spec fn strict_total<A>(lt: spec_fn(A, A) -> bool) -> bool {
    &&& forall|a: A| !(#[trigger] lt(a, a))
    &&& forall|a: A, b: A, c: A| #[trigger] lt(a, b) && #[trigger] lt(b, c) ==> lt(a, c)
    &&& forall|a: A, b: A| #![trigger lt(a, b)] #![trigger lt(b, a)] a == b || lt(a, b) || lt(b, a)
}

/// `lex_lt` as a relation value.
pub open spec fn lex_order() -> spec_fn(Seq<char>, Seq<char>) -> bool {
    |a: Seq<char>, b: Seq<char>| lex_lt(a, b)
}

/// A strictly sorted collection of strings is sorted by `lex_order`, which
/// is a strict total order.
pub proof fn lemma_strictly_sorted_by(s: Seq<Seq<char>>)
    requires
        strictly_sorted(s),
    ensures
        sorted_by(s, lex_order()),
        strict_total(lex_order()),
{
    lemma_lex_order();
    assert forall|i: int, j: int| 0 <= i < j < s.len() implies lex_order()(#[trigger] s[i], #[trigger] s[j]) by {
        assert(lex_lt(s[i], s[j]));
    }
}

/// The elements of a finite set in increasing order.
pub open spec fn sorted_of<A>(s: Set<A>, lt: spec_fn(A, A) -> bool) -> Seq<A> {
    choose|q: Seq<A>| sorted_by(q, lt) && q.to_set() == s
}

/// Two sorted sequences with the same elements are equal.
pub proof fn lemma_sorted_by_unique<A>(a: Seq<A>, b: Seq<A>, lt: spec_fn(A, A) -> bool)
    requires
        strict_total(lt),
        sorted_by(a, lt),
        sorted_by(b, lt),
        a.to_set() == b.to_set(),
    ensures
        a == b,
    decreases a.len(),
{
    if a.len() == 0 {
        if b.len() > 0 {
            assert(b.to_set().contains(b[0]));
        }
        assert(a =~= b);
    } else if b.len() == 0 {
        assert(a.to_set().contains(a[0]));
    } else {
        let x = a.last();
        let y = b.last();
        assert(a.to_set().contains(x)) by {
            assert(a[a.len() - 1] == x);
        }
        assert(b.to_set().contains(y)) by {
            assert(b[b.len() - 1] == y);
        }
        if x != y {
            let kb = choose|k: int| 0 <= k < b.len() && b[k] == x;
            let ka = choose|k: int| 0 <= k < a.len() && a[k] == y;
            assert(kb != b.len() - 1);
            assert(ka != a.len() - 1);
            assert(lt(b[kb], b[b.len() - 1]));
            assert(lt(a[ka], a[a.len() - 1]));
            assert(lt(x, x));
        }
        let a0 = a.drop_last();
        let b0 = b.drop_last();
        assert(sorted_by(a0, lt));
        assert(sorted_by(b0, lt));
        assert forall|e: A| a0.to_set().contains(e) implies b0.to_set().contains(e) by {
            let k = choose|k: int| 0 <= k < a0.len() && a0[k] == e;
            assert(lt(a[k], a[a.len() - 1]));
            assert(b.to_set().contains(e)) by {
                assert(a.to_set().contains(e)) by {
                    assert(a[k] == e);
                }
            }
            let j = choose|j: int| 0 <= j < b.len() && b[j] == e;
            if j == b.len() - 1 {
                assert(lt(e, e));
            }
            assert(b0[j] == e);
        }
        assert forall|e: A| b0.to_set().contains(e) implies a0.to_set().contains(e) by {
            let k = choose|k: int| 0 <= k < b0.len() && b0[k] == e;
            assert(lt(b[k], b[b.len() - 1]));
            assert(a.to_set().contains(e)) by {
                assert(b.to_set().contains(e)) by {
                    assert(b[k] == e);
                }
            }
            let j = choose|j: int| 0 <= j < a.len() && a[j] == e;
            if j == a.len() - 1 {
                assert(lt(e, e));
            }
            assert(a0[j] == e);
        }
        assert(a0.to_set() =~= b0.to_set());
        lemma_sorted_by_unique(a0, b0, lt);
        assert(a =~= a0.push(x));
        assert(b =~= b0.push(y));
    }
}

/// A sorted sequence is the sorted form of its own elements.
pub proof fn lemma_sorted_of<A>(q: Seq<A>, lt: spec_fn(A, A) -> bool)
    requires
        strict_total(lt),
        sorted_by(q, lt),
    ensures
        sorted_of(q.to_set(), lt) == q,
{
    let r = sorted_of(q.to_set(), lt);
    assert(sorted_by(r, lt) && r.to_set() == q.to_set());
    lemma_sorted_by_unique(r, q, lt);
}

/// Inserting `x` where it belongs keeps the sequence sorted and adds `x` to
/// its elements.
pub proof fn lemma_sorted_insert<A>(s: Seq<A>, p: int, x: A, lt: spec_fn(A, A) -> bool)
    requires
        strict_total(lt),
        sorted_by(s, lt),
        0 <= p <= s.len(),
        forall|j: int| 0 <= j < p ==> lt(#[trigger] s[j], x),
        p < s.len() ==> lt(x, s[p]),
    ensures
        sorted_by(s.insert(p, x), lt),
        s.insert(p, x).to_set() == s.to_set().insert(x),
{
    let n = s.insert(p, x);
    assert forall|a: int, b: int| 0 <= a < b < n.len() implies lt(#[trigger] n[a], #[trigger] n[b]) by {
        if a < p && b == p {
        } else if a < p && b > p {
            if b - 1 > p {
                assert(lt(s[p], s[b - 1]));
            }
            assert(lt(x, s[b - 1]));
            assert(lt(s[a], x));
        } else if a == p && b > p {
            if b - 1 > p {
                assert(lt(s[p], s[b - 1]));
            }
        } else if a > p {
            assert(lt(s[a - 1], s[b - 1]));
        } else {
            assert(lt(s[a], s[b]));
        }
    }
    assert forall|e: A| n.to_set().contains(e) implies s.to_set().insert(x).contains(e) by {
        let k = choose|k: int| 0 <= k < n.len() && n[k] == e;
        if k < p {
            assert(s[k] == e);
        } else if k > p {
            assert(s[k - 1] == e);
        }
    }
    assert forall|e: A| s.to_set().insert(x).contains(e) implies n.to_set().contains(e) by {
        if e == x {
            assert(n[p] == e);
        } else {
            let k = choose|k: int| 0 <= k < s.len() && s[k] == e;
            if k < p {
                assert(n[k] == e);
            } else {
                assert(n[k + 1] == e);
            }
        }
    }
    assert(n.to_set() =~= s.to_set().insert(x));
}

/// Adding an element that is already present changes nothing.
pub proof fn lemma_insert_present<A>(s: Seq<A>, k: int, x: A)
    requires
        0 <= k < s.len(),
        s[k] == x,
    ensures
        s.to_set().insert(x) == s.to_set(),
{
    assert(s.to_set().contains(x));
    assert(s.to_set().insert(x) =~= s.to_set());
}

} // verus!
