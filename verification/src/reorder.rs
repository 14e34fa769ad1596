//! Reordering the enabled mods of a profile: which load orders the rows
//! receive, first a temporary range above every existing order (so that no
//! two rows ever share an order while they move), then their final orders.
use vstd::prelude::*;
use crate::error::{msg, AppError};

verus! {

/// The most mods one reorder may move.
pub const MAX_REORDERED_MODS: usize = 2000;

/// A mod of a profile as stored: its id, whether it is enabled and its
/// load order.
#[derive(Debug, Clone, Copy, PartialEq, Eq, Structural)]
pub struct ProfileModRow {
    pub mod_id: u128,
    pub enabled: bool,
    pub load_order: i64,
}

/// What a reorder writes: for every row, in row order, first its temporary
/// order and then its final order.
#[derive(Debug, Clone)]
pub enum ReorderPlan {
    /// The requested order is the current one; nothing is written.
    Unchanged,
    Reorder { temporary: Vec<(u128, i64)>, final_orders: Vec<(u128, i64)> },
}

pub open spec fn is_enabled() -> spec_fn(ProfileModRow) -> bool {
    |r: ProfileModRow| r.enabled
}

/// The ids of the enabled rows, in row order.
pub open spec fn enabled_ids(rows: Seq<ProfileModRow>) -> Seq<u128> {
    rows.filter(is_enabled()).map_values(|r: ProfileModRow| r.mod_id)
}

/// The load orders of the enabled rows, in row order: the slots that the
/// requested order fills.
pub open spec fn enabled_slots(rows: Seq<ProfileModRow>) -> Seq<i64> {
    rows.filter(is_enabled()).map_values(|r: ProfileModRow| r.load_order)
}

/// The largest load order, and at least zero.
pub open spec fn max_order(rows: Seq<ProfileModRow>) -> int
    decreases rows.len(),
{
    if rows.len() == 0 {
        0
    } else {
        let m = max_order(rows.drop_last());
        if rows.last().load_order > m {
            rows.last().load_order as int
        } else {
            m
        }
    }
}

pub open spec fn no_duplicates(s: Seq<u128>) -> bool {
    forall|i: int, j: int| 0 <= i < j < s.len() ==> s[i] != s[j]
}

/// The position of `id` in `s`.
pub open spec fn position_of(s: Seq<u128>, id: u128) -> int {
    choose|k: int| 0 <= k < s.len() && s[k] == id
}

/// The final order of each row: an enabled row takes the slot of its
/// position in the requested order; a disabled row keeps its order.
pub open spec fn final_orders(rows: Seq<ProfileModRow>, requested: Seq<u128>) -> Seq<(u128, i64)> {
    rows.map_values(
        |r: ProfileModRow|
            (r.mod_id, if r.enabled {
                enabled_slots(rows)[position_of(requested, r.mod_id)]
            } else {
                r.load_order
            }),
    )
}

/// The temporary order of each row: consecutive orders just above the
/// largest existing one, in row order.
pub open spec fn temporary_orders(rows: Seq<ProfileModRow>) -> Seq<(u128, i64)> {
    Seq::new(rows.len(), |i: int| (rows[i].mod_id, (max_order(rows) + 1 + i) as i64))
}

/// The requested order names exactly the enabled mods.
pub open spec fn same_membership(rows: Seq<ProfileModRow>, requested: Seq<u128>) -> bool {
    enabled_ids(rows).len() == requested.len() && enabled_ids(rows).to_set() == requested.to_set()
}

/// The temporary range fits in `i64`.
pub open spec fn temporary_range_fits(rows: Seq<ProfileModRow>) -> bool {
    max_order(rows) + 1 + (if rows.len() > 0 {
        rows.len() - 1
    } else {
        0
    }) <= i64::MAX
}

proof fn lemma_max_order(rows: Seq<ProfileModRow>)
    ensures
        0 <= max_order(rows) <= i64::MAX,
        forall|j: int| 0 <= j < rows.len() ==> #[trigger] rows[j].load_order <= max_order(rows),
    decreases rows.len(),
{
    if rows.len() > 0 {
        lemma_max_order(rows.drop_last());
        assert forall|j: int| 0 <= j < rows.len() implies #[trigger] rows[j].load_order <= max_order(rows) by {
            if j < rows.len() - 1 {
                assert(rows[j] == rows.drop_last()[j]);
            }
        }
    }
}

/// Plans a reorder of the enabled rows of a profile (`rows`, as stored) into
/// `requested`. Refuses more than `MAX_REORDERED_MODS` mods, duplicates, a
/// request that does not name exactly the enabled mods, and a temporary range
/// that would not fit.
pub fn plan_reorder(rows: &Vec<ProfileModRow>, requested: &Vec<u128>) -> (r: Result<ReorderPlan, AppError>)
    ensures
        requested@.len() > MAX_REORDERED_MODS ==> (r matches Err(e) && e is Profile),
        requested@.len() <= MAX_REORDERED_MODS && !no_duplicates(requested@) ==> (r matches Err(e)
            && e is Profile),
        requested@.len() <= MAX_REORDERED_MODS && no_duplicates(requested@) && !same_membership(
            rows@,
            requested@,
        ) ==> (r matches Err(e) && e is Profile),
        requested@.len() <= MAX_REORDERED_MODS && no_duplicates(requested@) && same_membership(
            rows@,
            requested@,
        ) ==> {
            if enabled_ids(rows@) == requested@ {
                r matches Ok(ReorderPlan::Unchanged)
            } else if !temporary_range_fits(rows@) {
                (r matches Err(e) && e is DataIntegrity)
            } else {
                (r matches Ok(ReorderPlan::Reorder { temporary, final_orders: f }) && temporary@
                    == temporary_orders(rows@) && f@ == final_orders(rows@, requested@))
            }
        },
{
    if requested.len() > MAX_REORDERED_MODS {
        return Err(AppError::Profile(msg("单个 Profile 最多调整 2000 个启用模组。")));
    }
    // Duplicates.
    let mut i: usize = 0;
    while i < requested.len()
        invariant
            i <= requested@.len(),
            forall|a: int, b: int| 0 <= a < b < requested@.len() && a < i ==> requested@[a] != requested@[b],
        decreases requested@.len() - i,
    {
        let mut j: usize = i + 1;
        while j < requested.len()
            invariant
                i < requested@.len(),
                i + 1 <= j <= requested@.len(),
                forall|a: int, b: int| 0 <= a < b < requested@.len() && a < i ==> requested@[a] != requested@[b],
                forall|b: int| i < b < j ==> requested@[i as int] != requested@[b],
            decreases requested@.len() - j,
        {
            if requested[i] == requested[j] {
                return Err(AppError::Profile(msg("加载顺序包含重复模组。")));
            }
            j = j + 1;
        }
        i = i + 1;
    }
    proof {
        assert(no_duplicates(requested@));
    }
    // The enabled rows, their ids and slots, and the largest order.
    let ghost en = rows@.filter(is_enabled());
    let mut ids: Vec<u128> = Vec::new();
    let mut slots: Vec<i64> = Vec::new();
    let mut maximum: i64 = 0;
    let mut k: usize = 0;
    proof {
        assert(rows@.take(0) =~= Seq::<ProfileModRow>::empty());
        assert(rows@.take(0).filter(is_enabled()) =~= Seq::<ProfileModRow>::empty());
    }
    while k < rows.len()
        invariant
            k <= rows@.len(),
            ids@ == rows@.take(k as int).filter(is_enabled()).map_values(|r: ProfileModRow| r.mod_id),
            slots@ == rows@.take(k as int).filter(is_enabled()).map_values(|r: ProfileModRow| r.load_order),
            maximum == max_order(rows@.take(k as int)),
        decreases rows@.len() - k,
    {
        let row = rows[k];
        proof {
            assert(rows@.take(k + 1) =~= rows@.take(k as int).push(row));
            assert(rows@.take(k + 1).drop_last() =~= rows@.take(k as int));
            rows@.take(k as int).lemma_filter_push(row, is_enabled());
        }
        if row.load_order > maximum {
            maximum = row.load_order;
        }
        if row.enabled {
            ids.push(row.mod_id);
            slots.push(row.load_order);
            proof {
                let f = rows@.take(k as int).filter(is_enabled());
                assert(f.push(row).map_values(|r: ProfileModRow| r.mod_id) =~= f.map_values(
                    |r: ProfileModRow| r.mod_id,
                ).push(row.mod_id));
                assert(f.push(row).map_values(|r: ProfileModRow| r.load_order) =~= f.map_values(
                    |r: ProfileModRow| r.load_order,
                ).push(row.load_order));
            }
        }
        k = k + 1;
    }
    proof {
        assert(rows@.take(rows@.len() as int) =~= rows@);
    }
    // Membership.
    let same = ids.len() == requested.len() && all_contained(requested, &ids) && all_contained(&ids, requested);
    proof {
        if ids@.len() == requested@.len() && (forall|q: int| 0 <= q < requested@.len() ==> ids@.contains(#[trigger] requested@[q]))
            && (forall|q: int| 0 <= q < ids@.len() ==> requested@.contains(#[trigger] ids@[q])) {
            assert(ids@.to_set() =~= requested@.to_set()) by {
                assert forall|x: u128| ids@.to_set().contains(x) implies requested@.to_set().contains(x) by {
                    let q = choose|q: int| 0 <= q < ids@.len() && ids@[q] == x;
                    assert(requested@.contains(ids@[q]));
                }
                assert forall|x: u128| requested@.to_set().contains(x) implies ids@.to_set().contains(x) by {
                    let q = choose|q: int| 0 <= q < requested@.len() && requested@[q] == x;
                    assert(ids@.contains(requested@[q]));
                }
            }
        }
        if ids@.len() == requested@.len() && ids@.to_set() == requested@.to_set() {
            assert forall|q: int| 0 <= q < requested@.len() implies ids@.contains(#[trigger] requested@[q]) by {
                assert(requested@.to_set().contains(requested@[q]));
            }
            assert forall|q: int| 0 <= q < ids@.len() implies requested@.contains(#[trigger] ids@[q]) by {
                assert(ids@.to_set().contains(ids@[q]));
            }
        }
    }
    if !same {
        return Err(AppError::Profile(msg("提交的加载顺序必须恰好包含该 Profile 当前全部启用模组。")));
    }
    if ids_equal(&ids, requested) {
        return Ok(ReorderPlan::Unchanged);
    }
    // The temporary range.
    proof {
        lemma_max_order(rows@);
    }
    if maximum == i64::MAX {
        return Err(AppError::DataIntegrity(msg("Profile 临时加载顺序超出支持范围。")));
    }
    let base = maximum + 1;
    let n = rows.len();
    let span: i64 = if n == 0 {
        0
    } else if (n - 1) as u64 > i64::MAX as u64 {
        return Err(AppError::DataIntegrity(msg("Profile 模组数量超出 SQLite 支持范围。")));
    } else {
        (n - 1) as i64
    };
    if base > i64::MAX - span {
        return Err(AppError::DataIntegrity(msg("Profile 临时加载顺序超出支持范围。")));
    }
    proof {
        lemma_max_order(rows@);
    }
    let mut temporary: Vec<(u128, i64)> = Vec::new();
    let mut t: usize = 0;
    while t < rows.len()
        invariant
            t <= rows@.len(),
            n == rows@.len(),
            base == max_order(rows@) + 1,
            base >= 1,
            n > 0 ==> base + n - 1 <= i64::MAX,
            temporary@ == temporary_orders(rows@).take(t as int),
        decreases rows@.len() - t,
    {
        proof {
            assert(base + t <= i64::MAX);
            assert((t as i64) as int == t as int);
        }
        let order = base + t as i64;
        temporary.push((rows[t].mod_id, order));
        proof {
            assert(temporary@ =~= temporary_orders(rows@).take(t + 1));
        }
        t = t + 1;
    }
    proof {
        assert(temporary_orders(rows@).take(rows@.len() as int) =~= temporary_orders(rows@));
    }
    let mut finals: Vec<(u128, i64)> = Vec::new();
    let mut f: usize = 0;
    while f < rows.len()
        invariant
            f <= rows@.len(),
            slots@ == enabled_slots(rows@),
            ids@ == enabled_ids(rows@),
            requested@.len() == slots@.len(),
            no_duplicates(requested@),
            same_membership(rows@, requested@),
            finals@ == final_orders(rows@, requested@).take(f as int),
        decreases rows@.len() - f,
    {
        let row = rows[f];
        let order = if row.enabled {
            proof {
                lemma_enabled_in_ids(rows@, f as int);
                assert(requested@.to_set().contains(row.mod_id));
            }
            let p = index_of_id(requested, row.mod_id);
            slots[p]
        } else {
            row.load_order
        };
        finals.push((row.mod_id, order));
        proof {
            assert(finals@ =~= final_orders(rows@, requested@).take(f + 1));
        }
        f = f + 1;
    }
    proof {
        assert(final_orders(rows@, requested@).take(rows@.len() as int) =~= final_orders(rows@, requested@));
    }
    Ok(ReorderPlan::Reorder { temporary, final_orders: finals })
}

proof fn lemma_enabled_in_ids(rows: Seq<ProfileModRow>, i: int)
    requires
        0 <= i < rows.len(),
        rows[i].enabled,
    ensures
        enabled_ids(rows).to_set().contains(rows[i].mod_id),
    decreases rows.len(),
{
    let rest = rows.drop_last();
    assert(rows =~= rest.push(rows.last()));
    rest.lemma_filter_push(rows.last(), is_enabled());
    if i == rows.len() - 1 {
        let e = enabled_ids(rows);
        assert(e.last() == rows[i].mod_id);
        assert(e[e.len() - 1] == rows[i].mod_id);
    } else {
        assert(rest[i] == rows[i]);
        lemma_enabled_in_ids(rest, i);
        let k = choose|k: int| 0 <= k < enabled_ids(rest).len() && enabled_ids(rest)[k] == rows[i].mod_id;
        assert(enabled_ids(rows)[k] == rows[i].mod_id);
    }
}

/// Whether every id of `a` occurs in `b`.
fn all_contained(a: &Vec<u128>, b: &Vec<u128>) -> (r: bool)
    ensures
        r == (forall|q: int| 0 <= q < a@.len() ==> b@.contains(#[trigger] a@[q])),
{
    let mut i: usize = 0;
    while i < a.len()
        invariant
            i <= a@.len(),
            forall|q: int| 0 <= q < i ==> b@.contains(#[trigger] a@[q]),
        decreases a@.len() - i,
    {
        if !contains_id(b, a[i]) {
            return false;
        }
        i = i + 1;
    }
    true
}

fn contains_id(v: &Vec<u128>, x: u128) -> (b: bool)
    ensures
        b == v@.contains(x),
{
    let mut i: usize = 0;
    while i < v.len()
        invariant
            i <= v@.len(),
            forall|j: int| 0 <= j < i ==> v@[j] != x,
        decreases v@.len() - i,
    {
        if v[i] == x {
            return true;
        }
        i = i + 1;
    }
    false
}

fn ids_equal(a: &Vec<u128>, b: &Vec<u128>) -> (r: bool)
    ensures
        r == (a@ == b@),
{
    if a.len() != b.len() {
        return false;
    }
    let mut i: usize = 0;
    while i < a.len()
        invariant
            i <= a@.len(),
            a@.len() == b@.len(),
            forall|j: int| 0 <= j < i ==> a@[j] == b@[j],
        decreases a@.len() - i,
    {
        if a[i] != b[i] {
            return false;
        }
        i = i + 1;
    }
    proof {
        assert(a@ =~= b@);
    }
    true
}

/// The position of `x`, which `v` holds.
fn index_of_id(v: &Vec<u128>, x: u128) -> (k: usize)
    requires
        v@.to_set().contains(x),
    ensures
        k < v@.len(),
        v@[k as int] == x,
        no_duplicates(v@) ==> k == position_of(v@, x),
{
    let mut i: usize = 0;
    while i < v.len()
        invariant
            i <= v@.len(),
            v@.contains(x),
            forall|j: int| 0 <= j < i ==> v@[j] != x,
        decreases v@.len() - i,
    {
        if v[i] == x {
            proof {
                if no_duplicates(v@) {
                    let p = position_of(v@, x);
                    assert(0 <= p < v@.len() && v@[p] == x);
                    assert(p == i);
                }
            }
            return i;
        }
        i = i + 1;
    }
    proof {
        let j = choose|j: int| 0 <= j < v@.len() && v@[j] == x;
        assert(false);
    }
    0
}

/// After a reorder, the requested mods take, in the requested order, the
/// load orders that the enabled mods held in row order; disabled mods keep
/// theirs.
pub proof fn lemma_reorder_fills_slots(rows: Seq<ProfileModRow>, requested: Seq<u128>, i: int)
    requires
        no_duplicates(requested),
        same_membership(rows, requested),
        0 <= i < rows.len(),
    ensures
        rows[i].enabled ==> {
            let k = position_of(requested, rows[i].mod_id);
            &&& 0 <= k < requested.len()
            &&& requested[k] == rows[i].mod_id
            &&& final_orders(rows, requested)[i] == (rows[i].mod_id, enabled_slots(rows)[k])
        },
        !rows[i].enabled ==> final_orders(rows, requested)[i] == (rows[i].mod_id, rows[i].load_order),
{
    if rows[i].enabled {
        lemma_enabled_in_ids(rows, i);
        assert(requested.to_set().contains(rows[i].mod_id));
        let k = position_of(requested, rows[i].mod_id);
        assert(exists|q: int| 0 <= q < requested.len() && requested[q] == rows[i].mod_id);
    }
}

/// The temporary orders lie above every existing order and are distinct.
pub proof fn lemma_temporary_orders_fresh(rows: Seq<ProfileModRow>)
    requires
        temporary_range_fits(rows),
    ensures
        forall|i: int, j: int|
            0 <= i < rows.len() && 0 <= j < rows.len() ==> #[trigger] rows[j].load_order
                < #[trigger] temporary_orders(rows)[i].1,
        forall|i: int, j: int|
            0 <= i < j < rows.len() ==> #[trigger] temporary_orders(rows)[i].1 < #[trigger] temporary_orders(
                rows,
            )[j].1,
{
    lemma_max_order(rows);
    assert forall|i: int, j: int|
        0 <= i < rows.len() && 0 <= j < rows.len() implies #[trigger] rows[j].load_order
            < #[trigger] temporary_orders(rows)[i].1 by {
        assert(rows[j].load_order <= max_order(rows));
    }
}

} // verus!
