use aemm::reorder::{plan_reorder, ProfileModRow, ReorderPlan};

fn rows(orders: &[(u128, bool, i64)]) -> Vec<ProfileModRow> {
    orders.iter().map(|&(mod_id, enabled, load_order)| ProfileModRow { mod_id, enabled, load_order }).collect()
}

#[test]
fn reorders_exact_enabled_membership_without_changing_state() {
    let current = rows(&[(10, true, 0), (11, true, 1), (12, true, 2)]);
    let requested = vec![12, 10, 11];
    match plan_reorder(&current, &requested).unwrap() {
        ReorderPlan::Reorder { temporary, final_orders } => {
            assert_eq!(temporary, vec![(10, 3), (11, 4), (12, 5)]);
            assert_eq!(final_orders, vec![(10, 1), (11, 2), (12, 0)]);
        }
        ReorderPlan::Unchanged => panic!("expected a reorder"),
    }
    assert!(plan_reorder(&current, &vec![12, 10]).is_err());
}

#[test]
fn rejects_reorder_when_no_safe_temporary_range_exists() {
    let current = rows(&[(1, true, i64::MAX - 1), (2, true, i64::MAX)]);
    assert!(plan_reorder(&current, &vec![2, 1]).is_err());
}

#[test]
fn unchanged_order_needs_no_writes_and_disabled_rows_keep_their_slot() {
    let current = rows(&[(1, true, 0), (2, false, 5), (3, true, 9)]);
    assert!(matches!(plan_reorder(&current, &vec![1, 3]).unwrap(), ReorderPlan::Unchanged));
    match plan_reorder(&current, &vec![3, 1]).unwrap() {
        ReorderPlan::Reorder { final_orders, .. } => {
            assert_eq!(final_orders, vec![(1, 9), (2, 5), (3, 0)]);
        }
        ReorderPlan::Unchanged => panic!("expected a reorder"),
    }
    assert!(plan_reorder(&current, &vec![1, 1]).is_err());
    assert!(plan_reorder(&current, &vec![1, 2]).is_err());
}
