//! Policies for wired memory.
use std::collections::HashSet;

use mlxrs::memory::{
    WiredBudgetPolicy, WiredFixedPolicy, WiredMaxPolicy, WiredMemoryMeasurement, WiredSumPolicy,
};

#[test]
fn wired_sum_policy_clamps_to_cap() {
    let policy = WiredSumPolicy::new(Some(200));
    assert_eq!(policy.limit(100, &[50, 100], None), 200);
    assert!(policy.can_admit(100, &[50], 50, None));
    assert!(!policy.can_admit(100, &[50], 51, None));
}

#[test]
fn wired_sum_policy_below_cap() {
    let policy = WiredSumPolicy::new(Some(1_000));
    assert_eq!(policy.limit(100, &[50, 75], None), 225);
    assert!(policy.can_admit(100, &[50, 75], 700, None));
}

#[test]
fn wired_sum_policy_empty_active_returns_baseline() {
    let policy = WiredSumPolicy::new(Some(500));
    assert_eq!(policy.limit(100, &[], None), 100);
}

#[test]
fn wired_sum_policy_no_cap_clamps_to_recommended_if_available() {
    let policy = WiredSumPolicy::new(None);
    let baseline = 100u64;
    let active = [50u64, 75];
    let raw_sum = baseline + active.iter().sum::<u64>();
    for rec in [1u64, 200, 1_000] {
        assert_eq!(policy.limit(baseline, &active, Some(rec)), raw_sum.min(rec));
    }
    assert_eq!(policy.limit(baseline, &active, None), raw_sum);
}

#[test]
fn wired_sum_policy_does_not_wrap() {
    let policy = WiredSumPolicy::new(None);
    assert_eq!(policy.limit(u64::MAX, &[1, 2], None), u64::MAX);
    assert!(!policy.can_admit(u64::MAX, &[1], 1, Some(5)));
}

#[test]
fn wired_max_policy_max_active_or_baseline() {
    let policy = WiredMaxPolicy::new();
    assert_eq!(policy.limit(100, &[20, 150, 60]), 150);
    assert_eq!(policy.limit(200, &[20, 150, 60]), 200);
}

#[test]
fn wired_max_policy_empty_active_returns_baseline() {
    let policy = WiredMaxPolicy::new();
    assert_eq!(policy.limit(100, &[]), 100);
}

#[test]
fn wired_max_policy_admits_unconditionally() {
    let policy = WiredMaxPolicy::new();
    assert!(policy.can_admit(100, &[], u64::MAX / 2));
}

#[test]
fn wired_fixed_policy_returns_limit() {
    let policy = WiredFixedPolicy::new(123);
    assert_eq!(policy.limit(0, &[]), 123);
    assert_eq!(policy.limit(500, &[1, 2, 3]), 123);
}

#[test]
fn wired_fixed_policy_admits_unconditionally() {
    let policy = WiredFixedPolicy::new(100);
    assert!(policy.can_admit(0, &[], u64::MAX));
}

#[test]
fn wired_budget_policy_identity_and_cap_behavior() {
    let shared_id = "shared-test-id";
    let first = WiredBudgetPolicy::with_id(shared_id, 100, Some(300));
    let second = WiredBudgetPolicy::with_id(shared_id, 999, Some(999));
    let third = WiredBudgetPolicy::with_id("other-id", 100, Some(300));
    assert_eq!(first, second);
    assert_ne!(first, third);
    assert_eq!(first.id_str(), shared_id);
    assert_eq!(first.limit(50, &[75], None), 225);
    assert!(first.can_admit(50, &[75], 75, None));
    assert!(!first.can_admit(50, &[75], 76, None));
}

#[test]
fn wired_memory_measurement_construction_and_total() {
    let m = WiredMemoryMeasurement {
        weight_bytes: 1_000,
        kv_bytes: 200,
        workspace_bytes: 50,
        peak_active_bytes: 1_400,
        token_count: 128,
        prefill_step_size: 32,
    };
    assert_eq!(m.weight_bytes, 1_000);
    assert_eq!(m.kv_bytes, 200);
    assert_eq!(m.workspace_bytes, 50);
    assert_eq!(m.peak_active_bytes, 1_400);
    assert_eq!(m.token_count, 128);
    assert_eq!(m.prefill_step_size, 32);
    assert_eq!(m.total_bytes(), 1_250);
}

#[test]
fn wired_budget_policy_auto_id_is_unique() {
    let a = WiredBudgetPolicy::new(1, 100, Some(300));
    let b = WiredBudgetPolicy::new(2, 100, Some(300));
    assert_ne!(a, b, "auto-id instances should be distinct");
    assert_ne!(a.id_str(), b.id_str());
    assert_eq!(a.id_str(), "auto-0000000000000001");
}

#[test]
fn wired_budget_policy_hash_matches_eq() {
    let id = "hash-test";
    let a = WiredBudgetPolicy::with_id(id, 100, Some(300));
    let b = WiredBudgetPolicy::with_id(id, 999, None);
    let mut set: HashSet<WiredBudgetPolicy> = HashSet::new();
    set.insert(a.clone());
    set.insert(b.clone());
    assert_eq!(set.len(), 1);
    assert!(set.contains(&a));
    assert!(set.contains(&b));
}
