use ledger_shell::address::{Address, AddressSet};
use ledger_shell::gas::{VpGasMeter, TRANSACTION_GAS_LIMIT};
use ledger_shell::vp::{
    merge_vp_results, run_vp, run_vps, run_vps_dry, sort_descending, VpJob, VpOutcome,
    VpVerdict, VpsResult,
};

fn established(id: &str) -> Address {
    Address::Established(id.to_string())
}

fn set(ids: &[&str]) -> AddressSet {
    let mut set = AddressSet::new();
    for id in ids {
        set.insert(established(id));
    }
    set
}

fn result(accepted: &[&str], rejected: &[&str], keys: &[&str], gas: &[u64], error: bool) -> VpsResult {
    VpsResult::new(
        set(accepted),
        set(rejected),
        keys.iter().map(|k| k.to_string()).collect(),
        gas.to_vec(),
        error,
    )
}

fn job(id: &str, keys: &[&str]) -> VpJob {
    VpJob {
        address: established(id),
        keys: keys.iter().map(|k| k.to_string()).collect(),
        vp: Some(vec![1]),
    }
}

fn outcome(verdict: VpVerdict, gas: u64) -> VpOutcome {
    VpOutcome { verdict, gas_meter: VpGasMeter { initial_gas: 10, vp_gas: gas, limit: TRANSACTION_GAS_LIMIT } }
}

fn sorted_ids(set: &AddressSet) -> Vec<String> {
    let mut ids = set.to_strings();
    ids.sort();
    ids
}

fn sorted<T: Ord + Clone>(items: &[T]) -> Vec<T> {
    let mut items = items.to_vec();
    items.sort();
    items
}

#[test]
fn merge_unites_and_concatenates() {
    let a = result(&["a"], &["r"], &["k1"], &[5], false);
    let b = result(&["b", "a"], &[], &["k2", "k3"], &[7, 1], true);
    let merged = merge_vp_results(a, b);
    assert_eq!(merged.accepted_vps.items, vec![established("a"), established("b")]);
    assert_eq!(merged.rejected_vps.items, vec![established("r")]);
    assert_eq!(merged.changed_keys, vec!["k1", "k2", "k3"]);
    assert_eq!(merged.gas_used, vec![5, 7, 1]);
    assert!(merged.have_error);
}

#[test]
fn merge_is_associative() {
    let a = || result(&["a"], &["r"], &["k1"], &[5], false);
    let b = || result(&["b"], &["s"], &["k2"], &[7], false);
    let c = || result(&["c", "a"], &[], &["k3"], &[9], true);
    let left = merge_vp_results(merge_vp_results(a(), b()), c());
    let right = merge_vp_results(a(), merge_vp_results(b(), c()));
    assert_eq!(left.accepted_vps.items, right.accepted_vps.items);
    assert_eq!(left.rejected_vps.items, right.rejected_vps.items);
    assert_eq!(left.changed_keys, right.changed_keys);
    assert_eq!(left.gas_used, right.gas_used);
    assert_eq!(left.have_error, right.have_error);
}

#[test]
fn merge_is_commutative_up_to_order() {
    let a = || result(&["a"], &["r"], &["k1", "k0"], &[5, 2], false);
    let b = || result(&["b"], &["s"], &["k2"], &[7], true);
    let ab = merge_vp_results(a(), b());
    let ba = merge_vp_results(b(), a());
    assert_eq!(sorted_ids(&ab.accepted_vps), sorted_ids(&ba.accepted_vps));
    assert_eq!(sorted_ids(&ab.rejected_vps), sorted_ids(&ba.rejected_vps));
    assert_eq!(sorted(&ab.changed_keys), sorted(&ba.changed_keys));
    assert_eq!(sorted(&ab.gas_used), sorted(&ba.gas_used));
    assert_eq!(ab.have_error, ba.have_error);
}

#[test]
fn merge_with_the_empty_result_changes_nothing() {
    let merged = merge_vp_results(VpsResult::default(), result(&["a"], &["r"], &["k"], &[3], true));
    assert_eq!(merged.accepted_vps.items, vec![established("a")]);
    assert_eq!(merged.rejected_vps.items, vec![established("r")]);
    assert_eq!(merged.changed_keys, vec!["k"]);
    assert_eq!(merged.gas_used, vec![3]);
    assert!(merged.have_error);
}

#[test]
fn an_accepting_predicate_is_accepted() {
    let next = run_vp(VpsResult::default(), &job("a", &["@a/x"]), Some(&outcome(VpVerdict::Accepted, 40)));
    assert_eq!(next.accepted_vps.items, vec![established("a")]);
    assert!(next.rejected_vps.is_empty());
    assert_eq!(next.gas_used, vec![40]);
    assert_eq!(next.changed_keys, vec!["@a/x"]);
    assert!(!next.have_error);
}

#[test]
fn a_rejecting_predicate_is_rejected() {
    let next = run_vp(VpsResult::default(), &job("a", &[]), Some(&outcome(VpVerdict::Rejected, 4)));
    assert!(next.accepted_vps.is_empty());
    assert_eq!(next.rejected_vps.items, vec![established("a")]);
    assert_eq!(next.gas_used, vec![4]);
    assert!(!next.have_error);
}

#[test]
fn a_failing_predicate_is_rejected_with_error() {
    let next = run_vp(VpsResult::default(), &job("a", &[]), Some(&outcome(VpVerdict::HostError, 4)));
    assert_eq!(next.rejected_vps.items, vec![established("a")]);
    assert_eq!(next.gas_used, vec![4]);
    assert!(next.have_error);
}

#[test]
fn a_predicate_outside_the_gas_envelope_is_rejected_with_error() {
    let over = VpOutcome {
        verdict: VpVerdict::Accepted,
        gas_meter: VpGasMeter { initial_gas: 90, vp_gas: 11, limit: 100 },
    };
    let next = run_vp(VpsResult::default(), &job("a", &[]), Some(&over));
    assert!(next.accepted_vps.is_empty());
    assert_eq!(next.rejected_vps.items, vec![established("a")]);
    assert!(next.have_error);
    assert_eq!(next.gas_used, vec![11]);
    let at_limit = VpOutcome {
        verdict: VpVerdict::Accepted,
        gas_meter: VpGasMeter { initial_gas: 90, vp_gas: 10, limit: 100 },
    };
    let fine = run_vp(VpsResult::default(), &job("a", &[]), Some(&at_limit));
    assert_eq!(fine.accepted_vps.items, vec![established("a")]);
    assert!(!fine.have_error);
    let wrapped = VpOutcome {
        verdict: VpVerdict::Accepted,
        gas_meter: VpGasMeter { initial_gas: u64::MAX, vp_gas: 2, limit: u64::MAX },
    };
    let refused = run_vp(VpsResult::default(), &job("a", &[]), Some(&wrapped));
    assert!(refused.have_error);
}

#[test]
fn a_predicate_without_code_or_outcome_is_rejected_with_error() {
    let missing = VpJob { address: established("a"), keys: vec![], vp: None };
    let next = run_vp(VpsResult::default(), &missing, Some(&outcome(VpVerdict::Accepted, 5)));
    assert_eq!(next.rejected_vps.items, vec![established("a")]);
    assert!(next.have_error);
    assert_eq!(next.gas_used, vec![0]);
    let silent = run_vp(VpsResult::default(), &job("b", &["k"]), None);
    assert_eq!(silent.rejected_vps.items, vec![established("b")]);
    assert!(silent.have_error);
    assert_eq!(silent.gas_used, vec![0]);
    assert_eq!(silent.changed_keys, vec!["k"]);
}

#[test]
fn a_dry_run_runs_every_predicate() {
    let jobs = vec![job("a", &["k1"]), job("b", &["k2"]), job("c", &["k3"])];
    let outcomes = vec![
        outcome(VpVerdict::Accepted, 3),
        outcome(VpVerdict::Rejected, 5),
        outcome(VpVerdict::Accepted, 7),
    ];
    let result = run_vps_dry(&jobs, &outcomes);
    assert_eq!(result.accepted_vps.items, vec![established("a"), established("c")]);
    assert_eq!(result.rejected_vps.items, vec![established("b")]);
    assert_eq!(result.gas_used, vec![3, 5, 7]);
    assert_eq!(result.changed_keys, vec!["k1", "k2", "k3"]);
    assert!(!result.have_error);
}

#[test]
fn every_predicate_counts_after_a_rejection() {
    let jobs = vec![job("a", &["k1"]), job("b", &["k2"]), job("c", &["k3"])];
    let outcomes = vec![
        outcome(VpVerdict::Accepted, 3),
        outcome(VpVerdict::Rejected, 5),
        outcome(VpVerdict::Accepted, 7),
    ];
    let result = run_vps(&jobs, &outcomes);
    assert_eq!(result.accepted_vps.items, vec![established("a"), established("c")]);
    assert_eq!(result.rejected_vps.items, vec![established("b")]);
    assert_eq!(result.gas_used, vec![3, 5, 7]);
    assert_eq!(result.changed_keys, vec!["k1", "k2", "k3"]);
    let dry = run_vps_dry(&jobs, &outcomes);
    assert_eq!(dry.accepted_vps.items, result.accepted_vps.items);
    assert_eq!(dry.rejected_vps.items, result.rejected_vps.items);
    assert_eq!(dry.gas_used, result.gas_used);
    assert_eq!(dry.changed_keys, result.changed_keys);
    assert_eq!(dry.have_error, result.have_error);
    let all_accept = vec![outcome(VpVerdict::Accepted, 3); 3];
    let accepted = run_vps(&jobs, &all_accept);
    assert_eq!(accepted.accepted_vps.len(), 3);
    assert!(accepted.rejected_vps.is_empty());
    assert_eq!(accepted.gas_used, vec![3, 3, 3]);
    assert_eq!(run_vps(&vec![], &vec![]).gas_used, Vec::<u64>::new());
}

#[test]
fn missing_outcomes_are_host_errors() {
    let jobs = vec![job("a", &[]), job("b", &[])];
    for result in [
        run_vps_dry(&jobs, &vec![outcome(VpVerdict::Accepted, 3)]),
        run_vps(&jobs, &vec![outcome(VpVerdict::Accepted, 3)]),
    ] {
        assert_eq!(result.accepted_vps.items, vec![established("a")]);
        assert_eq!(result.gas_used, vec![3, 0]);
    }
    let result = run_vps(&jobs, &vec![outcome(VpVerdict::Accepted, 3)]);
    assert_eq!(result.accepted_vps.items, vec![established("a")]);
    assert_eq!(result.rejected_vps.items, vec![established("b")]);
    assert!(result.have_error);
    assert_eq!(result.gas_used, vec![3, 0]);
}

#[test]
fn sort_descending_sorts() {
    assert_eq!(sort_descending(&vec![]), Vec::<u64>::new());
    assert_eq!(sort_descending(&vec![40, 100, 30]), vec![100, 40, 30]);
    assert_eq!(sort_descending(&vec![1, 3, 2, 3, 0]), vec![3, 3, 2, 1, 0]);
    assert_eq!(sort_descending(&vec![5, 5]), vec![5, 5]);
}

#[test]
fn results_in_words() {
    let result = result(&["a", "b"], &[], &["@a/x"], &[100, 40], false);
    assert_eq!(
        result.to_string(),
        "Vps -> accepted: [@a, @b]. rejected: [], keys: [@a/x], gas_used: [100, 40], error: false"
    );
    assert_eq!(result.clone().to_string(), result.to_string());
}
