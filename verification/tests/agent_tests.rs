use agent_pool::agent::accept_nomination_agent;
use agent_pool::agent::deposit_reward;
use agent_pool::agent::query_get_agent;
use agent_pool::agent::query_get_agent_ids;
use agent_pool::agent::query_get_agent_tasks;
use agent_pool::agent::register_agent;
use agent_pool::agent::unregister_agent;
use agent_pool::agent::update_agent;
use agent_pool::agent::withdraw_task_balance;
use agent_pool::balance::Coin;
use agent_pool::error::ContractError;
use agent_pool::state::AgentStatus;
use agent_pool::state::AgentSystem;
use agent_pool::state::init;
use agent_pool::state::queue_remove;

const GAS_PRICE: u64 = 5;
const NATIVE: u64 = 7;
const NOW: u64 = 1_650_000_000_000_000_000;

fn fresh_sys() -> AgentSystem {
    init(GAS_PRICE, NATIVE)
}

fn funded_wallet() -> Vec<Coin> {
    // Holds the bootstrap cost (4 price units) of the native denomination.
    vec![Coin { denom: NATIVE, amount: 4 * GAS_PRICE as u128 }]
}

fn no_funds() -> Vec<Coin> {
    vec![]
}

fn register_ok(sys: &mut AgentSystem, id: u64) -> AgentStatus {
    let resp = register_agent(sys, id, &no_funds(), &funded_wallet(), None, NOW).unwrap();
    resp.agent_status
}

fn queues_disjoint(sys: &AgentSystem) -> bool {
    let ids = query_get_agent_ids(sys);
    ids.0.iter().all(|a| !ids.1.contains(a))
}

#[test]
fn register_first_agent_becomes_active() {
    let mut sys = fresh_sys();
    let resp = register_agent(&mut sys, 1, &no_funds(), &funded_wallet(), None, NOW).unwrap();
    assert_eq!(resp.agent_status, AgentStatus::Active);
    assert_eq!(resp.register_start, NOW);
    let ids = query_get_agent_ids(&sys);
    assert_eq!(ids.0, vec![1]);
    assert_eq!(ids.1, Vec::<u64>::new());
}

#[test]
fn register_later_agents_append_to_pending_in_order() {
    let mut sys = fresh_sys();
    assert_eq!(register_ok(&mut sys, 1), AgentStatus::Active);
    assert_eq!(register_ok(&mut sys, 2), AgentStatus::Pending);
    assert_eq!(register_ok(&mut sys, 3), AgentStatus::Pending);
    let ids = query_get_agent_ids(&sys);
    assert_eq!(ids.0, vec![1]);
    assert_eq!(ids.1, vec![2, 3]);
    assert!(queues_disjoint(&sys));
}

#[test]
fn register_rejects_attached_funds() {
    let mut sys = fresh_sys();
    let attached = vec![Coin { denom: NATIVE, amount: 1 }];
    let r = register_agent(&mut sys, 1, &attached, &funded_wallet(), None, NOW);
    assert_eq!(r.unwrap_err(), ContractError::UnexpectedFunds);
    assert!(query_get_agent(&sys, 1).is_none());
}

#[test]
fn register_rejects_when_paused() {
    let mut sys = fresh_sys();
    sys.config.paused = true;
    let r = register_agent(&mut sys, 1, &no_funds(), &funded_wallet(), None, NOW);
    assert_eq!(r.unwrap_err(), ContractError::ConfigPaused);
}

#[test]
fn register_rejects_insufficient_bootstrap_funds() {
    let mut sys = fresh_sys();
    let poor = vec![Coin { denom: NATIVE, amount: 4 * GAS_PRICE as u128 - 1 }];
    let r = register_agent(&mut sys, 1, &no_funds(), &poor, None, NOW);
    assert_eq!(r.unwrap_err(), ContractError::InsufficientBootstrapFunds);

    let wrong_denom = vec![Coin { denom: NATIVE + 1, amount: u128::MAX }];
    let r2 = register_agent(&mut sys, 1, &no_funds(), &wrong_denom, None, NOW);
    assert_eq!(r2.unwrap_err(), ContractError::InsufficientBootstrapFunds);
}

#[test]
fn register_twice_fails_and_leaves_state_untouched() {
    let mut sys = fresh_sys();
    register_ok(&mut sys, 1);
    register_ok(&mut sys, 2);
    let before_agent = query_get_agent(&sys, 2).unwrap();
    let before_ids = query_get_agent_ids(&sys);

    let r = register_agent(&mut sys, 2, &no_funds(), &funded_wallet(), Some(42), NOW + 5);
    assert_eq!(r.unwrap_err(), ContractError::AlreadyRegistered);

    assert_eq!(query_get_agent(&sys, 2).unwrap(), before_agent);
    assert_eq!(query_get_agent_ids(&sys), before_ids);
}

#[test]
fn pending_agent_in_snapshot_reports_nominated() {
    let mut sys = fresh_sys();
    register_ok(&mut sys, 1);
    register_ok(&mut sys, 2);
    assert_eq!(query_get_agent(&sys, 2).unwrap().status, AgentStatus::Nominated);
    assert_eq!(query_get_agent(&sys, 1).unwrap().status, AgentStatus::Active);
}

#[test]
fn pending_agent_out_of_snapshot_reports_pending() {
    let mut sys = fresh_sys();
    register_ok(&mut sys, 1);
    register_ok(&mut sys, 2);
    // Remove the identity from the pending snapshot by an outside means,
    // leaving the stored record untouched.
    queue_remove(&mut sys.pending_queue, 2);
    assert_eq!(query_get_agent(&sys, 2).unwrap().status, AgentStatus::Pending);
}

#[test]
fn get_agent_unregistered_is_none() {
    let sys = fresh_sys();
    assert!(query_get_agent(&sys, 9).is_none());
}

#[test]
fn register_records_fresh_agent_fields() {
    let mut sys = fresh_sys();
    register_agent(&mut sys, 1, &no_funds(), &funded_wallet(), Some(77), NOW).unwrap();
    let a = query_get_agent(&sys, 1).unwrap();
    assert_eq!(a.payable_account_id, 77);
    assert_eq!(a.balance.native, 0);
    assert_eq!(a.balance.tokens.len(), 0);
    assert_eq!(a.total_tasks_executed, 0);
    assert_eq!(a.last_missed_slot, 0);
    assert_eq!(a.register_start, NOW);
}

#[test]
fn payable_account_defaults_to_caller() {
    let mut sys = fresh_sys();
    register_ok(&mut sys, 1);
    assert_eq!(query_get_agent(&sys, 1).unwrap().payable_account_id, 1);
}

#[test]
fn update_changes_only_payable_account() {
    let mut sys = fresh_sys();
    register_ok(&mut sys, 1);
    deposit_reward(&mut sys, 1, 33).unwrap();
    let before = query_get_agent(&sys, 1).unwrap();

    update_agent(&mut sys, 1, 99).unwrap();
    let after = query_get_agent(&sys, 1).unwrap();
    assert_eq!(after.payable_account_id, 99);
    assert_eq!(after.status, before.status);
    assert_eq!(after.balance, before.balance);
    assert_eq!(after.total_tasks_executed, before.total_tasks_executed);
    assert_eq!(after.last_missed_slot, before.last_missed_slot);
    assert_eq!(after.register_start, before.register_start);
}

#[test]
fn update_twice_with_same_destination_is_a_no_op() {
    let mut sys = fresh_sys();
    register_ok(&mut sys, 1);
    register_ok(&mut sys, 2);
    update_agent(&mut sys, 2, 55).unwrap();
    let once_agent = query_get_agent(&sys, 2).unwrap();
    let once_ids = query_get_agent_ids(&sys);
    update_agent(&mut sys, 2, 55).unwrap();
    assert_eq!(query_get_agent(&sys, 2).unwrap(), once_agent);
    assert_eq!(query_get_agent_ids(&sys), once_ids);
}

#[test]
fn update_fails_when_paused_or_unregistered() {
    let mut sys = fresh_sys();
    register_ok(&mut sys, 1);
    assert_eq!(update_agent(&mut sys, 9, 5).unwrap_err(), ContractError::NotRegistered);
    sys.config.paused = true;
    assert_eq!(update_agent(&mut sys, 1, 5).unwrap_err(), ContractError::ConfigPaused);
    sys.config.paused = false;
    assert_eq!(query_get_agent(&sys, 1).unwrap().payable_account_id, 1);
}

#[test]
fn withdraw_settles_full_balance_and_decrements_available() {
    let mut sys = fresh_sys();
    register_agent(&mut sys, 1, &no_funds(), &funded_wallet(), Some(77), NOW).unwrap();
    deposit_reward(&mut sys, 1, 100).unwrap();
    assert_eq!(sys.config.available_balance.native, 100);

    let msgs = withdraw_task_balance(&mut sys, 1).unwrap();
    assert_eq!(msgs.len(), 1);
    assert_eq!(msgs[0].to, 77);
    assert_eq!(msgs[0].balance.native, 100);
    assert_eq!(query_get_agent(&sys, 1).unwrap().balance.native, 0);
    assert_eq!(sys.config.available_balance.native, 0);
}

#[test]
fn withdraw_unregistered_fails() {
    let mut sys = fresh_sys();
    assert_eq!(withdraw_task_balance(&mut sys, 1).unwrap_err(), ContractError::NotRegistered);
}

#[test]
fn accept_nomination_promotes_to_active() {
    let mut sys = fresh_sys();
    register_ok(&mut sys, 1);
    register_ok(&mut sys, 2);
    accept_nomination_agent(&mut sys, 2).unwrap();
    let ids = query_get_agent_ids(&sys);
    assert_eq!(ids.0, vec![1, 2]);
    assert_eq!(ids.1, Vec::<u64>::new());
    assert_eq!(query_get_agent(&sys, 2).unwrap().status, AgentStatus::Active);
    assert!(queues_disjoint(&sys));
}

#[test]
fn accept_nomination_requires_a_nominated_caller() {
    let mut sys = fresh_sys();
    register_ok(&mut sys, 1);
    assert_eq!(accept_nomination_agent(&mut sys, 9).unwrap_err(), ContractError::NotRegistered);
    // The active agent is not nominated.
    assert_eq!(accept_nomination_agent(&mut sys, 1).unwrap_err(), ContractError::NotNominated);
    // A pending agent taken out of the snapshot is no longer nominated.
    register_ok(&mut sys, 2);
    queue_remove(&mut sys.pending_queue, 2);
    assert_eq!(accept_nomination_agent(&mut sys, 2).unwrap_err(), ContractError::NotNominated);
}

#[test]
fn unregister_settles_and_reconciles_queues() {
    let mut sys = fresh_sys();
    register_ok(&mut sys, 1);
    register_ok(&mut sys, 2);
    deposit_reward(&mut sys, 2, 40).unwrap();

    let msgs = unregister_agent(&mut sys, 2).unwrap();
    assert_eq!(msgs.len(), 1);
    assert_eq!(msgs[0].to, 2);
    assert_eq!(msgs[0].balance.native, 40);
    assert!(query_get_agent(&sys, 2).is_none());
    let ids = query_get_agent_ids(&sys);
    assert_eq!(ids.0, vec![1]);
    assert_eq!(ids.1, Vec::<u64>::new());
    assert_eq!(sys.config.available_balance.native, 0);
}

#[test]
fn unregister_active_agent_leaves_pending_queue_alone() {
    let mut sys = fresh_sys();
    register_ok(&mut sys, 1);
    register_ok(&mut sys, 2);
    unregister_agent(&mut sys, 1).unwrap();
    let ids = query_get_agent_ids(&sys);
    assert_eq!(ids.0, Vec::<u64>::new());
    assert_eq!(ids.1, vec![2]);
}

#[test]
fn unregister_unregistered_fails() {
    let mut sys = fresh_sys();
    assert_eq!(unregister_agent(&mut sys, 5).unwrap_err(), ContractError::NotRegistered);
}

#[test]
fn deposit_reward_errors() {
    let mut sys = fresh_sys();
    assert_eq!(deposit_reward(&mut sys, 1, 5).unwrap_err(), ContractError::NotRegistered);
    register_ok(&mut sys, 1);
    deposit_reward(&mut sys, 1, u128::MAX).unwrap();
    assert_eq!(deposit_reward(&mut sys, 1, 1).unwrap_err(), ContractError::BalanceOverflow);
    assert_eq!(sys.config.available_balance.native, u128::MAX);
}

#[test]
fn task_capacity_query_is_the_documented_placeholder() {
    let mut sys = fresh_sys();
    register_ok(&mut sys, 1);
    let caps = query_get_agent_tasks(&sys, 1);
    assert_eq!(caps.0, 0);
    assert_eq!(caps.1, 0);
}

#[test]
fn scenario_two_agents_nomination_and_withdrawal() {
    let mut sys = fresh_sys();

    // Identity A registers first: status Active, queues ([A], []).
    let a = register_agent(&mut sys, 10, &no_funds(), &funded_wallet(), None, NOW).unwrap();
    assert_eq!(a.agent_status, AgentStatus::Active);
    let ids = query_get_agent_ids(&sys);
    assert_eq!(ids.0, vec![10]);
    assert_eq!(ids.1, Vec::<u64>::new());

    // Identity B registers next: status Pending, queues ([A], [B]).
    let b = register_agent(&mut sys, 20, &no_funds(), &funded_wallet(), None, NOW + 1).unwrap();
    assert_eq!(b.agent_status, AgentStatus::Pending);
    let ids = query_get_agent_ids(&sys);
    assert_eq!(ids.0, vec![10]);
    assert_eq!(ids.1, vec![20]);

    // B is in the pending snapshot, so it reports Nominated.
    assert_eq!(query_get_agent(&sys, 20).unwrap().status, AgentStatus::Nominated);

    // A holds {native: 100}; withdrawing settles 100 native to A's payable
    // destination, zeroes the stored balance, and the config's available
    // native balance decreases by exactly 100.
    deposit_reward(&mut sys, 10, 100).unwrap();
    let available_before = sys.config.available_balance.native;
    let msgs = withdraw_task_balance(&mut sys, 10).unwrap();
    assert_eq!(msgs.len(), 1);
    assert_eq!(msgs[0].to, 10);
    assert_eq!(msgs[0].balance.native, 100);
    assert_eq!(query_get_agent(&sys, 10).unwrap().balance.native, 0);
    assert_eq!(available_before - sys.config.available_balance.native, 100);
    assert!(queues_disjoint(&sys));
}
