use crate::balance::Asset;
use crate::balance::Coin;
use crate::balance::GenericBalance;
use crate::balance::bal_eq;
use crate::balance::has_coins;
use crate::balance::spec_has_coins;
use crate::error::ContractError;
use crate::registry::Agent;
use crate::registry::AgentEntry;
use crate::registry::StoredAgentStatus;
use crate::registry::lemma_agent_at_update;
use crate::registry::lemma_agent_native_le_sum;
use crate::registry::lemma_sum_update;
use crate::state::AgentStatus;
use crate::state::AgentSystem;
use crate::state::derived_status;
use crate::state::copy_queue;
use crate::state::lemma_queue_push;
use crate::state::lemma_queue_remove;
use crate::state::queue_contains;
use crate::state::queue_remove;
use crate::state::spec_derived_status;
use vstd::prelude::*;

verus! {

/// A single agent's details as a query reports them: the stored fields plus
/// the derived (read-time) status.
#[derive(Clone, Debug, PartialEq, Eq)]
pub struct GetAgentResponse {
    pub status: AgentStatus,
    pub payable_account_id: u64,
    pub balance: GenericBalance,
    pub total_tasks_executed: u64,
    pub last_missed_slot: u64,
    pub register_start: u64,
}

/// The (active, pending) queue snapshots, verbatim.
#[derive(Clone, Debug, PartialEq, Eq)]
pub struct GetAgentIdsResponse(pub Vec<u64>, pub Vec<u64>);

/// Task capacity of one agent: a documented (0, 0) placeholder until
/// task-ratio logic is designed.
#[derive(Clone, Copy, Debug, PartialEq, Eq, Structural)]
pub struct GetAgentTasksResponse(pub u64, pub u128);

/// What a successful registration reports: the resulting status and the
/// registration timestamp.
#[derive(Clone, Copy, Debug, PartialEq, Eq, Structural)]
pub struct RegisterAgentResponse {
    pub agent_status: AgentStatus,
    pub register_start: u64,
}

/// An instruction for the external ledger collaborator: move `balance` from
/// contract custody to the destination identity `to`.
#[derive(Clone, Debug, PartialEq, Eq)]
pub struct SettlementRequest {
    pub to: u64,
    pub balance: GenericBalance,
}

/// The bootstrap cost: four price units of the native asset.
pub open spec fn bootstrap_cost(gas_price: u64) -> u128 {
    (4 * (gas_price as int)) as u128
}

/// The named bootstrap sufficiency predicate: the registering identity's
/// wallet holds at least the bootstrap cost in the native asset. Registration
/// rejects exactly the callers for which this is false, so the polarity of
/// the check is this one reviewable line.
pub open spec fn meets_bootstrap_cost(wallet: Seq<Coin>, denom: u64, gas_price: u64) -> bool {
    spec_has_coins(wallet, denom, bootstrap_cost(gas_price))
}

/// A freshly created agent record: the given stored status and payable
/// destination, an empty balance, zeroed statistics, and the registration
/// time.
pub open spec fn new_agent_ok(a: Agent, stored: StoredAgentStatus, payable: u64, now: u64) -> bool {
    &&& a.status == stored
    &&& a.payable_account_id == payable
    &&& a.balance.native == 0
    &&& a.balance.tokens@.len() == 0
    &&& a.total_tasks_executed == 0
    &&& a.last_missed_slot == 0
    &&& a.register_start == now
}

/// The effect of a successful registration: the caller joins the active
/// queue when it was empty (and is immediately active), else the tail of the
/// pending queue; a fresh record is created; nothing else changes.
pub open spec fn register_applied(
    pre: AgentSystem,
    post: AgentSystem,
    caller: u64,
    payable_account_id: Option<u64>,
    now: u64,
) -> bool {
    let stored = if pre.active_queue@.len() == 0 {
        StoredAgentStatus::Active
    } else {
        StoredAgentStatus::Pending
    };
    let payable = match payable_account_id {
        Some(p) => p,
        None => caller,
    };
    &&& post.config == pre.config
    &&& if pre.active_queue@.len() == 0 {
        post.active_queue@ == pre.active_queue@.push(caller) && post.pending_queue@
            == pre.pending_queue@
    } else {
        post.active_queue@ == pre.active_queue@ && post.pending_queue@
            == pre.pending_queue@.push(caller)
    }
    &&& post.agents.spec_get(caller) matches Some(a) && new_agent_ok(a, stored, payable, now)
    &&& forall|id2: u64|
        id2 != caller ==> #[trigger] post.agents.spec_get(id2) == pre.agents.spec_get(id2)
    &&& post.agents.entries@.len() == pre.agents.entries@.len() + 1
}

/// The effect of a successful update: only the caller's payable destination
/// changes; every other field, record, queue and config value is untouched.
pub open spec fn update_applied(
    pre: AgentSystem,
    post: AgentSystem,
    caller: u64,
    payable_account_id: u64,
) -> bool {
    &&& post.config == pre.config
    &&& post.active_queue@ == pre.active_queue@
    &&& post.pending_queue@ == pre.pending_queue@
    &&& pre.agents.spec_get(caller) matches Some(a0) && post.agents.spec_get(caller) == Some(
        (Agent { payable_account_id, ..a0 }),
    )
    &&& forall|id2: u64|
        id2 != caller ==> #[trigger] post.agents.spec_get(id2) == pre.agents.spec_get(id2)
    &&& post.agents.entries@.len() == pre.agents.entries@.len()
}

/// Add an account as an agent able to execute tasks.
///
/// Preconditions checked, in order: no value may be attached; the config must
/// not be paused; the caller's wallet must meet the bootstrap cost; the
/// caller must not already be registered. On success the caller is assigned
/// to the active queue when it is empty (reporting `Active`), else appended
/// to the tail of the pending queue (reporting `Pending`), and a fresh record
/// is created with `register_start = now`. On any failure the state is left
/// untouched.
pub fn register_agent(
    sys: &mut AgentSystem,
    caller: u64,
    attached_funds: &Vec<Coin>,
    agent_wallet: &Vec<Coin>,
    payable_account_id: Option<u64>,
    now: u64,
) -> (r: Result<RegisterAgentResponse, ContractError>)
    requires
        old(sys).wf(),
    ensures
        final(sys).wf(),
        match r {
            Ok(resp) => {
                &&& attached_funds@.len() == 0
                &&& !old(sys).config.paused
                &&& meets_bootstrap_cost(
                    agent_wallet@,
                    old(sys).config.native_denom,
                    old(sys).config.gas_price,
                )
                &&& !old(sys).agents.spec_contains(caller)
                &&& register_applied(*old(sys), *final(sys), caller, payable_account_id, now)
                &&& resp.agent_status == (if old(sys).active_queue@.len() == 0 {
                    AgentStatus::Active
                } else {
                    AgentStatus::Pending
                })
                &&& resp.register_start == now
            }
            Err(e) => {
                &&& *final(sys) == *old(sys)
                &&& (e == ContractError::UnexpectedFunds <==> attached_funds@.len() > 0)
                &&& (e == ContractError::ConfigPaused <==> attached_funds@.len() == 0 && old(
                    sys,
                ).config.paused)
                &&& (e == ContractError::InsufficientBootstrapFunds <==> attached_funds@.len() == 0
                    && !old(sys).config.paused && !meets_bootstrap_cost(
                    agent_wallet@,
                    old(sys).config.native_denom,
                    old(sys).config.gas_price,
                ))
                &&& (e == ContractError::AlreadyRegistered <==> attached_funds@.len() == 0 && !old(
                    sys,
                ).config.paused && meets_bootstrap_cost(
                    agent_wallet@,
                    old(sys).config.native_denom,
                    old(sys).config.gas_price,
                ) && old(sys).agents.spec_contains(caller))
                &&& (attached_funds@.len() > 0 || old(sys).config.paused || !meets_bootstrap_cost(
                    agent_wallet@,
                    old(sys).config.native_denom,
                    old(sys).config.gas_price,
                ) || old(sys).agents.spec_contains(caller))
            }
        },
{
    if attached_funds.len() > 0 {
        return Err(ContractError::UnexpectedFunds);
    }
    if sys.config.is_paused() {
        return Err(ContractError::ConfigPaused);
    }
    let unit_cost: u128 = (sys.config.gas_price as u128) * 4;
    assert(unit_cost == bootstrap_cost(sys.config.gas_price));
    if !has_coins(agent_wallet, sys.config.native_denom, unit_cost) {
        return Err(ContractError::InsufficientBootstrapFunds);
    }
    if sys.agents.contains(caller) {
        return Err(ContractError::AlreadyRegistered);
    }
    let payable_id = match payable_account_id {
        Some(p) => p,
        None => caller,
    };

    proof {
        if sys.active_queue@.contains(caller) {
            assert(sys.agents.spec_get(caller) is Some);
        }
        if sys.pending_queue@.contains(caller) {
            assert(sys.agents.spec_get(caller) is Some);
        }
    }
    let ghost pre = *sys;
    let active_empty = sys.active_queue.len() == 0;
    let stored = if active_empty {
        proof {
            lemma_queue_push(sys.active_queue@, caller);
        }
        sys.active_queue.push(caller);
        StoredAgentStatus::Active
    } else {
        proof {
            lemma_queue_push(sys.pending_queue@, caller);
        }
        sys.pending_queue.push(caller);
        StoredAgentStatus::Pending
    };
    let agent = Agent {
        status: stored,
        payable_account_id: payable_id,
        balance: GenericBalance::new(),
        total_tasks_executed: 0,
        last_missed_slot: 0,
        register_start: now,
    };
    sys.agents.insert(caller, agent);

    proof {
        let post = *sys;
        assert forall|id: u64| #[trigger] post.active_queue@.contains(id) implies (
        post.agents.spec_get(id) matches Some(a) && a.status == StoredAgentStatus::Active) by {
            if id == caller {
                if !active_empty {
                    assert(pre.active_queue@.contains(caller));
                }
            } else {
                assert(pre.active_queue@.contains(id));
            }
        }
        assert forall|id: u64| #[trigger] post.pending_queue@.contains(id) implies (
        post.agents.spec_get(id) matches Some(a) && a.status == StoredAgentStatus::Pending) by {
            if id == caller {
                if active_empty {
                    assert(pre.pending_queue@.contains(caller));
                }
            } else {
                assert(pre.pending_queue@.contains(id));
            }
        }
        assert forall|i: int| 0 <= i < post.agents.entries@.len() implies match (
        #[trigger] post.agents.entries@[i]).agent.status {
            StoredAgentStatus::Active => post.active_queue@.contains(post.agents.entries@[i].id),
            StoredAgentStatus::Pending => post.pending_queue@.contains(post.agents.entries@[i].id),
        } by {
            if i < pre.agents.entries@.len() {
                assert(post.agents.entries@[i] == pre.agents.entries@[i]);
                let id = pre.agents.entries@[i].id;
                match pre.agents.entries@[i].agent.status {
                    StoredAgentStatus::Active => {
                        assert(pre.active_queue@.contains(id));
                        if active_empty {
                            assert(pre.active_queue@.len() == 0);
                        }
                        assert(post.active_queue@.contains(id));
                    }
                    StoredAgentStatus::Pending => {
                        assert(pre.pending_queue@.contains(id));
                        assert(post.pending_queue@.contains(id));
                    }
                }
            } else {
                assert(post.agents.entries@[i] == AgentEntry { id: caller, agent });
            }
        }
        assert(post.wf());
        assert(register_applied(pre, post, caller, payable_account_id, now));
    }

    let agent_status = if active_empty {
        AgentStatus::Active
    } else {
        AgentStatus::Pending
    };
    Ok(RegisterAgentResponse { agent_status, register_start: now })
}

/// Update the caller's payable destination, and nothing else.
///
/// Fails with `ConfigPaused` when the pause gate is set, and with
/// `NotRegistered` when the caller has no record; the state is then left
/// untouched.
pub fn update_agent(sys: &mut AgentSystem, caller: u64, payable_account_id: u64) -> (r: Result<
    (),
    ContractError,
>)
    requires
        old(sys).wf(),
    ensures
        final(sys).wf(),
        match r {
            Ok(()) => {
                &&& !old(sys).config.paused
                &&& old(sys).agents.spec_contains(caller)
                &&& update_applied(*old(sys), *final(sys), caller, payable_account_id)
            }
            Err(e) => {
                &&& *final(sys) == *old(sys)
                &&& (e == ContractError::ConfigPaused <==> old(sys).config.paused)
                &&& (e == ContractError::NotRegistered <==> !old(sys).config.paused && !old(
                    sys,
                ).agents.spec_contains(caller))
                &&& (old(sys).config.paused || !old(sys).agents.spec_contains(caller))
            }
        },
{
    if sys.config.is_paused() {
        return Err(ContractError::ConfigPaused);
    }
    match sys.agents.index_of(caller) {
        None => Err(ContractError::NotRegistered),
        Some(i) => {
            let ghost pre = *sys;
            let ghost s0 = sys.agents.entries@;
            let a = sys.agents.agent_mut(i);
            a.payable_account_id = payable_account_id;
            proof {
                let e = AgentEntry { id: s0[i as int].id, agent: sys.agents.entries@[i as int].agent };
                assert(sys.agents.entries@ == s0.update(i as int, e));
                lemma_agent_at_update(s0, i as int, e);
                lemma_sum_update(s0, i as int, e);
                let post = *sys;
                assert forall|id: u64| #[trigger] post.active_queue@.contains(id) implies (
                post.agents.spec_get(id) matches Some(ag) && ag.status
                    == StoredAgentStatus::Active) by {
                    assert(pre.active_queue@.contains(id));
                }
                assert forall|id: u64| #[trigger] post.pending_queue@.contains(id) implies (
                post.agents.spec_get(id) matches Some(ag) && ag.status
                    == StoredAgentStatus::Pending) by {
                    assert(pre.pending_queue@.contains(id));
                }
                assert forall|k: int| 0 <= k < post.agents.entries@.len() implies match (
                #[trigger] post.agents.entries@[k]).agent.status {
                    StoredAgentStatus::Active => post.active_queue@.contains(
                        post.agents.entries@[k].id,
                    ),
                    StoredAgentStatus::Pending => post.pending_queue@.contains(
                        post.agents.entries@[k].id,
                    ),
                } by {
                    if k != i {
                        assert(post.agents.entries@[k] == pre.agents.entries@[k]);
                    }
                }
                assert(post.wf());
                assert(update_applied(pre, post, caller, payable_account_id));
            }
            Ok(())
        }
    }
}

/// The effect of a successful withdrawal: the caller's stored balance is
/// zeroed, the config's aggregate available balance decreases by exactly the
/// native-asset portion withdrawn (token-kind portions of the aggregate are
/// deliberately untouched), and nothing else changes.
pub open spec fn withdraw_applied(pre: AgentSystem, post: AgentSystem, caller: u64) -> bool {
    &&& pre.agents.spec_get(caller) matches Some(a0) && {
        &&& post.agents.spec_get(caller) matches Some(a1) && {
            &&& a1.status == a0.status
            &&& a1.payable_account_id == a0.payable_account_id
            &&& a1.total_tasks_executed == a0.total_tasks_executed
            &&& a1.last_missed_slot == a0.last_missed_slot
            &&& a1.register_start == a0.register_start
            &&& a1.balance.spec_is_zero()
            &&& a1.balance.native == 0
            &&& a1.balance.tokens@.len() == 0
        }
        &&& post.config.available_balance.native == pre.config.available_balance.native
            - a0.balance.native
    }
    &&& post.config.available_balance.tokens@ == pre.config.available_balance.tokens@
    &&& post.config.paused == pre.config.paused
    &&& post.config.gas_price == pre.config.gas_price
    &&& post.config.native_denom == pre.config.native_denom
    &&& post.active_queue@ == pre.active_queue@
    &&& post.pending_queue@ == pre.pending_queue@
    &&& forall|id2: u64|
        id2 != caller ==> #[trigger] post.agents.spec_get(id2) == pre.agents.spec_get(id2)
    &&& post.agents.entries@.len() == pre.agents.entries@.len()
}

/// Compute the settlement of the caller's entire balance and zero the stored
/// balance in the same atomic step.
///
/// On success the single settlement request moves the whole former balance to
/// the caller's payable destination, and the config's aggregate available
/// balance decreases by the native portion. Fails only with `NotRegistered`,
/// leaving the state untouched.
pub fn withdraw_balances(sys: &mut AgentSystem, caller: u64) -> (r: Result<
    Vec<SettlementRequest>,
    ContractError,
>)
    requires
        old(sys).wf(),
    ensures
        final(sys).wf(),
        match r {
            Ok(msgs) => {
                &&& old(sys).agents.spec_get(caller) matches Some(a0) && msgs@.len() == 1
                    && msgs@[0].to == a0.payable_account_id && bal_eq(msgs@[0].balance, a0.balance)
                &&& withdraw_applied(*old(sys), *final(sys), caller)
            }
            Err(e) => {
                &&& e == ContractError::NotRegistered
                &&& !old(sys).agents.spec_contains(caller)
                &&& *final(sys) == *old(sys)
            }
        },
{
    match sys.agents.index_of(caller) {
        None => Err(ContractError::NotRegistered),
        Some(i) => {
            let ghost pre = *sys;
            let payable = sys.agents.entries[i].agent.payable_account_id;
            let bal = sys.agents.entries[i].agent.balance.duplicate();
            let native_amt = bal.native;
            proof {
                lemma_agent_native_le_sum(sys.agents.entries@, caller);
            }
            let ghost s0 = sys.agents.entries@;
            let a = sys.agents.agent_mut(i);
            a.balance = GenericBalance::new();
            proof {
                let e = AgentEntry {
                    id: s0[i as int].id,
                    agent: sys.agents.entries@[i as int].agent,
                };
                assert(sys.agents.entries@ == s0.update(i as int, e));
                lemma_agent_at_update(s0, i as int, e);
                lemma_sum_update(s0, i as int, e);
            }
            let dr = sys.config.available_balance.debit(Asset::Native, native_amt);
            proof {
                assert(dr is Ok);
                let post = *sys;
                assert forall|id: u64| #[trigger] post.active_queue@.contains(id) implies (
                post.agents.spec_get(id) matches Some(ag) && ag.status
                    == StoredAgentStatus::Active) by {
                    assert(pre.active_queue@.contains(id));
                }
                assert forall|id: u64| #[trigger] post.pending_queue@.contains(id) implies (
                post.agents.spec_get(id) matches Some(ag) && ag.status
                    == StoredAgentStatus::Pending) by {
                    assert(pre.pending_queue@.contains(id));
                }
                assert forall|k: int| 0 <= k < post.agents.entries@.len() implies match (
                #[trigger] post.agents.entries@[k]).agent.status {
                    StoredAgentStatus::Active => post.active_queue@.contains(
                        post.agents.entries@[k].id,
                    ),
                    StoredAgentStatus::Pending => post.pending_queue@.contains(
                        post.agents.entries@[k].id,
                    ),
                } by {
                    if k != i {
                        assert(post.agents.entries@[k] == pre.agents.entries@[k]);
                    }
                }
                assert(post.wf());
                assert(withdraw_applied(pre, post, caller));
            }
            let mut msgs: Vec<SettlementRequest> = Vec::new();
            msgs.push(SettlementRequest { to: payable, balance: bal });
            Ok(msgs)
        }
    }
}

/// Withdraw all of the caller's accrued rewards, paid to its payable
/// destination: the command wrapper around `withdraw_balances`.
pub fn withdraw_task_balance(sys: &mut AgentSystem, caller: u64) -> (r: Result<
    Vec<SettlementRequest>,
    ContractError,
>)
    requires
        old(sys).wf(),
    ensures
        final(sys).wf(),
        match r {
            Ok(msgs) => {
                &&& old(sys).agents.spec_get(caller) matches Some(a0) && msgs@.len() == 1
                    && msgs@[0].to == a0.payable_account_id && bal_eq(msgs@[0].balance, a0.balance)
                &&& withdraw_applied(*old(sys), *final(sys), caller)
            }
            Err(e) => {
                &&& e == ContractError::NotRegistered
                &&& !old(sys).agents.spec_contains(caller)
                &&& *final(sys) == *old(sys)
            }
        },
{
    match withdraw_balances(sys, caller) {
        Ok(messages) => Ok(messages),
        Err(e) => Err(e),
    }
}

/// The effect of a successful promotion: the caller leaves the pending
/// queue, joins the tail of the active queue, and its stored status becomes
/// `Active`; nothing else changes.
pub open spec fn accept_nomination_applied(pre: AgentSystem, post: AgentSystem, caller: u64) -> bool {
    &&& pre.agents.spec_get(caller) matches Some(a0) && post.agents.spec_get(caller) == Some(
        (Agent { status: StoredAgentStatus::Active, ..a0 }),
    )
    &&& post.active_queue@ == pre.active_queue@.push(caller)
    &&& exists|i: int|
        0 <= i < pre.pending_queue@.len() && pre.pending_queue@[i] == caller && post.pending_queue@
            == pre.pending_queue@.remove(i)
    &&& post.config == pre.config
    &&& forall|id2: u64|
        id2 != caller ==> #[trigger] post.agents.spec_get(id2) == pre.agents.spec_get(id2)
    &&& post.agents.entries@.len() == pre.agents.entries@.len()
}

/// Whether an identity is currently nominated: registered with stored status
/// `Pending` and present in the pending-queue snapshot.
pub open spec fn spec_nominated(s: AgentSystem, id: u64) -> bool {
    &&& s.agents.spec_get(id) matches Some(a)
    &&& a.status == StoredAgentStatus::Pending
    &&& s.pending_queue@.contains(id)
}

/// Accept a nomination: the explicit pending-to-active promotion.
///
/// The caller must be registered and currently nominated — stored `Pending`
/// and present in the pending-queue snapshot. It is then moved from the
/// pending queue to the tail of the active queue and its stored status set to
/// `Active`. Fails with `NotRegistered` or `NotNominated`, leaving the state
/// untouched.
pub fn accept_nomination_agent(sys: &mut AgentSystem, caller: u64) -> (r: Result<
    (),
    ContractError,
>)
    requires
        old(sys).wf(),
    ensures
        final(sys).wf(),
        match r {
            Ok(()) => {
                &&& old(sys).agents.spec_get(caller) matches Some(a0) && a0.status
                    == StoredAgentStatus::Pending
                &&& old(sys).pending_queue@.contains(caller)
                &&& accept_nomination_applied(*old(sys), *final(sys), caller)
            }
            Err(e) => {
                &&& *final(sys) == *old(sys)
                &&& (e == ContractError::NotRegistered <==> !old(sys).agents.spec_contains(caller))
                &&& (e == ContractError::NotNominated <==> old(sys).agents.spec_contains(caller)
                    && !spec_nominated(*old(sys), caller))
                &&& !spec_nominated(*old(sys), caller)
            }
        },
{
    match sys.agents.index_of(caller) {
        None => Err(ContractError::NotRegistered),
        Some(i) => {
            let is_pending = sys.agents.entries[i].agent.status == StoredAgentStatus::Pending;
            let in_pending = queue_contains(&sys.pending_queue, caller);
            if is_pending && in_pending {
                let ghost pre = *sys;
                proof {
                    if sys.active_queue@.contains(caller) {
                        assert(sys.agents.spec_get(caller) matches Some(a) && a.status
                            == StoredAgentStatus::Active);
                    }
                    lemma_queue_push(sys.active_queue@, caller);
                }
                let removed = queue_remove(&mut sys.pending_queue, caller);
                proof {
                    assert(removed is Some);
                    lemma_queue_remove(
                        pre.pending_queue@,
                        sys.pending_queue@,
                        removed->0 as int,
                        caller,
                    );
                }
                sys.active_queue.push(caller);
                let ghost s0 = sys.agents.entries@;
                let a = sys.agents.agent_mut(i);
                a.status = StoredAgentStatus::Active;
                proof {
                    let e = AgentEntry {
                        id: s0[i as int].id,
                        agent: sys.agents.entries@[i as int].agent,
                    };
                    assert(sys.agents.entries@ == s0.update(i as int, e));
                    lemma_agent_at_update(s0, i as int, e);
                    lemma_sum_update(s0, i as int, e);
                    let post = *sys;
                    assert forall|id: u64| #[trigger] post.active_queue@.contains(id) implies (
                    post.agents.spec_get(id) matches Some(ag) && ag.status
                        == StoredAgentStatus::Active) by {
                        if id != caller {
                            assert(pre.active_queue@.contains(id));
                        }
                    }
                    assert forall|id: u64| #[trigger] post.pending_queue@.contains(id) implies (
                    post.agents.spec_get(id) matches Some(ag) && ag.status
                        == StoredAgentStatus::Pending) by {
                        assert(id != caller);
                        assert(pre.pending_queue@.contains(id));
                    }
                    assert forall|k: int| 0 <= k < post.agents.entries@.len() implies match (
                    #[trigger] post.agents.entries@[k]).agent.status {
                        StoredAgentStatus::Active => post.active_queue@.contains(
                            post.agents.entries@[k].id,
                        ),
                        StoredAgentStatus::Pending => post.pending_queue@.contains(
                            post.agents.entries@[k].id,
                        ),
                    } by {
                        if k != i {
                            assert(post.agents.entries@[k] == pre.agents.entries@[k]);
                            assert(pre.agents.entries@[k].id != caller);
                        }
                    }
                    assert(post.wf());
                    assert(accept_nomination_applied(pre, post, caller));
                }
                Ok(())
            } else {
                Err(ContractError::NotNominated)
            }
        }
    }
}

/// The effect of a successful unregistration: the caller's entire balance is
/// settled (the aggregate available native balance decreasing by its native
/// portion), its record is deleted, and it leaves whichever queue held it;
/// nothing else changes.
pub open spec fn unregister_applied(pre: AgentSystem, post: AgentSystem, caller: u64) -> bool {
    &&& pre.agents.spec_get(caller) matches Some(a0) && {
        &&& post.config.available_balance.native == pre.config.available_balance.native
            - a0.balance.native
        &&& if a0.status == StoredAgentStatus::Active {
            (exists|i: int|
                0 <= i < pre.active_queue@.len() && pre.active_queue@[i] == caller
                    && post.active_queue@ == pre.active_queue@.remove(i)) && post.pending_queue@
                == pre.pending_queue@
        } else {
            post.active_queue@ == pre.active_queue@ && (exists|i: int|
                0 <= i < pre.pending_queue@.len() && pre.pending_queue@[i] == caller
                    && post.pending_queue@ == pre.pending_queue@.remove(i))
        }
    }
    &&& post.agents.spec_get(caller) is None
    &&& post.config.available_balance.tokens@ == pre.config.available_balance.tokens@
    &&& post.config.paused == pre.config.paused
    &&& post.config.gas_price == pre.config.gas_price
    &&& post.config.native_denom == pre.config.native_denom
    &&& forall|id2: u64|
        id2 != caller ==> #[trigger] post.agents.spec_get(id2) == pre.agents.spec_get(id2)
    &&& post.agents.entries@.len() == pre.agents.entries@.len() - 1
}

/// Remove the caller from the agent pool.
///
/// The caller must be registered. Its remaining balance is settled to its
/// payable destination first (so no balance is stranded), its identity is
/// removed from whichever queue holds it (so no queue membership dangles),
/// and its record is deleted. Fails with `NotRegistered`, leaving the state
/// untouched.
pub fn unregister_agent(sys: &mut AgentSystem, caller: u64) -> (r: Result<
    Vec<SettlementRequest>,
    ContractError,
>)
    requires
        old(sys).wf(),
    ensures
        final(sys).wf(),
        match r {
            Ok(msgs) => {
                &&& old(sys).agents.spec_get(caller) matches Some(a0) && msgs@.len() == 1
                    && msgs@[0].to == a0.payable_account_id && bal_eq(msgs@[0].balance, a0.balance)
                &&& unregister_applied(*old(sys), *final(sys), caller)
            }
            Err(e) => {
                &&& e == ContractError::NotRegistered
                &&& !old(sys).agents.spec_contains(caller)
                &&& *final(sys) == *old(sys)
            }
        },
{
    match sys.agents.index_of(caller) {
        None => Err(ContractError::NotRegistered),
        Some(i) => {
            let ghost pre = *sys;
            let payable = sys.agents.entries[i].agent.payable_account_id;
            let bal = sys.agents.entries[i].agent.balance.duplicate();
            let native_amt = bal.native;
            proof {
                lemma_agent_native_le_sum(sys.agents.entries@, caller);
            }
            // Remove the identity from whichever queue holds it; the removal
            // is idempotent, so both queues can be asked.
            let removed_active = queue_remove(&mut sys.active_queue, caller);
            let removed_pending = queue_remove(&mut sys.pending_queue, caller);
            proof {
                if pre.agents.entries@[i as int].agent.status == StoredAgentStatus::Active {
                    assert(pre.active_queue@.contains(caller));
                    if pre.pending_queue@.contains(caller) {
                        assert(pre.agents.spec_get(caller) matches Some(a) && a.status
                            == StoredAgentStatus::Pending);
                    }
                    assert(removed_active is Some);
                    lemma_queue_remove(
                        pre.active_queue@,
                        sys.active_queue@,
                        removed_active->0 as int,
                        caller,
                    );
                    assert(removed_pending is None);
                } else {
                    assert(pre.pending_queue@.contains(caller));
                    if pre.active_queue@.contains(caller) {
                        assert(pre.agents.spec_get(caller) matches Some(a) && a.status
                            == StoredAgentStatus::Active);
                    }
                    assert(removed_active is None);
                    assert(removed_pending is Some);
                    lemma_queue_remove(
                        pre.pending_queue@,
                        sys.pending_queue@,
                        removed_pending->0 as int,
                        caller,
                    );
                }
            }
            sys.agents.remove_at(i);
            let dr = sys.config.available_balance.debit(Asset::Native, native_amt);
            proof {
                assert(dr is Ok);
                let post = *sys;
                pre.agents.entries@.remove_ensures(i as int);
                assert forall|id: u64| #[trigger] post.active_queue@.contains(id) implies (
                post.agents.spec_get(id) matches Some(ag) && ag.status
                    == StoredAgentStatus::Active) by {
                    assert(id != caller);
                    assert(pre.active_queue@.contains(id));
                }
                assert forall|id: u64| #[trigger] post.pending_queue@.contains(id) implies (
                post.agents.spec_get(id) matches Some(ag) && ag.status
                    == StoredAgentStatus::Pending) by {
                    assert(id != caller);
                    assert(pre.pending_queue@.contains(id));
                }
                assert forall|k: int| 0 <= k < post.agents.entries@.len() implies match (
                #[trigger] post.agents.entries@[k]).agent.status {
                    StoredAgentStatus::Active => post.active_queue@.contains(
                        post.agents.entries@[k].id,
                    ),
                    StoredAgentStatus::Pending => post.pending_queue@.contains(
                        post.agents.entries@[k].id,
                    ),
                } by {
                    let k0: int = if k < i { k } else { k + 1 };
                    assert(post.agents.entries@[k] == pre.agents.entries@[k0]);
                    assert(pre.agents.entries@[k0].id != caller);
                }
                assert(post.wf());
                assert(unregister_applied(pre, post, caller));
            }
            let mut msgs: Vec<SettlementRequest> = Vec::new();
            msgs.push(SettlementRequest { to: payable, balance: bal });
            Ok(msgs)
        }
    }
}

/// Credit a task reward to an agent's native balance: the deposit entry
/// point reserved for the external task engine.
///
/// The agent's stored balance and the config's aggregate available balance
/// move together, so the aggregate keeps covering the sum of all agents'
/// balances. Fails with `NotRegistered` for an unknown identity and with
/// `BalanceOverflow` when the aggregate counter cannot take the amount; the
/// state is then left untouched.
pub fn deposit_reward(sys: &mut AgentSystem, id: u64, amount: u128) -> (r: Result<
    (),
    ContractError,
>)
    requires
        old(sys).wf(),
    ensures
        final(sys).wf(),
        match r {
            Ok(()) => {
                &&& old(sys).agents.spec_get(id) matches Some(a0) && {
                    &&& final(sys).agents.spec_get(id) matches Some(a1) && {
                        &&& a1.status == a0.status
                        &&& a1.payable_account_id == a0.payable_account_id
                        &&& a1.total_tasks_executed == a0.total_tasks_executed
                        &&& a1.last_missed_slot == a0.last_missed_slot
                        &&& a1.register_start == a0.register_start
                        &&& a1.balance.native == a0.balance.native + amount
                        &&& a1.balance.tokens@ == a0.balance.tokens@
                    }
                }
                &&& old(sys).config.available_balance.native + amount <= u128::MAX
                &&& final(sys).config.available_balance.native == old(
                    sys,
                ).config.available_balance.native + amount
                &&& final(sys).config.available_balance.tokens@ == old(
                    sys,
                ).config.available_balance.tokens@
                &&& final(sys).config.paused == old(sys).config.paused
                &&& final(sys).config.gas_price == old(sys).config.gas_price
                &&& final(sys).config.native_denom == old(sys).config.native_denom
                &&& final(sys).active_queue@ == old(sys).active_queue@
                &&& final(sys).pending_queue@ == old(sys).pending_queue@
                &&& forall|id2: u64|
                    id2 != id ==> #[trigger] final(sys).agents.spec_get(id2) == old(
                        sys,
                    ).agents.spec_get(id2)
                &&& final(sys).agents.entries@.len() == old(sys).agents.entries@.len()
            }
            Err(e) => {
                &&& *final(sys) == *old(sys)
                &&& (e == ContractError::NotRegistered <==> !old(sys).agents.spec_contains(id))
                &&& (e == ContractError::BalanceOverflow <==> old(sys).agents.spec_contains(id)
                    && old(sys).config.available_balance.native + amount > u128::MAX)
                &&& (!old(sys).agents.spec_contains(id) || old(
                    sys,
                ).config.available_balance.native + amount > u128::MAX)
            }
        },
{
    match sys.agents.index_of(id) {
        None => Err(ContractError::NotRegistered),
        Some(i) => {
            if amount > u128::MAX - sys.config.available_balance.native {
                return Err(ContractError::BalanceOverflow);
            }
            let ghost pre = *sys;
            proof {
                lemma_agent_native_le_sum(sys.agents.entries@, id);
                crate::registry::lemma_sum_nonneg(sys.agents.entries@);
            }
            let cur = sys.agents.entries[i].agent.balance.native;
            let grown = cur + amount;
            let ghost s0 = sys.agents.entries@;
            let a = sys.agents.agent_mut(i);
            a.balance.native = grown;
            proof {
                let e = AgentEntry {
                    id: s0[i as int].id,
                    agent: sys.agents.entries@[i as int].agent,
                };
                assert(sys.agents.entries@ == s0.update(i as int, e));
                assert(e.agent.balance.wf()) by {
                    assert(s0[i as int].agent.balance.wf());
                }
                lemma_agent_at_update(s0, i as int, e);
                lemma_sum_update(s0, i as int, e);
            }
            let cr = sys.config.available_balance.credit(Asset::Native, amount);
            proof {
                assert(cr is Ok);
                let post = *sys;
                assert forall|id2: u64| #[trigger] post.active_queue@.contains(id2) implies (
                post.agents.spec_get(id2) matches Some(ag) && ag.status
                    == StoredAgentStatus::Active) by {
                    assert(pre.active_queue@.contains(id2));
                }
                assert forall|id2: u64| #[trigger] post.pending_queue@.contains(id2) implies (
                post.agents.spec_get(id2) matches Some(ag) && ag.status
                    == StoredAgentStatus::Pending) by {
                    assert(pre.pending_queue@.contains(id2));
                }
                assert forall|k: int| 0 <= k < post.agents.entries@.len() implies match (
                #[trigger] post.agents.entries@[k]).agent.status {
                    StoredAgentStatus::Active => post.active_queue@.contains(
                        post.agents.entries@[k].id,
                    ),
                    StoredAgentStatus::Pending => post.pending_queue@.contains(
                        post.agents.entries@[k].id,
                    ),
                } by {
                    if k != i {
                        assert(post.agents.entries@[k] == pre.agents.entries@[k]);
                    }
                }
                assert(post.wf());
            }
            Ok(())
        }
    }
}

/// Get a single agent's details, with the derived status: a stored `Pending`
/// agent that is present in the pending-queue snapshot reports `Nominated`;
/// once absent from that snapshot it reports `Pending` again. Returns `None`
/// for an unregistered identity.
pub fn query_get_agent(sys: &AgentSystem, account_id: u64) -> (r: Option<GetAgentResponse>)
    requires
        sys.agents.wf(),
    ensures
        match r {
            None => !sys.agents.spec_contains(account_id),
            Some(resp) => sys.agents.spec_get(account_id) matches Some(a) && {
                &&& resp.status == spec_derived_status(
                    a.status,
                    sys.pending_queue@.contains(account_id),
                )
                &&& resp.payable_account_id == a.payable_account_id
                &&& bal_eq(resp.balance, a.balance)
                &&& resp.total_tasks_executed == a.total_tasks_executed
                &&& resp.last_missed_slot == a.last_missed_slot
                &&& resp.register_start == a.register_start
            },
        },
{
    let in_pending = queue_contains(&sys.pending_queue, account_id);
    match sys.agents.get(account_id) {
        None => None,
        Some(a) => {
            Some(
                GetAgentResponse {
                    status: derived_status(a.status, in_pending),
                    payable_account_id: a.payable_account_id,
                    balance: a.balance.duplicate(),
                    total_tasks_executed: a.total_tasks_executed,
                    last_missed_slot: a.last_missed_slot,
                    register_start: a.register_start,
                },
            )
        }
    }
}

/// Get the (active, pending) queue snapshots, verbatim.
pub fn query_get_agent_ids(sys: &AgentSystem) -> (r: GetAgentIdsResponse)
    ensures
        r.0@ == sys.active_queue@,
        r.1@ == sys.pending_queue@,
{
    GetAgentIdsResponse(copy_queue(&sys.active_queue), copy_queue(&sys.pending_queue))
}

/// How many tasks an agent can execute: the documented (0, 0) placeholder
/// until task-ratio logic is designed.
pub fn query_get_agent_tasks(_sys: &AgentSystem, _account_id: u64) -> (r: GetAgentTasksResponse)
    ensures
        r.0 == 0,
        r.1 == 0,
{
    GetAgentTasksResponse(0, 0)
}

/// Law: at any point, an identity is a member of at most one of the active
/// and pending queues.
pub proof fn lemma_member_of_at_most_one_queue(s: AgentSystem, id: u64)
    requires
        s.wf(),
    ensures
        !(s.active_queue@.contains(id) && s.pending_queue@.contains(id)),
{
}

/// Law: together with "no entry", the two queues partition the registered
/// identities — a registered identity is in exactly the queue its stored
/// status names, and an unregistered identity is in neither queue.
pub proof fn lemma_queues_partition_registered(s: AgentSystem, id: u64)
    requires
        s.wf(),
    ensures
        s.agents.spec_get(id) matches Some(a) ==> (s.active_queue@.contains(id) <==> a.status
            == StoredAgentStatus::Active),
        s.agents.spec_get(id) matches Some(a) ==> (s.pending_queue@.contains(id) <==> a.status
            == StoredAgentStatus::Pending),
        s.agents.spec_get(id) is None ==> !s.active_queue@.contains(id)
            && !s.pending_queue@.contains(id),
{
    if s.agents.spec_get(id) is Some {
        crate::registry::lemma_some_means_index(s.agents.entries@, id);
        let i = choose|i: int|
            0 <= i < s.agents.entries@.len() && s.agents.entries@[i].id == id
                && s.agents.entries@[i].agent == s.agents.spec_get(id)->0;
        assert(match s.agents.entries@[i].agent.status {
            StoredAgentStatus::Active => s.active_queue@.contains(s.agents.entries@[i].id),
            StoredAgentStatus::Pending => s.pending_queue@.contains(s.agents.entries@[i].id),
        });
    }
}

/// Law: updating the payable destination is idempotent — applying the same
/// destination twice leaves exactly the state that applying it once left.
pub proof fn lemma_update_idempotent(
    s0: AgentSystem,
    s1: AgentSystem,
    s2: AgentSystem,
    caller: u64,
    payable_account_id: u64,
)
    requires
        update_applied(s0, s1, caller, payable_account_id),
        update_applied(s1, s2, caller, payable_account_id),
    ensures
        s2.config == s1.config,
        s2.active_queue@ == s1.active_queue@,
        s2.pending_queue@ == s1.pending_queue@,
        forall|id: u64| #[trigger] s2.agents.spec_get(id) == s1.agents.spec_get(id),
{
    let a0 = s0.agents.spec_get(caller)->0;
    let a1 = s1.agents.spec_get(caller)->0;
    assert(a1 == (Agent { payable_account_id, ..a0 }));
    assert(s2.agents.spec_get(caller) == Some((Agent { payable_account_id, ..a1 })));
    assert((Agent { payable_account_id, ..a1 }) == a1);
}

} // verus!
