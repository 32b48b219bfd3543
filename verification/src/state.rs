use crate::balance::GenericBalance;
use crate::registry::Registry;
use crate::registry::StoredAgentStatus;
use crate::registry::sum_native;
use vstd::prelude::*;

verus! {

/// Process-wide settings: the pause gate, the minimum-balance cost
/// parameters, and the aggregate balance the contract still owes.
pub struct Config {
    /// When set, registration-state mutations are rejected.
    pub paused: bool,
    /// Price unit of the bootstrap check.
    pub gas_price: u64,
    /// Interned denomination of the base (native) asset.
    pub native_denom: u64,
    /// Aggregate across all agents' unwithdrawn balances: its native amount
    /// always covers the sum of the per-agent native balances.
    pub available_balance: GenericBalance,
}

impl Config {
    /// The global gate every registration-state mutation checks first.
    /// Queries never consult it.
    pub fn is_paused(&self) -> (r: bool)
        ensures
            r == self.paused,
    {
        self.paused
    }
}

/// The read-time status of an agent. `Nominated` is never stored: it is the
/// overlay a query reports for a `Pending` agent that currently appears in
/// the pending-queue snapshot.
#[derive(Clone, Copy, Debug, PartialEq, Eq, Structural)]
pub enum AgentStatus {
    Pending,
    Nominated,
    Active,
}

/// The read-time projection that overlays `Nominated` on a stored status.
pub open spec fn spec_derived_status(stored: StoredAgentStatus, in_pending: bool) -> AgentStatus {
    match stored {
        StoredAgentStatus::Active => AgentStatus::Active,
        StoredAgentStatus::Pending => if in_pending {
            AgentStatus::Nominated
        } else {
            AgentStatus::Pending
        },
    }
}

/// The read-time projection that overlays `Nominated` on a stored status.
pub fn derived_status(stored: StoredAgentStatus, in_pending: bool) -> (r: AgentStatus)
    ensures
        r == spec_derived_status(stored, in_pending),
{
    match stored {
        StoredAgentStatus::Active => AgentStatus::Active,
        StoredAgentStatus::Pending => if in_pending {
            AgentStatus::Nominated
        } else {
            AgentStatus::Pending
        },
    }
}

/// No identity occurs twice.
pub open spec fn distinct_ids(q: Seq<u64>) -> bool {
    forall|i: int, j: int| 0 <= i < j < q.len() ==> q[i] != q[j]
}

/// The whole state a command touches: the config singleton, the two election
/// queues, and the agent registry.
pub struct AgentSystem {
    pub config: Config,
    /// Identities eligible to execute tasks, in election order.
    pub active_queue: Vec<u64>,
    /// Identities waiting to be promoted, in insertion (nomination) order.
    pub pending_queue: Vec<u64>,
    pub agents: Registry,
}

impl AgentSystem {
    /// The system invariant every command preserves:
    /// - registry identities are unique and balances well-formed;
    /// - each queue holds an identity at most once;
    /// - a queued identity is registered, with the stored status matching its
    ///   queue, so the queues are disjoint and partition the registered
    ///   identities into active and pending;
    /// - the config's available native balance covers the sum of all agents'
    ///   native balances.
    pub open spec fn wf(self) -> bool {
        &&& self.agents.wf()
        &&& self.config.available_balance.wf()
        &&& distinct_ids(self.active_queue@)
        &&& distinct_ids(self.pending_queue@)
        &&& forall|id: u64|
            #[trigger] self.active_queue@.contains(id) ==> (self.agents.spec_get(id) matches Some(a)
                && a.status == StoredAgentStatus::Active)
        &&& forall|id: u64|
            #[trigger] self.pending_queue@.contains(id) ==> (self.agents.spec_get(id) matches Some(
            a,
            ) && a.status == StoredAgentStatus::Pending)
        &&& forall|i: int|
            0 <= i < self.agents.entries@.len() ==> match (#[trigger] self.agents.entries@[i]).agent.status {
                StoredAgentStatus::Active => self.active_queue@.contains(
                    self.agents.entries@[i].id,
                ),
                StoredAgentStatus::Pending => self.pending_queue@.contains(
                    self.agents.entries@[i].id,
                ),
            }
        &&& sum_native(self.agents.entries@) <= self.config.available_balance.native
    }
}

/// The initial state: nothing registered, both queues empty, not paused, no
/// available balance.
pub fn init(gas_price: u64, native_denom: u64) -> (r: AgentSystem)
    ensures
        r.wf(),
        !r.config.paused,
        r.config.gas_price == gas_price,
        r.config.native_denom == native_denom,
        r.config.available_balance.spec_is_zero(),
        r.config.available_balance.native == 0,
        r.active_queue@.len() == 0,
        r.pending_queue@.len() == 0,
        r.agents.entries@.len() == 0,
{
    AgentSystem {
        config: Config {
            paused: false,
            gas_price,
            native_denom,
            available_balance: GenericBalance::new(),
        },
        active_queue: Vec::new(),
        pending_queue: Vec::new(),
        agents: Registry::new(),
    }
}

/// Whether a queue holds an identity.
pub fn queue_contains(q: &Vec<u64>, id: u64) -> (r: bool)
    ensures
        r == q@.contains(id),
{
    let mut k: usize = 0;
    while k < q.len()
        invariant
            k <= q@.len(),
            forall|i: int| 0 <= i < k ==> q@[i] != id,
        decreases q@.len() - k,
    {
        if q[k] == id {
            assert(q@[k as int] == id);
            return true;
        }
        k += 1;
    }
    false
}

/// The position of the first occurrence of an identity in a queue, if any.
fn queue_index_of(q: &Vec<u64>, id: u64) -> (r: Option<usize>)
    ensures
        match r {
            Some(i) => i < q@.len() && q@[i as int] == id && (forall|j: int|
                0 <= j < i ==> q@[j] != id),
            None => !q@.contains(id),
        },
{
    let mut k: usize = 0;
    while k < q.len()
        invariant
            k <= q@.len(),
            forall|i: int| 0 <= i < k ==> q@[i] != id,
        decreases q@.len() - k,
    {
        if q[k] == id {
            return Some(k);
        }
        k += 1;
    }
    None
}

/// Remove an identity from a queue, idempotently: absent identities leave
/// the queue untouched. Returns the former position, if any.
pub fn queue_remove(q: &mut Vec<u64>, id: u64) -> (r: Option<usize>)
    ensures
        match r {
            Some(i) => {
                &&& i < old(q)@.len()
                &&& old(q)@[i as int] == id
                &&& forall|j: int| 0 <= j < i ==> old(q)@[j] != id
                &&& final(q)@ == old(q)@.remove(i as int)
            }
            None => !old(q)@.contains(id) && final(q)@ == old(q)@,
        },
{
    match queue_index_of(q, id) {
        Some(i) => {
            q.remove(i);
            Some(i)
        }
        None => None,
    }
}

/// An independent copy of a queue.
pub fn copy_queue(q: &Vec<u64>) -> (r: Vec<u64>)
    ensures
        r@ == q@,
{
    let mut r: Vec<u64> = Vec::new();
    let mut k: usize = 0;
    while k < q.len()
        invariant
            k <= q@.len(),
            r@ == q@.subrange(0, k as int),
        decreases q@.len() - k,
    {
        r.push(q[k]);
        assert(r@ == q@.subrange(0, k + 1 as int));
        k += 1;
    }
    assert(r@ == q@);
    r
}

/// What appending an identity does to queue membership and distinctness.
pub proof fn lemma_queue_push(s: Seq<u64>, e: u64)
    requires
        distinct_ids(s),
        !s.contains(e),
    ensures
        distinct_ids(s.push(e)),
        forall|x: u64| #[trigger] s.push(e).contains(x) == (s.contains(x) || x == e),
{
    let t = s.push(e);
    assert forall|i: int, j: int| 0 <= i < j < t.len() implies t[i] != t[j] by {
        if j < s.len() {
            assert(t[i] == s[i] && t[j] == s[j]);
        } else {
            assert(t[j] == e && t[i] == s[i]);
            assert(s.contains(s[i]));
        }
    }
    assert forall|x: u64| #[trigger] t.contains(x) == (s.contains(x) || x == e) by {
        if t.contains(x) {
            let i = choose|i: int| 0 <= i < t.len() && t[i] == x;
            if i < s.len() {
                assert(s[i] == x);
                assert(s.contains(x));
            } else {
                assert(x == e);
            }
        }
        if s.contains(x) {
            let i = choose|i: int| 0 <= i < s.len() && s[i] == x;
            assert(t[i] == x);
            assert(t.contains(x));
        }
        if x == e {
            assert(t[s.len() as int] == x);
            assert(t.contains(x));
        }
    }
}

/// What removing an identity's (unique) occurrence does to membership,
/// distinctness, and length.
pub proof fn lemma_queue_remove(pre: Seq<u64>, post: Seq<u64>, i: int, id: u64)
    requires
        distinct_ids(pre),
        0 <= i < pre.len(),
        pre[i] == id,
        post == pre.remove(i),
    ensures
        distinct_ids(post),
        !post.contains(id),
        forall|x: u64| x != id ==> #[trigger] post.contains(x) == pre.contains(x),
        post.len() == pre.len() - 1,
{
    pre.remove_ensures(i);
    assert forall|p: int, q: int| 0 <= p < q < post.len() implies post[p] != post[q] by {
        let p0: int = if p < i { p } else { p + 1 };
        let q0: int = if q < i { q } else { q + 1 };
        assert(post[p] == pre[p0] && post[q] == pre[q0]);
    }
    assert forall|p: int| 0 <= p < post.len() implies post[p] != id by {
        let p0: int = if p < i { p } else { p + 1 };
        assert(post[p] == pre[p0]);
        assert(pre[p0] != pre[i]);
    }
    assert forall|x: u64| x != id implies #[trigger] post.contains(x) == pre.contains(x) by {
        if post.contains(x) {
            let p = choose|p: int| 0 <= p < post.len() && post[p] == x;
            let p0: int = if p < i { p } else { p + 1 };
            assert(pre[p0] == x);
            assert(pre.contains(x));
        }
        if pre.contains(x) {
            let p0 = choose|p0: int| 0 <= p0 < pre.len() && pre[p0] == x;
            let p: int = if p0 < i { p0 } else { p0 - 1 };
            assert(post[p] == x);
            assert(post.contains(x));
        }
    }
}

} // verus!
