use crate::balance::GenericBalance;
use vstd::prelude::*;

verus! {

/// The stored half of an agent's status. Only these two values are ever
/// persisted; the read-time `Nominated` overlay lives in the query layer.
#[derive(Clone, Copy, Debug, PartialEq, Eq, Structural)]
pub enum StoredAgentStatus {
    Pending,
    Active,
}

/// One agent record: the source of truth for status, reward balance, payable
/// destination, and statistics.
#[derive(Clone, Debug, PartialEq, Eq)]
pub struct Agent {
    pub status: StoredAgentStatus,
    /// Destination identity for reward settlement.
    pub payable_account_id: u64,
    /// Reward balance owned exclusively by this record.
    pub balance: GenericBalance,
    /// Monotonically non-decreasing; mutated only by the external task engine.
    pub total_tasks_executed: u64,
    /// Reserved for future slot-fairness logic.
    pub last_missed_slot: u64,
    /// Time of first successful registration (nanoseconds); immutable.
    pub register_start: u64,
}

/// A registry entry: an identity and its agent record.
#[derive(Clone, Debug, PartialEq, Eq)]
pub struct AgentEntry {
    pub id: u64,
    pub agent: Agent,
}

/// Entry lists keep at most one record per identity, and every stored balance
/// keeps its token kinds unique.
pub open spec fn entries_wf(s: Seq<AgentEntry>) -> bool {
    &&& forall|i: int, j: int| 0 <= i < j < s.len() ==> s[i].id != s[j].id
    &&& forall|i: int| 0 <= i < s.len() ==> (#[trigger] s[i]).agent.balance.wf()
}

/// The record an entry list holds for one identity (None when unregistered).
pub open spec fn agent_at(s: Seq<AgentEntry>, id: u64) -> Option<Agent>
    decreases s.len(),
{
    if s.len() == 0 {
        None
    } else if s[0].id == id {
        Some(s[0].agent)
    } else {
        agent_at(s.drop_first(), id)
    }
}

/// The sum of the native-asset balances of all records in the list.
pub open spec fn sum_native(s: Seq<AgentEntry>) -> int
    decreases s.len(),
{
    if s.len() == 0 {
        0
    } else {
        s[0].agent.balance.native + sum_native(s.drop_first())
    }
}

/// An identity that appears nowhere in the list has no record.
pub proof fn lemma_agent_at_absent(s: Seq<AgentEntry>, id: u64)
    requires
        forall|i: int| 0 <= i < s.len() ==> s[i].id != id,
    ensures
        agent_at(s, id) is None,
    decreases s.len(),
{
    if s.len() > 0 {
        assert(forall|i: int| 0 <= i < s.drop_first().len() ==> s.drop_first()[i].id != id);
        lemma_agent_at_absent(s.drop_first(), id);
    }
}

/// With unique identities, the record held for an entry's identity is that entry's record.
pub proof fn lemma_agent_at_index(s: Seq<AgentEntry>, i: int)
    requires
        forall|p: int, q: int| 0 <= p < q < s.len() ==> s[p].id != s[q].id,
        0 <= i < s.len(),
    ensures
        agent_at(s, s[i].id) == Some(s[i].agent),
    decreases s.len(),
{
    if i > 0 {
        assert(s[0].id != s[i].id);
        assert(s.drop_first()[i - 1] == s[i]);
        lemma_agent_at_index(s.drop_first(), i - 1);
    }
}

/// An identity with a record appears in the list, with that record.
pub proof fn lemma_some_means_index(s: Seq<AgentEntry>, id: u64)
    requires
        agent_at(s, id) is Some,
    ensures
        exists|i: int|
            0 <= i < s.len() && s[i].id == id && s[i].agent == agent_at(s, id)->0,
    decreases s.len(),
{
    if s.len() > 0 {
        if s[0].id == id {
            assert(s[0].id == id && s[0].agent == agent_at(s, id)->0);
        } else {
            lemma_some_means_index(s.drop_first(), id);
            let i = choose|i: int|
                0 <= i < s.drop_first().len() && s.drop_first()[i].id == id
                    && s.drop_first()[i].agent == agent_at(s.drop_first(), id)->0;
            assert(s[i + 1].id == id && s[i + 1].agent == agent_at(s, id)->0);
        }
    }
}

/// An identity with no record appears nowhere in the list.
pub proof fn lemma_none_means_absent(s: Seq<AgentEntry>, id: u64)
    requires
        forall|p: int, q: int| 0 <= p < q < s.len() ==> s[p].id != s[q].id,
        agent_at(s, id) is None,
    ensures
        forall|i: int| 0 <= i < s.len() ==> s[i].id != id,
{
    assert forall|i: int| 0 <= i < s.len() implies s[i].id != id by {
        if s[i].id == id {
            lemma_agent_at_index(s, i);
        }
    }
}

/// Replacing one identity's entry (keeping its identity) changes that
/// identity's record and no other.
pub proof fn lemma_agent_at_update(s: Seq<AgentEntry>, i: int, e: AgentEntry)
    requires
        entries_wf(s),
        0 <= i < s.len(),
        s[i].id == e.id,
        e.agent.balance.wf(),
    ensures
        entries_wf(s.update(i, e)),
        forall|id: u64|
            #[trigger] agent_at(s.update(i, e), id) == if id == e.id {
                Some(e.agent)
            } else {
                agent_at(s, id)
            },
{
    let t = s.update(i, e);
    assert(entries_wf(t));
    assert forall|id: u64|
        #[trigger] agent_at(t, id) == if id == e.id {
            Some(e.agent)
        } else {
            agent_at(s, id)
        } by {
        if id == e.id {
            lemma_agent_at_index(t, i);
        } else {
            if exists|j: int| 0 <= j < s.len() && s[j].id == id {
                let j = choose|j: int| 0 <= j < s.len() && s[j].id == id;
                lemma_agent_at_index(s, j);
                lemma_agent_at_index(t, j);
            } else {
                lemma_agent_at_absent(s, id);
                lemma_agent_at_absent(t, id);
            }
        }
    }
}

/// Appending an entry for a fresh identity adds that identity's record and
/// changes no other.
pub proof fn lemma_agent_at_push(s: Seq<AgentEntry>, e: AgentEntry)
    requires
        entries_wf(s),
        forall|i: int| 0 <= i < s.len() ==> s[i].id != e.id,
        e.agent.balance.wf(),
    ensures
        entries_wf(s.push(e)),
        forall|id: u64|
            #[trigger] agent_at(s.push(e), id) == if id == e.id {
                Some(e.agent)
            } else {
                agent_at(s, id)
            },
{
    let t = s.push(e);
    assert(entries_wf(t));
    assert forall|id: u64|
        #[trigger] agent_at(t, id) == if id == e.id {
            Some(e.agent)
        } else {
            agent_at(s, id)
        } by {
        if id == e.id {
            lemma_agent_at_index(t, s.len() as int);
        } else {
            if exists|j: int| 0 <= j < s.len() && s[j].id == id {
                let j = choose|j: int| 0 <= j < s.len() && s[j].id == id;
                lemma_agent_at_index(s, j);
                assert(t[j] == s[j]);
                lemma_agent_at_index(t, j);
            } else {
                lemma_agent_at_absent(s, id);
                lemma_agent_at_absent(t, id);
            }
        }
    }
}

/// Removing one identity's entry removes that identity's record and changes
/// no other.
pub proof fn lemma_agent_at_remove(s: Seq<AgentEntry>, i: int)
    requires
        entries_wf(s),
        0 <= i < s.len(),
    ensures
        entries_wf(s.remove(i)),
        forall|id: u64|
            #[trigger] agent_at(s.remove(i), id) == if id == s[i].id {
                None::<Agent>
            } else {
                agent_at(s, id)
            },
{
    let t = s.remove(i);
    s.remove_ensures(i);
    assert forall|p: int, q: int| 0 <= p < q < t.len() implies t[p].id != t[q].id by {
        let p0: int = if p < i { p } else { p + 1 };
        let q0: int = if q < i { q } else { q + 1 };
        assert(t[p] == s[p0] && t[q] == s[q0]);
    }
    assert forall|p: int| 0 <= p < t.len() implies (#[trigger] t[p]).agent.balance.wf() by {
        let p0: int = if p < i { p } else { p + 1 };
        assert(t[p] == s[p0]);
    }
    assert forall|id: u64|
        #[trigger] agent_at(t, id) == if id == s[i].id {
            None::<Agent>
        } else {
            agent_at(s, id)
        } by {
        if id == s[i].id {
            assert forall|p: int| 0 <= p < t.len() implies t[p].id != id by {
                let p0: int = if p < i { p } else { p + 1 };
                assert(t[p] == s[p0]);
            }
            lemma_agent_at_absent(t, id);
        } else {
            if exists|j: int| 0 <= j < s.len() && s[j].id == id {
                let j = choose|j: int| 0 <= j < s.len() && s[j].id == id;
                lemma_agent_at_index(s, j);
                let j2: int = if j < i { j } else { j - 1 };
                assert(t[j2] == s[j]);
                lemma_agent_at_index(t, j2);
            } else {
                lemma_agent_at_absent(s, id);
                assert forall|p: int| 0 <= p < t.len() implies t[p].id != id by {
                    let p0: int = if p < i { p } else { p + 1 };
                    assert(t[p] == s[p0]);
                }
                lemma_agent_at_absent(t, id);
            }
        }
    }
}

/// Splitting a list splits its native-asset sum.
pub proof fn lemma_sum_concat(a: Seq<AgentEntry>, b: Seq<AgentEntry>)
    ensures
        sum_native(a + b) == sum_native(a) + sum_native(b),
    decreases a.len(),
{
    if a.len() == 0 {
        assert(a + b =~= b);
    } else {
        assert((a + b)[0] == a[0]);
        assert((a + b).drop_first() =~= a.drop_first() + b);
        lemma_sum_concat(a.drop_first(), b);
    }
}

/// A one-entry list sums to that entry's native balance.
pub proof fn lemma_sum_singleton(e: AgentEntry)
    ensures
        sum_native(seq![e]) == e.agent.balance.native,
{
    let single = seq![e];
    assert(single[0] == e);
    assert(single.drop_first() =~= Seq::<AgentEntry>::empty());
    assert(sum_native(Seq::<AgentEntry>::empty()) == 0);
    assert(sum_native(single) == e.agent.balance.native + sum_native(single.drop_first()));
}

/// Appending an entry grows the native-asset sum by its balance.
pub proof fn lemma_sum_push(s: Seq<AgentEntry>, e: AgentEntry)
    ensures
        sum_native(s.push(e)) == sum_native(s) + e.agent.balance.native,
{
    let single = seq![e];
    assert(s.push(e) =~= s + single);
    lemma_sum_concat(s, single);
    lemma_sum_singleton(e);
}

/// Replacing an entry shifts the native-asset sum by the balance difference.
pub proof fn lemma_sum_update(s: Seq<AgentEntry>, i: int, e: AgentEntry)
    requires
        0 <= i < s.len(),
    ensures
        sum_native(s.update(i, e)) == sum_native(s) - s[i].agent.balance.native
            + e.agent.balance.native,
{
    let front = s.subrange(0, i);
    let back = s.subrange(i + 1, s.len() as int);
    assert(s =~= front + seq![s[i]] + back);
    assert(s.update(i, e) =~= front + seq![e] + back);
    lemma_sum_concat(front + seq![s[i]], back);
    lemma_sum_concat(front, seq![s[i]]);
    lemma_sum_concat(front + seq![e], back);
    lemma_sum_concat(front, seq![e]);
    lemma_sum_singleton(s[i]);
    lemma_sum_singleton(e);
}

/// Removing an entry shrinks the native-asset sum by its balance.
pub proof fn lemma_sum_remove(s: Seq<AgentEntry>, i: int)
    requires
        0 <= i < s.len(),
    ensures
        sum_native(s.remove(i)) == sum_native(s) - s[i].agent.balance.native,
{
    let front = s.subrange(0, i);
    let back = s.subrange(i + 1, s.len() as int);
    assert(s =~= front + seq![s[i]] + back);
    assert(s.remove(i) == front + back);
    lemma_sum_concat(front + seq![s[i]], back);
    lemma_sum_concat(front, seq![s[i]]);
    lemma_sum_concat(front, back);
    lemma_sum_singleton(s[i]);
}

/// A native-asset sum is never negative.
pub proof fn lemma_sum_nonneg(s: Seq<AgentEntry>)
    ensures
        0 <= sum_native(s),
    decreases s.len(),
{
    if s.len() > 0 {
        lemma_sum_nonneg(s.drop_first());
    }
}

/// Any one record's native balance is covered by the list's native-asset sum.
pub proof fn lemma_agent_native_le_sum(s: Seq<AgentEntry>, id: u64)
    requires
        agent_at(s, id) is Some,
    ensures
        agent_at(s, id)->0.balance.native <= sum_native(s),
    decreases s.len(),
{
    if s.len() > 0 {
        if s[0].id == id {
            lemma_sum_nonneg(s.drop_first());
        } else {
            lemma_agent_native_le_sum(s.drop_first(), id);
        }
    }
}

/// The agent registry: the mapping from identity to agent record. All
/// mutation goes through its methods, which keep identities unique.
pub struct Registry {
    pub entries: Vec<AgentEntry>,
}

impl Registry {
    /// Identities are unique and every stored balance is well-formed.
    pub open spec fn wf(self) -> bool {
        entries_wf(self.entries@)
    }

    /// The record held for one identity.
    pub open spec fn spec_get(self, id: u64) -> Option<Agent> {
        agent_at(self.entries@, id)
    }

    /// Whether an identity has a record.
    pub open spec fn spec_contains(self, id: u64) -> bool {
        self.spec_get(id) is Some
    }

    /// The sum of all stored native-asset balances.
    pub open spec fn total_native(self) -> int {
        sum_native(self.entries@)
    }

    /// The empty registry.
    pub fn new() -> (r: Registry)
        ensures
            r.wf(),
            r.entries@.len() == 0,
            r.total_native() == 0,
            forall|id: u64| !(#[trigger] r.spec_contains(id)),
    {
        let r = Registry { entries: Vec::new() };
        proof {
            assert forall|id: u64| !(#[trigger] r.spec_contains(id)) by {
                lemma_agent_at_absent(r.entries@, id);
            }
        }
        r
    }

    /// The position of an identity's entry, if it has one.
    pub fn index_of(&self, id: u64) -> (r: Option<usize>)
        requires
            self.wf(),
        ensures
            match r {
                Some(i) => i < self.entries@.len() && self.entries@[i as int].id == id
                    && self.spec_get(id) == Some(self.entries@[i as int].agent),
                None => self.spec_get(id) is None,
            },
    {
        let mut k: usize = 0;
        while k < self.entries.len()
            invariant
                self.wf(),
                k <= self.entries@.len(),
                forall|i: int| 0 <= i < k ==> self.entries@[i].id != id,
            decreases self.entries@.len() - k,
        {
            if self.entries[k].id == id {
                proof {
                    lemma_agent_at_index(self.entries@, k as int);
                }
                return Some(k);
            }
            k += 1;
        }
        proof {
            lemma_agent_at_absent(self.entries@, id);
        }
        None
    }

    /// Whether an identity has a record.
    pub fn contains(&self, id: u64) -> (r: bool)
        requires
            self.wf(),
        ensures
            r == self.spec_contains(id),
    {
        self.index_of(id).is_some()
    }

    /// Borrow the record of one identity.
    pub fn get(&self, id: u64) -> (r: Option<&Agent>)
        requires
            self.wf(),
        ensures
            match r {
                Some(a) => self.spec_get(id) == Some(*a),
                None => self.spec_get(id) is None,
            },
    {
        match self.index_of(id) {
            Some(i) => Some(&self.entries[i].agent),
            None => None,
        }
    }

    /// Create the record of a new identity.
    pub fn insert(&mut self, id: u64, agent: Agent)
        requires
            old(self).wf(),
            !old(self).spec_contains(id),
            agent.balance.wf(),
        ensures
            final(self).wf(),
            final(self).entries@ == old(self).entries@.push(AgentEntry { id, agent }),
            final(self).total_native() == old(self).total_native() + agent.balance.native,
            forall|id2: u64|
                #[trigger] final(self).spec_get(id2) == if id2 == id {
                    Some(agent)
                } else {
                    old(self).spec_get(id2)
                },
    {
        proof {
            lemma_none_means_absent(self.entries@, id);
            lemma_agent_at_push(self.entries@, AgentEntry { id, agent });
            lemma_sum_push(self.entries@, AgentEntry { id, agent });
        }
        self.entries.push(AgentEntry { id, agent });
    }

    /// Borrow one entry's record for mutation. The caller re-establishes the
    /// registry's derived facts for the record it writes.
    pub(crate) fn agent_mut(&mut self, i: usize) -> (r: &mut Agent)
        requires
            i < old(self).entries@.len(),
        ensures
            *r == old(self).entries@[i as int].agent,
            final(self).entries@ == old(self).entries@.update(
                i as int,
                (AgentEntry { id: old(self).entries@[i as int].id, agent: *final(r) }),
            ),
    {
        &mut self.entries[i].agent
    }

    /// Delete the entry at one position.
    pub fn remove_at(&mut self, i: usize)
        requires
            old(self).wf(),
            i < old(self).entries@.len(),
        ensures
            final(self).wf(),
            final(self).entries@ == old(self).entries@.remove(i as int),
            final(self).total_native() == old(self).total_native() - old(self).entries@[i as int].agent.balance.native,
            forall|id2: u64|
                #[trigger] final(self).spec_get(id2) == if id2 == old(self).entries@[i as int].id {
                    None::<Agent>
                } else {
                    old(self).spec_get(id2)
                },
    {
        proof {
            lemma_agent_at_remove(self.entries@, i as int);
            lemma_sum_remove(self.entries@, i as int);
        }
        self.entries.remove(i);
    }
}

} // verus!
