use crate::error::ContractError;
use vstd::prelude::*;

verus! {

/// One holding of a wallet: an interned asset denomination and an amount.
#[derive(Clone, Copy, Debug, PartialEq, Eq, Structural)]
pub struct Coin {
    pub denom: u64,
    pub amount: u128,
}

/// One token-kind holding inside a `GenericBalance`.
#[derive(Clone, Copy, Debug, PartialEq, Eq, Structural)]
pub struct TokenBalance {
    pub token_id: u64,
    pub amount: u128,
}

/// An asset kind a balance can be credited or debited in: the base (native)
/// asset, or one token kind named by its interned id.
#[derive(Clone, Copy, Debug, PartialEq, Eq, Structural)]
pub enum Asset {
    Native,
    Token(u64),
}

/// A value container: the base (native) asset amount plus zero or more
/// token-kind amounts, with at most one entry per token kind.
#[derive(Clone, Debug, PartialEq, Eq)]
pub struct GenericBalance {
    pub native: u128,
    pub tokens: Vec<TokenBalance>,
}

/// Token lists keep at most one entry per token kind.
pub open spec fn tokens_wf(s: Seq<TokenBalance>) -> bool {
    forall|i: int, j: int| 0 <= i < j < s.len() ==> s[i].token_id != s[j].token_id
}

/// The amount a token list holds for one token kind (0 when the kind is absent).
pub open spec fn token_amount(s: Seq<TokenBalance>, id: u64) -> u128
    decreases s.len(),
{
    if s.len() == 0 {
        0
    } else if s[0].token_id == id {
        s[0].amount
    } else {
        token_amount(s.drop_first(), id)
    }
}

/// Two balances hold the same value.
pub open spec fn bal_eq(a: GenericBalance, b: GenericBalance) -> bool {
    a.native == b.native && a.tokens@ == b.tokens@
}

/// A token kind that appears nowhere in the list contributes nothing.
pub proof fn lemma_token_amount_absent(s: Seq<TokenBalance>, id: u64)
    requires
        forall|i: int| 0 <= i < s.len() ==> s[i].token_id != id,
    ensures
        token_amount(s, id) == 0,
    decreases s.len(),
{
    if s.len() > 0 {
        assert(forall|i: int| 0 <= i < s.drop_first().len() ==> s.drop_first()[i].token_id != id);
        lemma_token_amount_absent(s.drop_first(), id);
    }
}

/// With unique token kinds, the list's amount for a kind is the amount of its entry.
pub proof fn lemma_token_amount_at(s: Seq<TokenBalance>, i: int)
    requires
        tokens_wf(s),
        0 <= i < s.len(),
    ensures
        token_amount(s, s[i].token_id) == s[i].amount,
    decreases s.len(),
{
    if i > 0 {
        assert(s[0].token_id != s[i].token_id);
        assert(tokens_wf(s.drop_first()));
        assert(s.drop_first()[i - 1] == s[i]);
        lemma_token_amount_at(s.drop_first(), i - 1);
    }
}

/// Updating the entry of one token kind changes that kind's amount and no other.
pub proof fn lemma_token_amount_update(s: Seq<TokenBalance>, i: int, e: TokenBalance)
    requires
        tokens_wf(s),
        0 <= i < s.len(),
        s[i].token_id == e.token_id,
    ensures
        tokens_wf(s.update(i, e)),
        forall|id: u64|
            #[trigger] token_amount(s.update(i, e), id) == if id == e.token_id {
                e.amount
            } else {
                token_amount(s, id)
            },
{
    let t = s.update(i, e);
    assert(tokens_wf(t));
    assert forall|id: u64|
        #[trigger] token_amount(t, id) == if id == e.token_id {
            e.amount
        } else {
            token_amount(s, id)
        } by {
        if id == e.token_id {
            lemma_token_amount_at(t, i);
        } else {
            if exists|j: int| 0 <= j < s.len() && s[j].token_id == id {
                let j = choose|j: int| 0 <= j < s.len() && s[j].token_id == id;
                lemma_token_amount_at(s, j);
                lemma_token_amount_at(t, j);
            } else {
                lemma_token_amount_absent(s, id);
                lemma_token_amount_absent(t, id);
            }
        }
    }
}

/// Appending an entry for a fresh token kind sets that kind's amount and no other.
pub proof fn lemma_token_amount_push(s: Seq<TokenBalance>, e: TokenBalance)
    requires
        tokens_wf(s),
        forall|i: int| 0 <= i < s.len() ==> s[i].token_id != e.token_id,
    ensures
        tokens_wf(s.push(e)),
        forall|id: u64|
            #[trigger] token_amount(s.push(e), id) == if id == e.token_id {
                e.amount
            } else {
                token_amount(s, id)
            },
{
    let t = s.push(e);
    assert(tokens_wf(t));
    assert forall|id: u64|
        #[trigger] token_amount(t, id) == if id == e.token_id {
            e.amount
        } else {
            token_amount(s, id)
        } by {
        if id == e.token_id {
            lemma_token_amount_at(t, s.len() as int);
        } else {
            if exists|j: int| 0 <= j < s.len() && s[j].token_id == id {
                let j = choose|j: int| 0 <= j < s.len() && s[j].token_id == id;
                lemma_token_amount_at(s, j);
                lemma_token_amount_at(t, j);
            } else {
                lemma_token_amount_absent(s, id);
                lemma_token_amount_absent(t, id);
            }
        }
    }
}

/// Whether a list of coins holds at least `amount` of the denomination `denom`.
pub open spec fn spec_has_coins(coins: Seq<Coin>, denom: u64, amount: u128) -> bool {
    exists|i: int| 0 <= i < coins.len() && coins[i].denom == denom && coins[i].amount >= amount
}

/// Whether a list of coins holds at least `amount` of the denomination `denom`.
pub fn has_coins(coins: &Vec<Coin>, denom: u64, amount: u128) -> (r: bool)
    ensures
        r == spec_has_coins(coins@, denom, amount),
{
    let mut k: usize = 0;
    while k < coins.len()
        invariant
            k <= coins@.len(),
            forall|i: int| 0 <= i < k ==> !(coins@[i].denom == denom && coins@[i].amount >= amount),
        decreases coins@.len() - k,
    {
        if coins[k].denom == denom && coins[k].amount >= amount {
            assert(0 <= k < coins@.len() && coins@[k as int].denom == denom && coins@[k as int].amount
                >= amount);
            return true;
        }
        k += 1;
    }
    false
}

/// Find the entry of one token kind, if present.
fn find_token(tokens: &Vec<TokenBalance>, id: u64) -> (r: Option<usize>)
    ensures
        match r {
            Some(i) => i < tokens@.len() && tokens@[i as int].token_id == id,
            None => forall|i: int| 0 <= i < tokens@.len() ==> tokens@[i].token_id != id,
        },
{
    let mut k: usize = 0;
    while k < tokens.len()
        invariant
            k <= tokens@.len(),
            forall|i: int| 0 <= i < k ==> tokens@[i].token_id != id,
        decreases tokens@.len() - k,
    {
        if tokens[k].token_id == id {
            return Some(k);
        }
        k += 1;
    }
    None
}

impl GenericBalance {
    /// Token kinds inside this balance are unique.
    pub open spec fn wf(self) -> bool {
        tokens_wf(self.tokens@)
    }

    /// The amount this balance holds of one asset kind.
    pub open spec fn spec_asset_amount(self, asset: Asset) -> u128 {
        match asset {
            Asset::Native => self.native,
            Asset::Token(id) => token_amount(self.tokens@, id),
        }
    }

    /// Nothing is held: the native amount and every token amount are zero.
    pub open spec fn spec_is_zero(self) -> bool {
        self.native == 0 && forall|i: int| 0 <= i < self.tokens@.len() ==> self.tokens@[i].amount == 0
    }

    /// The empty balance.
    pub fn new() -> (r: GenericBalance)
        ensures
            r.wf(),
            r.native == 0,
            r.tokens@.len() == 0,
            r.spec_is_zero(),
    {
        GenericBalance { native: 0, tokens: Vec::new() }
    }

    /// An independent copy holding the same value.
    pub fn duplicate(&self) -> (r: GenericBalance)
        ensures
            bal_eq(r, *self),
            r.native == self.native,
            r.tokens@ == self.tokens@,
    {
        let mut t: Vec<TokenBalance> = Vec::new();
        let mut k: usize = 0;
        while k < self.tokens.len()
            invariant
                k <= self.tokens@.len(),
                t@ == self.tokens@.subrange(0, k as int),
            decreases self.tokens@.len() - k,
        {
            t.push(self.tokens[k]);
            assert(t@ == self.tokens@.subrange(0, k + 1 as int));
            k += 1;
        }
        assert(t@ == self.tokens@);
        GenericBalance { native: self.native, tokens: t }
    }

    /// Add `amount` of one asset kind. Fails (and changes nothing) only when
    /// the asset's counter would overflow.
    pub fn credit(&mut self, asset: Asset, amount: u128) -> (r: Result<(), ContractError>)
        requires
            old(self).wf(),
        ensures
            final(self).wf(),
            match r {
                Ok(()) => {
                    &&& old(self).spec_asset_amount(asset) + amount <= u128::MAX
                    &&& final(self).spec_asset_amount(asset) == old(self).spec_asset_amount(asset)
                        + amount
                    &&& forall|a2: Asset|
                        a2 != asset ==> #[trigger] final(self).spec_asset_amount(a2) == old(
                            self,
                        ).spec_asset_amount(a2)
                    &&& (asset is Native ==> final(self).tokens@ == old(self).tokens@)
                    &&& (asset is Token ==> final(self).native == old(self).native)
                }
                Err(e) => {
                    &&& e == ContractError::BalanceOverflow
                    &&& old(self).spec_asset_amount(asset) + amount > u128::MAX
                    &&& *final(self) == *old(self)
                }
            },
    {
        match asset {
            Asset::Native => {
                if amount <= u128::MAX - self.native {
                    self.native = self.native + amount;
                    Ok(())
                } else {
                    Err(ContractError::BalanceOverflow)
                }
            }
            Asset::Token(id) => {
                match find_token(&self.tokens, id) {
                    Some(i) => {
                        let cur = self.tokens[i].amount;
                        proof {
                            lemma_token_amount_at(self.tokens@, i as int);
                        }
                        if amount <= u128::MAX - cur {
                            let e = TokenBalance { token_id: id, amount: cur + amount };
                            proof {
                                lemma_token_amount_update(self.tokens@, i as int, e);
                            }
                            self.tokens[i] = e;
                            Ok(())
                        } else {
                            Err(ContractError::BalanceOverflow)
                        }
                    }
                    None => {
                        proof {
                            lemma_token_amount_absent(self.tokens@, id);
                            lemma_token_amount_push(
                                self.tokens@,
                                TokenBalance { token_id: id, amount },
                            );
                        }
                        self.tokens.push(TokenBalance { token_id: id, amount });
                        Ok(())
                    }
                }
            }
        }
    }

    /// Remove `amount` of one asset kind. Fails (and changes nothing) when the
    /// balance holds less than `amount` of it: a debit never drives a total
    /// negative.
    pub fn debit(&mut self, asset: Asset, amount: u128) -> (r: Result<(), ContractError>)
        requires
            old(self).wf(),
        ensures
            final(self).wf(),
            match r {
                Ok(()) => {
                    &&& amount <= old(self).spec_asset_amount(asset)
                    &&& final(self).spec_asset_amount(asset) == old(self).spec_asset_amount(asset)
                        - amount
                    &&& forall|a2: Asset|
                        a2 != asset ==> #[trigger] final(self).spec_asset_amount(a2) == old(
                            self,
                        ).spec_asset_amount(a2)
                    &&& (asset is Native ==> final(self).tokens@ == old(self).tokens@)
                    &&& (asset is Token ==> final(self).native == old(self).native)
                }
                Err(e) => {
                    &&& e == ContractError::InsufficientFunds
                    &&& old(self).spec_asset_amount(asset) < amount
                    &&& *final(self) == *old(self)
                }
            },
    {
        match asset {
            Asset::Native => {
                if amount <= self.native {
                    self.native = self.native - amount;
                    Ok(())
                } else {
                    Err(ContractError::InsufficientFunds)
                }
            }
            Asset::Token(id) => {
                match find_token(&self.tokens, id) {
                    Some(i) => {
                        let cur = self.tokens[i].amount;
                        proof {
                            lemma_token_amount_at(self.tokens@, i as int);
                        }
                        if amount <= cur {
                            let e = TokenBalance { token_id: id, amount: cur - amount };
                            proof {
                                lemma_token_amount_update(self.tokens@, i as int, e);
                            }
                            self.tokens[i] = e;
                            Ok(())
                        } else {
                            Err(ContractError::InsufficientFunds)
                        }
                    }
                    None => {
                        proof {
                            lemma_token_amount_absent(self.tokens@, id);
                        }
                        if amount == 0 {
                            Ok(())
                        } else {
                            Err(ContractError::InsufficientFunds)
                        }
                    }
                }
            }
        }
    }

    /// Whether nothing is held.
    pub fn is_zero(&self) -> (r: bool)
        ensures
            r == self.spec_is_zero(),
    {
        if self.native != 0 {
            return false;
        }
        let mut k: usize = 0;
        while k < self.tokens.len()
            invariant
                k <= self.tokens@.len(),
                forall|i: int| 0 <= i < k ==> self.tokens@[i].amount == 0,
            decreases self.tokens@.len() - k,
        {
            if self.tokens[k].amount != 0 {
                return false;
            }
            k += 1;
        }
        true
    }
}

} // verus!
