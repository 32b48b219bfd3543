use vstd::prelude::*;

verus! {

/// The single flat error taxonomy. Every command failure names the precise
/// precondition that was violated, and the failing command leaves the whole
/// state untouched (all-or-nothing).
#[derive(Clone, Copy, Debug, PartialEq, Eq, Structural)]
pub enum ContractError {
    /// A value attachment accompanied a command that forbids one.
    UnexpectedFunds,
    /// The global pause gate is set; registration-state mutations are rejected.
    ConfigPaused,
    /// The registering identity does not hold the bootstrap cost in the native asset.
    InsufficientBootstrapFunds,
    /// The identity already has an agent record.
    AlreadyRegistered,
    /// The identity has no agent record.
    NotRegistered,
    /// The identity is not currently nominated, so it cannot accept a nomination.
    NotNominated,
    /// A debit would drive a balance total negative.
    InsufficientFunds,
    /// A credit would overflow a ledger counter.
    BalanceOverflow,
}

} // verus!
