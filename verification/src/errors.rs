use vstd::prelude::*;

verus! {

/// The typed failures an operation can surface. Every precondition is checked
/// before any mutation, so an error always leaves the state untouched.
#[derive(Clone, Copy, Debug, PartialEq, Eq, Structural)]
pub enum ContractError {
    /// The caller is not the identity the operation demands.
    Unauthorized,
    /// The identity is absent from the registry or the ledger.
    NotFound,
    /// A vote was cast while no round is open.
    RoundClosed,
    /// The round lifecycle was driven while no round is open.
    RoundNotOpen,
    /// The open round has no votes left in its budget.
    BudgetExhausted,
    /// A round was opened with a zero vote budget.
    InvalidBudget,
    /// The admin's balance does not cover the requested funding.
    InsufficientFunds,
    /// A computation would exceed the representable range; nothing is wrapped
    /// silently.
    ArithmeticOverflow,
    /// The total reputation is zero, so there is no weight to distribute by.
    NothingToDistribute,
}

} // verus!
