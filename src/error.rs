use vstd::prelude::*;

verus! {

/// Every way in which an operation on the ledger can be rejected.
#[derive(Debug, Clone, Copy, PartialEq, Eq, Structural)]
pub enum AppError {
    AccountAlreadyExists,
    AccountNotFound,
    InvalidBalance,
    InvalidAmount,
    InsufficientFunds,
    SenderReceiverIdentical,
}

} // verus!
