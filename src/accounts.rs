use vstd::prelude::*;

verus! {

/// An account as handed back to callers: its identifier and its balance in
/// minor units.
#[derive(Debug, Clone)]
pub struct Account {
    pub id: String,
    pub balance: u128,
}

impl View for Account {
    type V = (Seq<char>, int);

    open spec fn view(&self) -> (Seq<char>, int) {
        (self.id@, self.balance as int)
    }
}

/// A request to open an account with the given identifier and initial
/// balance. A negative balance is representable so that it can be rejected.
#[derive(Debug, Clone)]
pub struct CreateAccountRequest {
    pub id: String,
    pub balance: i64,
}

/// The answer to a balance lookup.
#[derive(Debug, Clone, Copy, PartialEq, Eq, Structural)]
pub struct AccountBalanceResponse {
    pub balance: u128,
}

} // verus!
