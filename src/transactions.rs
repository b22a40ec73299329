use vstd::prelude::*;

verus! {

/// A requested transfer of `amount` minor units from `sender` to `receiver`.
#[derive(Debug, Clone)]
pub struct Transaction {
    pub sender: String,
    pub receiver: String,
    pub amount: i64,
}

} // verus!
