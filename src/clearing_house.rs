//! The ledger shared between concurrent callers. Every operation holds one
//! lock over the whole store for its full duration, so operations take effect
//! one at a time, and no caller ever sees a transfer half applied.
use crate::accounts::{Account, AccountBalanceResponse, CreateAccountRequest};
use crate::error::AppError;
use crate::ledger::Ledger;
use crate::transactions::Transaction;
use vstd::prelude::*;
use vstd::rwlock::{RwLock, RwLockPredicate};

verus! {

/// What the lock guarantees of the ledger it guards: it is well formed, so
/// identifiers are unique and balances are non-negative.
pub struct LedgerPredicate;

impl RwLockPredicate<Ledger> for LedgerPredicate {
    open spec fn inv(self, v: Ledger) -> bool {
        v.wf()
    }
}

pub struct ClearingHouse {
    accounts: RwLock<Ledger, LedgerPredicate>,
}

impl ClearingHouse {
    /// Whether the lock may hold `v`: exactly the well-formed ledgers, so
    /// every store the house ever holds has unique identifiers and no
    /// negative balance.
    pub closed spec fn admits(&self, v: Ledger) -> bool {
        self.accounts.inv(v)
    }

    /// A clearing house that owns `accounts`.
    pub fn new(accounts: Ledger) -> (r: Self)
        requires
            accounts.wf(),
        ensures
            r.admits(accounts),
            forall|v: Ledger| #[trigger] r.admits(v) <==> v.wf(),
    {
        ClearingHouse { accounts: RwLock::new(accounts, Ghost(LedgerPredicate)) }
    }

    /// Opens an account under the lock. What the store held before is not
    /// known here; the exact outcome is that of `Ledger::create_account` on
    /// the store as the lock found it.
    pub fn create_account(&self, request: CreateAccountRequest) -> (r: Result<Account, AppError>)
        ensures
            r matches Ok(a) ==> a@ == (request.id@, request.balance as int),
            r == Err::<Account, AppError>(AppError::InvalidBalance) <==> request.balance < 0,
            r matches Err(e) ==> e == AppError::InvalidBalance || e
                == AppError::AccountAlreadyExists,
    {
        let (mut ledger, handle) = self.accounts.acquire_write();
        let r = ledger.create_account(request);
        handle.release_write(ledger);
        r
    }

    /// Reads a balance under the exclusive lock, so it never sees a
    /// transfer in progress.
    pub fn get_account_balance(&self, id: &str) -> (r: Result<AccountBalanceResponse, AppError>)
        ensures
            r matches Err(e) ==> e == AppError::AccountNotFound,
    {
        let (ledger, handle) = self.accounts.acquire_write();
        let r = ledger.get_account_balance(id);
        handle.release_write(ledger);
        r
    }

    /// Applies a transfer under the lock: the checks and both balance
    /// changes happen inside one critical section.
    pub fn process_transaction(&self, transaction: Transaction) -> (r: Result<(), AppError>)
        ensures
            r == Err::<(), AppError>(AppError::InvalidAmount) <==> transaction.amount <= 0,
            r == Err::<(), AppError>(AppError::SenderReceiverIdentical) <==> (transaction.amount
                > 0 && transaction.sender@ == transaction.receiver@),
            r is Ok ==> transaction.amount > 0 && transaction.sender@ != transaction.receiver@,
            r matches Err(e) ==> e != AppError::AccountAlreadyExists && e
                != AppError::InvalidBalance,
    {
        let (mut ledger, handle) = self.accounts.acquire_write();
        let r = ledger.process_transaction(transaction);
        handle.release_write(ledger);
        r
    }
}

} // verus!
