//! The ledger engine: the account store and the three operations on it.
use crate::accounts::{Account, AccountBalanceResponse, CreateAccountRequest};
use crate::error::AppError;
use crate::model::{
    all_nonneg, create_outcome, has_account, lemma_balance_of_index, lemma_entry_le_total,
    lemma_push_fresh, lemma_total_push, lemma_transfer_as_updates, lemma_transfer_effect,
    lookup_outcome, total, transfer_outcome, unique_ids, Entry,
};
use crate::transactions::Transaction;
use vstd::prelude::*;

verus! {

/// The account store. Identifiers are unique, and since every deposit fits
/// in an `i64`, the sum of all balances is at most `len * i64::MAX`, so no
/// balance can overflow its `u128`.
pub struct Ledger {
    accounts: Vec<Account>,
}

impl View for Ledger {
    type V = Seq<Entry>;

    closed spec fn view(&self) -> Seq<Entry> {
        self.accounts@.map_values(|a: Account| a@)
    }
}

impl Ledger {
    pub open spec fn wf(&self) -> bool {
        &&& unique_ids(self@)
        &&& all_nonneg(self@)
        &&& total(self@) <= self@.len() * (i64::MAX as int)
    }

    proof fn lemma_view_facts(&self)
        ensures
            self@.len() == self.accounts@.len(),
            forall|i: int| 0 <= i < self@.len() ==> #[trigger] self@[i] == self.accounts@[i]@,
            all_nonneg(self@),
    {
    }

    /// An empty ledger.
    pub fn new() -> (r: Ledger)
        ensures
            r@ == Seq::<Entry>::empty(),
            r.wf(),
    {
        let r = Ledger { accounts: Vec::new() };
        assert(r@ =~= Seq::<Entry>::empty());
        r
    }

    /// The number of accounts.
    pub fn len(&self) -> (r: usize)
        ensures
            r == self@.len(),
    {
        proof { self.lemma_view_facts(); }
        self.accounts.len()
    }

    /// The position of the account `id` in the store, if it is there.
    fn position(&self, id: &String) -> (r: Option<usize>)
        requires
            self.wf(),
        ensures
            match r {
                Some(i) => i < self@.len() && self@[i as int].0 == id@,
                None => !has_account(self@, id@),
            },
    {
        proof { self.lemma_view_facts(); }
        let mut i: usize = 0;
        while i < self.accounts.len()
            invariant
                i <= self.accounts@.len(),
                self@.len() == self.accounts@.len(),
                forall|k: int| 0 <= k < self@.len() ==> #[trigger] self@[k] == self.accounts@[k]@,
                forall|k: int| 0 <= k < i ==> #[trigger] self@[k].0 != id@,
            decreases self.accounts@.len() - i,
        {
            if self.accounts[i].id == *id {
                return Some(i);
            }
            i = i + 1;
        }
        None
    }

    /// Opens the account `request.id` with `request.balance`: refused when
    /// the balance is negative, then when the identifier is taken.
    pub fn create_account(&mut self, request: CreateAccountRequest) -> (r: Result<Account, AppError>)
        requires
            old(self).wf(),
        ensures
            final(self).wf(),
            match create_outcome(old(self)@, request.id@, request.balance as int) {
                Ok(s) => r matches Ok(a) && a@ == (request.id@, request.balance as int)
                    && final(self)@ == s,
                Err(e) => r == Err::<Account, AppError>(e) && final(self)@ == old(self)@,
            },
    {
        proof { self.lemma_view_facts(); }
        if request.balance < 0 {
            return Err(AppError::InvalidBalance);
        }
        if self.position(&request.id).is_some() {
            return Err(AppError::AccountAlreadyExists);
        }
        let ghost old_view = self@;
        let balance = request.balance as u128;
        let account = Account { id: request.id.clone(), balance };
        self.accounts.push(account);
        proof {
            let e = (request.id@, request.balance as int);
            assert(self@ =~= old_view.push(e));
            lemma_total_push(old_view, e);
            lemma_push_fresh(old_view, e);
            assert(self@.len() * (i64::MAX as int) == old_view.len() * (i64::MAX as int)
                + i64::MAX) by (nonlinear_arith)
                requires
                    self@.len() == old_view.len() + 1,
            ;
        }
        Ok(Account { id: request.id, balance })
    }

    /// The balance of account `id`.
    pub fn get_account_balance(&self, id: &str) -> (r: Result<AccountBalanceResponse, AppError>)
        requires
            self.wf(),
        ensures
            match lookup_outcome(self@, id@) {
                Ok(b) => r matches Ok(resp) && resp.balance == b,
                Err(e) => r == Err::<AccountBalanceResponse, AppError>(e),
            },
    {
        proof { self.lemma_view_facts(); }
        let key = id.to_owned();
        match self.position(&key) {
            Some(i) => {
                proof { lemma_balance_of_index(self@, i as int); }
                Ok(AccountBalanceResponse { balance: self.accounts[i].balance })
            },
            None => Err(AppError::AccountNotFound),
        }
    }

    /// Moves `transaction.amount` from the sender to the receiver. The checks
    /// run in this order: the amount is positive, the two accounts differ,
    /// the sender exists, the receiver exists, the sender can pay. Either
    /// both balances change or nothing does.
    pub fn process_transaction(&mut self, transaction: Transaction) -> (r: Result<(), AppError>)
        requires
            old(self).wf(),
        ensures
            final(self).wf(),
            match transfer_outcome(
                old(self)@,
                transaction.sender@,
                transaction.receiver@,
                transaction.amount as int,
            ) {
                Ok(s) => r is Ok && final(self)@ == s,
                Err(e) => r == Err::<(), AppError>(e) && final(self)@ == old(self)@,
            },
            r is Ok ==> total(final(self)@) == total(old(self)@),
            r is Ok ==> final(self)@.len() == old(self)@.len() && forall|k: int|
                0 <= k < old(self)@.len() ==> #[trigger] final(self)@[k].0 == old(self)@[k].0,
    {
        proof { self.lemma_view_facts(); }
        if transaction.amount <= 0 {
            return Err(AppError::InvalidAmount);
        }
        if transaction.sender == transaction.receiver {
            return Err(AppError::SenderReceiverIdentical);
        }
        let si = match self.position(&transaction.sender) {
            Some(i) => i,
            None => return Err(AppError::AccountNotFound),
        };
        let ri = match self.position(&transaction.receiver) {
            Some(i) => i,
            None => return Err(AppError::AccountNotFound),
        };
        let ghost s0 = self@;
        proof {
            lemma_balance_of_index(s0, si as int);
            lemma_balance_of_index(s0, ri as int);
        }
        let count = self.accounts.len();
        let amount = transaction.amount as u128;
        let sender_balance = self.accounts[si].balance;
        let receiver_balance = self.accounts[ri].balance;
        if sender_balance < amount {
            return Err(AppError::InsufficientFunds);
        }
        proof {
            lemma_entry_le_total(s0, ri as int);
            let n = s0.len();
            assert(n == count);
            assert(n <= u64::MAX);
            assert(n * (i64::MAX as int) + i64::MAX <= u128::MAX) by (nonlinear_arith)
                requires
                    0 <= n <= u64::MAX,
            ;
        }
        let debited = Account { id: self.accounts[si].id.clone(), balance: sender_balance - amount };
        let credited = Account {
            id: self.accounts[ri].id.clone(),
            balance: receiver_balance + amount,
        };
        self.accounts.set(si, debited);
        let ghost s1 = self@;
        self.accounts.set(ri, credited);
        proof {
            let e1 = (transaction.sender@, sender_balance - amount);
            let e2 = (transaction.receiver@, receiver_balance + amount);
            assert(s1 =~= s0.update(si as int, e1));
            assert(self@ =~= s1.update(ri as int, e2));
            lemma_transfer_as_updates(s0, si as int, ri as int, transaction.amount as int);
            lemma_transfer_effect(s0, transaction.sender@, transaction.receiver@, transaction.amount as int);
        }
        Ok(())
    }
}

} // verus!
