//! The mathematical model of the account store: a sequence of
//! `(identifier, balance)` entries, and the outcome of each operation on it.
use crate::error::AppError;
use vstd::prelude::*;

verus! {

/// One account of the model: its identifier and its balance in minor units.
pub type Entry = (Seq<char>, int);

/// No identifier occurs twice in the store.
pub open spec fn unique_ids(s: Seq<Entry>) -> bool {
    forall|i: int, j: int|
        0 <= i < s.len() && 0 <= j < s.len() && i != j ==> #[trigger] s[i].0 != #[trigger] s[j].0
}

/// Every balance in the store is non-negative.
pub open spec fn all_nonneg(s: Seq<Entry>) -> bool {
    forall|i: int| 0 <= i < s.len() ==> #[trigger] s[i].1 >= 0
}

pub open spec fn has_account(s: Seq<Entry>, id: Seq<char>) -> bool {
    exists|i: int| 0 <= i < s.len() && #[trigger] s[i].0 == id
}

/// The balance recorded for `id` (meaningful when `has_account(s, id)`).
pub open spec fn balance_of(s: Seq<Entry>, id: Seq<char>) -> int {
    s[choose|i: int| 0 <= i < s.len() && #[trigger] s[i].0 == id].1
}

/// The store with the balance of `id` replaced by `v`.
pub open spec fn set_balance(s: Seq<Entry>, id: Seq<char>, v: int) -> Seq<Entry> {
    s.map_values(|e: Entry| if e.0 == id { (e.0, v) } else { e })
}

/// The sum of all balances.
pub open spec fn total(s: Seq<Entry>) -> int
    decreases s.len(),
{
    if s.len() == 0 {
        0
    } else {
        total(s.drop_last()) + s.last().1
    }
}

/// What opening account `id` with `balance` does to the store `s`.
pub open spec fn create_outcome(s: Seq<Entry>, id: Seq<char>, balance: int) -> Result<
    Seq<Entry>,
    AppError,
> {
    if balance < 0 {
        Err(AppError::InvalidBalance)
    } else if has_account(s, id) {
        Err(AppError::AccountAlreadyExists)
    } else {
        Ok(s.push((id, balance)))
    }
}

/// What a balance lookup of `id` answers on the store `s`.
pub open spec fn lookup_outcome(s: Seq<Entry>, id: Seq<char>) -> Result<int, AppError> {
    if has_account(s, id) {
        Ok(balance_of(s, id))
    } else {
        Err(AppError::AccountNotFound)
    }
}

/// What a transfer of `amount` from `sender` to `receiver` does to the store
/// `s`: the checks in their order, then the debit and the credit together.
pub open spec fn transfer_outcome(
    s: Seq<Entry>,
    sender: Seq<char>,
    receiver: Seq<char>,
    amount: int,
) -> Result<Seq<Entry>, AppError> {
    if amount <= 0 {
        Err(AppError::InvalidAmount)
    } else if sender == receiver {
        Err(AppError::SenderReceiverIdentical)
    } else if !has_account(s, sender) || !has_account(s, receiver) {
        Err(AppError::AccountNotFound)
    } else if balance_of(s, sender) < amount {
        Err(AppError::InsufficientFunds)
    } else {
        Ok(
            set_balance(
                set_balance(s, sender, balance_of(s, sender) - amount),
                receiver,
                balance_of(s, receiver) + amount,
            ),
        )
    }
}

pub proof fn lemma_balance_of_index(s: Seq<Entry>, i: int)
    requires
        unique_ids(s),
        0 <= i < s.len(),
    ensures
        has_account(s, s[i].0),
        balance_of(s, s[i].0) == s[i].1,
{
    let j = choose|j: int| 0 <= j < s.len() && #[trigger] s[j].0 == s[i].0;
    assert(s[j].0 == s[i].0);
}

pub proof fn lemma_set_balance_index(s: Seq<Entry>, i: int, v: int)
    requires
        unique_ids(s),
        0 <= i < s.len(),
    ensures
        set_balance(s, s[i].0, v) == s.update(i, (s[i].0, v)),
{
    assert(set_balance(s, s[i].0, v) =~= s.update(i, (s[i].0, v)));
}

pub proof fn lemma_total_push(s: Seq<Entry>, e: Entry)
    ensures
        total(s.push(e)) == total(s) + e.1,
{
    assert(s.push(e).drop_last() =~= s);
}

pub proof fn lemma_total_update(s: Seq<Entry>, i: int, e: Entry)
    requires
        0 <= i < s.len(),
    ensures
        total(s.update(i, e)) == total(s) - s[i].1 + e.1,
    decreases s.len(),
{
    let t = s.update(i, e);
    if i == s.len() - 1 {
        assert(t.drop_last() =~= s.drop_last());
    } else {
        assert(t.drop_last() =~= s.drop_last().update(i, e));
        lemma_total_update(s.drop_last(), i, e);
    }
}

pub proof fn lemma_entry_le_total(s: Seq<Entry>, i: int)
    requires
        all_nonneg(s),
        0 <= i < s.len(),
    ensures
        0 <= s[i].1 <= total(s),
    decreases s.len(),
{
    lemma_total_nonneg(s.drop_last());
    if i < s.len() - 1 {
        lemma_entry_le_total(s.drop_last(), i);
    }
}

pub proof fn lemma_total_nonneg(s: Seq<Entry>)
    requires
        all_nonneg(s),
    ensures
        total(s) >= 0,
    decreases s.len(),
{
    if s.len() > 0 {
        lemma_total_nonneg(s.drop_last());
    }
}

/// Appending an account under a fresh identifier keeps identifiers unique.
pub proof fn lemma_push_fresh(s: Seq<Entry>, e: Entry)
    requires
        unique_ids(s),
        !has_account(s, e.0),
    ensures
        unique_ids(s.push(e)),
{
    let t = s.push(e);
    assert forall|i: int, j: int|
        0 <= i < t.len() && 0 <= j < t.len() && i != j implies #[trigger] t[i].0 != #[trigger] t[j].0 by {
        if i == s.len() {
            assert(s[j].0 == t[j].0);
        } else if j == s.len() {
            assert(s[i].0 == t[i].0);
        }
    }
}

/// An accepted transfer between the entries at `si` and `ri` is the two
/// point updates of those entries.
pub proof fn lemma_transfer_as_updates(s: Seq<Entry>, si: int, ri: int, amount: int)
    requires
        unique_ids(s),
        0 <= si < s.len(),
        0 <= ri < s.len(),
        si != ri,
        0 < amount <= s[si].1,
    ensures
        transfer_outcome(s, s[si].0, s[ri].0, amount) == Ok::<Seq<Entry>, AppError>(
            s.update(si, (s[si].0, s[si].1 - amount)).update(ri, (s[ri].0, s[ri].1 + amount)),
        ),
{
    lemma_balance_of_index(s, si);
    lemma_balance_of_index(s, ri);
    let s1 = s.update(si, (s[si].0, s[si].1 - amount));
    lemma_set_balance_index(s, si, s[si].1 - amount);
    assert(unique_ids(s1)) by {
        assert forall|k: int| 0 <= k < s1.len() implies #[trigger] s1[k].0 == s[k].0 by {}
    }
    lemma_set_balance_index(s1, ri, s[ri].1 + amount);
}

/// A successful transfer keeps every identifier in place, debits the sender,
/// credits the receiver, and touches no other account.
pub proof fn lemma_transfer_effect(s: Seq<Entry>, sender: Seq<char>, receiver: Seq<char>, amount: int)
    requires
        unique_ids(s),
        transfer_outcome(s, sender, receiver, amount) is Ok,
    ensures
        ({
            let t = transfer_outcome(s, sender, receiver, amount)->Ok_0;
            &&& t.len() == s.len()
            &&& forall|k: int| 0 <= k < s.len() ==> #[trigger] t[k].0 == s[k].0
            &&& unique_ids(t)
            &&& total(t) == total(s)
            &&& balance_of(t, sender) == balance_of(s, sender) - amount
            &&& balance_of(t, receiver) == balance_of(s, receiver) + amount
            &&& forall|k: int|
                0 <= k < s.len() && s[k].0 != sender && s[k].0 != receiver ==> #[trigger] t[k]
                    == s[k]
            &&& forall|x: Seq<char>| #[trigger] has_account(t, x) == has_account(s, x)
            &&& forall|x: Seq<char>|
                x != sender && x != receiver && has_account(s, x) ==> #[trigger] balance_of(t, x)
                    == balance_of(s, x)
        }),
{
    let si = choose|i: int| 0 <= i < s.len() && #[trigger] s[i].0 == sender;
    let ri = choose|i: int| 0 <= i < s.len() && #[trigger] s[i].0 == receiver;
    lemma_balance_of_index(s, si);
    lemma_balance_of_index(s, ri);
    lemma_transfer_as_updates(s, si, ri, amount);
    let e1 = (sender, s[si].1 - amount);
    let e2 = (receiver, s[ri].1 + amount);
    let s1 = s.update(si, e1);
    let t = s1.update(ri, e2);
    lemma_total_update(s, si, e1);
    lemma_total_update(s1, ri, e2);
    assert forall|k: int| 0 <= k < s.len() implies #[trigger] t[k].0 == s[k].0 by {}
    assert(unique_ids(t));
    assert(t[si] == e1);
    assert(t[ri] == e2);
    lemma_balance_of_index(t, si);
    lemma_balance_of_index(t, ri);
    assert forall|x: Seq<char>| #[trigger] has_account(t, x) == has_account(s, x) by {
        if has_account(s, x) {
            let k = choose|k: int| 0 <= k < s.len() && #[trigger] s[k].0 == x;
            assert(t[k].0 == x);
        }
        if has_account(t, x) {
            let k = choose|k: int| 0 <= k < t.len() && #[trigger] t[k].0 == x;
            assert(s[k].0 == x);
        }
    }
    assert forall|x: Seq<char>|
        x != sender && x != receiver && has_account(s, x) implies #[trigger] balance_of(t, x)
            == balance_of(s, x) by {
        let k = choose|k: int| 0 <= k < s.len() && #[trigger] s[k].0 == x;
        lemma_balance_of_index(s, k);
        lemma_balance_of_index(t, k);
    }
}

} // verus!
