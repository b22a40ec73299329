//! Properties of the ledger that relate several operations or hold of every
//! reachable store, proved over the model of `crate::model`.
use crate::error::AppError;
use crate::model::{
    all_nonneg, balance_of, create_outcome, has_account, lemma_balance_of_index, lemma_push_fresh,
    lemma_transfer_effect, total,
    transfer_outcome, unique_ids, Entry,
};
use vstd::prelude::*;

verus! {

/// A transfer request of the model: sender, receiver, amount.
pub type Transfer = (Seq<char>, Seq<char>, int);

/// Applies `txs` to `s` in order; `None` as soon as one of them is rejected.
pub open spec fn apply_transfers(s: Seq<Entry>, txs: Seq<Transfer>) -> Option<Seq<Entry>>
    decreases txs.len(),
{
    if txs.len() == 0 {
        Some(s)
    } else {
        match transfer_outcome(s, txs[0].0, txs[0].1, txs[0].2) {
            Ok(s1) => apply_transfers(s1, txs.drop_first()),
            Err(_) => None,
        }
    }
}

/// `t` is what one accepted operation (an account opened, or a transfer)
/// makes of `s`.
pub open spec fn accepted_step(s: Seq<Entry>, t: Seq<Entry>) -> bool {
    (exists|id: Seq<char>, balance: int| create_outcome(s, id, balance) == Ok::<Seq<Entry>, AppError>(t))
    || transfer_step(s, t)
}

/// `t` is what one accepted transfer makes of `s`.
pub open spec fn transfer_step(s: Seq<Entry>, t: Seq<Entry>) -> bool {
    exists|sender: Seq<char>, receiver: Seq<char>, amount: int|
        transfer_outcome(s, sender, receiver, amount) == Ok::<Seq<Entry>, AppError>(t)
}

/// Conservation: along any sequence of stores in which each one is what an
/// accepted transfer makes of the one before (as successive successful calls
/// of `Ledger::process_transaction` produce), the sum of all balances and
/// the set of accounts stay as they were.
pub proof fn lemma_transfers_conserve_total(trace: Seq<Seq<Entry>>)
    requires
        trace.len() > 0,
        unique_ids(trace[0]),
        forall|k: int| 0 <= k < trace.len() - 1 ==> transfer_step(#[trigger] trace[k], trace[k + 1]),
    ensures
        total(trace.last()) == total(trace[0]),
        trace.last().len() == trace[0].len(),
        forall|i: int| 0 <= i < trace[0].len() ==> #[trigger] trace.last()[i].0 == trace[0][i].0,
        unique_ids(trace.last()),
    decreases trace.len(),
{
    if trace.len() > 1 {
        let prefix = trace.drop_last();
        assert forall|k: int| 0 <= k < prefix.len() - 1 implies transfer_step(
            #[trigger] prefix[k],
            prefix[k + 1],
        ) by {
            assert(transfer_step(trace[k], trace[k + 1]));
        }
        lemma_transfers_conserve_total(prefix);
        let n = trace.len() - 1;
        let s = trace[n - 1];
        assert(prefix.last() == s);
        assert(transfer_step(trace[n - 1], trace[(n - 1) + 1]));
        let (sender, receiver, amount) = choose|sender: Seq<char>, receiver: Seq<char>, amount: int|
            transfer_outcome(s, sender, receiver, amount) == Ok::<Seq<Entry>, AppError>(trace[n]);
        lemma_transfer_effect(s, sender, receiver, amount);
        assert forall|i: int| 0 <= i < trace[0].len() implies #[trigger] trace.last()[i].0
            == trace[0][i].0 by {
            assert(prefix.last()[i].0 == prefix[0][i].0);
        }
    }
}

/// Conservation for a run of transfer requests applied in order: when all
/// of them are accepted, the sum of all balances is as it was.
pub proof fn lemma_applied_transfers_conserve_total(s: Seq<Entry>, txs: Seq<Transfer>)
    requires
        unique_ids(s),
        apply_transfers(s, txs) is Some,
    ensures
        total(apply_transfers(s, txs)->Some_0) == total(s),
    decreases txs.len(),
{
    if txs.len() > 0 {
        lemma_transfer_effect(s, txs[0].0, txs[0].1, txs[0].2);
        let s1 = transfer_outcome(s, txs[0].0, txs[0].1, txs[0].2)->Ok_0;
        lemma_applied_transfers_conserve_total(s1, txs.drop_first());
    }
}

/// No negative balances: starting from the empty store, whatever sequence
/// of operations runs (a rejected one leaves the store as it was), every
/// store reached has unique identifiers and no negative balance.
pub proof fn lemma_reachable_stores_nonneg(trace: Seq<Seq<Entry>>)
    requires
        trace.len() > 0,
        trace[0] == Seq::<Entry>::empty(),
        forall|k: int|
            0 <= k < trace.len() - 1 ==> #[trigger] trace[k + 1] == trace[k] || accepted_step(
                trace[k],
                trace[k + 1],
            ),
    ensures
        forall|k: int| 0 <= k < trace.len() ==> #[trigger] all_nonneg(trace[k]) && unique_ids(trace[k]),
    decreases trace.len(),
{
    if trace.len() > 1 {
        let prefix = trace.drop_last();
        assert forall|k: int| 0 <= k < prefix.len() - 1 implies #[trigger] prefix[k + 1] == prefix[k]
            || accepted_step(prefix[k], prefix[k + 1]) by {
            assert(trace[k + 1] == trace[k] || accepted_step(trace[k], trace[k + 1]));
        }
        lemma_reachable_stores_nonneg(prefix);
        let n = trace.len() - 1;
        let s = trace[n - 1];
        let t = trace[n];
        assert(prefix[n - 1] == s);
        assert(all_nonneg(prefix[n - 1]) && unique_ids(prefix[n - 1]));
        let last = n - 1;
        assert(trace[last + 1] == trace[last] || accepted_step(trace[last], trace[last + 1]));
        if t != s {
            if exists|id: Seq<char>, balance: int| create_outcome(s, id, balance) == Ok::<Seq<Entry>, AppError>(t) {
                let (id, balance) = choose|id: Seq<char>, balance: int|
                    create_outcome(s, id, balance) == Ok::<Seq<Entry>, AppError>(t);
                assert(t == s.push((id, balance)));
                lemma_push_fresh(s, (id, balance));
                assert forall|i: int| 0 <= i < t.len() implies #[trigger] t[i].1 >= 0 by {
                    if i < s.len() {
                        assert(t[i] == s[i]);
                    }
                }
            } else {
                let (sender, receiver, amount) = choose|sender: Seq<char>, receiver: Seq<char>, amount: int|
                    transfer_outcome(s, sender, receiver, amount) == Ok::<Seq<Entry>, AppError>(t);
                lemma_transfer_effect(s, sender, receiver, amount);
                assert forall|i: int| 0 <= i < t.len() implies #[trigger] t[i].1 >= 0 by {
                    if t[i].0 == sender {
                        lemma_balance_of_index(t, i);
                    } else if t[i].0 == receiver {
                        lemma_balance_of_index(t, i);
                        lemma_balance_of_index(s, i);
                    } else {
                        assert(t[i] == s[i]);
                    }
                }
            }
        }
        assert forall|k: int| 0 <= k < trace.len() implies #[trigger] all_nonneg(trace[k])
            && unique_ids(trace[k]) by {
            if k < n {
                assert(prefix[k] == trace[k]);
            }
        }
    }
}

/// Uniqueness: opening an account under an identifier that is taken, with a
/// balance that is otherwise acceptable, is refused and changes nothing.
pub proof fn lemma_duplicate_id_refused(s: Seq<Entry>, id: Seq<char>, balance: int)
    requires
        has_account(s, id),
        balance >= 0,
    ensures
        create_outcome(s, id, balance) == Err::<Seq<Entry>, AppError>(AppError::AccountAlreadyExists),
{
}

/// Atomic visibility: `n` transfers of `a` out of account `x`, which holds
/// exactly `n * a`, each to another existing account, are all accepted, in
/// whatever order they are serialised. After the first `k` of them `x` holds
/// `(n - k) * a`, never less than zero, and after all of them nothing.
pub proof fn lemma_equal_transfers_drain_sender(
    s: Seq<Entry>,
    x: Seq<char>,
    a: int,
    txs: Seq<Transfer>,
)
    requires
        unique_ids(s),
        has_account(s, x),
        a > 0,
        balance_of(s, x) == txs.len() * a,
        forall|k: int|
            0 <= k < txs.len() ==> (#[trigger] txs[k]).0 == x && txs[k].2 == a && txs[k].1 != x
                && has_account(s, txs[k].1),
    ensures
        forall|k: int|
            0 <= k <= txs.len() ==> #[trigger] apply_transfers(s, txs.take(k)) is Some
                && balance_of(apply_transfers(s, txs.take(k))->Some_0, x) == (txs.len() - k) * a
                && (txs.len() - k) * a >= 0,
        apply_transfers(s, txs) is Some,
        balance_of(apply_transfers(s, txs)->Some_0, x) == 0,
    decreases txs.len(),
{
    let n = txs.len() as int;
    assert(txs.take(0) =~= Seq::<Transfer>::empty());
    assert(txs.take(n) =~= txs);
    if n == 0 {
        assert forall|k: int| 0 <= k <= txs.len() implies #[trigger] apply_transfers(
            s,
            txs.take(k),
        ) is Some && balance_of(apply_transfers(s, txs.take(k))->Some_0, x) == (txs.len() - k) * a
            && (txs.len() - k) * a >= 0 by {
            assert(k == 0);
        }
    } else {
        let t0 = txs[0];
        assert(n * a >= a) by (nonlinear_arith)
            requires
                n >= 1,
                a > 0,
        ;
        assert(n * a - a == (n - 1) * a) by (nonlinear_arith);
        lemma_transfer_effect(s, x, t0.1, a);
        let s1 = transfer_outcome(s, x, t0.1, a)->Ok_0;
        let rest = txs.drop_first();
        assert forall|k: int| 0 <= k < rest.len() implies (#[trigger] rest[k]).0 == x && rest[k].2
            == a && rest[k].1 != x && has_account(s1, rest[k].1) by {
            assert(rest[k] == txs[k + 1]);
        }
        lemma_equal_transfers_drain_sender(s1, x, a, rest);
        assert forall|k: int| 0 <= k <= txs.len() implies #[trigger] apply_transfers(
            s,
            txs.take(k),
        ) is Some && balance_of(apply_transfers(s, txs.take(k))->Some_0, x) == (txs.len() - k) * a
            && (txs.len() - k) * a >= 0 by {
            assert((n - k) * a >= 0) by (nonlinear_arith)
                requires
                    k <= n,
                    a > 0,
            ;
            if k > 0 {
                assert(txs.take(k).drop_first() =~= rest.take(k - 1));
                assert(txs.take(k)[0] == t0);
                assert(apply_transfers(s1, rest.take(k - 1)) is Some);
                assert((n - 1 - (k - 1)) * a == (n - k) * a);
            }
        }
    }
}

} // verus!
