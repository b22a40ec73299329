use clearing_house::accounts::{AccountBalanceResponse, CreateAccountRequest};
use clearing_house::clearing_house::ClearingHouse;
use clearing_house::error::AppError;
use clearing_house::ledger::Ledger;
use clearing_house::transactions::Transaction;

fn open(l: &mut Ledger, id: &str, balance: i64) -> Result<u128, AppError> {
    l.create_account(CreateAccountRequest { id: id.to_string(), balance })
        .map(|a| a.balance)
}

fn send(l: &mut Ledger, sender: &str, receiver: &str, amount: i64) -> Result<(), AppError> {
    l.process_transaction(Transaction {
        sender: sender.to_string(),
        receiver: receiver.to_string(),
        amount,
    })
}

fn balance(l: &Ledger, id: &str) -> u128 {
    l.get_account_balance(id).unwrap().balance
}

#[test]
fn transfer_scenario() {
    let mut l = Ledger::new();
    assert_eq!(open(&mut l, "A", 100), Ok(100));
    assert_eq!(open(&mut l, "B", 0), Ok(0));
    assert_eq!(send(&mut l, "A", "B", 40), Ok(()));
    assert_eq!(balance(&l, "A"), 60);
    assert_eq!(balance(&l, "B"), 40);
    assert_eq!(send(&mut l, "A", "B", 100), Err(AppError::InsufficientFunds));
    assert_eq!(balance(&l, "A"), 60);
    assert_eq!(balance(&l, "B"), 40);
    assert_eq!(send(&mut l, "A", "A", 10), Err(AppError::SenderReceiverIdentical));
    assert_eq!(l.get_account_balance("C"), Err(AppError::AccountNotFound));
}

#[test]
fn created_account_echoes_request() {
    let mut l = Ledger::new();
    let a = l
        .create_account(CreateAccountRequest { id: "acct-1".to_string(), balance: 2500 })
        .unwrap();
    assert_eq!(a.id, "acct-1");
    assert_eq!(a.balance, 2500);
    assert_eq!(l.get_account_balance("acct-1"), Ok(AccountBalanceResponse { balance: 2500 }));
    assert_eq!(l.len(), 1);
}

#[test]
fn negative_initial_balance_is_refused() {
    let mut l = Ledger::new();
    assert_eq!(open(&mut l, "A", -1), Err(AppError::InvalidBalance));
    assert_eq!(l.len(), 0);
    assert_eq!(l.get_account_balance("A"), Err(AppError::AccountNotFound));
}

#[test]
fn zero_initial_balance_is_accepted() {
    let mut l = Ledger::new();
    assert_eq!(open(&mut l, "A", 0), Ok(0));
    assert_eq!(balance(&l, "A"), 0);
}

#[test]
fn duplicate_id_is_refused_and_keeps_balance() {
    let mut l = Ledger::new();
    assert_eq!(open(&mut l, "A", 70), Ok(70));
    assert_eq!(open(&mut l, "A", 5), Err(AppError::AccountAlreadyExists));
    assert_eq!(open(&mut l, "A", 0), Err(AppError::AccountAlreadyExists));
    assert_eq!(balance(&l, "A"), 70);
    assert_eq!(l.len(), 1);
}

#[test]
fn negative_balance_is_checked_before_duplicate_id() {
    let mut l = Ledger::new();
    assert_eq!(open(&mut l, "A", 70), Ok(70));
    assert_eq!(open(&mut l, "A", -5), Err(AppError::InvalidBalance));
    assert_eq!(balance(&l, "A"), 70);
}

#[test]
fn non_positive_amount_is_refused() {
    let mut l = Ledger::new();
    open(&mut l, "A", 10).unwrap();
    open(&mut l, "B", 10).unwrap();
    assert_eq!(send(&mut l, "A", "B", 0), Err(AppError::InvalidAmount));
    assert_eq!(send(&mut l, "A", "B", -3), Err(AppError::InvalidAmount));
    assert_eq!(balance(&l, "A"), 10);
    assert_eq!(balance(&l, "B"), 10);
}

#[test]
fn validation_order_is_kept() {
    let mut l = Ledger::new();
    open(&mut l, "A", 10).unwrap();
    // the amount is checked first, even for identical or unknown accounts
    assert_eq!(send(&mut l, "X", "X", 0), Err(AppError::InvalidAmount));
    // identical accounts come before existence
    assert_eq!(send(&mut l, "X", "X", 5), Err(AppError::SenderReceiverIdentical));
    // existence comes before funds
    assert_eq!(send(&mut l, "A", "X", 500), Err(AppError::AccountNotFound));
}

#[test]
fn unknown_sender_or_receiver_is_refused() {
    let mut l = Ledger::new();
    open(&mut l, "A", 10).unwrap();
    assert_eq!(send(&mut l, "Z", "A", 1), Err(AppError::AccountNotFound));
    assert_eq!(send(&mut l, "A", "Z", 1), Err(AppError::AccountNotFound));
    assert_eq!(balance(&l, "A"), 10);
    assert_eq!(l.len(), 1);
}

#[test]
fn exact_balance_can_be_sent() {
    let mut l = Ledger::new();
    open(&mut l, "A", 25).unwrap();
    open(&mut l, "B", 0).unwrap();
    assert_eq!(send(&mut l, "A", "B", 26), Err(AppError::InsufficientFunds));
    assert_eq!(send(&mut l, "A", "B", 25), Ok(()));
    assert_eq!(balance(&l, "A"), 0);
    assert_eq!(balance(&l, "B"), 25);
}

#[test]
fn failed_transfers_change_nothing() {
    let mut l = Ledger::new();
    open(&mut l, "A", 30).unwrap();
    open(&mut l, "B", 20).unwrap();
    open(&mut l, "C", 10).unwrap();
    let attempts: Vec<(&str, &str, i64)> =
        vec![("A", "B", 0), ("A", "A", 5), ("Q", "B", 5), ("A", "Q", 5), ("C", "A", 11)];
    for (s, r, a) in attempts {
        assert!(send(&mut l, s, r, a).is_err());
        assert_eq!(balance(&l, "A"), 30);
        assert_eq!(balance(&l, "B"), 20);
        assert_eq!(balance(&l, "C"), 10);
    }
}

#[test]
fn transfers_conserve_the_total() {
    let mut l = Ledger::new();
    open(&mut l, "A", 500).unwrap();
    open(&mut l, "B", 300).unwrap();
    open(&mut l, "C", 0).unwrap();
    let ids = ["A", "B", "C"];
    let sum = |l: &Ledger| ids.iter().map(|id| balance(l, id)).sum::<u128>();
    assert_eq!(sum(&l), 800);
    let steps: Vec<(&str, &str, i64)> =
        vec![("A", "C", 120), ("B", "A", 300), ("C", "B", 120), ("A", "B", 680)];
    for (s, r, a) in steps {
        assert_eq!(send(&mut l, s, r, a), Ok(()));
        assert_eq!(sum(&l), 800);
    }
    assert_eq!(balance(&l, "A"), 0);
    assert_eq!(balance(&l, "B"), 800);
    assert_eq!(balance(&l, "C"), 0);
}

#[test]
fn equal_transfers_drain_the_sender_exactly() {
    let n: i64 = 8;
    let a: i64 = 15;
    let mut l = Ledger::new();
    open(&mut l, "X", n * a).unwrap();
    for k in 0..n {
        open(&mut l, &format!("R{}", k), 0).unwrap();
    }
    for k in 0..n {
        assert_eq!(send(&mut l, "X", &format!("R{}", k), a), Ok(()));
        assert_eq!(balance(&l, "X"), ((n - k - 1) * a) as u128);
    }
    assert_eq!(balance(&l, "X"), 0);
    assert_eq!(send(&mut l, "X", "R0", a), Err(AppError::InsufficientFunds));
    for k in 0..n {
        assert_eq!(balance(&l, &format!("R{}", k)), a as u128);
    }
}

#[test]
fn balances_beyond_one_deposit_do_not_overflow() {
    let mut l = Ledger::new();
    open(&mut l, "A", i64::MAX).unwrap();
    open(&mut l, "B", i64::MAX).unwrap();
    assert_eq!(send(&mut l, "A", "B", i64::MAX), Ok(()));
    assert_eq!(balance(&l, "A"), 0);
    assert_eq!(balance(&l, "B"), 2 * (i64::MAX as u128));
}

#[test]
fn shared_clearing_house_scenario() {
    let house = ClearingHouse::new(Ledger::new());
    let create = |id: &str, balance: i64| {
        house.create_account(CreateAccountRequest { id: id.to_string(), balance })
    };
    assert_eq!(create("A", 100).unwrap().balance, 100);
    assert_eq!(create("B", 0).unwrap().balance, 0);
    assert!(matches!(create("A", 1), Err(AppError::AccountAlreadyExists)));
    assert!(matches!(create("D", -1), Err(AppError::InvalidBalance)));
    let tx = |s: &str, r: &str, amount: i64| {
        house.process_transaction(Transaction { sender: s.to_string(), receiver: r.to_string(), amount })
    };
    assert_eq!(tx("A", "B", 40), Ok(()));
    assert_eq!(house.get_account_balance("A"), Ok(AccountBalanceResponse { balance: 60 }));
    assert_eq!(house.get_account_balance("B"), Ok(AccountBalanceResponse { balance: 40 }));
    assert_eq!(tx("A", "B", 100), Err(AppError::InsufficientFunds));
    assert_eq!(house.get_account_balance("A"), Ok(AccountBalanceResponse { balance: 60 }));
    assert_eq!(tx("A", "A", 10), Err(AppError::SenderReceiverIdentical));
    assert_eq!(tx("A", "B", 0), Err(AppError::InvalidAmount));
    assert_eq!(house.get_account_balance("C"), Err(AppError::AccountNotFound));
}
