use chaincore::digital_cash::{Account, Bank, CashTransaction, DigitalCashSystem};
use chaincore::state_machine::{StateMachine, User};

#[test]
fn sm_5_mint_new_cash() {
    let start = Bank::new();
    let end = DigitalCashSystem::next_state(
        &start,
        &CashTransaction::Mint { minter: User::Alice, amount: 20 },
    );

    let expected = Bank::from_bills(vec![Account { owner: User::Alice, amount: 20, serial: 0 }]);
    assert_eq!(end, expected);
}

#[test]
fn sm_5_overflow_receives_fails() {
    let start = Bank::from_bills(vec![Account { owner: User::Alice, amount: 42, serial: 0 }]);
    let end = DigitalCashSystem::next_state(
        &start,
        &CashTransaction::Transfer {
            spends: vec![Account { owner: User::Alice, amount: 42, serial: 0 }],
            receives: vec![
                Account { owner: User::Alice, amount: u64::MAX, serial: 1 },
                Account { owner: User::Alice, amount: 42, serial: 2 },
            ],
        },
    );
    let expected = Bank::from_bills(vec![Account { owner: User::Alice, amount: 42, serial: 0 }]);
    assert_eq!(end, expected);
}

#[test]
fn sm_5_empty_spend_fails() {
    let start = Bank::from_bills(vec![Account { owner: User::Alice, amount: 20, serial: 0 }]);
    let end = DigitalCashSystem::next_state(
        &start,
        &CashTransaction::Transfer {
            spends: vec![],
            receives: vec![Account { owner: User::Alice, amount: 15, serial: 1 }],
        },
    );
    let expected = Bank::from_bills(vec![Account { owner: User::Alice, amount: 20, serial: 0 }]);
    assert_eq!(end, expected);
}

#[test]
fn sm_5_output_value_0_fails() {
    let start = Bank::from_bills(vec![Account { owner: User::Alice, amount: 20, serial: 0 }]);
    let end = DigitalCashSystem::next_state(
        &start,
        &CashTransaction::Transfer {
            spends: vec![Account { owner: User::Alice, amount: 20, serial: 0 }],
            receives: vec![Account { owner: User::Bob, amount: 0, serial: 1 }],
        },
    );
    let expected = Bank::from_bills(vec![Account { owner: User::Alice, amount: 20, serial: 0 }]);
    assert_eq!(end, expected);
}

#[test]
fn sm_5_serial_number_already_seen_fails() {
    let start = Bank::from_bills(vec![Account { owner: User::Alice, amount: 20, serial: 0 }]);
    let end = DigitalCashSystem::next_state(
        &start,
        &CashTransaction::Transfer {
            spends: vec![Account { owner: User::Alice, amount: 20, serial: 0 }],
            receives: vec![Account { owner: User::Alice, amount: 18, serial: 0 }],
        },
    );
    let expected = Bank::from_bills(vec![Account { owner: User::Alice, amount: 20, serial: 0 }]);
    assert_eq!(end, expected);
}

#[test]
fn sm_5_spending_and_receiving_same_bill_fails() {
    let start = Bank::from_bills(vec![Account { owner: User::Alice, amount: 20, serial: 0 }]);
    let end = DigitalCashSystem::next_state(
        &start,
        &CashTransaction::Transfer {
            spends: vec![Account { owner: User::Alice, amount: 20, serial: 0 }],
            receives: vec![Account { owner: User::Alice, amount: 20, serial: 0 }],
        },
    );
    let expected = Bank::from_bills(vec![Account { owner: User::Alice, amount: 20, serial: 0 }]);
    assert_eq!(end, expected);
}

#[test]
fn sm_5_receiving_bill_with_incorrect_serial_fails() {
    let start = Bank::from_bills(vec![Account { owner: User::Alice, amount: 20, serial: 0 }]);
    let end = DigitalCashSystem::next_state(
        &start,
        &CashTransaction::Transfer {
            spends: vec![Account { owner: User::Alice, amount: 20, serial: 0 }],
            receives: vec![
                Account { owner: User::Alice, amount: 10, serial: u64::MAX },
                Account { owner: User::Bob, amount: 10, serial: 4000 },
            ],
        },
    );
    let expected = Bank::from_bills(vec![Account { owner: User::Alice, amount: 20, serial: 0 }]);
    assert_eq!(end, expected);
}

#[test]
fn sm_5_spending_bill_with_incorrect_amount_fails() {
    let start = Bank::from_bills(vec![Account { owner: User::Alice, amount: 20, serial: 0 }]);
    let end = DigitalCashSystem::next_state(
        &start,
        &CashTransaction::Transfer {
            spends: vec![Account { owner: User::Alice, amount: 40, serial: 0 }],
            receives: vec![Account { owner: User::Bob, amount: 40, serial: 1 }],
        },
    );
    let expected = Bank::from_bills(vec![Account { owner: User::Alice, amount: 20, serial: 0 }]);
    assert_eq!(end, expected);
}

#[test]
fn sm_5_spending_same_bill_fails() {
    let start = Bank::from_bills(vec![Account { owner: User::Alice, amount: 40, serial: 0 }]);
    let end = DigitalCashSystem::next_state(
        &start,
        &CashTransaction::Transfer {
            spends: vec![
                Account { owner: User::Alice, amount: 40, serial: 0 },
                Account { owner: User::Alice, amount: 40, serial: 0 },
            ],
            receives: vec![
                Account { owner: User::Bob, amount: 20, serial: 1 },
                Account { owner: User::Bob, amount: 20, serial: 2 },
                Account { owner: User::Alice, amount: 40, serial: 3 },
            ],
        },
    );
    let expected = Bank::from_bills(vec![Account { owner: User::Alice, amount: 40, serial: 0 }]);
    assert_eq!(end, expected);
}

#[test]
fn sm_5_spending_more_than_bill_fails() {
    let start = Bank::from_bills(vec![
        Account { owner: User::Alice, amount: 40, serial: 0 },
        Account { owner: User::Charlie, amount: 42, serial: 1 },
    ]);
    let end = DigitalCashSystem::next_state(
        &start,
        &CashTransaction::Transfer {
            spends: vec![
                Account { owner: User::Alice, amount: 40, serial: 0 },
                Account { owner: User::Charlie, amount: 42, serial: 1 },
            ],
            receives: vec![
                Account { owner: User::Bob, amount: 20, serial: 2 },
                Account { owner: User::Bob, amount: 20, serial: 3 },
                Account { owner: User::Alice, amount: 52, serial: 4 },
            ],
        },
    );
    let expected = Bank::from_bills(vec![
        Account { owner: User::Alice, amount: 40, serial: 0 },
        Account { owner: User::Charlie, amount: 42, serial: 1 },
    ]);
    assert_eq!(end, expected);
}

#[test]
fn sm_5_spending_non_existent_bill_fails() {
    let start = Bank::from_bills(vec![Account { owner: User::Alice, amount: 32, serial: 0 }]);
    let end = DigitalCashSystem::next_state(
        &start,
        &CashTransaction::Transfer {
            spends: vec![Account { owner: User::Bob, amount: 1000, serial: 32 }],
            receives: vec![Account { owner: User::Bob, amount: 1000, serial: 33 }],
        },
    );
    let expected = Bank::from_bills(vec![Account { owner: User::Alice, amount: 32, serial: 0 }]);
    assert_eq!(end, expected);
}

#[test]
fn sm_5_spending_from_alice_to_all() {
    let start = Bank::from_bills(vec![Account { owner: User::Alice, amount: 42, serial: 0 }]);
    let end = DigitalCashSystem::next_state(
        &start,
        &CashTransaction::Transfer {
            spends: vec![Account { owner: User::Alice, amount: 42, serial: 0 }],
            receives: vec![
                Account { owner: User::Alice, amount: 10, serial: 1 },
                Account { owner: User::Bob, amount: 10, serial: 2 },
                Account { owner: User::Charlie, amount: 10, serial: 3 },
            ],
        },
    );
    let mut expected = Bank::from_bills(vec![
        Account { owner: User::Alice, amount: 10, serial: 1 },
        Account { owner: User::Bob, amount: 10, serial: 2 },
        Account { owner: User::Charlie, amount: 10, serial: 3 },
    ]);
    expected.set_serial(4);
    assert_eq!(end, expected);
}

#[test]
fn sm_5_spending_from_bob_to_all() {
    let start = Bank::from_bills(vec![Account { owner: User::Bob, amount: 42, serial: 0 }]);
    let end = DigitalCashSystem::next_state(
        &start,
        &CashTransaction::Transfer {
            spends: vec![Account { owner: User::Bob, amount: 42, serial: 0 }],
            receives: vec![
                Account { owner: User::Alice, amount: 10, serial: 1 },
                Account { owner: User::Bob, amount: 10, serial: 2 },
                Account { owner: User::Charlie, amount: 22, serial: 3 },
            ],
        },
    );
    let mut expected = Bank::from_bills(vec![
        Account { owner: User::Alice, amount: 10, serial: 1 },
        Account { owner: User::Bob, amount: 10, serial: 2 },
        Account { owner: User::Charlie, amount: 22, serial: 3 },
    ]);
    expected.set_serial(4);
    assert_eq!(end, expected);
}

#[test]
fn sm_5_spending_from_charlie_to_all() {
    let mut start = Bank::from_bills(vec![
        Account { owner: User::Charlie, amount: 68, serial: 54 },
        Account { owner: User::Alice, amount: 4000, serial: 58 },
    ]);
    start.set_serial(59);
    let end = DigitalCashSystem::next_state(
        &start,
        &CashTransaction::Transfer {
            spends: vec![Account { owner: User::Charlie, amount: 68, serial: 54 }],
            receives: vec![
                Account { owner: User::Alice, amount: 42, serial: 59 },
                Account { owner: User::Bob, amount: 5, serial: 60 },
                Account { owner: User::Charlie, amount: 5, serial: 61 },
            ],
        },
    );
    let mut expected = Bank::from_bills(vec![
        Account { owner: User::Alice, amount: 4000, serial: 58 },
        Account { owner: User::Alice, amount: 42, serial: 59 },
        Account { owner: User::Bob, amount: 5, serial: 60 },
        Account { owner: User::Charlie, amount: 5, serial: 61 },
    ]);
    expected.set_serial(62);
    assert_eq!(end, expected);
}

#[test]
fn mint_of_zero_amount_still_adds_a_bill() {
    // Minting is deliberately permissive where transfers are not: a mint
    // of amount zero succeeds and adds a zero-value bill, while a
    // transfer receiving a zero-value bill is rejected.
    let start = Bank::new();
    let end = DigitalCashSystem::next_state(
        &start,
        &CashTransaction::Mint { minter: User::Bob, amount: 0 },
    );
    let expected = Bank::from_bills(vec![Account { owner: User::Bob, amount: 0, serial: 0 }]);
    assert_eq!(end, expected);

    let with_cash = Bank::from_bills(vec![Account { owner: User::Alice, amount: 5, serial: 0 }]);
    let rejected = DigitalCashSystem::next_state(
        &with_cash,
        &CashTransaction::Transfer {
            spends: vec![Account { owner: User::Alice, amount: 5, serial: 0 }],
            receives: vec![Account { owner: User::Bob, amount: 0, serial: 1 }],
        },
    );
    let unchanged = Bank::from_bills(vec![Account { owner: User::Alice, amount: 5, serial: 0 }]);
    assert_eq!(rejected, unchanged);
}

#[test]
fn mint_on_exhausted_serial_counter_changes_nothing() {
    let mut start = Bank::new();
    start.set_serial(u64::MAX);
    let end = DigitalCashSystem::next_state(
        &start,
        &CashTransaction::Mint { minter: User::Alice, amount: 7 },
    );
    let mut expected = Bank::new();
    expected.set_serial(u64::MAX);
    assert_eq!(end, expected);
}

#[test]
fn duplicate_bills_are_held_once() {
    let bill = Account { owner: User::Alice, amount: 9, serial: 3 };
    let built = Bank::from_bills(vec![bill.clone(), bill.clone()]);
    let mut expected = Bank::from_bills(vec![bill]);
    expected.set_serial(2);
    assert_eq!(built, expected);
    assert_eq!(built.next_serial(), 2);
}

#[test]
fn exact_change_transfer_burns_nothing() {
    let start = Bank::from_bills(vec![Account { owner: User::Alice, amount: 30, serial: 0 }]);
    let end = DigitalCashSystem::next_state(
        &start,
        &CashTransaction::Transfer {
            spends: vec![Account { owner: User::Alice, amount: 30, serial: 0 }],
            receives: vec![
                Account { owner: User::Bob, amount: 20, serial: 1 },
                Account { owner: User::Alice, amount: 10, serial: 2 },
            ],
        },
    );
    let mut expected = Bank::from_bills(vec![
        Account { owner: User::Bob, amount: 20, serial: 1 },
        Account { owner: User::Alice, amount: 10, serial: 2 },
    ]);
    expected.set_serial(3);
    assert_eq!(end, expected);
}
