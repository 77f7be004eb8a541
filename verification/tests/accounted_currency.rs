use chaincore::accounted_currency::{AccountedCurrency, AccountingTransaction, Balances};
use chaincore::state_machine::{StateMachine, User};

#[test]
fn sm_4_mint_creates_account() {
    let start = Balances::new();
    let end = AccountedCurrency::next_state(
        &start,
        &AccountingTransaction::Mint { minter: User::Alice, amount: 100 },
    );
    let expected = Balances::from_entries(vec![(User::Alice, 100)]);

    assert_eq!(end, expected);
}

#[test]
fn sm_4_mint_creates_second_account() {
    let start = Balances::from_entries(vec![(User::Alice, 100)]);
    let end = AccountedCurrency::next_state(
        &start,
        &AccountingTransaction::Mint { minter: User::Bob, amount: 50 },
    );
    let expected = Balances::from_entries(vec![(User::Alice, 100), (User::Bob, 50)]);

    assert_eq!(end, expected);
}

#[test]
fn sm_4_mint_increases_balance() {
    let start = Balances::from_entries(vec![(User::Alice, 100)]);
    let end = AccountedCurrency::next_state(
        &start,
        &AccountingTransaction::Mint { minter: User::Alice, amount: 50 },
    );
    let expected = Balances::from_entries(vec![(User::Alice, 150)]);

    assert_eq!(end, expected);
}

#[test]
fn sm_4_empty_mint() {
    let start = Balances::new();
    let end = AccountedCurrency::next_state(
        &start,
        &AccountingTransaction::Mint { minter: User::Alice, amount: 0 },
    );
    let expected = Balances::new();

    assert_eq!(end, expected);
}

#[test]
fn sm_4_simple_burn() {
    let start = Balances::from_entries(vec![(User::Alice, 100)]);
    let end = AccountedCurrency::next_state(
        &start,
        &AccountingTransaction::Burn { burner: User::Alice, amount: 50 },
    );
    let expected = Balances::from_entries(vec![(User::Alice, 50)]);

    assert_eq!(end, expected);
}

#[test]
fn sm_4_burn_no_existential_deposit_left() {
    let start = Balances::from_entries(vec![(User::Alice, 100), (User::Bob, 50)]);
    let end = AccountedCurrency::next_state(
        &start,
        &AccountingTransaction::Burn { burner: User::Bob, amount: 50 },
    );
    let expected = Balances::from_entries(vec![(User::Alice, 100)]);

    assert_eq!(end, expected);
}

#[test]
fn sm_4_non_registered_burner() {
    let start = Balances::from_entries(vec![(User::Alice, 100)]);
    let end = AccountedCurrency::next_state(
        &start,
        &AccountingTransaction::Burn { burner: User::Bob, amount: 50 },
    );
    let expected = Balances::from_entries(vec![(User::Alice, 100)]);

    assert_eq!(end, expected);
}

#[test]
fn sm_4_burn_more_than_balance() {
    let start = Balances::from_entries(vec![(User::Alice, 100), (User::Bob, 50)]);
    let end2 = AccountedCurrency::next_state(
        &start,
        &AccountingTransaction::Burn { burner: User::Bob, amount: 100 },
    );
    let expected2 = Balances::from_entries(vec![(User::Alice, 100)]);

    assert_eq!(end2, expected2);
}

#[test]
fn sm_4_empty_burn() {
    let start = Balances::from_entries(vec![(User::Alice, 100)]);
    let end = AccountedCurrency::next_state(
        &start,
        &AccountingTransaction::Burn { burner: User::Alice, amount: 0 },
    );
    let expected = Balances::from_entries(vec![(User::Alice, 100)]);

    assert_eq!(end, expected);
}

#[test]
fn sm_4_burner_does_not_exist() {
    let start = Balances::from_entries(vec![(User::Alice, 100)]);
    let end = AccountedCurrency::next_state(
        &start,
        &AccountingTransaction::Burn { burner: User::Bob, amount: 50 },
    );
    let expected = Balances::from_entries(vec![(User::Alice, 100)]);

    assert_eq!(end, expected);
}

#[test]
fn sm_4_simple_transfer() {
    let start = Balances::from_entries(vec![(User::Alice, 100), (User::Bob, 50)]);
    let end = AccountedCurrency::next_state(
        &start,
        &AccountingTransaction::Transfer { sender: User::Alice, receiver: User::Bob, amount: 10 },
    );
    let expected = Balances::from_entries(vec![(User::Alice, 90), (User::Bob, 60)]);

    assert_eq!(end, expected);

    let start = Balances::from_entries(vec![(User::Alice, 90), (User::Bob, 60)]);
    let end1 = AccountedCurrency::next_state(
        &start,
        &AccountingTransaction::Transfer { sender: User::Bob, receiver: User::Alice, amount: 50 },
    );
    let expected1 = Balances::from_entries(vec![(User::Alice, 140), (User::Bob, 10)]);

    assert_eq!(end1, expected1);
}

#[test]
fn sm_4_send_to_same_user() {
    let start = Balances::from_entries(vec![(User::Alice, 100), (User::Bob, 50)]);
    let end = AccountedCurrency::next_state(
        &start,
        &AccountingTransaction::Transfer { sender: User::Bob, receiver: User::Bob, amount: 10 },
    );
    let expected = Balances::from_entries(vec![(User::Alice, 100), (User::Bob, 50)]);

    assert_eq!(end, expected);
}

#[test]
fn sm_4_insufficient_balance_transfer() {
    let start = Balances::from_entries(vec![(User::Alice, 100), (User::Bob, 50)]);
    let end = AccountedCurrency::next_state(
        &start,
        &AccountingTransaction::Transfer { sender: User::Bob, receiver: User::Alice, amount: 60 },
    );
    let expected = Balances::from_entries(vec![(User::Alice, 100), (User::Bob, 50)]);

    assert_eq!(end, expected);
}

#[test]
fn sm_4_sender_not_registered() {
    let start = Balances::from_entries(vec![(User::Alice, 100), (User::Bob, 50)]);
    let end = AccountedCurrency::next_state(
        &start,
        &AccountingTransaction::Transfer {
            sender: User::Charlie,
            receiver: User::Alice,
            amount: 50,
        },
    );
    let expected = Balances::from_entries(vec![(User::Alice, 100), (User::Bob, 50)]);

    assert_eq!(end, expected);
}

#[test]
fn sm_4_receiver_not_registered() {
    let start = Balances::from_entries(vec![(User::Alice, 100), (User::Bob, 50)]);
    let end = AccountedCurrency::next_state(
        &start,
        &AccountingTransaction::Transfer {
            sender: User::Alice,
            receiver: User::Charlie,
            amount: 50,
        },
    );
    let expected = Balances::from_entries(vec![
        (User::Alice, 50),
        (User::Bob, 50),
        (User::Charlie, 50),
    ]);

    assert_eq!(end, expected);
}

#[test]
fn sm_4_sender_to_empty_balance() {
    let start = Balances::from_entries(vec![(User::Alice, 100), (User::Bob, 50)]);
    let end = AccountedCurrency::next_state(
        &start,
        &AccountingTransaction::Transfer { sender: User::Bob, receiver: User::Alice, amount: 50 },
    );
    let expected = Balances::from_entries(vec![(User::Alice, 150)]);

    assert_eq!(end, expected);
}

#[test]
fn sm_4_transfer() {
    let start = Balances::from_entries(vec![(User::Alice, 100), (User::Bob, 50)]);
    let end = AccountedCurrency::next_state(
        &start,
        &AccountingTransaction::Transfer { sender: User::Bob, receiver: User::Charlie, amount: 50 },
    );
    let expected = Balances::from_entries(vec![(User::Alice, 100), (User::Charlie, 50)]);

    assert_eq!(end, expected);
}

#[test]
fn transfer_of_whole_balance_to_self_changes_nothing() {
    let start = Balances::from_entries(vec![(User::Bob, 50)]);
    let end = AccountedCurrency::next_state(
        &start,
        &AccountingTransaction::Transfer { sender: User::Bob, receiver: User::Bob, amount: 50 },
    );
    let expected = Balances::from_entries(vec![(User::Bob, 50)]);

    assert_eq!(end, expected);
}

#[test]
fn mint_overflowing_a_balance_changes_nothing() {
    let start = Balances::from_entries(vec![(User::Alice, u64::MAX)]);
    let end = AccountedCurrency::next_state(
        &start,
        &AccountingTransaction::Mint { minter: User::Alice, amount: 1 },
    );
    let expected = Balances::from_entries(vec![(User::Alice, u64::MAX)]);

    assert_eq!(end, expected);
}

#[test]
fn entries_for_the_same_user_take_the_last_amount() {
    let built = Balances::from_entries(vec![(User::Alice, 5), (User::Alice, 7)]);
    let expected = Balances::from_entries(vec![(User::Alice, 7)]);

    assert_eq!(built, expected);
}
