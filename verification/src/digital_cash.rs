//! A multi-user currency system modelled after paper cash. The system
//! tracks individual bills; each bill has an owner and an amount and is
//! spent in its entirety. A transfer consumes existing bills and creates
//! new ones of lesser or equal total value — value may be redistributed or
//! destroyed by a transfer, never created, so no dedicated burn transaction
//! is needed.
//!
//! Rejection is not an error channel: an invalid transaction yields the
//! unchanged input state, and callers tell "accepted" from "rejected" by
//! comparing states.

use vstd::prelude::*;
use crate::state_machine::{StateMachine, User};

verus! {

/// This state machine models a multi-user currency system. It tracks a set
/// of bills in circulation, and updates that set when money is transferred.
pub struct DigitalCashSystem;

/// A single bill in the digital cash system. Each bill has an owner who is
/// allowed to spend it and an amount that it is worth. It also has a serial
/// number to ensure that each bill is unique.
#[derive(Clone, Copy, Debug, Eq, PartialEq, Hash, Structural)]
pub struct Account {
    pub owner: User,
    pub amount: u64,
    pub serial: u64,
}

/// The state of a digital cash system: the set of currently circulating
/// bills, and a counter for the next serial number.
///
/// The bill collection has set semantics — no bill value is ever held
/// twice — and insertion order is kept, so two states built by the same
/// steps compare equal.
#[derive(Clone, Debug, Eq, PartialEq)]
pub struct Bank {
    /// The currently circulating bills.
    bills: Vec<Account>,
    /// The next serial number to use when a bill is created.
    next_serial: u64,
}

impl Bank {
    /// The circulating bills, in insertion order.
    pub closed spec fn spec_bills(self) -> Seq<Account> {
        self.bills@
    }

    /// The serial number the next created bill will carry.
    pub closed spec fn spec_serial(self) -> u64 {
        self.next_serial
    }

    /// An empty bank: no bills, serial counter at zero.
    pub fn new() -> (r: Bank)
        ensures
            r.spec_bills() == Seq::<Account>::empty(),
            r.spec_serial() == 0,
            bank_wf(r.spec_bills(), r.spec_serial()),
            r.spec_bills().no_duplicates(),
    {
        Bank { bills: Vec::new(), next_serial: 0 }
    }

    /// Overwrites the serial counter, leaving the bills untouched.
    pub fn set_serial(&mut self, serial: u64)
        ensures
            final (self).spec_serial() == serial,
            final (self).spec_bills() == old(self).spec_bills(),
    {
        self.next_serial = serial;
    }

    /// The current value of the serial counter.
    pub fn next_serial(&self) -> (r: u64)
        ensures
            r == self.spec_serial(),
    {
        self.next_serial
    }

    /// Builds a bank by inserting the given bills one by one into an empty
    /// bank: a bill equal to one already present is dropped, and the serial
    /// counter advances once per list entry either way.
    pub fn from_bills(bills: Vec<Account>) -> (r: Bank)
        ensures
            r.spec_bills() == insert_all(Seq::<Account>::empty(), bills@),
            r.spec_serial() == bills@.len(),
            r.spec_bills().no_duplicates(),
    {
        let mut held: Vec<Account> = Vec::new();
        let mut i: usize = 0;
        while i < bills.len()
            invariant
                i <= bills.len(),
                held@ == insert_all(Seq::<Account>::empty(), bills@.take(i as int)),
            decreases bills.len() - i,
        {
            proof {
                lemma_insert_all_step(Seq::<Account>::empty(), bills@, i as int);
            }
            if !bills_contain(&held, &bills[i]) {
                held.push(bills[i]);
            }
            i = i + 1;
        }
        proof {
            assert(bills@.take(bills@.len() as int) =~= bills@);
            lemma_insert_all_distinct(Seq::<Account>::empty(), bills@);
        }
        Bank { bills: held, next_serial: bills.len() as u64 }
    }
}

/// Inserting one bill with set semantics: a no-op when an equal bill is
/// already held.
pub open spec fn insert_bill(bills: Seq<Account>, a: Account) -> Seq<Account> {
    if bills.contains(a) {
        bills
    } else {
        bills.push(a)
    }
}

/// Inserting a list of bills one by one, left to right.
pub open spec fn insert_all(bills: Seq<Account>, incoming: Seq<Account>) -> Seq<Account>
    decreases incoming.len(),
{
    if incoming.len() == 0 {
        bills
    } else {
        insert_all(insert_bill(bills, incoming[0]), incoming.drop_first())
    }
}

proof fn lemma_insert_all_step(bills: Seq<Account>, incoming: Seq<Account>, i: int)
    requires
        0 <= i < incoming.len(),
    ensures
        insert_all(bills, incoming.take(i + 1)) == insert_bill(
            insert_all(bills, incoming.take(i)),
            incoming[i],
        ),
    decreases i,
{
    if i == 0 {
        assert(incoming.take(1)[0] == incoming[0]);
        assert(incoming.take(1).drop_first() =~= Seq::<Account>::empty());
        assert(insert_all(insert_bill(bills, incoming[0]), Seq::<Account>::empty())
            == insert_bill(bills, incoming[0]));
        assert(insert_all(bills, incoming.take(1)) == insert_bill(bills, incoming[0]));
        assert(insert_all(bills, incoming.take(0)) == bills);
    } else {
        let shifted = incoming.drop_first();
        let stepped = insert_bill(bills, incoming[0]);
        assert(incoming.take(i + 1)[0] == incoming[0]);
        assert(incoming.take(i)[0] == incoming[0]);
        assert(incoming.take(i + 1).drop_first() =~= shifted.take(i));
        assert(incoming.take(i).drop_first() =~= shifted.take(i - 1));
        assert(insert_all(bills, incoming.take(i + 1)) == insert_all(stepped, shifted.take(i)));
        assert(insert_all(bills, incoming.take(i)) == insert_all(stepped, shifted.take(i - 1)));
        lemma_insert_all_step(stepped, shifted, i - 1);
        assert(shifted[i - 1] == incoming[i]);
    }
}

/// The state transitions that users can make in a digital cash system.
pub enum CashTransaction {
    /// Mint a single new bill owned by the minter.
    Mint { minter: User, amount: u64 },
    /// Send some money from some users to other users. The money does not
    /// all need to come from the same user, and it does not all need to go
    /// to the same user. The total amount received must be less than or
    /// equal to the amount spent. The discrepancy between the amount sent
    /// and received is destroyed. Therefore, no dedicated burn transaction
    /// is required.
    Transfer { spends: Vec<Account>, receives: Vec<Account> },
}

/// The total face value of a list of bills.
pub open spec fn sum_amounts(s: Seq<Account>) -> int
    decreases s.len(),
{
    if s.len() == 0 {
        0
    } else {
        sum_amounts(s.drop_last()) + s.last().amount
    }
}

/// Every received bill carries a positive amount below the representable
/// ceiling, and a serial number freshly and sequentially issued from the
/// counter, in list order.
pub open spec fn receives_shape_ok(receives: Seq<Account>, serial: u64) -> bool {
    forall|i: int|
        0 <= i < receives.len() ==> {
            &&& 0 < (#[trigger] receives[i]).amount < u64::MAX
            &&& receives[i].serial == serial + i
        }
}

/// The list with the first bill equal to `a` taken out; unchanged when no
/// such bill is held.
pub open spec fn remove_first(s: Seq<Account>, a: Account) -> Seq<Account>
    decreases s.len(),
{
    if s.len() == 0 {
        s
    } else if s[0] == a {
        s.drop_first()
    } else {
        seq![s[0]] + remove_first(s.drop_first(), a)
    }
}

/// Whether every spent bill exists in the held set, counting multiplicity:
/// each spend consumes one held bill, so listing the same bill twice needs
/// it held twice — which set semantics never allows.
pub open spec fn spends_present(bills: Seq<Account>, spends: Seq<Account>) -> bool
    decreases spends.len(),
{
    spends.len() == 0 || (bills.contains(spends[0]) && spends_present(
        remove_first(bills, spends[0]),
        spends.drop_first(),
    ))
}

/// The held bills after taking out each spent bill, in spend order.
pub open spec fn bills_after_spends(bills: Seq<Account>, spends: Seq<Account>) -> Seq<Account>
    decreases spends.len(),
{
    if spends.len() == 0 {
        bills
    } else {
        bills_after_spends(remove_first(bills, spends[0]), spends.drop_first())
    }
}

/// The gates a transfer must pass to be applied. If any fails, the
/// transfer is rejected and the state is returned unchanged:
/// the spend and receive lists are non-empty; every received amount is
/// positive and below the ceiling, with serials issued sequentially from
/// the counter; the counter itself stays representable; no value is
/// created; and every spent bill is held, counting multiplicity.
pub open spec fn transfer_valid(
    bills: Seq<Account>,
    serial: u64,
    spends: Seq<Account>,
    receives: Seq<Account>,
) -> bool {
    &&& spends.len() > 0
    &&& receives.len() > 0
    &&& receives_shape_ok(receives, serial)
    &&& serial + receives.len() <= u64::MAX
    &&& sum_amounts(receives) <= sum_amounts(spends)
    &&& spends_present(bills, spends)
}

/// The bills after a transfer: spent bills taken out and received bills
/// inserted when the transfer is valid, the unchanged bills otherwise.
pub open spec fn transfer_next_bills(
    bills: Seq<Account>,
    serial: u64,
    spends: Seq<Account>,
    receives: Seq<Account>,
) -> Seq<Account> {
    if transfer_valid(bills, serial, spends, receives) {
        insert_all(bills_after_spends(bills, spends), receives)
    } else {
        bills
    }
}

/// The serial counter after a transfer: advanced once per received bill
/// when the transfer is valid, unchanged otherwise.
pub open spec fn transfer_next_serial(
    bills: Seq<Account>,
    serial: u64,
    spends: Seq<Account>,
    receives: Seq<Account>,
) -> u64 {
    if transfer_valid(bills, serial, spends, receives) {
        (serial + receives.len()) as u64
    } else {
        serial
    }
}

/// The bills after a mint: one new bill owned by the minter, carrying the
/// counter's value as its serial. A mint of amount zero succeeds and adds
/// a zero-value bill. The one mint that cannot be applied is on an
/// exhausted serial counter, which would break the counter's domain; it is
/// rejected as a no-op.
pub open spec fn mint_next_bills(bills: Seq<Account>, serial: u64, minter: User, amount: u64) -> Seq<
    Account,
> {
    if serial < u64::MAX {
        insert_bill(bills, Account { owner: minter, amount, serial })
    } else {
        bills
    }
}

/// The serial counter after a mint.
pub open spec fn mint_next_serial(serial: u64) -> u64 {
    if serial < u64::MAX {
        (serial + 1) as u64
    } else {
        serial
    }
}

/// The bills of the state a transaction leads to.
pub open spec fn next_bills(bills: Seq<Account>, serial: u64, t: CashTransaction) -> Seq<Account> {
    match t {
        CashTransaction::Mint { minter, amount } => mint_next_bills(bills, serial, minter, amount),
        CashTransaction::Transfer { spends, receives } => transfer_next_bills(
            bills,
            serial,
            spends@,
            receives@,
        ),
    }
}

/// The serial counter of the state a transaction leads to.
pub open spec fn next_serial(bills: Seq<Account>, serial: u64, t: CashTransaction) -> u64 {
    match t {
        CashTransaction::Mint { minter: _, amount: _ } => mint_next_serial(serial),
        CashTransaction::Transfer { spends, receives } => transfer_next_serial(
            bills,
            serial,
            spends@,
            receives@,
        ),
    }
}

/// We model this system as a state machine with two possible transitions.
impl StateMachine for DigitalCashSystem {
    type State = Bank;

    type Transition = CashTransaction;

    fn next_state(starting_state: &Bank, t: &CashTransaction) -> (r: Bank)
        ensures
            r.spec_bills() == next_bills(
                starting_state.spec_bills(),
                starting_state.spec_serial(),
                *t,
            ),
            r.spec_serial() == next_serial(
                starting_state.spec_bills(),
                starting_state.spec_serial(),
                *t,
            ),
            r.spec_serial() >= starting_state.spec_serial(),
            bank_wf(starting_state.spec_bills(), starting_state.spec_serial()) ==> bank_wf(
                r.spec_bills(),
                r.spec_serial(),
            ),
            starting_state.spec_bills().no_duplicates() ==> r.spec_bills().no_duplicates(),
    {
        proof {
            if bank_wf(starting_state.spec_bills(), starting_state.spec_serial()) {
                lemma_transition_preserves_wf(
                    starting_state.spec_bills(),
                    starting_state.spec_serial(),
                    *t,
                );
            }
            if starting_state.spec_bills().no_duplicates() {
                lemma_transition_preserves_distinct(
                    starting_state.spec_bills(),
                    starting_state.spec_serial(),
                    *t,
                );
            }
        }
        match t {
            CashTransaction::Mint { minter, amount } => {
                if starting_state.next_serial < u64::MAX {
                    let fresh = Account {
                        owner: *minter,
                        amount: *amount,
                        serial: starting_state.next_serial,
                    };
                    let mut held = copy_accounts(&starting_state.bills);
                    if !bills_contain(&held, &fresh) {
                        held.push(fresh);
                    }
                    Bank { bills: held, next_serial: starting_state.next_serial + 1 }
                } else {
                    unchanged_bank(starting_state)
                }
            },
            CashTransaction::Transfer { spends, receives } => {
                apply_transfer(starting_state, spends, receives)
            },
        }
    }
}

/// Applies one transfer to the bank, returning the unchanged state when
/// any gate of `transfer_valid` fails.
#[verifier::loop_isolation(false)]
fn apply_transfer(bank: &Bank, spends: &Vec<Account>, receives: &Vec<Account>) -> (r: Bank)
    ensures
        r.spec_bills() == transfer_next_bills(
            bank.spec_bills(),
            bank.spec_serial(),
            spends@,
            receives@,
        ),
        r.spec_serial() == transfer_next_serial(
            bank.spec_bills(),
            bank.spec_serial(),
            spends@,
            receives@,
        ),
        r.spec_serial() >= bank.spec_serial(),
{
    let ghost bills0 = bank.spec_bills();
    let ghost serial0 = bank.spec_serial();
    if spends.len() == 0 || receives.len() == 0 {
        return unchanged_bank(bank);
    }

    // Gate: received amounts in range, serials freshly and sequentially
    // issued; accumulate the received total.
    let mut receives_sum: u128 = 0;
    let mut i: usize = 0;
    while i < receives.len()
        invariant
            i <= receives.len(),
            forall|j: int|
                0 <= j < i ==> {
                    &&& 0 < (#[trigger] receives@[j]).amount < u64::MAX
                    &&& receives@[j].serial == serial0 + j
                },
            receives_sum == sum_amounts(receives@.take(i as int)),
        decreases receives.len() - i,
    {
        let rc = receives[i];
        if rc.amount == 0 || rc.amount == u64::MAX {
            proof {
                assert(!receives_shape_ok(receives@, serial0));
            }
            return unchanged_bank(bank);
        }
        if rc.serial as u128 != bank.next_serial as u128 + i as u128 {
            proof {
                assert(!receives_shape_ok(receives@, serial0));
            }
            return unchanged_bank(bank);
        }
        proof {
            lemma_sum_amounts_bound(receives@.take(i as int));
            assert(receives@.take(i + 1).drop_last() =~= receives@.take(i as int));
            assert(receives@.take(i + 1).last() == receives@[i as int]);
        }
        receives_sum = receives_sum + rc.amount as u128;
        i = i + 1;
    }
    proof {
        assert(receives@.take(receives@.len() as int) =~= receives@);
    }

    // Gate: the serial counter itself must stay representable after one
    // advance per received bill.
    if bank.next_serial as u128 + receives.len() as u128 > u64::MAX as u128 {
        return unchanged_bank(bank);
    }

    // Gate: conservation — a transfer may destroy value, never create it.
    let mut spends_sum: u128 = 0;
    let mut k: usize = 0;
    while k < spends.len()
        invariant
            k <= spends.len(),
            spends_sum == sum_amounts(spends@.take(k as int)),
        decreases spends.len() - k,
    {
        proof {
            lemma_sum_amounts_bound(spends@.take(k as int));
            assert(spends@.take(k + 1).drop_last() =~= spends@.take(k as int));
            assert(spends@.take(k + 1).last() == spends@[k as int]);
        }
        spends_sum = spends_sum + spends[k].amount as u128;
        k = k + 1;
    }
    proof {
        assert(spends@.take(spends@.len() as int) =~= spends@);
    }
    if spends_sum < receives_sum {
        return unchanged_bank(bank);
    }

    // Gate: every spent bill must be held, counting multiplicity; take
    // each one out as it is found.
    let mut held = copy_accounts(&bank.bills);
    let mut s: usize = 0;
    while s < spends.len()
        invariant
            s <= spends.len(),
            spends_present(bills0, spends@) == spends_present(held@, spends@.skip(s as int)),
            bills_after_spends(bills0, spends@) == bills_after_spends(
                held@,
                spends@.skip(s as int),
            ),
        decreases spends.len() - s,
    {
        let ghost tail = spends@.skip(s as int);
        proof {
            assert(tail[0] == spends@[s as int]);
            assert(tail.drop_first() =~= spends@.skip(s + 1));
        }
        match find_account(&held, &spends[s]) {
            Option::Some(idx) => {
                proof {
                    lemma_remove_first_at_index(held@, spends@[s as int], idx as int);
                }
                held.remove(idx);
            },
            Option::None => {
                proof {
                    assert(!spends_present(held@, tail));
                }
                return unchanged_bank(bank);
            },
        }
        s = s + 1;
    }
    proof {
        assert(spends@.skip(spends@.len() as int) =~= Seq::<Account>::empty());
        assert(spends_present(bills0, spends@));
        assert(bills_after_spends(bills0, spends@) == held@);
        assert(transfer_valid(bills0, serial0, spends@, receives@));
    }

    // All gates passed: insert every received bill.
    let ghost spent = bills_after_spends(bills0, spends@);
    let mut n: usize = 0;
    while n < receives.len()
        invariant
            n <= receives.len(),
            insert_all(spent, receives@) == insert_all(held@, receives@.skip(n as int)),
        decreases receives.len() - n,
    {
        let ghost tail = receives@.skip(n as int);
        proof {
            assert(tail[0] == receives@[n as int]);
            assert(tail.drop_first() =~= receives@.skip(n + 1));
        }
        if !bills_contain(&held, &receives[n]) {
            held.push(receives[n]);
        }
        n = n + 1;
    }
    proof {
        assert(receives@.skip(receives@.len() as int) =~= Seq::<Account>::empty());
        assert(insert_all(spent, receives@) == held@);
    }
    Bank { bills: held, next_serial: bank.next_serial + receives.len() as u64 }
}

/// The total value of a bill list never goes below zero and never exceeds
/// one ceiling's worth per bill.
proof fn lemma_sum_amounts_bound(s: Seq<Account>)
    ensures
        0 <= sum_amounts(s) <= s.len() * (u64::MAX as int),
    decreases s.len(),
{
    if s.len() > 0 {
        lemma_sum_amounts_bound(s.drop_last());
    }
}

/// Taking out the first bill equal to `a` is the same as removing the
/// earliest index that holds it.
proof fn lemma_remove_first_at_index(s: Seq<Account>, a: Account, idx: int)
    requires
        0 <= idx < s.len(),
        s[idx] == a,
        forall|j: int| 0 <= j < idx ==> s[j] != a,
    ensures
        remove_first(s, a) == s.remove(idx),
    decreases idx,
{
    if idx == 0 {
        assert(remove_first(s, a) == s.drop_first());
        assert(s.drop_first() =~= s.remove(0));
    } else {
        lemma_remove_first_at_index(s.drop_first(), a, idx - 1);
        assert(seq![s[0]] + s.drop_first().remove(idx - 1) =~= s.remove(idx));
    }
}

/// Every held bill's serial number is strictly below the counter.
pub open spec fn serials_below(bills: Seq<Account>, serial: u64) -> bool {
    forall|i: int| 0 <= i < bills.len() ==> (#[trigger] bills[i]).serial < serial
}

/// No two held bills share a serial number.
pub open spec fn serials_distinct(bills: Seq<Account>) -> bool {
    forall|i: int, j: int|
        #![trigger bills[i], bills[j]]
        0 <= i < j < bills.len() ==> bills[i].serial != bills[j].serial
}

/// The invariant of every reachable bank state: every bill's serial is
/// strictly less than the counter, and no two bills share a serial.
pub open spec fn bank_wf(bills: Seq<Account>, serial: u64) -> bool {
    serials_below(bills, serial) && serials_distinct(bills)
}

/// How many held bills equal `a`.
pub open spec fn count_of(s: Seq<Account>, a: Account) -> int
    decreases s.len(),
{
    if s.len() == 0 {
        0
    } else {
        (if s[0] == a {
            1int
        } else {
            0int
        }) + count_of(s.drop_first(), a)
    }
}

proof fn lemma_count_nonneg(s: Seq<Account>, a: Account)
    ensures
        count_of(s, a) >= 0,
    decreases s.len(),
{
    if s.len() > 0 {
        lemma_count_nonneg(s.drop_first(), a);
    }
}

proof fn lemma_count_contains(s: Seq<Account>, a: Account)
    ensures
        s.contains(a) <==> count_of(s, a) >= 1,
    decreases s.len(),
{
    lemma_count_nonneg(s, a);
    if s.len() > 0 {
        lemma_count_nonneg(s.drop_first(), a);
        lemma_count_contains(s.drop_first(), a);
        if s[0] == a {
            assert(s.contains(a));
        }
        if s.contains(a) && s[0] != a {
            let w = choose|w: int| 0 <= w < s.len() && s[w] == a;
            assert(s.drop_first()[w - 1] == a);
            assert(s.drop_first().contains(a));
        }
        if s.drop_first().contains(a) {
            let w = choose|w: int| 0 <= w < s.drop_first().len() && s.drop_first()[w] == a;
            assert(s[w + 1] == a);
        }
    }
}

proof fn lemma_count_remove_first(s: Seq<Account>, taken: Account, a: Account)
    requires
        s.contains(taken),
    ensures
        count_of(remove_first(s, taken), a) == count_of(s, a) - (if taken == a {
            1int
        } else {
            0int
        }),
    decreases s.len(),
{
    if s[0] == taken {
    } else {
        let rest = s.drop_first();
        let w = choose|w: int| 0 <= w < s.len() && s[w] == taken;
        assert(rest[w - 1] == taken);
        assert(rest.contains(taken));
        lemma_count_remove_first(rest, taken, a);
        let r = seq![s[0]] + remove_first(rest, taken);
        assert(r[0] == s[0]);
        assert(r.drop_first() =~= remove_first(rest, taken));
    }
}

proof fn lemma_spends_present_count(bills: Seq<Account>, spends: Seq<Account>, a: Account)
    requires
        spends_present(bills, spends),
    ensures
        count_of(spends, a) <= count_of(bills, a),
    decreases spends.len(),
{
    lemma_count_nonneg(bills, a);
    if spends.len() > 0 {
        assert(bills.contains(spends[0]));
        let rest = remove_first(bills, spends[0]);
        lemma_spends_present_count(rest, spends.drop_first(), a);
        lemma_count_remove_first(bills, spends[0], a);
        assert(count_of(spends, a) == (if spends[0] == a {
            1int
        } else {
            0int
        }) + count_of(spends.drop_first(), a));
    }
}

proof fn lemma_two_indices_count(s: Seq<Account>, i: int, j: int)
    requires
        0 <= i < j < s.len(),
        s[i] == s[j],
    ensures
        count_of(s, s[i]) >= 2,
    decreases s.len(),
{
    let a = s[i];
    if i == 0 {
        assert(s.drop_first()[j - 1] == a);
        assert(s.drop_first().contains(a));
        lemma_count_contains(s.drop_first(), a);
    } else {
        lemma_two_indices_count(s.drop_first(), i - 1, j - 1);
    }
}

proof fn lemma_no_dup_count(s: Seq<Account>, a: Account)
    requires
        s.no_duplicates(),
    ensures
        count_of(s, a) <= 1,
    decreases s.len(),
{
    lemma_count_nonneg(s, a);
    if s.len() > 0 {
        let rest = s.drop_first();
        assert(forall|i: int, j: int|
            0 <= i < rest.len() && 0 <= j < rest.len() && i != j ==> rest[i] == s[i + 1] && rest[j]
                == s[j + 1]);
        lemma_no_dup_count(rest, a);
        if s[0] == a {
            lemma_count_contains(rest, a);
            if rest.contains(a) {
                let w = choose|w: int| 0 <= w < rest.len() && rest[w] == a;
                assert(s[w + 1] == s[0]);
                assert(false);
            }
        }
    }
}

/// Conservation: a valid transfer never creates value — the spent total is
/// at least the received total, the difference being destroyed.
pub proof fn lemma_transfer_conserves_value(
    bills: Seq<Account>,
    serial: u64,
    spends: Seq<Account>,
    receives: Seq<Account>,
)
    requires
        transfer_valid(bills, serial, spends, receives),
    ensures
        sum_amounts(spends) >= sum_amounts(receives),
{
}

proof fn lemma_sum_first(s: Seq<Account>)
    requires
        s.len() > 0,
    ensures
        sum_amounts(s) == s[0].amount + sum_amounts(s.drop_first()),
    decreases s.len(),
{
    if s.len() == 1 {
        assert(s.drop_last() =~= Seq::<Account>::empty());
        assert(s.drop_first() =~= Seq::<Account>::empty());
    } else {
        let head = s.drop_last();
        lemma_sum_first(head);
        assert(head[0] == s[0]);
        assert(head.drop_first() =~= s.drop_first().drop_last());
        assert(s.drop_first().last() == s.last());
    }
}

proof fn lemma_sum_remove_first(s: Seq<Account>, a: Account)
    requires
        s.contains(a),
    ensures
        sum_amounts(remove_first(s, a)) == sum_amounts(s) - a.amount,
    decreases s.len(),
{
    lemma_sum_first(s);
    if s[0] == a {
    } else {
        let rest = s.drop_first();
        let w = choose|w: int| 0 <= w < s.len() && s[w] == a;
        assert(rest[w - 1] == a);
        assert(rest.contains(a));
        lemma_sum_remove_first(rest, a);
        let r = seq![s[0]] + remove_first(rest, a);
        assert(r[0] == s[0]);
        assert(r.drop_first() =~= remove_first(rest, a));
        lemma_sum_first(r);
    }
}

proof fn lemma_sum_after_spends(bills: Seq<Account>, spends: Seq<Account>)
    requires
        spends_present(bills, spends),
    ensures
        sum_amounts(bills_after_spends(bills, spends)) == sum_amounts(bills) - sum_amounts(spends),
    decreases spends.len(),
{
    if spends.len() == 0 {
        assert(sum_amounts(spends) == 0);
    } else {
        lemma_sum_first(spends);
        lemma_sum_remove_first(bills, spends[0]);
        lemma_sum_after_spends(remove_first(bills, spends[0]), spends.drop_first());
    }
}

proof fn lemma_sum_insert_all(acc: Seq<Account>, incoming: Seq<Account>)
    ensures
        sum_amounts(insert_all(acc, incoming)) <= sum_amounts(acc) + sum_amounts(incoming),
        sum_amounts(insert_all(acc, incoming)) >= sum_amounts(acc),
    decreases incoming.len(),
{
    lemma_sum_amounts_bound(incoming);
    if incoming.len() > 0 {
        lemma_sum_first(incoming);
        let stepped = insert_bill(acc, incoming[0]);
        if !acc.contains(incoming[0]) {
            assert(stepped.drop_last() =~= acc);
        }
        lemma_sum_amounts_bound(incoming.drop_first());
        lemma_sum_insert_all(stepped, incoming.drop_first());
    }
}

/// Conservation: the total circulating value never increases through a
/// transfer, whether the transfer is applied or rejected. Only minting
/// creates value.
pub proof fn lemma_transfer_never_creates_value(
    bills: Seq<Account>,
    serial: u64,
    spends: Seq<Account>,
    receives: Seq<Account>,
)
    ensures
        sum_amounts(transfer_next_bills(bills, serial, spends, receives)) <= sum_amounts(bills),
{
    if transfer_valid(bills, serial, spends, receives) {
        lemma_sum_after_spends(bills, spends);
        lemma_sum_insert_all(bills_after_spends(bills, spends), receives);
    }
}

/// Minting is the one way value enters circulation: an applied mint on a
/// well-formed bank grows the total by exactly the minted amount.
pub proof fn lemma_mint_adds_exactly_amount(
    bills: Seq<Account>,
    serial: u64,
    minter: User,
    amount: u64,
)
    requires
        bank_wf(bills, serial),
        serial < u64::MAX,
    ensures
        sum_amounts(mint_next_bills(bills, serial, minter, amount)) == sum_amounts(bills) + amount,
{
    let fresh = Account { owner: minter, amount, serial };
    if bills.contains(fresh) {
        let w = choose|w: int| 0 <= w < bills.len() && bills[w] == fresh;
        assert(bills[w].serial < serial);
        assert(false);
    }
    assert(bills.push(fresh).drop_last() =~= bills);
}

/// No double spend: a transfer whose spend list names the same bill twice
/// is always rejected, leaving the state unchanged, because the bank's
/// set semantics never holds a bill value twice.
pub proof fn lemma_double_spend_rejected(
    bills: Seq<Account>,
    serial: u64,
    spends: Seq<Account>,
    receives: Seq<Account>,
    i: int,
    j: int,
)
    requires
        bills.no_duplicates(),
        0 <= i < j < spends.len(),
        spends[i] == spends[j],
    ensures
        !transfer_valid(bills, serial, spends, receives),
        transfer_next_bills(bills, serial, spends, receives) == bills,
        transfer_next_serial(bills, serial, spends, receives) == serial,
{
    if spends_present(bills, spends) {
        lemma_spends_present_count(bills, spends, spends[i]);
        lemma_two_indices_count(spends, i, j);
        lemma_no_dup_count(bills, spends[i]);
    }
}

/// No double spend across the lists either: a transfer that "re-receives"
/// a bill identical to one it spends is always rejected in a well-formed
/// bank, since a spendable bill's serial is already below the counter
/// while every received serial must be fresh.
pub proof fn lemma_respend_as_receive_rejected(
    bills: Seq<Account>,
    serial: u64,
    spends: Seq<Account>,
    receives: Seq<Account>,
    i: int,
    j: int,
)
    requires
        bank_wf(bills, serial),
        0 <= i < spends.len(),
        0 <= j < receives.len(),
        spends[i] == receives[j],
    ensures
        !transfer_valid(bills, serial, spends, receives),
        transfer_next_bills(bills, serial, spends, receives) == bills,
        transfer_next_serial(bills, serial, spends, receives) == serial,
{
    if transfer_valid(bills, serial, spends, receives) {
        lemma_spends_present_count(bills, spends, spends[i]);
        lemma_two_indices_count_one(spends, i);
        lemma_count_contains(bills, spends[i]);
        let w = choose|w: int| 0 <= w < bills.len() && bills[w] == spends[i];
        assert(bills[w].serial < serial);
        assert(receives[j].serial == serial + j);
    }
}

proof fn lemma_two_indices_count_one(s: Seq<Account>, i: int)
    requires
        0 <= i < s.len(),
    ensures
        count_of(s, s[i]) >= 1,
{
    assert(s.contains(s[i]));
    lemma_count_contains(s, s[i]);
}

/// Serial monotonicity: every transition preserves the bank invariant —
/// all serials strictly below the counter, no serial held twice — and the
/// counter itself never decreases.
pub proof fn lemma_transition_preserves_wf(bills: Seq<Account>, serial: u64, t: CashTransaction)
    requires
        bank_wf(bills, serial),
    ensures
        bank_wf(next_bills(bills, serial, t), next_serial(bills, serial, t)),
        next_serial(bills, serial, t) >= serial,
{
    match t {
        CashTransaction::Mint { minter, amount } => {
            if serial < u64::MAX {
                let fresh = Account { owner: minter, amount, serial };
                if !bills.contains(fresh) {
                    let grown = bills.push(fresh);
                    assert forall|i: int, j: int|
                        0 <= i < j < grown.len() implies grown[i].serial != grown[j].serial by {
                        if j < grown.len() - 1 {
                            assert(grown[i] == bills[i] && grown[j] == bills[j]);
                        } else {
                            assert(grown[i] == bills[i] && grown[j] == fresh);
                        }
                    }
                }
            }
        },
        CashTransaction::Transfer { spends, receives } => {
            if transfer_valid(bills, serial, spends@, receives@) {
                lemma_after_spends_keeps_wf(bills, spends@, serial);
                lemma_insert_fresh_wf(
                    bills_after_spends(bills, spends@),
                    receives@,
                    serial,
                    serial,
                );
            }
        },
    }
}

proof fn lemma_remove_first_found(s: Seq<Account>, a: Account)
    requires
        s.contains(a),
    ensures
        exists|idx: int|
            0 <= idx < s.len() && #[trigger] s[idx] == a && remove_first(s, a) == s.remove(idx),
    decreases s.len(),
{
    if s[0] == a {
        assert(s.drop_first() =~= s.remove(0));
    } else {
        let rest = s.drop_first();
        let w = choose|w: int| 0 <= w < s.len() && s[w] == a;
        assert(rest[w - 1] == a);
        assert(rest.contains(a));
        lemma_remove_first_found(rest, a);
        let idx = choose|idx: int|
            0 <= idx < rest.len() && #[trigger] rest[idx] == a && remove_first(rest, a)
                == rest.remove(idx);
        assert(s[idx + 1] == a);
        assert(seq![s[0]] + rest.remove(idx) =~= s.remove(idx + 1));
    }
}

proof fn lemma_remove_keeps_wf(s: Seq<Account>, idx: int, serial: u64)
    requires
        0 <= idx < s.len(),
    ensures
        serials_below(s, serial) ==> serials_below(s.remove(idx), serial),
        serials_distinct(s) ==> serials_distinct(s.remove(idx)),
{
    s.remove_ensures(idx);
}

proof fn lemma_after_spends_keeps_wf(bills: Seq<Account>, spends: Seq<Account>, serial: u64)
    requires
        serials_below(bills, serial),
        serials_distinct(bills),
    ensures
        serials_below(bills_after_spends(bills, spends), serial),
        serials_distinct(bills_after_spends(bills, spends)),
    decreases spends.len(),
{
    if spends.len() > 0 {
        if bills.contains(spends[0]) {
            lemma_remove_first_found(bills, spends[0]);
            let idx = choose|idx: int|
                0 <= idx < bills.len() && #[trigger] bills[idx] == spends[0] && remove_first(
                    bills,
                    spends[0],
                ) == bills.remove(idx);
            lemma_remove_keeps_wf(bills, idx, serial);
        } else {
            lemma_remove_first_absent(bills, spends[0]);
        }
        lemma_after_spends_keeps_wf(remove_first(bills, spends[0]), spends.drop_first(), serial);
    }
}

proof fn lemma_remove_first_absent(s: Seq<Account>, a: Account)
    requires
        !s.contains(a),
    ensures
        remove_first(s, a) == s,
    decreases s.len(),
{
    if s.len() > 0 {
        assert(s[0] != a);
        let rest = s.drop_first();
        assert forall|w: int| 0 <= w < rest.len() implies rest[w] != a by {
            assert(s[w + 1] == rest[w]);
        }
        lemma_remove_first_absent(rest, a);
        assert(seq![s[0]] + rest =~= s);
    }
}

/// Inserting bills whose serials run sequentially from `lo` into a bank
/// whose serials all lie below `base <= lo` keeps the invariant, with the
/// counter advanced past the last inserted serial.
proof fn lemma_insert_fresh_wf(acc: Seq<Account>, incoming: Seq<Account>, base: u64, lo: u64)
    requires
        base <= lo,
        serials_below(acc, lo),
        serials_distinct(acc),
        forall|i: int|
            0 <= i < incoming.len() ==> (#[trigger] incoming[i]).serial == lo + i,
        lo + incoming.len() <= u64::MAX,
    ensures
        serials_below(insert_all(acc, incoming), (lo + incoming.len()) as u64),
        serials_distinct(insert_all(acc, incoming)),
    decreases incoming.len(),
{
    if incoming.len() == 0 {
    } else {
        let fresh = incoming[0];
        assert(fresh.serial == lo);
        if acc.contains(fresh) {
            let w = choose|w: int| 0 <= w < acc.len() && acc[w] == fresh;
            assert(acc[w].serial < lo);
            assert(false);
        }
        let grown = acc.push(fresh);
        assert(serials_below(grown, (lo + 1) as u64));
        assert forall|i: int, j: int|
            0 <= i < j < grown.len() implies grown[i].serial != grown[j].serial by {
            if j < grown.len() - 1 {
                assert(grown[i] == acc[i] && grown[j] == acc[j]);
            } else {
                assert(grown[j] == fresh);
                assert(grown[i] == acc[i]);
                assert(acc[i].serial < lo);
            }
        }
        assert forall|i: int|
            0 <= i < incoming.drop_first().len() implies (#[trigger] incoming.drop_first()[i]).serial
            == (lo + 1) + i by {
            assert(incoming.drop_first()[i] == incoming[i + 1]);
        }
        lemma_insert_fresh_wf(grown, incoming.drop_first(), base, (lo + 1) as u64);
    }
}

/// A well-formed bank never holds one bill value twice: bills with
/// distinct serials are distinct.
pub proof fn lemma_wf_implies_distinct(bills: Seq<Account>, serial: u64)
    requires
        bank_wf(bills, serial),
    ensures
        bills.no_duplicates(),
{
    assert forall|i: int, j: int|
        0 <= i < bills.len() && 0 <= j < bills.len() && i != j implies bills[i] != bills[j] by {
        if i < j {
            assert(bills[i].serial != bills[j].serial);
        } else {
            assert(bills[j].serial != bills[i].serial);
        }
    }
}

proof fn lemma_insert_bill_distinct(acc: Seq<Account>, a: Account)
    requires
        acc.no_duplicates(),
    ensures
        insert_bill(acc, a).no_duplicates(),
{
    if !acc.contains(a) {
        let grown = acc.push(a);
        assert forall|i: int, j: int|
            0 <= i < grown.len() && 0 <= j < grown.len() && i != j implies grown[i]
            != grown[j] by {
            if i < grown.len() - 1 && j < grown.len() - 1 {
                assert(grown[i] == acc[i] && grown[j] == acc[j]);
            } else if i == grown.len() - 1 {
                assert(grown[j] == acc[j] && grown[i] == a);
            } else {
                assert(grown[i] == acc[i] && grown[j] == a);
            }
        }
    }
}

proof fn lemma_insert_all_distinct(acc: Seq<Account>, incoming: Seq<Account>)
    requires
        acc.no_duplicates(),
    ensures
        insert_all(acc, incoming).no_duplicates(),
    decreases incoming.len(),
{
    if incoming.len() > 0 {
        lemma_insert_bill_distinct(acc, incoming[0]);
        lemma_insert_all_distinct(insert_bill(acc, incoming[0]), incoming.drop_first());
    }
}

proof fn lemma_remove_distinct(s: Seq<Account>, idx: int)
    requires
        s.no_duplicates(),
        0 <= idx < s.len(),
    ensures
        s.remove(idx).no_duplicates(),
{
    s.remove_ensures(idx);
}

proof fn lemma_remove_first_distinct(s: Seq<Account>, a: Account)
    requires
        s.no_duplicates(),
    ensures
        remove_first(s, a).no_duplicates(),
{
    if s.contains(a) {
        lemma_remove_first_found(s, a);
        let idx = choose|idx: int|
            0 <= idx < s.len() && #[trigger] s[idx] == a && remove_first(s, a) == s.remove(idx);
        lemma_remove_distinct(s, idx);
    } else {
        lemma_remove_first_absent(s, a);
    }
}

proof fn lemma_after_spends_distinct(bills: Seq<Account>, spends: Seq<Account>)
    requires
        bills.no_duplicates(),
    ensures
        bills_after_spends(bills, spends).no_duplicates(),
    decreases spends.len(),
{
    if spends.len() > 0 {
        lemma_remove_first_distinct(bills, spends[0]);
        lemma_after_spends_distinct(remove_first(bills, spends[0]), spends.drop_first());
    }
}

/// Set semantics is preserved: no transition ever makes a bank hold one
/// bill value twice.
pub proof fn lemma_transition_preserves_distinct(bills: Seq<Account>, serial: u64, t: CashTransaction)
    requires
        bills.no_duplicates(),
    ensures
        next_bills(bills, serial, t).no_duplicates(),
{
    match t {
        CashTransaction::Mint { minter, amount } => {
            if serial < u64::MAX {
                lemma_insert_bill_distinct(bills, Account { owner: minter, amount, serial });
            }
        },
        CashTransaction::Transfer { spends, receives } => {
            if transfer_valid(bills, serial, spends@, receives@) {
                lemma_after_spends_distinct(bills, spends@);
                lemma_insert_all_distinct(bills_after_spends(bills, spends@), receives@);
            }
        },
    }
}

/// A bank with the same bills and counter as the one given.
fn unchanged_bank(b: &Bank) -> (r: Bank)
    ensures
        r.spec_bills() == b.spec_bills(),
        r.spec_serial() == b.spec_serial(),
{
    Bank { bills: copy_accounts(&b.bills), next_serial: b.next_serial }
}

/// An element-for-element copy of a bill list.
fn copy_accounts(v: &Vec<Account>) -> (r: Vec<Account>)
    ensures
        r@ == v@,
{
    let mut out: Vec<Account> = Vec::new();
    let mut i: usize = 0;
    while i < v.len()
        invariant
            i <= v.len(),
            out@ == v@.take(i as int),
        decreases v.len() - i,
    {
        out.push(v[i]);
        proof {
            assert(v@.take(i + 1) =~= v@.take(i as int).push(v@[i as int]));
        }
        i = i + 1;
    }
    proof {
        assert(v@.take(v@.len() as int) =~= v@);
    }
    out
}

/// The earliest index holding a bill equal to `a`, if one is held.
fn find_account(held: &Vec<Account>, a: &Account) -> (r: Option<usize>)
    ensures
        match r {
            Option::Some(idx) => idx < held@.len() && held@[idx as int] == *a && (forall|j: int|
                0 <= j < idx ==> held@[j] != *a),
            Option::None => !held@.contains(*a),
        },
{
    let mut i: usize = 0;
    while i < held.len()
        invariant
            i <= held.len(),
            forall|j: int| 0 <= j < i ==> held@[j] != *a,
        decreases held.len() - i,
    {
        if held[i] == *a {
            return Option::Some(i);
        }
        i = i + 1;
    }
    Option::None
}

/// Whether the held bills contain one equal to `a`.
fn bills_contain(held: &Vec<Account>, a: &Account) -> (r: bool)
    ensures
        r == held@.contains(*a),
{
    let mut i: usize = 0;
    while i < held.len()
        invariant
            i <= held.len(),
            forall|j: int| 0 <= j < i ==> held@[j] != *a,
        decreases held.len() - i,
    {
        if held[i] == *a {
            return true;
        }
        i = i + 1;
    }
    false
}

} // verus!
