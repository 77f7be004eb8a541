//! A multi-user currency system that tracks the balance of each user and
//! allows users to send funds to one another. There is an existential
//! deposit of at least one: an account is removed entirely when its
//! balance falls back to zero.
//!
//! The balance book is held canonically — entries sorted by user, no
//! zero balances — so two books holding the same balances compare equal.

use vstd::prelude::*;
use crate::state_machine::{StateMachine, User};

verus! {

/// This state machine models a multi-user currency system. It tracks the
/// balance of each user and allows users to send funds to one another.
pub struct AccountedCurrency;

/// The main balances book. Each entry maps a user to their balance;
/// users without an entry hold nothing.
#[derive(Debug, PartialEq, Eq)]
pub struct Balances {
    entries: Vec<(User, u64)>,
}

/// The state transitions that users can make in an accounted currency
/// system.
pub enum AccountingTransaction {
    /// Create some new money for the given minter in the given amount.
    Mint { minter: User, amount: u64 },
    /// Destroy some money from the given account in the given amount.
    /// If the burn amount meets or exceeds the account balance, burn the
    /// entire balance and remove the account from storage.
    Burn { burner: User, amount: u64 },
    /// Send some tokens from one account to another.
    Transfer { sender: User, receiver: User, amount: u64 },
}

/// A fixed order on the play users, used to keep the book canonical.
pub open spec fn user_rank(u: User) -> int {
    match u {
        User::Alice => 0,
        User::Bob => 1,
        User::Charlie => 2,
    }
}

/// The balances a book's entry list stands for.
pub open spec fn entries_to_map(s: Seq<(User, u64)>) -> Map<User, u64>
    decreases s.len(),
{
    if s.len() == 0 {
        Map::empty()
    } else {
        entries_to_map(s.drop_last()).insert(s.last().0, s.last().1)
    }
}

impl View for Balances {
    type V = Map<User, u64>;

    closed spec fn view(&self) -> Map<User, u64> {
        entries_to_map(self.entries@)
    }
}

impl Balances {
    spec fn spec_entries(self) -> Seq<(User, u64)> {
        self.entries@
    }

    /// The book is always kept canonical: entries sorted by user, no
    /// zero balances.
    #[verifier::type_invariant]
    spec fn inv(self) -> bool {
        entries_wf(self.entries@)
    }
}

/// The canonical shape of a book's entry list: users in strictly
/// ascending order (hence each at most once), and no zero balances.
pub open spec fn entries_wf(s: Seq<(User, u64)>) -> bool {
    &&& forall|i: int, j: int|
        #![trigger s[i], s[j]]
        0 <= i < j < s.len() ==> user_rank(s[i].0) < user_rank(s[j].0)
    &&& forall|i: int| 0 <= i < s.len() ==> (#[trigger] s[i]).1 > 0
}

/// The existential deposit: every account the book holds has a positive
/// balance.
pub open spec fn no_empty_accounts(m: Map<User, u64>) -> bool {
    forall|u: User| m.dom().contains(u) ==> m[u] > 0
}

/// The balances book determined by one balance per user, where a zero
/// balance stands for no account.
pub open spec fn map_of(a: u64, b: u64, c: u64) -> Map<User, u64> {
    Map::new(
        |u: User|
            match u {
                User::Alice => a > 0,
                User::Bob => b > 0,
                User::Charlie => c > 0,
            },
        |u: User|
            match u {
                User::Alice => a,
                User::Bob => b,
                User::Charlie => c,
            },
    )
}

/// Builds the canonical book holding the given three balances; users
/// with a zero balance get no entry.
fn from_balances(a: u64, b: u64, c: u64) -> (r: Balances)
    ensures
        r@ == map_of(a, b, c),
{
    let mut entries: Vec<(User, u64)> = Vec::new();
    if a > 0 {
        entries.push((User::Alice, a));
    }
    if b > 0 {
        entries.push((User::Bob, b));
    }
    if c > 0 {
        entries.push((User::Charlie, c));
    }
    proof {
        lemma_from_balances_map(entries@, a, b, c);
    }
    Balances { entries }
}

proof fn lemma_from_balances_map(s: Seq<(User, u64)>, a: u64, b: u64, c: u64)
    requires
        s =~= {
            let s0 = Seq::<(User, u64)>::empty();
            let s1 = if a > 0 {
                s0.push((User::Alice, a))
            } else {
                s0
            };
            let s2 = if b > 0 {
                s1.push((User::Bob, b))
            } else {
                s1
            };
            if c > 0 {
                s2.push((User::Charlie, c))
            } else {
                s2
            }
        },
    ensures
        entries_to_map(s) == map_of(a, b, c),
        entries_wf(s),
{
    let s0 = Seq::<(User, u64)>::empty();
    let s1 = if a > 0 {
        s0.push((User::Alice, a))
    } else {
        s0
    };
    let s2 = if b > 0 {
        s1.push((User::Bob, b))
    } else {
        s1
    };
    assert(entries_to_map(s0) == Map::<User, u64>::empty());
    if a > 0 {
        assert(s1.drop_last() =~= s0);
        assert(entries_to_map(s1) == entries_to_map(s0).insert(User::Alice, a));
    }
    if b > 0 {
        assert(s2.drop_last() =~= s1);
        assert(entries_to_map(s2) == entries_to_map(s1).insert(User::Bob, b));
    }
    if c > 0 {
        assert(s.drop_last() =~= s2);
        assert(entries_to_map(s) == entries_to_map(s2).insert(User::Charlie, c));
    }
    assert(entries_to_map(s) =~= map_of(a, b, c));
}

/// The balance the book holds for `u`, zero when `u` has no account.
pub open spec fn balance_in(m: Map<User, u64>, u: User) -> u64 {
    if m.dom().contains(u) {
        m[u]
    } else {
        0
    }
}

proof fn lemma_entries_map_of_balances(s: Seq<(User, u64)>)
    requires
        entries_wf(s),
    ensures
        entries_to_map(s) == map_of(
            balance_in(entries_to_map(s), User::Alice),
            balance_in(entries_to_map(s), User::Bob),
            balance_in(entries_to_map(s), User::Charlie),
        ),
        no_empty_accounts(entries_to_map(s)),
    decreases s.len(),
{
    let m = entries_to_map(s);
    if s.len() == 0 {
        assert(m =~= map_of(0, 0, 0));
    } else {
        let head = s.drop_last();
        assert(entries_wf(head));
        lemma_entries_map_of_balances(head);
        let hm = entries_to_map(head);
        assert forall|u: User| m.dom().contains(u) implies m[u] > 0 by {
            if u != s.last().0 {
                assert(hm.dom().contains(u) && hm[u] == m[u]);
            }
        }
        assert(m =~= map_of(
            balance_in(m, User::Alice),
            balance_in(m, User::Bob),
            balance_in(m, User::Charlie),
        ));
    }
}

/// Reads one user's balance out of the canonical book, zero when the
/// user has no account.
#[verifier::loop_isolation(false)]
fn read_balance(book: &Balances, u: User) -> (r: u64)
    requires
        entries_wf(book.spec_entries()),
    ensures
        r == balance_in(book@, u),
{
    proof {
        lemma_entries_lookup(book.spec_entries(), u);
    }
    let n = book.entries.len();
    let mut i: usize = 0;
    while i < n
        invariant
            n == book.entries.len(),
            i <= n,
            forall|j: int| 0 <= j < i ==> (#[trigger] book.spec_entries()[j]).0 != u,
        decreases n - i,
    {
        let (who, amount) = book.entries[i];
        if who == u {
            return amount;
        }
        i = i + 1;
    }
    0
}

proof fn lemma_entries_lookup(s: Seq<(User, u64)>, u: User)
    requires
        entries_wf(s),
    ensures
        forall|i: int|
            0 <= i < s.len() && (#[trigger] s[i]).0 == u ==> entries_to_map(s).dom().contains(u)
                && entries_to_map(s)[u] == s[i].1,
        (forall|i: int| 0 <= i < s.len() ==> (#[trigger] s[i]).0 != u) ==> !entries_to_map(
            s,
        ).dom().contains(u),
    decreases s.len(),
{
    if s.len() > 0 {
        let head = s.drop_last();
        assert(entries_wf(head));
        lemma_entries_lookup(head, u);
        if s.last().0 == u {
            assert forall|i: int|
                0 <= i < s.len() && (#[trigger] s[i]).0 == u implies entries_to_map(
                s,
            ).dom().contains(u) && entries_to_map(s)[u] == s[i].1 by {
                if i < s.len() - 1 {
                    assert(user_rank(s[i].0) < user_rank(s[s.len() - 1].0));
                }
            }
        } else {
            assert forall|i: int|
                0 <= i < s.len() && (#[trigger] s[i]).0 == u implies entries_to_map(
                s,
            ).dom().contains(u) && entries_to_map(s)[u] == s[i].1 by {
                assert(i < s.len() - 1);
                assert(head[i] == s[i]);
            }
            if forall|i: int| 0 <= i < s.len() ==> (#[trigger] s[i]).0 != u {
                assert forall|i: int| 0 <= i < head.len() implies (#[trigger] head[i]).0 != u by {
                    assert(head[i] == s[i]);
                }
                assert(!entries_to_map(head).dom().contains(u));
            }
        }
    }
}

/// The book a transaction leads to.
pub open spec fn accounting_next(m: Map<User, u64>, t: AccountingTransaction) -> Map<User, u64> {
    match t {
        AccountingTransaction::Mint { minter, amount } => {
            if amount == 0 || balance_in(m, minter) + amount > u64::MAX {
                m
            } else {
                m.insert(minter, (balance_in(m, minter) + amount) as u64)
            }
        },
        AccountingTransaction::Burn { burner, amount } => {
            if !m.dom().contains(burner) || amount == 0 {
                m
            } else if amount >= m[burner] {
                m.remove(burner)
            } else {
                m.insert(burner, (m[burner] - amount) as u64)
            }
        },
        AccountingTransaction::Transfer { sender, receiver, amount } => {
            if amount == 0 || balance_in(m, sender) < amount {
                m
            } else {
                let debited = if m[sender] == amount {
                    m.remove(sender)
                } else {
                    m.insert(sender, (m[sender] - amount) as u64)
                };
                if balance_in(debited, receiver) + amount > u64::MAX {
                    m
                } else {
                    debited.insert(receiver, (balance_in(debited, receiver) + amount) as u64)
                }
            }
        },
    }
}

impl Balances {
    /// An empty book: nobody holds anything.
    pub fn new() -> (r: Balances)
        ensures
            r@ == Map::<User, u64>::empty(),
            no_empty_accounts(r@),
    {
        let r = from_balances(0, 0, 0);
        proof {
            assert(r@ =~= Map::<User, u64>::empty());
        }
        r
    }

    /// Builds a book from a list of balances: a later entry for the same
    /// user replaces an earlier one, and a zero amount stands for no
    /// account.
    pub fn from_entries(list: Vec<(User, u64)>) -> (r: Balances)
        ensures
            r@ == listed_balances(list@),
            no_empty_accounts(r@),
    {
        let mut a: u64 = 0;
        let mut b: u64 = 0;
        let mut c: u64 = 0;
        let mut i: usize = 0;
        proof {
            assert(map_of(0, 0, 0) =~= Map::<User, u64>::empty());
            assert(list@.take(0) =~= Seq::<(User, u64)>::empty());
        }
        while i < list.len()
            invariant
                i <= list.len(),
                map_of(a, b, c) == listed_balances(list@.take(i as int)),
            decreases list.len() - i,
        {
            proof {
                assert(list@.take(i + 1).drop_last() =~= list@.take(i as int));
                assert(list@.take(i + 1).last() == list@[i as int]);
            }
            let (who, amount) = list[i];
            let ghost before = map_of(a, b, c);
            match who {
                User::Alice => a = amount,
                User::Bob => b = amount,
                User::Charlie => c = amount,
            }
            proof {
                assert(map_of(a, b, c) =~= if amount == 0 {
                    before.remove(who)
                } else {
                    before.insert(who, amount)
                });
            }
            i = i + 1;
        }
        proof {
            assert(list@.take(list@.len() as int) =~= list@);
        }
        let r = from_balances(a, b, c);
        proof {
            use_type_invariant(&r);
            lemma_entries_map_of_balances(r.spec_entries());
        }
        r
    }
}

/// The balances a list of user-amount pairs stands for: a later entry
/// for the same user replaces an earlier one, and a zero amount stands
/// for no account.
pub open spec fn listed_balances(list: Seq<(User, u64)>) -> Map<User, u64>
    decreases list.len(),
{
    if list.len() == 0 {
        Map::empty()
    } else {
        let rest = listed_balances(list.drop_last());
        if list.last().1 == 0 {
            rest.remove(list.last().0)
        } else {
            rest.insert(list.last().0, list.last().1)
        }
    }
}

/// We model this system as a state machine with three possible
/// transitions. Rejection — minting nothing, burning from a missing
/// account, overdrawing, or overflowing a balance — leaves the book
/// unchanged.
impl StateMachine for AccountedCurrency {
    type State = Balances;

    type Transition = AccountingTransaction;

    fn next_state(starting_state: &Balances, t: &AccountingTransaction) -> (r: Balances)
        ensures
            r@ == accounting_next(starting_state@, *t),
            no_empty_accounts(r@),
    {
        proof {
            use_type_invariant(starting_state);
            lemma_entries_map_of_balances(starting_state.spec_entries());
        }
        let a0 = read_balance(starting_state, User::Alice);
        let b0 = read_balance(starting_state, User::Bob);
        let c0 = read_balance(starting_state, User::Charlie);
        let ghost m = starting_state@;
        let r = match t {
            AccountingTransaction::Mint { minter, amount } => {
                let cur = read_balance(starting_state, *minter);
                if *amount == 0 || *amount > u64::MAX - cur {
                    from_balances(a0, b0, c0)
                } else {
                    let (a1, b1, c1) = put(a0, b0, c0, *minter, cur + *amount);
                    from_balances(a1, b1, c1)
                }
            },
            AccountingTransaction::Burn { burner, amount } => {
                let cur = read_balance(starting_state, *burner);
                if cur == 0 || *amount == 0 {
                    proof {
                        if m.dom().contains(*burner) {
                            assert(m[*burner] > 0);
                        }
                    }
                    from_balances(a0, b0, c0)
                } else if *amount >= cur {
                    let (a1, b1, c1) = put(a0, b0, c0, *burner, 0);
                    from_balances(a1, b1, c1)
                } else {
                    let (a1, b1, c1) = put(a0, b0, c0, *burner, cur - *amount);
                    from_balances(a1, b1, c1)
                }
            },
            AccountingTransaction::Transfer { sender, receiver, amount } => {
                let src = read_balance(starting_state, *sender);
                if *amount == 0 || src < *amount {
                    from_balances(a0, b0, c0)
                } else {
                    let (a1, b1, c1) = put(a0, b0, c0, *sender, src - *amount);
                    let ghost debited = if m[*sender] == *amount {
                        m.remove(*sender)
                    } else {
                        m.insert(*sender, (m[*sender] - *amount) as u64)
                    };
                    proof {
                        assert(map_of(a1, b1, c1) =~= debited);
                    }
                    let dst = if *receiver == *sender {
                        src - *amount
                    } else {
                        read_balance(starting_state, *receiver)
                    };
                    if *amount > u64::MAX - dst {
                        from_balances(a0, b0, c0)
                    } else {
                        let (a2, b2, c2) = put(a1, b1, c1, *receiver, dst + *amount);
                        from_balances(a2, b2, c2)
                    }
                }
            },
        };
        proof {
            use_type_invariant(&r);
            assert(map_of(a0, b0, c0) =~= m);
            assert(r@ =~= accounting_next(m, *t));
            lemma_entries_map_of_balances(r.spec_entries());
        }
        r
    }
}

/// The three balances with one user's slot replaced.
fn put(a: u64, b: u64, c: u64, u: User, v: u64) -> (r: (u64, u64, u64))
    ensures
        map_of(r.0, r.1, r.2) == (if v == 0 {
            map_of(a, b, c).remove(u)
        } else {
            map_of(a, b, c).insert(u, v)
        }),
{
    let r = match u {
        User::Alice => (v, b, c),
        User::Bob => (a, v, c),
        User::Charlie => (a, b, v),
    };
    proof {
        assert(map_of(r.0, r.1, r.2) =~= if v == 0 {
            map_of(a, b, c).remove(u)
        } else {
            map_of(a, b, c).insert(u, v)
        });
    }
    r
}

} // verus!
