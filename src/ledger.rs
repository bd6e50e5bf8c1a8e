//! The ledger: a mapping from account identity to balance, with its
//! operations.
use vstd::prelude::*;

use crate::accounts::{
    balance_in, ids_unique, lemma_balance_at, lemma_balance_unrecorded, lemma_push, lemma_update,
    recorded, total, AccountModel,
};

verus! {

/// One recorded account.
struct Account {
    identity: String,
    balance: u64,
}

/// Why an operation on the ledger was refused. A refused operation leaves the
/// ledger as it was.
#[derive(Debug, Clone, Copy, PartialEq, Eq, Structural)]
pub enum LedgerError {
    /// The sender holds less than the amount to transfer.
    InsufficientBalance,
    /// The receiving balance would exceed the largest representable amount.
    BalanceOverflow,
}

impl LedgerError {
    /// The human-readable reason handed to the caller.
    pub fn message(&self) -> (r: String)
        ensures
            r@ == match self {
                LedgerError::InsufficientBalance => "Insufficient balance"@,
                LedgerError::BalanceOverflow => "Balance overflow"@,
            },
    {
        match self {
            LedgerError::InsufficientBalance => "Insufficient balance".to_owned(),
            LedgerError::BalanceOverflow => "Balance overflow".to_owned(),
        }
    }
}

/// Token balances per account identity. An identity without an account holds
/// zero; there is no separate "no such account" state.
pub struct Ledger {
    accounts: Vec<Account>,
}

impl View for Ledger {
    type V = Seq<AccountModel>;

    closed spec fn view(&self) -> Seq<AccountModel> {
        self.accounts@.map_values(|a: Account| (a.identity@, a.balance))
    }
}

impl Ledger {
    /// Each identity has at most one account.
    pub open spec fn well_formed(&self) -> bool {
        ids_unique(self@)
    }

    /// The balance of `id`, zero when it has no account.
    pub open spec fn balance(&self, id: Seq<char>) -> nat {
        balance_in(self@, id)
    }

    /// The total supply: the sum of all balances.
    pub open spec fn supply(&self) -> nat {
        total(self@)
    }

    /// An empty ledger: every balance is zero.
    pub fn new() -> (l: Self)
        ensures
            l.well_formed(),
            l@ == Seq::<AccountModel>::empty(),
            forall|id: Seq<char>| #[trigger] l.balance(id) == 0,
            l.supply() == 0,
    {
        let l = Ledger { accounts: Vec::new() };
        assert(l@ =~= Seq::<AccountModel>::empty());
        l
    }

    /// The position of the account of `identity`, if it has one.
    fn find(&self, identity: &String) -> (r: Option<usize>)
        requires
            self.well_formed(),
        ensures
            match r {
                Some(i) => i < self@.len() && self@[i as int].0 == identity@,
                None => !recorded(self@, identity@),
            },
    {
        let mut i: usize = 0;
        while i < self.accounts.len()
            invariant
                i <= self.accounts@.len(),
                self@.len() == self.accounts@.len(),
                forall|j: int| 0 <= j < i ==> #[trigger] self@[j].0 != identity@,
            decreases self.accounts@.len() - i,
        {
            if self.accounts[i].identity == *identity {
                return Some(i);
            }
            i = i + 1;
        }
        None
    }

    /// The balance of `identity`, zero when it has no account.
    fn lookup(&self, identity: &String) -> (r: u64)
        requires
            self.well_formed(),
        ensures
            r == self.balance(identity@),
    {
        match self.find(identity) {
            Some(i) => {
                proof {
                    lemma_balance_at(self@, i as int);
                }
                self.accounts[i].balance
            },
            None => {
                proof {
                    lemma_balance_unrecorded(self@, identity@);
                }
                0
            },
        }
    }

    /// Sets the balance of `identity` to `amount`, recording an account for it
    /// if it has none.
    fn set_balance(&mut self, identity: &String, amount: u64)
        requires
            old(self).well_formed(),
        ensures
            final(self).well_formed(),
            forall|id: Seq<char>| #[trigger]
                final(self).balance(id) == if id == identity@ {
                    amount as nat
                } else {
                    old(self).balance(id)
                },
            final(self).supply() + old(self).balance(identity@) == old(self).supply() + amount,
    {
        match self.find(identity) {
            Some(i) => {
                proof {
                    lemma_balance_at(self@, i as int);
                    lemma_update(self@, i as int, amount);
                }
                let ghost before = self@;
                let stored = self.accounts[i].identity.clone();
                self.accounts.set(i, Account { identity: stored, balance: amount });
                assert(self@ =~= before.update(i as int, (before[i as int].0, amount)));
            },
            None => {
                proof {
                    lemma_balance_unrecorded(self@, identity@);
                    lemma_push(self@, identity@, amount);
                }
                let ghost before = self@;
                self.accounts.push(Account { identity: identity.clone(), balance: amount });
                assert(self@ =~= before.push((identity@, amount)));
            },
        }
    }

    /// The current balance of `identity`, zero when it was never credited.
    pub fn balance_of(&self, identity: &str) -> (r: u64)
        requires
            self.well_formed(),
        ensures
            r == self.balance(identity@),
    {
        self.lookup(&identity.to_owned())
    }

    /// Adds `amount` to the balance of `identity`, minting new supply. Refused,
    /// with the ledger unchanged, when the new balance would not fit.
    pub fn credit(&mut self, identity: &str, amount: u64) -> (r: Result<(), LedgerError>)
        requires
            old(self).well_formed(),
        ensures
            final(self).well_formed(),
            r is Ok <==> old(self).balance(identity@) + amount <= u64::MAX,
            r is Err ==> r == Err::<(), LedgerError>(LedgerError::BalanceOverflow) && final(self)@
                == old(self)@,
            r is Ok ==> forall|id: Seq<char>| #[trigger]
                final(self).balance(id) == if id == identity@ {
                    old(self).balance(id) + amount
                } else {
                    old(self).balance(id) as int
                },
            r is Ok ==> final(self).supply() == old(self).supply() + amount,
    {
        let identity = identity.to_owned();
        let current = self.lookup(&identity);
        match current.checked_add(amount) {
            Some(updated) => {
                self.set_balance(&identity, updated);
                Ok(())
            },
            None => Err(LedgerError::BalanceOverflow),
        }
    }

    /// Moves `amount` from the balance of `from` to that of `to` in one step.
    ///
    /// Refused with `InsufficientBalance` when `from` holds less than
    /// `amount`, and with `BalanceOverflow` when the receiving balance would
    /// not fit; a refused transfer leaves the ledger unchanged. A transfer to
    /// oneself that the balance covers succeeds and changes nothing.
    pub fn transfer(&mut self, from: &str, to: &str, amount: u64) -> (r: Result<(), LedgerError>)
        requires
            old(self).well_formed(),
        ensures
            final(self).well_formed(),
            r == Err::<(), LedgerError>(LedgerError::InsufficientBalance) <==> amount > old(
                self,
            ).balance(from@),
            r == Err::<(), LedgerError>(LedgerError::BalanceOverflow) <==> amount <= old(
                self,
            ).balance(from@) && from@ != to@ && old(self).balance(to@) + amount > u64::MAX,
            r is Ok <==> amount <= old(self).balance(from@) && (from@ == to@ || old(self).balance(
                to@,
            ) + amount <= u64::MAX),
            r is Err ==> final(self)@ == old(self)@,
            r is Ok ==> forall|id: Seq<char>| #[trigger]
                final(self).balance(id) == if from@ != to@ && id == from@ {
                    old(self).balance(id) - amount
                } else if from@ != to@ && id == to@ {
                    old(self).balance(id) + amount
                } else {
                    old(self).balance(id) as int
                },
            r is Ok ==> final(self).supply() == old(self).supply(),
    {
        let from = from.to_owned();
        let to = to.to_owned();
        let sender = self.lookup(&from);
        if sender < amount {
            return Err(LedgerError::InsufficientBalance);
        }
        if from == to {
            return Ok(());
        }
        let receiver = self.lookup(&to);
        match receiver.checked_add(amount) {
            Some(received) => {
                self.set_balance(&from, sender - amount);
                self.set_balance(&to, received);
                Ok(())
            },
            None => Err(LedgerError::BalanceOverflow),
        }
    }

    /// Clears every account: afterwards every balance is zero.
    pub fn reset(&mut self)
        ensures
            final(self).well_formed(),
            final(self)@ == Seq::<AccountModel>::empty(),
            forall|id: Seq<char>| #[trigger] final(self).balance(id) == 0,
            final(self).supply() == 0,
    {
        self.accounts.clear();
        assert(self@ =~= Seq::<AccountModel>::empty());
    }
}

} // verus!
