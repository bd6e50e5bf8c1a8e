//! The mathematical model of a ledger: a sequence of recorded accounts, each
//! an identity with its balance, in which no identity occurs twice.
use vstd::prelude::*;

verus! {

/// One recorded account as the model sees it: its identity and its balance.
pub type AccountModel = (Seq<char>, u64);

/// No identity is recorded twice.
pub open spec fn ids_unique(accts: Seq<AccountModel>) -> bool {
    forall|i: int, j: int|
        0 <= i < accts.len() && 0 <= j < accts.len() && i != j ==> #[trigger] accts[i].0
            != #[trigger] accts[j].0
}

/// Whether `id` has a recorded account.
pub open spec fn recorded(accts: Seq<AccountModel>, id: Seq<char>) -> bool {
    exists|i: int| 0 <= i < accts.len() && #[trigger] accts[i].0 == id
}

/// The balance of `id`: the recorded amount, or zero when `id` has no account.
pub open spec fn balance_in(accts: Seq<AccountModel>, id: Seq<char>) -> nat
    decreases accts.len(),
{
    if accts.len() == 0 {
        0
    } else if accts.last().0 == id {
        accts.last().1 as nat
    } else {
        balance_in(accts.drop_last(), id)
    }
}

/// The total supply: the sum of all recorded balances.
pub open spec fn total(accts: Seq<AccountModel>) -> nat
    decreases accts.len(),
{
    if accts.len() == 0 {
        0
    } else {
        total(accts.drop_last()) + accts.last().1 as nat
    }
}

/// An identity with no account has balance zero.
pub proof fn lemma_balance_unrecorded(accts: Seq<AccountModel>, id: Seq<char>)
    requires
        !recorded(accts, id),
    ensures
        balance_in(accts, id) == 0,
    decreases accts.len(),
{
    if accts.len() > 0 {
        assert(accts[accts.len() - 1].0 != id);
        let rest = accts.drop_last();
        assert forall|i: int| 0 <= i < rest.len() implies #[trigger] rest[i].0 != id by {
            assert(rest[i] == accts[i]);
        }
        lemma_balance_unrecorded(rest, id);
    }
}

/// The balance of a recorded identity is the amount stored with it.
pub proof fn lemma_balance_at(accts: Seq<AccountModel>, i: int)
    requires
        ids_unique(accts),
        0 <= i < accts.len(),
    ensures
        balance_in(accts, accts[i].0) == accts[i].1 as nat,
    decreases accts.len(),
{
    if i < accts.len() - 1 {
        let rest = accts.drop_last();
        assert(accts[accts.len() - 1].0 != accts[i].0);
        assert(rest[i] == accts[i]);
        lemma_balance_at(rest, i);
    }
}

/// Replacing the amount stored at `i` changes the balance of that identity
/// alone, and the total by the difference.
pub proof fn lemma_update(accts: Seq<AccountModel>, i: int, amount: u64)
    requires
        ids_unique(accts),
        0 <= i < accts.len(),
    ensures
        ids_unique(accts.update(i, (accts[i].0, amount))),
        forall|id: Seq<char>|
            #[trigger] balance_in(accts.update(i, (accts[i].0, amount)), id) == if id
                == accts[i].0 {
                amount as nat
            } else {
                balance_in(accts, id)
            },
        total(accts.update(i, (accts[i].0, amount))) + accts[i].1 == total(accts) + amount,
    decreases accts.len(),
{
    let upd = accts.update(i, (accts[i].0, amount));
    assert forall|a: int, b: int|
        0 <= a < upd.len() && 0 <= b < upd.len() && a != b implies #[trigger] upd[a].0
        != #[trigger] upd[b].0 by {
        assert(upd[a].0 == accts[a].0);
        assert(upd[b].0 == accts[b].0);
    }
    if i == accts.len() - 1 {
        assert(upd.drop_last() =~= accts.drop_last());
        assert forall|id: Seq<char>|
            #[trigger] balance_in(upd, id) == if id == accts[i].0 {
                amount as nat
            } else {
                balance_in(accts, id)
            } by {
            assert(upd.last() == (accts[i].0, amount));
        }
    } else {
        let rest = accts.drop_last();
        assert(upd.drop_last() =~= rest.update(i, (rest[i].0, amount)));
        assert(rest[i] == accts[i]);
        assert(accts[accts.len() - 1].0 != accts[i].0);
        assert forall|a: int, b: int|
            0 <= a < rest.len() && 0 <= b < rest.len() && a != b implies #[trigger] rest[a].0
            != #[trigger] rest[b].0 by {
            assert(rest[a] == accts[a]);
            assert(rest[b] == accts[b]);
        }
        lemma_update(rest, i, amount);
        assert forall|id: Seq<char>|
            #[trigger] balance_in(upd, id) == if id == accts[i].0 {
                amount as nat
            } else {
                balance_in(accts, id)
            } by {
            assert(upd.last() == accts.last());
            assert(balance_in(upd.drop_last(), id) == balance_in(
                rest.update(i, (rest[i].0, amount)),
                id,
            ));
        }
    }
}

/// Appending an account for an unrecorded identity sets its balance and adds
/// its amount to the total.
pub proof fn lemma_push(accts: Seq<AccountModel>, id: Seq<char>, amount: u64)
    requires
        ids_unique(accts),
        !recorded(accts, id),
    ensures
        ids_unique(accts.push((id, amount))),
        forall|other: Seq<char>|
            #[trigger] balance_in(accts.push((id, amount)), other) == if other == id {
                amount as nat
            } else {
                balance_in(accts, other)
            },
        total(accts.push((id, amount))) == total(accts) + amount,
{
    let pushed = accts.push((id, amount));
    assert(pushed.drop_last() =~= accts);
    assert forall|a: int, b: int|
        0 <= a < pushed.len() && 0 <= b < pushed.len() && a != b implies #[trigger] pushed[a].0
        != #[trigger] pushed[b].0 by {
        if a < accts.len() {
            assert(pushed[a] == accts[a]);
        }
        if b < accts.len() {
            assert(pushed[b] == accts[b]);
        }
    }
}

} // verus!
