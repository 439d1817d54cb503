//! Laws of the ledger engine, stated over its mathematical model.

use crate::engine::{account_or_new, faults, ledger_of, malformed, replay, step, AccountView};
use crate::parse::{Tx, Type};
use vstd::prelude::*;

verus! {

/// Whether `tx` refers to an earlier transaction: a dispute, a resolve or a
/// chargeback.
pub open spec fn refers(tx: Tx) -> bool {
    tx.typ == Type::Dispute || tx.typ == Type::Resolve || tx.typ == Type::Chargeback
}

/// Whether `tx` is a deposit or a withdrawal.
pub open spec fn moves_funds(tx: Tx) -> bool {
    tx.typ == Type::Deposit || tx.typ == Type::Withdrawal
}

/// What `tx` adds to the funds of `client` in state `ledger`: the amount of
/// a deposit, minus the amount of a withdrawal that is honoured, and
/// nothing otherwise.
pub open spec fn flow(ledger: Map<u16, AccountView>, tx: Tx, client: u16) -> int {
    if tx.client != client {
        0
    } else {
        match (tx.typ, tx.amount) {
            (Type::Deposit, Some(amount)) => amount as int,
            (Type::Withdrawal, Some(amount)) => if account_or_new(ledger, client).can_withdraw(
                amount,
            ) {
                -(amount as int)
            } else {
                0
            },
            _ => 0,
        }
    }
}

/// Sum of the deposits of `client` in a run over `txs`, minus the sum of
/// its honoured withdrawals.
pub open spec fn settled(txs: Seq<Tx>, client: u16) -> int
    decreases txs.len(),
{
    if txs.len() == 0 {
        0
    } else {
        settled(txs.drop_last(), client) + flow(ledger_of(txs.drop_last()), txs.last(), client)
    }
}

/// Conservation: an account that has seen no chargeback (it is not locked)
/// holds, available and held together, exactly what was deposited minus
/// what was withdrawn. A client without an account has moved no funds.
pub proof fn lemma_conservation(txs: Seq<Tx>, client: u16)
    ensures
        ledger_of(txs).contains_key(client) && !ledger_of(txs)[client].locked ==> ledger_of(txs)[client].total()
            == settled(txs, client),
        !ledger_of(txs).contains_key(client) ==> settled(txs, client) == 0,
    decreases txs.len(),
{
    if txs.len() > 0 {
        lemma_conservation(txs.drop_last(), client);
    }
}

/// Conservation, by the records: where the run holds no chargeback record
/// for a client, the client's account holds exactly what was deposited
/// minus what was withdrawn.
pub proof fn lemma_conservation_without_chargeback(txs: Seq<Tx>, client: u16)
    requires
        ledger_of(txs).contains_key(client),
        forall|i: int|
            0 <= i < txs.len() ==> !((#[trigger] txs[i]).typ == Type::Chargeback && txs[i].client
                == client),
    ensures
        ledger_of(txs)[client].total() == settled(txs, client),
{
    if ledger_of(txs)[client].locked {
        lemma_lock_origin(txs, client);
    }
    lemma_conservation(txs, client);
}

/// Only a chargeback locks: a locked account has had a chargeback record.
pub proof fn lemma_lock_origin(txs: Seq<Tx>, client: u16)
    requires
        ledger_of(txs).contains_key(client),
        ledger_of(txs)[client].locked,
    ensures
        exists|i: int|
            0 <= i < txs.len() && (#[trigger] txs[i]).typ == Type::Chargeback && txs[i].client
                == client,
    decreases txs.len(),
{
    let rest = txs.drop_last();
    let last = txs.last();
    if !(last.typ == Type::Chargeback && last.client == client) {
        lemma_lock_origin(rest, client);
    }
}

/// Dispute, then resolve: a dispute followed by a resolve of the same
/// transaction leaves the whole ledger, and so the available and held
/// funds of the account, exactly as it was.
pub proof fn lemma_dispute_resolve_restores(
    ledger: Map<u16, AccountView>,
    dispute: Tx,
    resolve: Tx,
)
    requires
        dispute.typ == Type::Dispute,
        resolve.typ == Type::Resolve,
        dispute.client == resolve.client,
        dispute.id == resolve.id,
    ensures
        step(step(ledger, dispute), resolve) == ledger,
{
}

/// A locked account stays on file and stays locked, whatever follows.
pub proof fn lemma_locked_stays_locked(ledger: Map<u16, AccountView>, txs: Seq<Tx>, client: u16)
    requires
        ledger.contains_key(client),
        ledger[client].locked,
    ensures
        replay(ledger, txs).contains_key(client),
        replay(ledger, txs)[client].locked,
    decreases txs.len(),
{
    if txs.len() > 0 {
        lemma_locked_stays_locked(ledger, txs.drop_last(), client);
    }
}

/// Chargeback is irreversible: once an account is locked, then after any
/// further records `txs`, a withdrawal for that client is dropped without
/// error and changes nothing, while a deposit is still credited in full.
pub proof fn lemma_locked_account(ledger: Map<u16, AccountView>, txs: Seq<Tx>, tx: Tx)
    requires
        ledger.contains_key(tx.client),
        ledger[tx.client].locked,
    ensures
        tx.typ == Type::Withdrawal ==> step(replay(ledger, txs), tx) == replay(ledger, txs)
            && !malformed(replay(ledger, txs), tx),
        tx.typ == Type::Deposit ==> (tx.amount matches Some(amount) ==> step(
            replay(ledger, txs),
            tx,
        )[tx.client].available == replay(ledger, txs)[tx.client].available + amount),
{
    lemma_locked_stays_locked(ledger, txs, tx.client);
}

/// A record that refers to a transaction which the ledger does not know,
/// whether for want of the account or of the entry in its history, changes
/// nothing and is no error.
pub proof fn lemma_unknown_reference(ledger: Map<u16, AccountView>, tx: Tx)
    requires
        refers(tx),
        !ledger.contains_key(tx.client) || !ledger[tx.client].history.contains_key(tx.id),
    ensures
        step(ledger, tx) == ledger,
        !malformed(ledger, tx),
{
}

/// The accounts of a run are those of the clients that a deposit or a
/// withdrawal named, and an account's history holds only ids that a deposit
/// or withdrawal of that client carried.
pub proof fn lemma_origin(txs: Seq<Tx>, client: u16, id: u32)
    ensures
        ledger_of(txs).contains_key(client) <==> exists|i: int|
            0 <= i < txs.len() && moves_funds(#[trigger] txs[i]) && txs[i].client == client,
        ledger_of(txs).contains_key(client) && ledger_of(txs)[client].history.contains_key(id) ==> exists|
            i: int,
        |
            0 <= i < txs.len() && moves_funds(#[trigger] txs[i]) && txs[i].client == client
                && txs[i].id == id,
    decreases txs.len(),
{
    if txs.len() > 0 {
        let rest = txs.drop_last();
        lemma_origin(rest, client, id);
        assert(forall|i: int| 0 <= i < rest.len() ==> rest[i] == txs[i]);
    }
}

/// Unknown reference: a dispute, resolve or chargeback that names a
/// transaction id which no deposit or withdrawal of that client carried, or
/// a client that no deposit or withdrawal named, leaves the ledger of the
/// run as it is, without the account if there was none.
pub proof fn lemma_unknown_reference_in_run(txs: Seq<Tx>, tx: Tx)
    requires
        refers(tx),
        forall|i: int|
            0 <= i < txs.len() && moves_funds(#[trigger] txs[i]) && txs[i].client == tx.client
                ==> txs[i].id != tx.id,
    ensures
        step(ledger_of(txs), tx) == ledger_of(txs),
        !malformed(ledger_of(txs), tx),
{
    lemma_origin(txs, tx.client, tx.id);
    lemma_unknown_reference(ledger_of(txs), tx);
}

/// A withdrawal never takes the available funds below zero: only disputes
/// and chargebacks can.
pub proof fn lemma_withdrawal_never_overdraws(account: AccountView, id: u32, amount: u64)
    requires
        account.available >= 0,
    ensures
        account.withdraw(id, amount).available >= 0,
{
}

/// Accounts and history entries are never removed: after any record, an
/// account is still on file and still knows every transaction id it knew.
/// The amount on record changes only where a deposit or withdrawal of the
/// client carries the same id again.
pub proof fn lemma_history_is_kept(ledger: Map<u16, AccountView>, tx: Tx, client: u16, id: u32)
    requires
        ledger.contains_key(client),
        ledger[client].history.contains_key(id),
    ensures
        step(ledger, tx).contains_key(client),
        step(ledger, tx)[client].history.contains_key(id),
        !(moves_funds(tx) && tx.client == client && tx.id == id) ==> step(
            ledger,
            tx,
        )[client].history[id] == ledger[client].history[id],
{
}

/// The records of `txs` that name `client`, in their order.
pub open spec fn of_client(txs: Seq<Tx>, client: u16) -> Seq<Tx> {
    txs.filter(|tx: Tx| tx.client == client)
}

/// Whether two ledgers agree on `client`: both lack the account, or both
/// hold the same one.
pub open spec fn same_account(
    left: Map<u16, AccountView>,
    right: Map<u16, AccountView>,
    client: u16,
) -> bool {
    left.contains_key(client) == right.contains_key(client) && (left.contains_key(client)
        ==> left[client] == right[client])
}

/// A client's account is what the client's own records alone make of it,
/// and a record is rejected in the run exactly if it is rejected among the
/// client's own records.
pub proof fn lemma_account_by_client(txs: Seq<Tx>, client: u16)
    ensures
        same_account(ledger_of(txs), ledger_of(of_client(txs, client)), client),
        faults(txs).len() == 0 ==> faults(of_client(txs, client)).len() == 0,
    decreases txs.len(),
{
    reveal(Seq::filter);
    if txs.len() > 0 {
        let rest = txs.drop_last();
        let last = txs.last();
        lemma_account_by_client(rest, client);
        if last.client == client {
            let own = of_client(txs, client);
            assert(own.drop_last() =~= of_client(rest, client));
        }
    }
}

/// If no client has a rejected record among its own records, the run has
/// none.
pub proof fn lemma_faults_by_client(txs: Seq<Tx>)
    requires
        forall|client: u16| faults(#[trigger] of_client(txs, client)).len() == 0,
    ensures
        faults(txs).len() == 0,
    decreases txs.len(),
{
    reveal(Seq::filter);
    if txs.len() > 0 {
        let rest = txs.drop_last();
        let last = txs.last();
        assert forall|client: u16| faults(#[trigger] of_client(rest, client)).len() == 0 by {
            let own = of_client(txs, client);
            if last.client == client {
                assert(own.drop_last() =~= of_client(rest, client));
            }
        }
        lemma_faults_by_client(rest);
        let own = of_client(txs, last.client);
        assert(own.drop_last() =~= of_client(rest, last.client));
        lemma_account_by_client(rest, last.client);
    }
}

/// Clients are independent: two runs in which every client's own records
/// come in the same order end in the same ledger, however the records of
/// different clients are interleaved, and one run is free of rejected
/// records exactly if the other is.
pub proof fn lemma_order_across_clients(left: Seq<Tx>, right: Seq<Tx>)
    requires
        forall|client: u16| #[trigger] of_client(left, client) == of_client(right, client),
    ensures
        ledger_of(left) == ledger_of(right),
        faults(left).len() == 0 <==> faults(right).len() == 0,
{
    assert forall|client: u16|
        #![trigger ledger_of(left).contains_key(client)]
        #![trigger ledger_of(right).contains_key(client)]
        same_account(ledger_of(left), ledger_of(right), client) by {
        lemma_account_by_client(left, client);
        lemma_account_by_client(right, client);
    }
    if faults(left).len() == 0 {
        assert forall|client: u16| faults(#[trigger] of_client(right, client)).len() == 0 by {
            lemma_account_by_client(left, client);
        }
        lemma_faults_by_client(right);
    }
    if faults(right).len() == 0 {
        assert forall|client: u16| faults(#[trigger] of_client(left, client)).len() == 0 by {
            lemma_account_by_client(right, client);
        }
        lemma_faults_by_client(left);
    }
}

/// Whether `tx` takes effect in state `ledger` as a reference to the
/// transaction `id` of `client`: the account is on file and knows the id.
pub open spec fn takes_effect(
    ledger: Map<u16, AccountView>,
    tx: Tx,
    client: u16,
    id: u32,
) -> bool {
    refers(tx) && tx.client == client && tx.id == id && ledger.contains_key(client)
        && ledger[client].history.contains_key(id)
}

/// The amount on record for transaction `id` of `client`; zero if there is
/// none.
pub open spec fn recorded(ledger: Map<u16, AccountView>, client: u16, id: u32) -> int {
    if ledger.contains_key(client) && ledger[client].history.contains_key(id) {
        ledger[client].history[id] as int
    } else {
        0
    }
}

/// The held funds of `client`; zero if there is no account.
pub open spec fn held(ledger: Map<u16, AccountView>, client: u16) -> int {
    if ledger.contains_key(client) {
        ledger[client].held
    } else {
        0
    }
}

/// What `tx` adds to the held funds of `client` on account of transaction
/// `id`: its amount for a dispute that takes effect, minus its amount for a
/// resolve or chargeback that does.
pub open spec fn held_flow(ledger: Map<u16, AccountView>, tx: Tx, client: u16, id: u32) -> int {
    if takes_effect(ledger, tx, client, id) {
        if tx.typ == Type::Dispute {
            recorded(ledger, client, id)
        } else {
            -recorded(ledger, client, id)
        }
    } else {
        0
    }
}

/// How many disputes of transaction `id` of `client` are open after `txs`:
/// the disputes that took effect, less the resolves and chargebacks that
/// did.
pub open spec fn open_disputes(txs: Seq<Tx>, client: u16, id: u32) -> int
    decreases txs.len(),
{
    if txs.len() == 0 {
        0
    } else {
        open_disputes(txs.drop_last(), client, id) + if takes_effect(
            ledger_of(txs.drop_last()),
            txs.last(),
            client,
            id,
        ) {
            if txs.last().typ == Type::Dispute {
                1int
            } else {
                -1int
            }
        } else {
            0int
        }
    }
}

/// The amounts of `client` under open dispute after `txs`, summed over the
/// transaction ids below `bound`.
pub open spec fn disputed(txs: Seq<Tx>, client: u16, bound: nat) -> int
    decreases bound,
{
    if bound == 0 {
        0
    } else {
        let id = (bound - 1) as u32;
        disputed(txs, client, (bound - 1) as nat) + open_disputes(txs, client, id) * recorded(
            ledger_of(txs),
            client,
            id,
        )
    }
}

/// Whether no two deposits or withdrawals of `client` in `txs` carry the
/// same transaction id.
pub open spec fn distinct_ids(txs: Seq<Tx>, client: u16) -> bool {
    forall|i: int, j: int|
        0 <= i < j < txs.len() && moves_funds(#[trigger] txs[i]) && moves_funds(#[trigger] txs[j])
            && txs[i].client == client && txs[j].client == client ==> txs[i].id != txs[j].id
}

/// A transaction with a dispute count other than zero is on record.
pub proof fn lemma_open_dispute_is_recorded(txs: Seq<Tx>, client: u16, id: u32)
    requires
        open_disputes(txs, client, id) != 0,
    ensures
        ledger_of(txs).contains_key(client),
        ledger_of(txs)[client].history.contains_key(id),
    decreases txs.len(),
{
    let rest = txs.drop_last();
    if !takes_effect(ledger_of(rest), txs.last(), client, id) {
        lemma_open_dispute_is_recorded(rest, client, id);
    }
    lemma_history_is_kept(ledger_of(rest), txs.last(), client, id);
}

/// What the last record does to one term of the sum of disputed amounts.
proof fn lemma_disputed_term(txs: Seq<Tx>, client: u16, id: u32)
    requires
        txs.len() > 0,
        distinct_ids(txs, client),
    ensures
        open_disputes(txs, client, id) * recorded(ledger_of(txs), client, id) == open_disputes(
            txs.drop_last(),
            client,
            id,
        ) * recorded(ledger_of(txs.drop_last()), client, id) + held_flow(
            ledger_of(txs.drop_last()),
            txs.last(),
            client,
            id,
        ),
{
    let rest = txs.drop_last();
    let last = txs.last();
    let before = ledger_of(rest);
    let open = open_disputes(rest, client, id);
    if moves_funds(last) && last.client == client && last.id == id {
        if open != 0 {
            lemma_open_dispute_is_recorded(rest, client, id);
            lemma_origin(rest, client, id);
            let i = choose|i: int|
                0 <= i < rest.len() && moves_funds(#[trigger] rest[i]) && rest[i].client == client
                    && rest[i].id == id;
            assert(txs[i] == rest[i] && txs[txs.len() - 1] == last);
        }
        assert(open_disputes(txs, client, id) == 0);
    } else {
        let amount = recorded(before, client, id);
        assert((open + 1) * amount == open * amount + amount) by (nonlinear_arith);
        assert((open - 1) * amount == open * amount - amount) by (nonlinear_arith);
    }
}

/// What the last record does to the sum of disputed amounts.
proof fn lemma_disputed_step(txs: Seq<Tx>, client: u16, bound: nat)
    requires
        txs.len() > 0,
        distinct_ids(txs, client),
        bound <= 0x1_0000_0000,
    ensures
        disputed(txs, client, bound) == disputed(txs.drop_last(), client, bound) + if txs.last().id
            < bound {
            held_flow(ledger_of(txs.drop_last()), txs.last(), client, txs.last().id)
        } else {
            0
        },
    decreases bound,
{
    if bound > 0 {
        lemma_disputed_step(txs, client, (bound - 1) as nat);
        lemma_disputed_term(txs, client, (bound - 1) as u32);
    }
}

/// Held funds are the amounts under dispute: where no two deposits or
/// withdrawals of a client carry the same transaction id, the client's held
/// funds are the sum, over all transaction ids, of the amount on record
/// times the number of open disputes of that transaction.
pub proof fn lemma_held_is_disputed(txs: Seq<Tx>, client: u16)
    requires
        distinct_ids(txs, client),
    ensures
        held(ledger_of(txs), client) == disputed(txs, client, 0x1_0000_0000),
    decreases txs.len(),
{
    if txs.len() == 0 {
        assert(txs =~= Seq::empty());
        lemma_nothing_disputed(client, 0x1_0000_0000);
    } else {
        let rest = txs.drop_last();
        let last = txs.last();
        lemma_held_is_disputed(rest, client);
        lemma_disputed_step(txs, client, 0x1_0000_0000);
        assert(held(ledger_of(txs), client) == held(ledger_of(rest), client) + held_flow(
            ledger_of(rest),
            last,
            client,
            last.id,
        ));
    }
}

/// Held funds are not negative as long as no transaction has been resolved
/// or charged back more often than it was disputed, and no two deposits or
/// withdrawals of the client carry the same transaction id.
pub proof fn lemma_held_is_not_negative(txs: Seq<Tx>, client: u16)
    requires
        distinct_ids(txs, client),
        forall|id: u32| open_disputes(txs, client, id) >= 0,
    ensures
        held(ledger_of(txs), client) >= 0,
{
    lemma_held_is_disputed(txs, client);
    lemma_disputed_is_not_negative(txs, client, 0x1_0000_0000);
}

/// A sum of amounts under dispute is not negative where no dispute count
/// is.
proof fn lemma_disputed_is_not_negative(txs: Seq<Tx>, client: u16, bound: nat)
    requires
        forall|id: u32| open_disputes(txs, client, id) >= 0,
    ensures
        disputed(txs, client, bound) >= 0,
    decreases bound,
{
    if bound > 0 {
        let id = (bound - 1) as u32;
        lemma_disputed_is_not_negative(txs, client, (bound - 1) as nat);
        assert(open_disputes(txs, client, id) * recorded(ledger_of(txs), client, id) >= 0)
            by (nonlinear_arith)
            requires
                open_disputes(txs, client, id) >= 0,
                recorded(ledger_of(txs), client, id) >= 0,
        ;
    }
}

/// Before any record, nothing is under dispute.
proof fn lemma_nothing_disputed(client: u16, bound: nat)
    ensures
        disputed(Seq::empty(), client, bound) == 0,
    decreases bound,
{
    if bound > 0 {
        lemma_nothing_disputed(client, (bound - 1) as nat);
    }
}

} // verus!
