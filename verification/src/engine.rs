//! The ledger engine: what becomes of an account under each transaction.

use crate::parse::{Tx, Type};
use std::collections::HashMap;
use vstd::prelude::*;

verus! {

broadcast use vstd::std_specs::hash::group_hash_axioms;

/// The mathematical content of an [`Account`].
pub struct AccountView {
    pub client: u16,
    pub available: int,
    pub held: int,
    pub locked: bool,
    pub history: Map<u32, u64>,
}

impl AccountView {
    /// A fresh account: zero balances, unlocked, empty history.
    pub open spec fn opened(client: u16) -> AccountView {
        AccountView { client, available: 0, held: 0, locked: false, history: Map::empty() }
    }

    /// Funds are added and the amount is remembered under `id`, replacing
    /// any earlier entry for that id.
    pub open spec fn deposit(self, id: u32, amount: u64) -> AccountView {
        AccountView {
            available: self.available + amount,
            history: self.history.insert(id, amount),
            ..self
        }
    }

    /// Whether a withdrawal of `amount` is honoured: the account is not
    /// locked and holds enough available funds.
    pub open spec fn can_withdraw(self, amount: u64) -> bool {
        !self.locked && self.available >= amount
    }

    /// Funds are taken out if the withdrawal is honoured; otherwise the
    /// account is left as it is.
    pub open spec fn withdraw(self, id: u32, amount: u64) -> AccountView {
        if self.can_withdraw(amount) {
            AccountView {
                available: self.available - amount,
                history: self.history.insert(id, amount),
                ..self
            }
        } else {
            self
        }
    }

    /// The amount recorded under `id` moves from available to held.
    pub open spec fn dispute(self, id: u32) -> AccountView {
        if self.history.contains_key(id) {
            AccountView {
                available: self.available - self.history[id],
                held: self.held + self.history[id],
                ..self
            }
        } else {
            self
        }
    }

    /// The amount recorded under `id` moves from held back to available.
    pub open spec fn resolve(self, id: u32) -> AccountView {
        if self.history.contains_key(id) {
            AccountView {
                available: self.available + self.history[id],
                held: self.held - self.history[id],
                ..self
            }
        } else {
            self
        }
    }

    /// The amount recorded under `id` leaves the held funds and the account
    /// is locked.
    pub open spec fn chargeback(self, id: u32) -> AccountView {
        if self.history.contains_key(id) {
            AccountView { held: self.held - self.history[id], locked: true, ..self }
        } else {
            self
        }
    }

    /// Sum of available and held funds.
    pub open spec fn total(self) -> int {
        self.available + self.held
    }

    /// All three balances (available, held, total) lie within `limit` of zero.
    pub open spec fn within(self, limit: int) -> bool {
        &&& -limit <= self.available <= limit
        &&& -limit <= self.held <= limit
        &&& -limit <= self.total() <= limit
    }

    /// Every balance is at least one amount away from both ends of `i128`,
    /// so that no single transaction can overflow it.
    pub open spec fn roomy(self) -> bool {
        self.within(i128::MAX - u64::MAX)
    }
}

/// State of one client's account.
#[derive(Debug)]
pub struct Account {
    pub client: u16,
    pub available: i128,
    pub held: i128,
    pub locked: bool,
    pub history: HashMap<u32, u64>,
}

impl View for Account {
    type V = AccountView;

    open spec fn view(&self) -> AccountView {
        AccountView {
            client: self.client,
            available: self.available as int,
            held: self.held as int,
            locked: self.locked,
            history: self.history@,
        }
    }
}

impl Account {
    /// Opens an account with zero balances.
    pub fn new(client: u16) -> (account: Account)
        ensures
            account@ == AccountView::opened(client),
    {
        Account { client, available: 0, held: 0, locked: false, history: HashMap::new() }
    }

    /// Credits `amount` and records it in the history under `id`.
    pub fn deposit(&mut self, id: u32, amount: u64)
        requires
            old(self)@.roomy(),
        ensures
            final(self)@ == old(self)@.deposit(id, amount),
    {
        self.available = self.available + amount as i128;
        self.history.insert(id, amount);
    }

    /// Debits `amount` and records it under `id`, unless the account is
    /// locked or short of available funds; then nothing changes. Returns
    /// whether the withdrawal was honoured.
    pub fn withdraw(&mut self, id: u32, amount: u64) -> (honoured: bool)
        requires
            old(self)@.roomy(),
        ensures
            honoured == old(self)@.can_withdraw(amount),
            final(self)@ == old(self)@.withdraw(id, amount),
    {
        if !self.locked && self.available >= amount as i128 {
            self.available = self.available - amount as i128;
            self.history.insert(id, amount);
            true
        } else {
            false
        }
    }

    /// Moves the amount recorded under `id` from available to held. Returns
    /// whether the history knows `id`; if not, nothing changes.
    pub fn dispute(&mut self, id: u32) -> (known: bool)
        requires
            old(self)@.roomy(),
        ensures
            known == old(self)@.history.contains_key(id),
            final(self)@ == old(self)@.dispute(id),
    {
        match self.history.get(&id) {
            Some(disputed) => {
                let amount: i128 = *disputed as i128;
                self.available = self.available - amount;
                self.held = self.held + amount;
                true
            },
            None => false,
        }
    }

    /// Moves the amount recorded under `id` from held back to available.
    /// Returns whether the history knows `id`; if not, nothing changes.
    pub fn resolve(&mut self, id: u32) -> (known: bool)
        requires
            old(self)@.roomy(),
        ensures
            known == old(self)@.history.contains_key(id),
            final(self)@ == old(self)@.resolve(id),
    {
        match self.history.get(&id) {
            Some(disputed) => {
                let amount: i128 = *disputed as i128;
                self.held = self.held - amount;
                self.available = self.available + amount;
                true
            },
            None => false,
        }
    }

    /// Removes the amount recorded under `id` from the held funds and locks
    /// the account, whatever its state. Returns whether the history knows
    /// `id`; if not, nothing changes.
    pub fn chargeback(&mut self, id: u32) -> (known: bool)
        requires
            old(self)@.roomy(),
        ensures
            known == old(self)@.history.contains_key(id),
            final(self)@ == old(self)@.chargeback(id),
    {
        match self.history.get(&id) {
            Some(disputed) => {
                let amount: i128 = *disputed as i128;
                self.held = self.held - amount;
                self.locked = true;
                true
            },
            None => false,
        }
    }

    /// Available plus held funds.
    pub fn total(&self) -> (total: i128)
        requires
            i128::MIN <= self@.total() <= i128::MAX,
        ensures
            total == self@.total(),
    {
        self.available + self.held
    }
}

/// The most records one ledger can take. With at most this many records of
/// at most `u64::MAX` units each, no balance can leave the range of `i128`.
pub const MAX_RECORDS: u64 = 0x7FFF_FFFF_FFFF_FFFF;

/// How far from zero a balance can be after `records` records.
pub open spec fn reach(records: int) -> int {
    records * 0xFFFF_FFFF_FFFF_FFFF
}

/// A deposit or withdrawal that carries no amount.
#[derive(Clone, Copy, Debug, PartialEq, Eq)]
pub struct MalformedTransaction {
    /// Position of the record in the run, counted from zero.
    pub index: u64,
    /// `Type::Deposit` or `Type::Withdrawal`.
    pub typ: Type,
}

impl MalformedTransaction {
    /// The message that goes with the error.
    pub open spec fn text(self) -> Seq<char> {
        match self.typ {
            Type::Deposit => "missing deposit amount"@,
            Type::Withdrawal => "missing withdrawal amount"@,
            _ => "missing amount"@,
        }
    }

    /// The error's message.
    pub fn message(&self) -> (msg: String)
        ensures
            msg@ == self.text(),
    {
        match self.typ {
            Type::Deposit => "missing deposit amount".to_owned(),
            Type::Withdrawal => "missing withdrawal amount".to_owned(),
            _ => "missing amount".to_owned(),
        }
    }
}

/// The account that a deposit or withdrawal for `client` acts on: the one
/// on file, or a fresh one.
pub open spec fn account_or_new(ledger: Map<u16, AccountView>, client: u16) -> AccountView {
    if ledger.contains_key(client) {
        ledger[client]
    } else {
        AccountView::opened(client)
    }
}

/// Whether `tx` is rejected in state `ledger` for want of an amount. A
/// withdrawal from a locked account is dropped before its amount is looked
/// at, so it is never rejected.
pub open spec fn malformed(ledger: Map<u16, AccountView>, tx: Tx) -> bool {
    match tx.typ {
        Type::Deposit => tx.amount is None,
        Type::Withdrawal => tx.amount is None && !account_or_new(ledger, tx.client).locked,
        _ => false,
    }
}

/// The ledger after one record.
///
/// A deposit or withdrawal opens the client's account if there is none,
/// even when the record is then rejected or dropped. The other three types
/// act only on an account that exists and a transaction id that its history
/// knows, and otherwise change nothing.
pub open spec fn step(ledger: Map<u16, AccountView>, tx: Tx) -> Map<u16, AccountView> {
    match tx.typ {
        Type::Deposit => {
            let account = account_or_new(ledger, tx.client);
            ledger.insert(
                tx.client,
                match tx.amount {
                    Some(amount) => account.deposit(tx.id, amount),
                    None => account,
                },
            )
        },
        Type::Withdrawal => {
            let account = account_or_new(ledger, tx.client);
            ledger.insert(
                tx.client,
                match tx.amount {
                    Some(amount) => account.withdraw(tx.id, amount),
                    None => account,
                },
            )
        },
        Type::Dispute => if ledger.contains_key(tx.client) {
            ledger.insert(tx.client, ledger[tx.client].dispute(tx.id))
        } else {
            ledger
        },
        Type::Resolve => if ledger.contains_key(tx.client) {
            ledger.insert(tx.client, ledger[tx.client].resolve(tx.id))
        } else {
            ledger
        },
        Type::Chargeback => if ledger.contains_key(tx.client) {
            ledger.insert(tx.client, ledger[tx.client].chargeback(tx.id))
        } else {
            ledger
        },
    }
}

/// The ledger after all of `txs`, applied in order to `ledger`. Rejected
/// records are passed over; see [`faults`] for which ones they are.
pub open spec fn replay(ledger: Map<u16, AccountView>, txs: Seq<Tx>) -> Map<u16, AccountView>
    decreases txs.len(),
{
    if txs.len() == 0 {
        ledger
    } else {
        step(replay(ledger, txs.drop_last()), txs.last())
    }
}

/// The ledger after all of `txs`, applied in order to an empty ledger.
pub open spec fn ledger_of(txs: Seq<Tx>) -> Map<u16, AccountView> {
    replay(Map::empty(), txs)
}

/// The rejected records of a run over `txs`, in order.
pub open spec fn faults(txs: Seq<Tx>) -> Seq<MalformedTransaction>
    decreases txs.len(),
{
    if txs.len() == 0 {
        Seq::empty()
    } else if malformed(ledger_of(txs.drop_last()), txs.last()) {
        faults(txs.drop_last()).push(
            MalformedTransaction { index: (txs.len() - 1) as u64, typ: txs.last().typ },
        )
    } else {
        faults(txs.drop_last())
    }
}

/// The mathematical content of a table of accounts.
pub open spec fn accounts_view(accounts: Map<u16, Account>) -> Map<u16, AccountView> {
    accounts.map_values(|account: Account| account@)
}

/// Every account is filed under its own client id and has its balances
/// within `limit` of zero.
pub open spec fn accounts_within(accounts: Map<u16, Account>, limit: int) -> bool {
    forall|client: u16| #[trigger]
        accounts.contains_key(client) ==> accounts[client].client == client
            && accounts[client]@.within(limit)
}

/// A table of accounts by client id, together with the number of records
/// applied to it so far.
pub struct Ledger {
    accounts: HashMap<u16, Account>,
    applied: u64,
}

impl View for Ledger {
    type V = Map<u16, AccountView>;

    closed spec fn view(&self) -> Map<u16, AccountView> {
        accounts_view(self.accounts@)
    }
}

impl Ledger {
    /// Number of records applied so far.
    pub closed spec fn count(&self) -> int {
        self.applied as int
    }

    /// The ledger's invariant: it has taken at most `MAX_RECORDS` records,
    /// and each account is filed under its own id with balances no further
    /// from zero than that many records can bring them.
    pub closed spec fn wf(&self) -> bool {
        &&& self.applied <= MAX_RECORDS
        &&& accounts_within(self.accounts@, reach(self.applied as int))
    }

    /// An empty ledger.
    pub fn new() -> (ledger: Ledger)
        ensures
            ledger.wf(),
            ledger.count() == 0,
            ledger@ == Map::<u16, AccountView>::empty(),
    {
        let ledger = Ledger { accounts: HashMap::new(), applied: 0 };
        ledger
    }

    /// Number of records applied so far.
    pub fn applied(&self) -> (applied: u64)
        ensures
            applied == self.count(),
    {
        self.applied
    }

    /// Takes the account of `client` out of the table, or opens a fresh one.
    fn take_or_open(&mut self, client: u16) -> (account: Account)
        requires
            old(self).wf(),
        ensures
            final(self).applied == old(self).applied,
            final(self).accounts@ == old(self).accounts@.remove(client),
            account@ == account_or_new(old(self)@, client),
            account.client == client,
            account@.within(reach(old(self).applied as int)),
    {
        match self.accounts.remove(&client) {
            Some(account) => account,
            None => Account::new(client),
        }
    }

    /// Applies one record: the ledger moves from its state to
    /// `step(state, tx)`, whatever the record. A deposit or withdrawal
    /// without an amount is reported as an error, with its position in the
    /// run; the ledger stays usable, so the caller may stop there or pass
    /// the record over and go on.
    pub fn apply(&mut self, tx: &Tx) -> (result: Result<(), MalformedTransaction>)
        requires
            old(self).wf(),
            old(self).count() < MAX_RECORDS,
        ensures
            final(self).wf(),
            final(self).count() == old(self).count() + 1,
            final(self)@ == step(old(self)@, *tx),
            result is Err <==> malformed(old(self)@, *tx),
            result matches Err(fault) ==> fault.index == old(self).count() && fault.typ == tx.typ,
    {
        let fault = MalformedTransaction { index: self.applied, typ: tx.typ };
        let mut result: Result<(), MalformedTransaction> = Ok(());
        match tx.typ {
            Type::Deposit => {
                let mut account = self.take_or_open(tx.client);
                match tx.amount {
                    Some(amount) => {
                        account.deposit(tx.id, amount);
                    },
                    None => {
                        result = Err(fault);
                    },
                }
                self.accounts.insert(tx.client, account);
            },
            Type::Withdrawal => {
                let mut account = self.take_or_open(tx.client);
                if !account.locked {
                    match tx.amount {
                        Some(amount) => {
                            account.withdraw(tx.id, amount);
                        },
                        None => {
                            result = Err(fault);
                        },
                    }
                }
                self.accounts.insert(tx.client, account);
            },
            Type::Dispute => {
                if let Some(mut account) = self.accounts.remove(&tx.client) {
                    account.dispute(tx.id);
                    self.accounts.insert(tx.client, account);
                }
            },
            Type::Resolve => {
                if let Some(mut account) = self.accounts.remove(&tx.client) {
                    account.resolve(tx.id);
                    self.accounts.insert(tx.client, account);
                }
            },
            Type::Chargeback => {
                if let Some(mut account) = self.accounts.remove(&tx.client) {
                    account.chargeback(tx.id);
                    self.accounts.insert(tx.client, account);
                }
            },
        }
        self.applied = self.applied + 1;
        result
    }

    /// The account of `client`, if there is one.
    pub fn get(&self, client: u16) -> (found: Option<&Account>)
        requires
            self.wf(),
        ensures
            found is Some <==> self@.contains_key(client),
            found matches Some(account) ==> account@ == self@[client] && account.client == client
                && account@.within(reach(self.count())),
    {
        self.accounts.get(&client)
    }

    /// Gives up the table of accounts.
    pub fn into_accounts(self) -> (accounts: HashMap<u16, Account>)
        requires
            self.wf(),
        ensures
            accounts_view(accounts@) == self@,
            accounts_within(accounts@, reach(self.count())),
    {
        self.accounts
    }
}

/// A run's rejected records are those of any of its prefixes, followed by
/// the later ones.
pub proof fn lemma_faults_prefix(txs: Seq<Tx>, n: int)
    requires
        0 <= n <= txs.len(),
    ensures
        faults(txs.take(n)).is_prefix_of(faults(txs)),
    decreases txs.len(),
{
    if n == txs.len() {
        assert(txs.take(n) =~= txs);
    } else {
        lemma_faults_prefix(txs.drop_last(), n);
        assert(txs.drop_last().take(n) =~= txs.take(n));
    }
}

/// Processes the transactions in order and returns the ledger, as a map
/// from client id to account.
///
/// This is the strict reading of a missing amount: the first deposit or
/// withdrawal that is rejected for want of one ends the run, and the error
/// names it. [`process_lenient`] passes such records over instead.
pub fn process(txs: Vec<Tx>) -> (result: Result<HashMap<u16, Account>, MalformedTransaction>)
    requires
        txs.len() <= MAX_RECORDS,
    ensures
        match result {
            Ok(accounts) => {
                &&& faults(txs@).len() == 0
                &&& accounts_view(accounts@) == ledger_of(txs@)
                &&& accounts_within(accounts@, reach(txs.len() as int))
            },
            Err(fault) => faults(txs@).len() > 0 && fault == faults(txs@)[0],
        },
{
    let mut ledger = Ledger::new();
    let mut i: usize = 0;
    while i < txs.len()
        invariant
            i <= txs.len() <= MAX_RECORDS,
            ledger.wf(),
            ledger.count() == i,
            ledger@ == ledger_of(txs@.take(i as int)),
            faults(txs@.take(i as int)).len() == 0,
        decreases txs.len() - i,
    {
        proof {
            assert(txs@.take(i + 1).drop_last() =~= txs@.take(i as int));
            lemma_faults_prefix(txs@, i + 1);
        }
        match ledger.apply(&txs[i]) {
            Ok(()) => {},
            Err(fault) => {
                proof {
                    let found = faults(txs@.take(i + 1));
                    assert(faults(txs@)[0] == found[0]);
                }
                return Err(fault);
            },
        }
        i = i + 1;
    }
    assert(txs@.take(i as int) =~= txs@);
    Ok(ledger.into_accounts())
}

/// Processes the transactions in order, passing over each deposit or
/// withdrawal that is rejected for want of an amount. Returns the ledger
/// and the rejected records, in order.
pub fn process_lenient(txs: Vec<Tx>) -> (result: (HashMap<u16, Account>, Vec<MalformedTransaction>))
    requires
        txs.len() <= MAX_RECORDS,
    ensures
        accounts_view(result.0@) == ledger_of(txs@),
        accounts_within(result.0@, reach(txs.len() as int)),
        result.1@ == faults(txs@),
{
    let mut ledger = Ledger::new();
    let mut skipped: Vec<MalformedTransaction> = Vec::new();
    let mut i: usize = 0;
    while i < txs.len()
        invariant
            i <= txs.len() <= MAX_RECORDS,
            ledger.wf(),
            ledger.count() == i,
            ledger@ == ledger_of(txs@.take(i as int)),
            skipped@ == faults(txs@.take(i as int)),
        decreases txs.len() - i,
    {
        proof {
            assert(txs@.take(i + 1).drop_last() =~= txs@.take(i as int));
        }
        match ledger.apply(&txs[i]) {
            Ok(()) => {},
            Err(fault) => {
                skipped.push(fault);
            },
        }
        i = i + 1;
    }
    assert(txs@.take(i as int) =~= txs@);
    (ledger.into_accounts(), skipped)
}

} // verus!
