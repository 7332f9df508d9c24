//! The ledger: client accounts and the history of deposits and withdrawals that
//! disputes refer to.
//!
//! Every transition is stated by `step` over the model `Ledger`; the engine's
//! `apply` performs exactly that transition, and `process` runs a whole sequence.
//!
//! Policies: a withdrawal that exceeds the available funds is rejected (not
//! applied); a locked account rejects deposits and withdrawals but still settles
//! disputes on earlier transactions; a transaction whose result would not fit a
//! balance is rejected. Rejections are reported and the run goes on. A second
//! deposit or withdrawal with a known transaction id, a withdrawal for a client
//! with no account, and a deposit or withdrawal without an amount end the run.
use vstd::prelude::*;

use std::collections::HashMap;

use crate::transaction::{Transaction, TransactionType};

verus! {

broadcast use vstd::std_specs::hash::group_hash_axioms;

/// One client's account. Balances are fixed-point decimals in ten-thousandths.
#[derive(Clone, Copy, Debug, PartialEq, Eq, Structural)]
pub struct Client {
    pub client: u16,
    pub available: i64,
    pub held: i64,
    pub total: i64,
    pub locked: bool,
}

impl Client {
    /// The account a client has before its first deposit.
    pub open spec fn fresh(id: u16) -> Client {
        Client { client: id, available: 0, held: 0, total: 0, locked: false }
    }

    /// The total is the sum of the available and the held funds.
    pub open spec fn balanced(&self) -> bool {
        self.total == self.available + self.held
    }
}

/// The two kinds of transaction that move funds and can be disputed.
#[derive(Clone, Copy, Debug, PartialEq, Eq, Structural)]
pub enum FundsKind {
    Deposit,
    Withdrawal,
}

/// Where a recorded transaction stands in the dispute workflow.
#[derive(Clone, Copy, Debug, PartialEq, Eq, Structural)]
pub enum TxState {
    Settled,
    Disputed,
    ChargedBack,
}

/// A deposit or withdrawal as kept for later disputes.
#[derive(Clone, Copy, Debug, PartialEq, Eq, Structural)]
pub struct TxRecord {
    pub client: u16,
    pub kind: FundsKind,
    pub amount: u64,
    pub state: TxState,
}

/// Why a transaction was skipped; the run goes on.
#[derive(Clone, Copy, Debug, PartialEq, Eq, Structural)]
pub enum Warning {
    /// A dispute, resolve or chargeback for a client with no account.
    UnknownClient,
    /// A dispute, resolve or chargeback naming no deposit or withdrawal of this client.
    UnknownReference,
    /// A dispute of a transaction that is not settled, or a resolve or chargeback
    /// of one that is not disputed.
    InvalidDisputeState,
    /// A withdrawal larger than the available funds.
    InsufficientFunds,
    /// A deposit or withdrawal on a locked account.
    AccountLocked,
    /// A balance would leave the range of `i64`.
    Overflow,
}

/// Why a run stopped.
#[derive(Clone, Copy, Debug, PartialEq, Eq, Structural)]
pub enum LedgerError {
    /// A deposit or withdrawal reuses the id of one already recorded.
    DuplicateReference { tx: u32 },
    /// A withdrawal for a client with no account.
    UnknownClient { client: u16, tx: u32 },
    /// A deposit or withdrawal without an amount.
    MissingAmount { tx: u32 },
}

/// What became of one transaction that did not stop the run.
#[derive(Clone, Copy, Debug, PartialEq, Eq, Structural)]
pub enum Outcome {
    Applied,
    Skipped(Warning),
}

/// A skipped transaction, as reported at the end of a run.
#[derive(Clone, Copy, Debug, PartialEq, Eq, Structural)]
pub struct Rejection {
    pub client: u16,
    pub tx: u32,
    pub reason: Warning,
}

#[verifier::ext_equal]
/// The state of the ledger: accounts by client id, deposits and withdrawals by
/// transaction id.
pub struct Ledger {
    pub clients: Map<u16, Client>,
    pub history: Map<u32, TxRecord>,
}

impl Ledger {
    pub open spec fn empty() -> Ledger {
        Ledger { clients: Map::empty(), history: Map::empty() }
    }

    /// Every account is filed under its own id and is balanced.
    pub open spec fn wf(&self) -> bool {
        forall|c: u16| #[trigger]
            self.clients.contains_key(c) ==> self.clients[c].client == c
                && self.clients[c].balanced()
    }

    /// The account of `c`, or a fresh one if it has none.
    pub open spec fn account(&self, c: u16) -> Client {
        if self.clients.contains_key(c) {
            self.clients[c]
        } else {
            Client::fresh(c)
        }
    }
}

pub type StepResult = (Ledger, Result<Outcome, LedgerError>);

pub open spec fn fits(v: int) -> bool {
    i64::MIN <= v <= i64::MAX
}

pub open spec fn skipped(s: Ledger, w: Warning) -> StepResult {
    (s, Ok(Outcome::Skipped(w)))
}

/// How much a dispute of `r` moves from available to held funds (negative for a
/// withdrawal).
pub open spec fn held_shift(r: TxRecord) -> int {
    match r.kind {
        FundsKind::Deposit => r.amount as int,
        FundsKind::Withdrawal => -(r.amount as int),
    }
}

pub open spec fn with_account(s: Ledger, id: u16, c: Client) -> Ledger {
    Ledger { clients: s.clients.insert(id, c), history: s.history }
}

pub open spec fn with_record(s: Ledger, tx: u32, r: TxRecord) -> Ledger {
    Ledger { clients: s.clients, history: s.history.insert(tx, r) }
}

pub open spec fn deposit_step(s: Ledger, t: Transaction) -> StepResult {
    match t.amount {
        None => (s, Err(LedgerError::MissingAmount { tx: t.tx })),
        Some(a) => {
            let acct = s.account(t.client);
            if s.history.contains_key(t.tx) {
                (s, Err(LedgerError::DuplicateReference { tx: t.tx }))
            } else if acct.locked {
                skipped(s, Warning::AccountLocked)
            } else if !fits(acct.available + a) || !fits(acct.total + a) {
                skipped(s, Warning::Overflow)
            } else {
                let next = Client {
                    client: t.client,
                    available: (acct.available + a) as i64,
                    held: acct.held,
                    total: (acct.total + a) as i64,
                    locked: false,
                };
                let rec = TxRecord {
                    client: t.client,
                    kind: FundsKind::Deposit,
                    amount: a,
                    state: TxState::Settled,
                };
                (with_record(with_account(s, t.client, next), t.tx, rec), Ok(Outcome::Applied))
            }
        },
    }
}

pub open spec fn withdrawal_step(s: Ledger, t: Transaction) -> StepResult {
    match t.amount {
        None => (s, Err(LedgerError::MissingAmount { tx: t.tx })),
        Some(a) => {
            let acct = s.clients[t.client];
            if s.history.contains_key(t.tx) {
                (s, Err(LedgerError::DuplicateReference { tx: t.tx }))
            } else if !s.clients.contains_key(t.client) {
                (s, Err(LedgerError::UnknownClient { client: t.client, tx: t.tx }))
            } else if acct.locked {
                skipped(s, Warning::AccountLocked)
            } else if acct.available < a {
                skipped(s, Warning::InsufficientFunds)
            } else if !fits(acct.total - a) {
                skipped(s, Warning::Overflow)
            } else {
                let next = Client {
                    client: acct.client,
                    available: (acct.available - a) as i64,
                    held: acct.held,
                    total: (acct.total - a) as i64,
                    locked: acct.locked,
                };
                let rec = TxRecord {
                    client: t.client,
                    kind: FundsKind::Withdrawal,
                    amount: a,
                    state: TxState::Settled,
                };
                (with_record(with_account(s, t.client, next), t.tx, rec), Ok(Outcome::Applied))
            }
        },
    }
}

/// Why a dispute, resolve or chargeback of `t` cannot even find its target.
pub open spec fn missing_target(s: Ledger, t: Transaction) -> Option<Warning> {
    if !s.clients.contains_key(t.client) {
        Some(Warning::UnknownClient)
    } else if !s.history.contains_key(t.tx) || s.history[t.tx].client != t.client {
        Some(Warning::UnknownReference)
    } else {
        None
    }
}

/// The dispute-family transition: the target must be in state `from`; the account
/// changes by the three deltas and, for a chargeback, is locked; the target moves
/// to state `to`.
pub open spec fn dispute_family_step(
    s: Ledger,
    t: Transaction,
    from: TxState,
    to: TxState,
    d_available: int,
    d_held: int,
    d_total: int,
    lock: bool,
) -> StepResult {
    let acct = s.clients[t.client];
    let rec = s.history[t.tx];
    match missing_target(s, t) {
        Some(w) => skipped(s, w),
        None => if rec.state != from {
            skipped(s, Warning::InvalidDisputeState)
        } else if !fits(acct.available + d_available) || !fits(acct.held + d_held) || !fits(
            acct.total + d_total,
        ) {
            skipped(s, Warning::Overflow)
        } else {
            let next = Client {
                client: acct.client,
                available: (acct.available + d_available) as i64,
                held: (acct.held + d_held) as i64,
                total: (acct.total + d_total) as i64,
                locked: acct.locked || lock,
            };
            let moved = TxRecord {
                client: rec.client,
                kind: rec.kind,
                amount: rec.amount,
                state: to,
            };
            (with_record(with_account(s, t.client, next), t.tx, moved), Ok(Outcome::Applied))
        },
    }
}

/// The effect of one transaction on the ledger, and what became of it. A
/// transaction that stops the run leaves the ledger as it was.
pub open spec fn step(s: Ledger, t: Transaction) -> StepResult {
    let shift = held_shift(s.history[t.tx]);
    match t.kind {
        TransactionType::Deposit => deposit_step(s, t),
        TransactionType::Withdrawal => withdrawal_step(s, t),
        TransactionType::Dispute => dispute_family_step(
            s,
            t,
            TxState::Settled,
            TxState::Disputed,
            -shift,
            shift,
            0,
            false,
        ),
        TransactionType::Resolve => dispute_family_step(
            s,
            t,
            TxState::Disputed,
            TxState::Settled,
            shift,
            -shift,
            0,
            false,
        ),
        TransactionType::Chargeback => dispute_family_step(
            s,
            t,
            TxState::Disputed,
            TxState::ChargedBack,
            0,
            -shift,
            -shift,
            true,
        ),
    }
}

pub type RunResult = (Ledger, Result<Seq<Rejection>, LedgerError>);

/// A sequence of transactions applied in order from `s`: the final ledger and the
/// skipped transactions in order, or the error of the first transaction that
/// stopped the run together with the ledger as it stood then.
pub open spec fn run(s: Ledger, ts: Seq<Transaction>) -> RunResult
    decreases ts.len(),
{
    if ts.len() == 0 {
        (s, Ok(Seq::empty()))
    } else {
        let before = run(s, ts.drop_last());
        match before.1 {
            Err(e) => (before.0, Err(e)),
            Ok(skips) => {
                let t = ts.last();
                let after = step(before.0, t);
                match after.1 {
                    Err(e) => (after.0, Err(e)),
                    Ok(Outcome::Applied) => (after.0, Ok(skips)),
                    Ok(Outcome::Skipped(w)) => (
                        after.0,
                        Ok(skips.push(Rejection { client: t.client, tx: t.tx, reason: w })),
                    ),
                }
            },
        }
    }
}

/// Once a prefix of a run stops, the whole run stops there.
pub proof fn lemma_run_stops(s: Ledger, ts: Seq<Transaction>, k: int)
    requires
        0 <= k <= ts.len(),
        run(s, ts.take(k)).1 is Err,
    ensures
        run(s, ts) == run(s, ts.take(k)),
    decreases ts.len() - k,
{
    if k < ts.len() {
        assert(ts.take(k + 1).drop_last() =~= ts.take(k));
        lemma_run_stops(s, ts, k + 1);
    } else {
        assert(ts.take(k) =~= ts);
    }
}

/// The accounts with ids below `n`, in ascending order of id.
pub open spec fn listed(m: Map<u16, Client>, n: nat) -> Seq<Client>
    decreases n,
{
    if n == 0 {
        Seq::empty()
    } else {
        let id = (n - 1) as u16;
        let rest = listed(m, (n - 1) as nat);
        if m.contains_key(id) {
            rest.push(m[id])
        } else {
            rest
        }
    }
}

/// All accounts in ascending order of client id.
pub open spec fn snapshot_of(m: Map<u16, Client>) -> Seq<Client> {
    listed(m, 65536)
}

pub open spec fn rejections(r: Result<Vec<Rejection>, LedgerError>) -> Result<
    Seq<Rejection>,
    LedgerError,
> {
    match r {
        Ok(v) => Ok(v@),
        Err(e) => Err(e),
    }
}

/// Owns the accounts and the transaction history for a run.
pub struct TransactionEngine {
    clients: HashMap<u16, Client>,
    history: HashMap<u32, TxRecord>,
}

impl View for TransactionEngine {
    type V = Ledger;

    closed spec fn view(&self) -> Ledger {
        Ledger { clients: self.clients@, history: self.history@ }
    }
}

impl TransactionEngine {
    /// An engine with no accounts and no history.
    pub fn new() -> (r: TransactionEngine)
        ensures
            r@ == Ledger::empty(),
            r@.wf(),
    {
        TransactionEngine { clients: HashMap::new(), history: HashMap::new() }
    }

    fn deposit(&mut self, t: &Transaction) -> (r: Result<Outcome, LedgerError>)
        requires
            t.kind == TransactionType::Deposit,
        ensures
            (final(self)@, r) == step(old(self)@, *t),
    {
        let a = match t.amount {
            None => {
                return Err(LedgerError::MissingAmount { tx: t.tx });
            },
            Some(a) => a,
        };
        if self.history.contains_key(&t.tx) {
            return Err(LedgerError::DuplicateReference { tx: t.tx });
        }
        let acct = match self.clients.get(&t.client) {
            Some(c) => *c,
            None => Client { client: t.client, available: 0, held: 0, total: 0, locked: false },
        };
        if acct.locked {
            return Ok(Outcome::Skipped(Warning::AccountLocked));
        }
        let available = acct.available as i128 + a as i128;
        let total = acct.total as i128 + a as i128;
        if available > i64::MAX as i128 || total > i64::MAX as i128 || total < i64::MIN as i128 {
            return Ok(Outcome::Skipped(Warning::Overflow));
        }
        let next = Client {
            client: t.client,
            available: available as i64,
            held: acct.held,
            total: total as i64,
            locked: false,
        };
        self.clients.insert(t.client, next);
        self.history.insert(
            t.tx,
            TxRecord { client: t.client, kind: FundsKind::Deposit, amount: a, state: TxState::Settled },
        );
        Ok(Outcome::Applied)
    }

    fn withdraw(&mut self, t: &Transaction) -> (r: Result<Outcome, LedgerError>)
        requires
            t.kind == TransactionType::Withdrawal,
        ensures
            (final(self)@, r) == step(old(self)@, *t),
    {
        let a = match t.amount {
            None => {
                return Err(LedgerError::MissingAmount { tx: t.tx });
            },
            Some(a) => a,
        };
        if self.history.contains_key(&t.tx) {
            return Err(LedgerError::DuplicateReference { tx: t.tx });
        }
        let acct = match self.clients.get(&t.client) {
            Some(c) => *c,
            None => {
                return Err(LedgerError::UnknownClient { client: t.client, tx: t.tx });
            },
        };
        if acct.locked {
            return Ok(Outcome::Skipped(Warning::AccountLocked));
        }
        if (acct.available as i128) < a as i128 {
            return Ok(Outcome::Skipped(Warning::InsufficientFunds));
        }
        let total = acct.total as i128 - a as i128;
        if total < i64::MIN as i128 || total > i64::MAX as i128 {
            return Ok(Outcome::Skipped(Warning::Overflow));
        }
        let next = Client {
            client: acct.client,
            available: (acct.available as i128 - a as i128) as i64,
            held: acct.held,
            total: total as i64,
            locked: acct.locked,
        };
        self.clients.insert(t.client, next);
        self.history.insert(
            t.tx,
            TxRecord {
                client: t.client,
                kind: FundsKind::Withdrawal,
                amount: a,
                state: TxState::Settled,
            },
        );
        Ok(Outcome::Applied)
    }

    /// Dispute, resolve or chargeback.
    fn settle(&mut self, t: &Transaction) -> (r: Result<Outcome, LedgerError>)
        requires
            t.kind == TransactionType::Dispute || t.kind == TransactionType::Resolve || t.kind
                == TransactionType::Chargeback,
        ensures
            (final(self)@, r) == step(old(self)@, *t),
    {
        let acct = match self.clients.get(&t.client) {
            Some(c) => *c,
            None => {
                return Ok(Outcome::Skipped(Warning::UnknownClient));
            },
        };
        let rec = match self.history.get(&t.tx) {
            Some(r) => *r,
            None => {
                return Ok(Outcome::Skipped(Warning::UnknownReference));
            },
        };
        if rec.client != t.client {
            return Ok(Outcome::Skipped(Warning::UnknownReference));
        }
        let shift: i128 = match rec.kind {
            FundsKind::Deposit => rec.amount as i128,
            FundsKind::Withdrawal => -(rec.amount as i128),
        };
        let (from, to, d_available, d_held, d_total, lock) = match t.kind {
            TransactionType::Dispute => (TxState::Settled, TxState::Disputed, -shift, shift, 0i128, false),
            TransactionType::Resolve => (TxState::Disputed, TxState::Settled, shift, -shift, 0i128, false),
            _ => (TxState::Disputed, TxState::ChargedBack, 0i128, -shift, -shift, true),
        };
        if rec.state != from {
            return Ok(Outcome::Skipped(Warning::InvalidDisputeState));
        }
        let available = acct.available as i128 + d_available;
        let held = acct.held as i128 + d_held;
        let total = acct.total as i128 + d_total;
        if available < i64::MIN as i128 || available > i64::MAX as i128 || held < i64::MIN as i128
            || held > i64::MAX as i128 || total < i64::MIN as i128 || total > i64::MAX as i128 {
            return Ok(Outcome::Skipped(Warning::Overflow));
        }
        let next = Client {
            client: acct.client,
            available: available as i64,
            held: held as i64,
            total: total as i64,
            locked: acct.locked || lock,
        };
        self.clients.insert(t.client, next);
        self.history.insert(
            t.tx,
            TxRecord { client: rec.client, kind: rec.kind, amount: rec.amount, state: to },
        );
        Ok(Outcome::Applied)
    }

    /// Applies one transaction.
    pub fn apply(&mut self, t: &Transaction) -> (r: Result<Outcome, LedgerError>)
        ensures
            (final(self)@, r) == step(old(self)@, *t),
            old(self)@.wf() ==> final(self)@.wf(),
    {
        proof {
            if self@.wf() {
                crate::laws::lemma_step_keeps_balance(self@, *t);
            }
        }
        match t.kind {
            TransactionType::Deposit => self.deposit(t),
            TransactionType::Withdrawal => self.withdraw(t),
            _ => self.settle(t),
        }
    }

    /// Applies transactions in order. Skipped transactions are reported in order;
    /// the first transaction that stops the run ends it with its error, and what
    /// came before it stays applied.
    pub fn process(&mut self, transactions: &[Transaction]) -> (r: Result<Vec<Rejection>, LedgerError>)
        ensures
            (final(self)@, rejections(r)) == run(old(self)@, transactions@),
            old(self)@.wf() ==> final(self)@.wf(),
    {
        proof {
            if self@.wf() {
                crate::laws::lemma_run_keeps_balance(self@, transactions@);
            }
        }
        let ghost start = self@;
        let mut skips: Vec<Rejection> = Vec::new();
        let mut i: usize = 0;
        while i < transactions.len()
            invariant
                0 <= i <= transactions.len(),
                start == old(self)@,
                start.wf() ==> run(start, transactions@).0.wf(),
                run(start, transactions@.take(i as int)) == (
                    self@,
                    Ok::<Seq<Rejection>, LedgerError>(skips@),
                ),
            decreases transactions.len() - i,
        {
            let t = &transactions[i];
            assert(transactions@.take(i + 1).drop_last() =~= transactions@.take(i as int));
            assert(transactions@.take(i + 1).last() == *t);
            match self.apply(t) {
                Ok(Outcome::Applied) => {},
                Ok(Outcome::Skipped(w)) => {
                    skips.push(Rejection { client: t.client, tx: t.tx, reason: w });
                },
                Err(e) => {
                    assert(run(start, transactions@.take(i + 1)) == (
                        self@,
                        Err::<Seq<Rejection>, LedgerError>(e),
                    ));
                    proof {
                        lemma_run_stops(start, transactions@, i + 1);
                    }

                    return Err(e);
                },
            }
            i += 1;
        }
        assert(transactions@.take(transactions.len() as int) =~= transactions@);
        Ok(skips)
    }

    /// The account of client `id`, if it has one.
    pub fn client(&self, id: u16) -> (r: Option<Client>)
        ensures
            r == if self@.clients.contains_key(id) {
                Some(self@.clients[id])
            } else {
                None
            },
    {
        match self.clients.get(&id) {
            Some(c) => Some(*c),
            None => None,
        }
    }

    /// All accounts in ascending order of client id.
    pub fn snapshot(&self) -> (r: Vec<Client>)
        ensures
            r@ == snapshot_of(self@.clients),
    {
        let mut out: Vec<Client> = Vec::new();
        let mut n: u32 = 0;
        while n < 65536
            invariant
                n <= 65536,
                out@ == listed(self@.clients, n as nat),
            decreases 65536 - n,
        {
            let id = n as u16;
            match self.clients.get(&id) {
                Some(c) => {
                    out.push(*c);
                },
                None => {},
            }
            n += 1;
        }
        out
    }
}

} // verus!
