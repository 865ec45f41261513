//! Accounts and the registry of clients that owns them.

use vstd::prelude::*;
use crate::amount::Amount;
use crate::error::Error;
use crate::model::{AccountView, DepositView, LedgerView};
use std::collections::hash_map::Entry;
use std::collections::HashMap;
use vstd::std_specs::hash::*;

verus! {

/// What a transaction asks for.
#[derive(Clone, Copy, Debug, PartialEq, Eq, Structural)]
pub enum TransactionKind {
    Deposit,
    Withdrawal,
    Dispute,
    Resolve,
    Chargeback,
}

impl TransactionKind {
    /// Whether a transaction of this kind carries an amount: deposits and
    /// withdrawals do, the others do not.
    pub fn has_amount(&self) -> (r: bool)
        ensures
            r == (*self is Deposit || *self is Withdrawal),
    {
        match self {
            TransactionKind::Deposit | TransactionKind::Withdrawal => true,
            _ => false,
        }
    }
}

pub type TransactionId = u32;

pub type ClientId = u16;

/// One transaction, already validated.
#[derive(Clone, Copy, Debug, PartialEq, Eq, Structural)]
pub struct Transaction {
    pub kind: TransactionKind,
    pub id: TransactionId,
    pub amount: Amount,
}

/// An accepted deposit, kept so that it can be disputed later.
struct Deposit {
    transaction_id: TransactionId,
    amount: Amount,
    is_disputed: bool,
}

impl Deposit {
    spec fn record(self) -> DepositView {
        DepositView { amount: self.amount@, disputed: self.is_disputed }
    }
}

/// The ids of `deposits` rise strictly from one entry to the next.
spec fn ascending(deposits: Seq<Deposit>) -> bool {
    forall|i: int, j: int|
        0 <= i < j < deposits.len() ==> deposits[i].transaction_id < deposits[j].transaction_id
}

/// Whether some entry of `deposits` has the id `id`.
spec fn holds_id(deposits: Seq<Deposit>, id: TransactionId) -> bool {
    exists|i: int| 0 <= i < deposits.len() && #[trigger] deposits[i].transaction_id == id
}

/// The position of an entry of `deposits` with the id `id`.
spec fn position_of(deposits: Seq<Deposit>, id: TransactionId) -> int {
    choose|i: int| 0 <= i < deposits.len() && #[trigger] deposits[i].transaction_id == id
}

/// The deposits as a map from id to record.
spec fn by_id(deposits: Seq<Deposit>) -> Map<TransactionId, DepositView> {
    Map::new(
        |id: TransactionId| holds_id(deposits, id),
        |id: TransactionId| deposits[position_of(deposits, id)].record(),
    )
}

/// In an ascending sequence the entry at `i` is the record of its id.
proof fn lemma_by_id_at(deposits: Seq<Deposit>, i: int)
    requires
        ascending(deposits),
        0 <= i < deposits.len(),
    ensures
        by_id(deposits).contains_key(deposits[i].transaction_id),
        by_id(deposits)[deposits[i].transaction_id] == deposits[i].record(),
{
    let id = deposits[i].transaction_id;
    assert(holds_id(deposits, id));
    let p = position_of(deposits, id);
    assert(p == i) by {
        if p < i {
            assert(deposits[p].transaction_id < deposits[i].transaction_id);
        } else if i < p {
            assert(deposits[i].transaction_id < deposits[p].transaction_id);
        }
    }
}

/// Replacing the entry at `i` by one of the same id rewrites that id's
/// record and nothing else.
proof fn lemma_by_id_update(deposits: Seq<Deposit>, i: int, entry: Deposit)
    requires
        ascending(deposits),
        0 <= i < deposits.len(),
        entry.transaction_id == deposits[i].transaction_id,
    ensures
        ascending(deposits.update(i, entry)),
        by_id(deposits.update(i, entry)) == by_id(deposits).insert(
            entry.transaction_id,
            entry.record(),
        ),
{
    let after = deposits.update(i, entry);
    assert(ascending(after)) by {
        assert forall|a: int, b: int| 0 <= a < b < after.len() implies after[a].transaction_id
            < after[b].transaction_id by {
            assert(deposits[a].transaction_id < deposits[b].transaction_id);
        }
    }
    let lhs = by_id(after);
    let rhs = by_id(deposits).insert(entry.transaction_id, entry.record());
    assert forall|id: TransactionId| lhs.contains_key(id) == rhs.contains_key(id) by {
        if holds_id(after, id) {
            let p = position_of(after, id);
            assert(deposits[p].transaction_id == id);
        }
        if holds_id(deposits, id) {
            let p = position_of(deposits, id);
            assert(after[p].transaction_id == id);
        }
    }
    assert forall|id: TransactionId| lhs.contains_key(id) implies lhs[id] == rhs[id] by {
        let p = position_of(after, id);
        lemma_by_id_at(after, p);
        if p != i {
            lemma_by_id_at(deposits, p);
        }
    }
    assert(lhs =~= rhs);
}

/// Putting a new id at its place in the order adds that id's record and
/// nothing else.
proof fn lemma_by_id_insert(deposits: Seq<Deposit>, at: int, entry: Deposit)
    requires
        ascending(deposits),
        0 <= at <= deposits.len(),
        forall|i: int| 0 <= i < at ==> deposits[i].transaction_id < entry.transaction_id,
        forall|i: int| at <= i < deposits.len() ==> entry.transaction_id < deposits[i].transaction_id,
    ensures
        ascending(deposits.insert(at, entry)),
        !by_id(deposits).contains_key(entry.transaction_id),
        by_id(deposits.insert(at, entry)) == by_id(deposits).insert(
            entry.transaction_id,
            entry.record(),
        ),
{
    let after = deposits.insert(at, entry);
    assert(ascending(after)) by {
        assert forall|a: int, b: int| 0 <= a < b < after.len() implies after[a].transaction_id
            < after[b].transaction_id by {
            let a0 = if a < at { a } else { a - 1 };
            let b0 = if b < at { b } else { b - 1 };
            if a != at && b != at {
                assert(deposits[a0].transaction_id < deposits[b0].transaction_id);
            }
        }
    }
    if holds_id(deposits, entry.transaction_id) {
        let p = position_of(deposits, entry.transaction_id);
        assert(deposits[p].transaction_id != entry.transaction_id);
    }
    let lhs = by_id(after);
    let rhs = by_id(deposits).insert(entry.transaction_id, entry.record());
    assert forall|id: TransactionId| lhs.contains_key(id) == rhs.contains_key(id) by {
        if holds_id(after, id) && id != entry.transaction_id {
            let p = position_of(after, id);
            let before = if p < at { p } else { p - 1 };
            assert(deposits[before].transaction_id == id);
        }
        if holds_id(deposits, id) {
            let p = position_of(deposits, id);
            let shifted = if p < at { p } else { p + 1 };
            assert(after[shifted].transaction_id == id);
        }
        if id == entry.transaction_id {
            assert(after[at].transaction_id == id);
        }
    }
    assert forall|id: TransactionId| lhs.contains_key(id) implies lhs[id] == rhs[id] by {
        let p = position_of(after, id);
        lemma_by_id_at(after, p);
        if p != at {
            let before = if p < at { p } else { p - 1 };
            assert(after[p] == deposits[before]);
            lemma_by_id_at(deposits, before);
        }
    }
    assert(lhs =~= rhs);
}

/// What an account holds.
struct Books {
    /// The accepted deposits, in ascending order of transaction id.
    deposits: Vec<Deposit>,
    total: Amount,
    /// May exceed `total`: a deposit can be disputed after part of it was
    /// withdrawn.
    held: Amount,
    frozen: bool,
}

impl Books {
    spec fn view(&self) -> AccountView {
        AccountView {
            deposits: by_id(self.deposits@),
            total: self.total@,
            held: self.held@,
            frozen: self.frozen,
        }
    }

    /// The deposits are kept in ascending order of id.
    spec fn ordered(&self) -> bool {
        ascending(self.deposits@)
    }

    /// What holds of the books of every account: the deposits are in
    /// order, and the state is balanced.
    spec fn wf(&self) -> bool {
        &&& self.ordered()
        &&& self@.balanced()
    }

    /// The books of an account that has seen no transaction.
    fn new() -> (r: Self)
        ensures
            r.wf(),
            r@ == AccountView::empty(),
    {
        let r = Books {
            deposits: Vec::new(),
            total: Amount::zero(),
            held: Amount::zero(),
            frozen: false,
        };
        proof {
            assert(by_id(r.deposits@) =~= Map::empty());
            crate::model::lemma_held_below_empty(crate::model::id_limit());
        }
        r
    }

    /// The funds that may be withdrawn.
    fn available_for_withdrawal(&self) -> (r: Amount)
        ensures
            r@ == self@.available(),
    {
        if self.frozen {
            return Amount::zero();
        }
        match self.total.checked_sub(self.held) {
            Some(rest) => rest,
            None => Amount::zero(),
        }
    }

    /// Looks for the id `tid` among the deposits, by halving: `Ok` with
    /// its position, or `Err` with the position at which it would stand.
    fn search(&self, tid: TransactionId) -> (r: Result<usize, usize>)
        requires
            self.ordered(),
        ensures
            match r {
                Ok(i) => i < self.deposits.len() && self.deposits[i as int].transaction_id == tid,
                Err(at) => {
                    &&& at <= self.deposits.len()
                    &&& forall|i: int| 0 <= i < at ==> self.deposits[i].transaction_id < tid
                    &&& forall|i: int|
                        at <= i < self.deposits.len() ==> tid < self.deposits[i].transaction_id
                },
            },
    {
        let mut lo: usize = 0;
        let mut hi: usize = self.deposits.len();
        while lo < hi
            invariant
                lo <= hi <= self.deposits.len(),
                ascending(self.deposits@),
                forall|i: int| 0 <= i < lo ==> self.deposits[i].transaction_id < tid,
                forall|i: int| hi <= i < self.deposits.len() ==> tid < self.deposits[i].transaction_id,
            decreases hi - lo,
        {
            let mid: usize = lo + (hi - lo) / 2;
            let found: TransactionId = self.deposits[mid].transaction_id;
            if found == tid {
                return Ok(mid);
            } else if found < tid {
                assert forall|i: int| 0 <= i < mid + 1 implies self.deposits[i].transaction_id
                    < tid by {
                    if i < mid {
                        assert(self.deposits[i].transaction_id < self.deposits[mid as int].transaction_id);
                    }
                }
                lo = mid + 1;
            } else {
                assert forall|i: int| mid <= i < self.deposits.len() implies tid
                    < self.deposits[i].transaction_id by {
                    if mid < i {
                        assert(self.deposits[mid as int].transaction_id < self.deposits[i].transaction_id);
                    }
                }
                hi = mid;
            }
        }
        Err(lo)
    }

    /// The position of the deposit with the id `tid`, or
    /// `TransactionNotFound` when the account has none.
    fn find_deposit_id(&self, tid: TransactionId) -> (r: Result<usize, Error>)
        requires
            self.ordered(),
        ensures
            match r {
                Ok(i) => {
                    &&& i < self.deposits.len()
                    &&& self.deposits[i as int].transaction_id == tid
                    &&& self@.deposits.contains_key(tid)
                    &&& self@.deposits[tid] == self.deposits[i as int].record()
                },
                Err(e) => e == Error::TransactionNotFound && !self@.deposits.contains_key(tid),
            },
    {
        match self.search(tid) {
            Ok(i) => {
                proof {
                    lemma_by_id_at(self.deposits@, i as int);
                }
                Ok(i)
            },
            Err(at) => {
                proof {
                    if holds_id(self.deposits@, tid) {
                        let p = position_of(self.deposits@, tid);
                        assert(self.deposits[p].transaction_id == tid);
                    }
                }
                Err(Error::TransactionNotFound)
            },
        }
    }

    /// Writes the dispute flag of the deposit at position `i`.
    fn mark(&mut self, i: usize, disputed: bool)
        requires
            old(self).ordered(),
            i < old(self).deposits.len(),
        ensures
            final(self).ordered(),
            final(self)@ == (AccountView {
                deposits: old(self)@.deposits.insert(
                    old(self).deposits[i as int].transaction_id,
                    DepositView { amount: old(self).deposits[i as int].amount@, disputed },
                ),
                ..old(self)@
            }),
            final(self).total == old(self).total,
            final(self).held == old(self).held,
            final(self).frozen == old(self).frozen,
    {
        let entry = Deposit {
            transaction_id: self.deposits[i].transaction_id,
            amount: self.deposits[i].amount,
            is_disputed: disputed,
        };
        proof {
            lemma_by_id_update(self.deposits@, i as int, entry);
        }
        self.deposits.set(i, entry);
    }

    /// Applies one transaction to the books: see [`Account::process`].
    fn process(&mut self, t: Transaction) -> (r: Result<(), Error>)
        requires
            old(self).wf(),
        ensures
            final(self).wf(),
            match old(self)@.step(t) {
                Ok(next) => r is Ok && final(self)@ == next,
                Err(e) => r == Err::<(), Error>(e) && final(self)@ == old(self)@,
            },
    {
        proof {
            crate::model::lemma_step_keeps_balance(self@, t);
        }
        if self.frozen {
            return Err(Error::AccountFrozen);
        }
        match t.kind {
            TransactionKind::Deposit => {
                let insert_at = match self.search(t.id) {
                    Ok(i) => {
                        proof {
                            lemma_by_id_at(self.deposits@, i as int);
                        }
                        return Err(Error::DuplicateTransactionId);
                    },
                    Err(insert_at) => insert_at,
                };
                let entry = Deposit { transaction_id: t.id, amount: t.amount, is_disputed: false };
                proof {
                    lemma_by_id_insert(self.deposits@, insert_at as int, entry);
                }
                let total = match self.total.checked_add(t.amount) {
                    Some(total) => total,
                    None => {
                        return Err(Error::DepositOverflow);
                    },
                };
                self.total = total;
                self.deposits.insert(insert_at, entry);
                Ok(())
            },
            TransactionKind::Withdrawal => {
                if self.available_for_withdrawal().checked_sub(t.amount).is_none() {
                    return Err(Error::WithdrawOverflow);
                }
                match self.total.checked_sub(t.amount) {
                    Some(total) => {
                        self.total = total;
                    },
                    None => {
                        assert(false);
                    },
                }
                Ok(())
            },
            TransactionKind::Dispute => {
                let did = match self.find_deposit_id(t.id) {
                    Ok(did) => did,
                    Err(e) => {
                        return Err(e);
                    },
                };
                if self.deposits[did].is_disputed {
                    return Err(Error::DuplicateDispute);
                }
                let held = match self.held.checked_add(self.deposits[did].amount) {
                    Some(held) => held,
                    None => {
                        return Err(Error::HeldOverflow);
                    },
                };
                self.held = held;
                self.mark(did, true);
                Ok(())
            },
            TransactionKind::Resolve => {
                let did = match self.find_deposit_id(t.id) {
                    Ok(did) => did,
                    Err(e) => {
                        return Err(e);
                    },
                };
                if !self.deposits[did].is_disputed {
                    return Err(Error::ResolveNotDisputed);
                }
                proof {
                    crate::model::lemma_held_below_covers(
                        self@.deposits,
                        t.id,
                        crate::model::id_limit(),
                    );
                }
                match self.held.checked_sub(self.deposits[did].amount) {
                    Some(held) => {
                        self.held = held;
                    },
                    None => {
                        assert(false);
                    },
                }
                self.mark(did, false);
                Ok(())
            },
            TransactionKind::Chargeback => {
                let did = match self.find_deposit_id(t.id) {
                    Ok(did) => did,
                    Err(e) => {
                        return Err(e);
                    },
                };
                if !self.deposits[did].is_disputed {
                    return Err(Error::ChargebackNotDisputed);
                }
                proof {
                    crate::model::lemma_held_below_covers(
                        self@.deposits,
                        t.id,
                        crate::model::id_limit(),
                    );
                }
                match self.held.checked_sub(self.deposits[did].amount) {
                    Some(held) => {
                        self.held = held;
                    },
                    None => {
                        assert(false);
                    },
                }
                // A chargeback larger than what is left empties the account.
                self.total = match self.total.checked_sub(self.deposits[did].amount) {
                    Some(total) => total,
                    None => Amount::zero(),
                };
                self.frozen = true;
                self.mark(did, false);
                Ok(())
            },
        }
    }
}

/// The ledger of one client.
pub struct Account {
    books: Books,
}

impl View for Account {
    type V = AccountView;

    closed spec fn view(&self) -> AccountView {
        self.books@
    }
}

impl Default for Account {
    /// The account that has seen no transaction.
    fn default() -> (r: Self)
        ensures
            r@ == AccountView::empty(),
            r@.balanced(),
    {
        Account { books: Books::new() }
    }
}

impl Account {
    /// What holds of every account at all times: its deposits are in
    /// order of id, and its state is balanced.
    #[verifier::type_invariant]
    spec fn wf(self) -> bool {
        self.books.wf()
    }

    /// The funds that may be withdrawn.
    pub fn available_for_withdrawal(&self) -> (r: Amount)
        ensures
            r@ == self@.available(),
    {
        self.books.available_for_withdrawal()
    }

    /// The balance, funds under dispute included.
    pub fn total(&self) -> (r: Amount)
        ensures
            r@ == self@.total,
    {
        self.books.total
    }

    /// The funds under dispute, which are the sum of the deposits under
    /// dispute.
    pub fn held(&self) -> (r: Amount)
        ensures
            r@ == self@.held,
            self@.balanced(),
    {
        proof {
            use_type_invariant(&*self);
        }
        self.books.held
    }

    /// Whether a chargeback has closed the account.
    pub fn is_frozen(&self) -> (r: bool)
        ensures
            r == self@.frozen,
    {
        self.books.frozen
    }

    /// Applies one transaction. On `Ok` the account has taken the step
    /// that the model gives for `t`; on `Err` it is as it was before the
    /// call, and the error is the one the model names. Either way the
    /// account is balanced afterwards.
    pub fn process(&mut self, t: Transaction) -> (r: Result<(), Error>)
        ensures
            match old(self)@.step(t) {
                Ok(next) => r is Ok && final(self)@ == next,
                Err(e) => r == Err::<(), Error>(e) && final(self)@ == old(self)@,
            },
            r is Err ==> !r.unwrap_err().is_csv(),
            final(self)@.balanced(),
    {
        proof {
            use_type_invariant(&*self);
        }
        // The books leave the account while they change, so that the
        // account is never seen out of balance.
        let mut books = Books::new();
        core::mem::swap(&mut self.books, &mut books);
        let r = books.process(t);
        self.books = books;
        r
    }
}

/// The accounts of all clients.
pub struct ClientsDatabase {
    clients: HashMap<ClientId, Account>,
}

impl View for ClientsDatabase {
    type V = LedgerView;

    closed spec fn view(&self) -> LedgerView {
        Map::new(
            |client: ClientId| self.clients@.contains_key(client),
            |client: ClientId| self.clients@[client]@,
        )
    }
}

impl Default for ClientsDatabase {
    /// The registry without any account.
    fn default() -> (r: Self)
        ensures
            r@ == LedgerView::empty(),
    {
        let r = ClientsDatabase { clients: HashMap::new() };
        assert(r@ =~= LedgerView::empty());
        r
    }
}

impl ClientsDatabase {
    /// Hands `t` to the account of `client_id`. A client without an
    /// account gets one by a deposit; any other kind is refused with
    /// `AccountNotFound` and creates nothing.
    pub fn process_transaction(&mut self, client_id: ClientId, t: Transaction) -> (r: Result<
        (),
        Error,
    >)
        ensures
            match crate::model::route(old(self)@, client_id, t) {
                Ok(next) => r is Ok && final(self)@ == next,
                Err(e) => r == Err::<(), Error>(e) && final(self)@ == old(self)@,
            },
            r is Err ==> !r.unwrap_err().is_csv(),
    {
        broadcast use group_hash_axioms;

        let r = match self.clients.entry(client_id) {
            Entry::Occupied(mut occupied) => occupied.get_mut().process(t),
            Entry::Vacant(vacant) => {
                if !matches!(t.kind, TransactionKind::Deposit) {
                    Err(Error::AccountNotFound)
                } else {
                    proof {
                        crate::model::lemma_first_deposit(t);
                    }
                    vacant.insert(Account::default()).process(t)
                }
            },
        };
        proof {
            match crate::model::route(old(self)@, client_id, t) {
                Ok(next) => {
                    assert(self@ =~= next);
                },
                Err(e) => {
                    assert(self@ =~= old(self)@);
                },
            }
        }
        r
    }

    /// Every client with its account, each client once, in no particular
    /// order. Every account is balanced.
    pub fn iter(&self) -> (r: Vec<(ClientId, &Account)>)
        ensures
            r.len() == self@.dom().len(),
            forall|i: int|
                0 <= i < r.len() ==> {
                    &&& self@.contains_key(#[trigger] r[i].0)
                    &&& r[i].1@ == self@[r[i].0]
                    &&& r[i].1@.balanced()
                },
            forall|i: int, j: int| 0 <= i < j < r.len() ==> r[i].0 != r[j].0,
            forall|client: ClientId|
                self@.contains_key(client) ==> exists|i: int|
                    0 <= i < r.len() && #[trigger] r[i].0 == client,
    {
        broadcast use group_hash_axioms;

        let mut out: Vec<(ClientId, &Account)> = Vec::new();
        for pair in it: self.clients.iter()
            invariant
                out.len() == it.index(),
                it.seq().no_duplicates(),
                forall|j: int|
                    0 <= j < it.seq().len() ==> self.clients@.contains_key(*it.seq()[j].0)
                        && self.clients@[*it.seq()[j].0] == *it.seq()[j].1,
                forall|j: int|
                    0 <= j < out.len() ==> out[j].0 == *it.seq()[j].0 && out[j].1 == it.seq()[j].1,
                forall|i: int, j: int| 0 <= i < j < out.len() ==> out[i].0 != out[j].0,
                forall|j: int| 0 <= j < out.len() ==> out[j].1@.balanced(),
        {
            proof {
                use_type_invariant(pair.1);
                let at = out.len() as int;
                assert forall|j: int| 0 <= j < at implies out[j].0 != *pair.0 by {
                    if out[j].0 == *pair.0 {
                        assert(it.seq()[j] == it.seq()[at]);
                    }
                }
            }
            out.push((*pair.0, pair.1));
        }
        proof {
            assert(self@.dom() =~= self.clients@.dom());
        }
        out
    }
}

} // verus!
