//! The mathematical model of an account: what state it holds and what each
//! transaction does to it.

use vstd::prelude::*;
use crate::accounts::{ClientId, Transaction, TransactionId, TransactionKind};
use crate::error::Error;

verus! {

/// The largest number of units an amount can hold.
pub open spec fn max_units() -> nat {
    u64::MAX as nat
}

/// One past the largest transaction id.
pub open spec fn id_limit() -> nat {
    0x1_0000_0000
}

/// What an account remembers of one accepted deposit.
pub struct DepositView {
    /// The deposited amount, in units.
    pub amount: nat,
    /// Whether the deposit is under dispute right now.
    pub disputed: bool,
}

/// The state of one account.
pub struct AccountView {
    /// Every accepted deposit, by transaction id.
    pub deposits: Map<TransactionId, DepositView>,
    /// The balance, funds under dispute included.
    pub total: nat,
    /// The funds under dispute.
    pub held: nat,
    /// Whether a chargeback has closed the account.
    pub frozen: bool,
}

/// What the deposit `id` adds to the funds under dispute: its amount while
/// it is disputed, nothing otherwise.
pub open spec fn held_share(deposits: Map<TransactionId, DepositView>, id: TransactionId) -> nat {
    if deposits.contains_key(id) && deposits[id].disputed {
        deposits[id].amount
    } else {
        0
    }
}

/// The amounts of the disputed deposits whose id is below `bound`, summed.
pub open spec fn held_below(deposits: Map<TransactionId, DepositView>, bound: nat) -> nat
    decreases bound,
{
    if bound == 0 {
        0
    } else {
        held_below(deposits, (bound - 1) as nat) + held_share(
            deposits,
            (bound - 1) as TransactionId,
        )
    }
}

/// The amounts of all disputed deposits, summed.
pub open spec fn disputed_sum(deposits: Map<TransactionId, DepositView>) -> nat {
    held_below(deposits, id_limit())
}

impl AccountView {
    /// The account that has seen no transaction.
    pub open spec fn empty() -> AccountView {
        AccountView { deposits: Map::empty(), total: 0, held: 0, frozen: false }
    }

    /// The funds that may be withdrawn: nothing once frozen, else `total`
    /// less `held`, and nothing where `held` is the larger.
    pub open spec fn available(self) -> nat {
        if self.frozen || self.total < self.held {
            0
        } else {
            (self.total - self.held) as nat
        }
    }

    /// The invariant of every account: `total` and `held` fit in 64 bits,
    /// and `held` is the sum of the deposits under dispute.
    pub open spec fn balanced(self) -> bool {
        &&& self.total <= max_units()
        &&& self.held <= max_units()
        &&& self.held == disputed_sum(self.deposits)
    }

    /// The state after `t`, or the reason why `t` is refused. A refused
    /// transaction leaves the state as it was.
    pub open spec fn step(self, t: Transaction) -> Result<AccountView, Error> {
        if self.frozen {
            Err(Error::AccountFrozen)
        } else {
            match t.kind {
                TransactionKind::Deposit => self.deposit(t.id, t.amount@),
                TransactionKind::Withdrawal => self.withdraw(t.amount@),
                TransactionKind::Dispute => self.dispute(t.id),
                TransactionKind::Resolve => self.resolve(t.id),
                TransactionKind::Chargeback => self.chargeback(t.id),
            }
        }
    }

    /// A deposit of `amount` under the id `id`, on an account that is not
    /// frozen.
    pub open spec fn deposit(self, id: TransactionId, amount: nat) -> Result<AccountView, Error> {
        if self.deposits.contains_key(id) {
            Err(Error::DuplicateTransactionId)
        } else if self.total + amount > max_units() {
            Err(Error::DepositOverflow)
        } else {
            Ok(
                AccountView {
                    deposits: self.deposits.insert(id, DepositView { amount, disputed: false }),
                    total: self.total + amount,
                    ..self
                },
            )
        }
    }

    /// A withdrawal of `amount`, on an account that is not frozen.
    pub open spec fn withdraw(self, amount: nat) -> Result<AccountView, Error> {
        if amount > self.available() {
            Err(Error::WithdrawOverflow)
        } else {
            Ok(AccountView { total: (self.total - amount) as nat, ..self })
        }
    }

    /// The opening of a dispute on the deposit `id`, on an account that is
    /// not frozen.
    pub open spec fn dispute(self, id: TransactionId) -> Result<AccountView, Error> {
        if !self.deposits.contains_key(id) {
            Err(Error::TransactionNotFound)
        } else if self.deposits[id].disputed {
            Err(Error::DuplicateDispute)
        } else if self.held + self.deposits[id].amount > max_units() {
            Err(Error::HeldOverflow)
        } else {
            Ok(
                AccountView {
                    deposits: self.deposits.insert(
                        id,
                        DepositView { disputed: true, ..self.deposits[id] },
                    ),
                    held: self.held + self.deposits[id].amount,
                    ..self
                },
            )
        }
    }

    /// The release of the dispute on the deposit `id`, on an account that
    /// is not frozen.
    pub open spec fn resolve(self, id: TransactionId) -> Result<AccountView, Error> {
        if !self.deposits.contains_key(id) {
            Err(Error::TransactionNotFound)
        } else if !self.deposits[id].disputed {
            Err(Error::ResolveNotDisputed)
        } else {
            Ok(
                AccountView {
                    deposits: self.deposits.insert(
                        id,
                        DepositView { disputed: false, ..self.deposits[id] },
                    ),
                    held: (self.held - self.deposits[id].amount) as nat,
                    ..self
                },
            )
        }
    }

    /// The reversal of the disputed deposit `id`, on an account that is not
    /// frozen: the hold is released, the amount leaves `total` (which stops
    /// at zero), and the account is frozen.
    pub open spec fn chargeback(self, id: TransactionId) -> Result<AccountView, Error> {
        if !self.deposits.contains_key(id) {
            Err(Error::TransactionNotFound)
        } else if !self.deposits[id].disputed {
            Err(Error::ChargebackNotDisputed)
        } else {
            Ok(
                AccountView {
                    deposits: self.deposits.insert(
                        id,
                        DepositView { disputed: false, ..self.deposits[id] },
                    ),
                    held: (self.held - self.deposits[id].amount) as nat,
                    total: if self.total >= self.deposits[id].amount {
                        (self.total - self.deposits[id].amount) as nat
                    } else {
                        0
                    },
                    frozen: true,
                },
            )
        }
    }
}

/// The state of the registry: the accounts that exist, by client.
pub type LedgerView = Map<ClientId, AccountView>;

/// The account that a first deposit opens.
pub open spec fn opened_with(id: TransactionId, amount: nat) -> AccountView {
    AccountView {
        deposits: Map::empty().insert(id, DepositView { amount, disputed: false }),
        total: amount,
        held: 0,
        frozen: false,
    }
}

/// The registry after `t` for `client`, or the reason why `t` is refused.
/// A known client's account takes the step. An unknown client gets an
/// account by a deposit and by nothing else. A refused transaction leaves
/// the registry as it was.
pub open spec fn route(pre: LedgerView, client: ClientId, t: Transaction) -> Result<
    LedgerView,
    Error,
> {
    if pre.contains_key(client) {
        match pre[client].step(t) {
            Ok(next) => Ok(pre.insert(client, next)),
            Err(e) => Err(e),
        }
    } else if t.kind is Deposit {
        Ok(pre.insert(client, opened_with(t.id, t.amount@)))
    } else {
        Err(Error::AccountNotFound)
    }
}

/// A deposit into an account that has seen nothing is never refused, and
/// leaves the account that `opened_with` describes.
pub proof fn lemma_first_deposit(t: Transaction)
    requires
        t.kind is Deposit,
    ensures
        AccountView::empty().step(t) == Ok::<AccountView, Error>(opened_with(t.id, t.amount@)),
{
}

/// No deposit, no hold.
pub proof fn lemma_held_below_empty(bound: nat)
    ensures
        held_below(Map::<TransactionId, DepositView>::empty(), bound) == 0,
    decreases bound,
{
    if bound > 0 {
        lemma_held_below_empty((bound - 1) as nat);
    }
}

/// Writing the record of one deposit changes the sum below `bound` by the
/// change of that deposit's share, if its id is below `bound`, and not at
/// all otherwise.
pub proof fn lemma_held_below_insert(
    deposits: Map<TransactionId, DepositView>,
    id: TransactionId,
    record: DepositView,
    bound: nat,
)
    requires
        bound <= id_limit(),
    ensures
        held_below(deposits.insert(id, record), bound) + (if id < bound {
            held_share(deposits, id)
        } else {
            0
        }) == held_below(deposits, bound) + (if id < bound && record.disputed {
            record.amount
        } else {
            0
        }),
    decreases bound,
{
    if bound > 0 {
        lemma_held_below_insert(deposits, id, record, (bound - 1) as nat);
    }
}

/// A deposit under dispute is covered by the sum of the disputed deposits.
pub proof fn lemma_held_below_covers(
    deposits: Map<TransactionId, DepositView>,
    id: TransactionId,
    bound: nat,
)
    requires
        id < bound,
    ensures
        held_share(deposits, id) <= held_below(deposits, bound),
    decreases bound,
{
    if id < bound - 1 {
        lemma_held_below_covers(deposits, id, (bound - 1) as nat);
    }
}

/// Every transaction keeps the invariant: from a balanced state `step`
/// leads to a balanced state.
pub proof fn lemma_step_keeps_balance(pre: AccountView, t: Transaction)
    requires
        pre.balanced(),
    ensures
        pre.step(t) is Ok ==> pre.step(t).unwrap().balanced(),
{
    if pre.step(t) is Ok {
        let post = pre.step(t).unwrap();
        match t.kind {
            TransactionKind::Deposit => {
                lemma_held_below_insert(
                    pre.deposits,
                    t.id,
                    DepositView { amount: t.amount@, disputed: false },
                    id_limit(),
                );
            },
            TransactionKind::Withdrawal => {},
            TransactionKind::Dispute => {
                lemma_held_below_insert(
                    pre.deposits,
                    t.id,
                    DepositView { disputed: true, ..pre.deposits[t.id] },
                    id_limit(),
                );
            },
            TransactionKind::Resolve => {
                lemma_held_below_covers(pre.deposits, t.id, id_limit());
                lemma_held_below_insert(
                    pre.deposits,
                    t.id,
                    DepositView { disputed: false, ..pre.deposits[t.id] },
                    id_limit(),
                );
            },
            TransactionKind::Chargeback => {
                lemma_held_below_covers(pre.deposits, t.id, id_limit());
                lemma_held_below_insert(
                    pre.deposits,
                    t.id,
                    DepositView { disputed: false, ..pre.deposits[t.id] },
                    id_limit(),
                );
            },
        }
    }
}

/// `total` less `held` less `amount`, and zero where that is negative.
pub open spec fn floored(total: nat, held: nat, amount: nat) -> nat {
    if total >= held + amount {
        (total - held - amount) as nat
    } else {
        0
    }
}

/// The state after the transactions `ts`, taken in order; a refused one is
/// passed over.
pub open spec fn after_all(pre: AccountView, ts: Seq<Transaction>) -> AccountView
    decreases ts.len(),
{
    if ts.len() == 0 {
        pre
    } else {
        let before = after_all(pre, ts.drop_last());
        match before.step(ts.last()) {
            Ok(next) => next,
            Err(_) => before,
        }
    }
}

/// A dispute that is then resolved leaves the account exactly as it was
/// before the dispute: `held`, `total` and what is available are restored.
/// `total` is the same in between as well; what is available in between is
/// less by the disputed amount, and zero where that would be negative.
pub proof fn lemma_dispute_then_resolve(pre: AccountView, dispute: Transaction, resolve: Transaction)
    requires
        dispute.kind is Dispute,
        resolve.kind is Resolve,
        resolve.id == dispute.id,
        pre.step(dispute) is Ok,
    ensures
        pre.step(dispute).unwrap().step(resolve) == Ok::<AccountView, Error>(pre),
        pre.step(dispute).unwrap().total == pre.total,
        pre.step(dispute).unwrap().held == pre.held + pre.deposits[dispute.id].amount,
        pre.step(dispute).unwrap().available() == floored(
            pre.total,
            pre.held,
            pre.deposits[dispute.id].amount,
        ),
{
    let mid = pre.step(dispute).unwrap();
    let post = mid.step(resolve).unwrap();
    assert(post.deposits =~= pre.deposits);
}

/// A deposit under dispute cannot be disputed again: on an account that is
/// not frozen the second dispute is refused with `DuplicateDispute`.
pub proof fn lemma_no_second_dispute(pre: AccountView, dispute: Transaction)
    requires
        dispute.kind is Dispute,
        !pre.frozen,
        pre.deposits.contains_key(dispute.id),
        pre.deposits[dispute.id].disputed,
    ensures
        pre.step(dispute) == Err::<AccountView, Error>(Error::DuplicateDispute),
{
}

/// A dispute that was accepted cannot be repeated: the same dispute, sent
/// again, is refused with `DuplicateDispute`.
pub proof fn lemma_dispute_twice(pre: AccountView, first: Transaction, second: Transaction)
    requires
        first.kind is Dispute,
        second.kind is Dispute,
        second.id == first.id,
        pre.step(first) is Ok,
    ensures
        pre.step(first).unwrap().step(second) == Err::<AccountView, Error>(
            Error::DuplicateDispute,
        ),
{
}

/// An accepted chargeback freezes the account, releases the hold of its
/// deposit, and takes the deposit's amount out of `total`; where the amount
/// exceeds `total`, `total` becomes zero.
pub proof fn lemma_chargeback(pre: AccountView, chargeback: Transaction)
    requires
        chargeback.kind is Chargeback,
        pre.step(chargeback) is Ok,
    ensures
        pre.step(chargeback).unwrap().frozen,
        pre.step(chargeback).unwrap().available() == 0,
        pre.deposits[chargeback.id].amount > pre.total ==> pre.step(chargeback).unwrap().total
            == 0,
        pre.deposits[chargeback.id].amount <= pre.total ==> pre.step(chargeback).unwrap().total
            == pre.total - pre.deposits[chargeback.id].amount,
{
}

/// A frozen account refuses every transaction with `AccountFrozen`.
pub proof fn lemma_frozen_refuses(pre: AccountView, t: Transaction)
    requires
        pre.frozen,
    ensures
        pre.step(t) == Err::<AccountView, Error>(Error::AccountFrozen),
{
}

/// Nothing changes a frozen account: whatever transactions follow, its
/// state stays as it is.
pub proof fn lemma_frozen_for_good(pre: AccountView, ts: Seq<Transaction>)
    requires
        pre.frozen,
    ensures
        after_all(pre, ts) == pre,
    decreases ts.len(),
{
    if ts.len() > 0 {
        lemma_frozen_for_good(pre, ts.drop_last());
    }
}

/// On an account that is not frozen, a withdrawal is refused with
/// `WithdrawOverflow` exactly when it asks for more than is available, that
/// is for more than `total` less `held`, or for anything where `held` is
/// the larger. An accepted withdrawal takes its amount out of `total` and
/// leaves the rest alone.
pub proof fn lemma_withdrawal(pre: AccountView, withdrawal: Transaction)
    requires
        withdrawal.kind is Withdrawal,
        !pre.frozen,
    ensures
        pre.available() == floored(pre.total, pre.held, 0),
        withdrawal.amount@ > pre.available() <==> pre.step(withdrawal) == Err::<
            AccountView,
            Error,
        >(Error::WithdrawOverflow),
        withdrawal.amount@ <= pre.available() ==> pre.step(withdrawal) == Ok::<
            AccountView,
            Error,
        >(AccountView { total: (pre.total - withdrawal.amount@) as nat, ..pre }),
{
}

/// A client without an account gets none by anything but a deposit: every
/// other kind is refused with `AccountNotFound`.
pub proof fn lemma_unknown_client(pre: LedgerView, client: ClientId, t: Transaction)
    requires
        !pre.contains_key(client),
        !(t.kind is Deposit),
    ensures
        route(pre, client, t) == Err::<LedgerView, Error>(Error::AccountNotFound),
{
}

/// A transaction for one client leaves the accounts of all others alone.
pub proof fn lemma_route_is_local(pre: LedgerView, client: ClientId, t: Transaction, other: ClientId)
    requires
        other != client,
        route(pre, client, t) is Ok,
    ensures
        route(pre, client, t).unwrap().contains_key(other) == pre.contains_key(other),
        pre.contains_key(other) ==> route(pre, client, t).unwrap()[other] == pre[other],
{
}

} // verus!
