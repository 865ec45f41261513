//! Reading one row of input: kind, client, transaction id and amount,
//! separated by commas.

use vstd::prelude::*;
use vstd::string::*;
use crate::accounts::{ClientId, Transaction, TransactionId, TransactionKind};
use crate::amount::{parse_spec, Amount};
use crate::error::Error;
use crate::outside::{atoi_spec, atoi_u16, atoi_u32, memchr_iter};
use crate::text::{as_text, column, column_at, column_count, trim, trim_ascii, COMMA};

verus! {

/// A transaction and the client it is for.
#[derive(Debug, PartialEq, Eq, Structural)]
pub struct Row {
    pub client_id: ClientId,
    pub transaction: Transaction,
}

/// What a row says.
pub struct RowView {
    pub client_id: ClientId,
    pub kind: TransactionKind,
    pub id: TransactionId,
    /// The amount in units.
    pub amount: nat,
}

impl View for Row {
    type V = RowView;

    open spec fn view(&self) -> RowView {
        RowView {
            client_id: self.client_id,
            kind: self.transaction.kind,
            id: self.transaction.id,
            amount: self.transaction.amount@,
        }
    }
}

/// The kind that `token` names, if it names one: the token is exactly one
/// of the five lower-case words.
pub open spec fn kind_named(token: Seq<u8>) -> Option<TransactionKind> {
    if as_text(token) == "deposit"@ {
        Some(TransactionKind::Deposit)
    } else if as_text(token) == "withdrawal"@ {
        Some(TransactionKind::Withdrawal)
    } else if as_text(token) == "dispute"@ {
        Some(TransactionKind::Dispute)
    } else if as_text(token) == "resolve"@ {
        Some(TransactionKind::Resolve)
    } else if as_text(token) == "chargeback"@ {
        Some(TransactionKind::Chargeback)
    } else {
        None
    }
}

/// What the row `line` says, or why it is refused. The first four columns
/// count, each without the white space around it: a kind, a client, a
/// transaction id and an amount. A deposit and a withdrawal need a valid
/// amount; the other kinds need the amount column to be empty. Faults are
/// reported in the order of the columns, a missing column before all.
pub open spec fn row_spec(line: Seq<u8>) -> Result<RowView, Error> {
    let kind = kind_named(trim(column(line, 0)));
    let client = atoi_spec(trim(column(line, 1)), u16::MAX as nat);
    let id = atoi_spec(trim(column(line, 2)), u32::MAX as nat);
    let amount = trim(column(line, 3));
    if column_count(line) < 4 {
        Err(Error::CsvMissingColumn)
    } else if kind is None {
        Err(Error::CsvUnknownTransactionType)
    } else if client is None {
        Err(Error::CsvInvalidClientId)
    } else if id is None {
        Err(Error::CsvInvalidTxId)
    } else if kind.unwrap() is Deposit || kind.unwrap() is Withdrawal {
        match parse_spec(amount) {
            Some(units) => Ok(
                RowView {
                    client_id: client.unwrap() as ClientId,
                    kind: kind.unwrap(),
                    id: id.unwrap() as TransactionId,
                    amount: units,
                },
            ),
            None => Err(Error::CsvInvalidAmount),
        }
    } else if amount.len() > 0 {
        Err(Error::CsvUnexpectedAmount)
    } else {
        Ok(
            RowView {
                client_id: client.unwrap() as ClientId,
                kind: kind.unwrap(),
                id: id.unwrap() as TransactionId,
                amount: 0,
            },
        )
    }
}

/// Whether the bytes of `token` spell the ASCII word `word`.
fn spells(token: &[u8], word: &str) -> (r: bool)
    requires
        is_ascii(word),
    ensures
        r == (as_text(token@) == word@),
{
    broadcast use is_ascii_spec_bytes;

    let letters = word.as_bytes();
    if token.len() != letters.len() {
        return false;
    }
    let mut i: usize = 0;
    while i < token.len()
        invariant
            i <= token.len(),
            is_ascii(word),
            token.len() == letters.len(),
            letters@ == word.spec_bytes(),
            forall|j: int| 0 <= j < i ==> token[j] == letters[j],
        decreases token.len() - i,
    {
        if token[i] != letters[i] {
            assert(as_text(token@)[i as int] != word@[i as int]);
            return false;
        }
        i = i + 1;
    }
    assert(as_text(token@) =~= word@);
    true
}

/// The kind that `token` names.
fn kind_of(token: &[u8]) -> (r: Option<TransactionKind>)
    ensures
        r == kind_named(token@),
{
    proof {
        reveal_strlit("deposit");
        reveal_strlit("withdrawal");
        reveal_strlit("dispute");
        reveal_strlit("resolve");
        reveal_strlit("chargeback");
    }
    if spells(token, "deposit") {
        Some(TransactionKind::Deposit)
    } else if spells(token, "withdrawal") {
        Some(TransactionKind::Withdrawal)
    } else if spells(token, "dispute") {
        Some(TransactionKind::Dispute)
    } else if spells(token, "resolve") {
        Some(TransactionKind::Resolve)
    } else if spells(token, "chargeback") {
        Some(TransactionKind::Chargeback)
    } else {
        None
    }
}

impl Row {
    /// Reads a row of the form `type, client, tx, amount`.
    pub fn parse(buf: &[u8]) -> (r: Result<Self, Error>)
        ensures
            match row_spec(buf@) {
                Ok(row) => r is Ok && r.unwrap()@ == row,
                Err(e) => r == Err::<Row, Error>(e),
            },
            r is Err ==> r.unwrap_err().is_csv(),
    {
        let commas = memchr_iter(COMMA, buf);
        if commas.len() < 3 {
            return Err(Error::CsvMissingColumn);
        }
        let ttype = trim_ascii(column_at(buf, &commas, 0));
        let client_id = trim_ascii(column_at(buf, &commas, 1));
        let tx_id = trim_ascii(column_at(buf, &commas, 2));
        let amount = trim_ascii(column_at(buf, &commas, 3));

        let ttype = match kind_of(ttype) {
            Some(kind) => kind,
            None => {
                return Err(Error::CsvUnknownTransactionType);
            },
        };
        let client_id: ClientId = match atoi_u16(client_id) {
            Some(client_id) => client_id,
            None => {
                return Err(Error::CsvInvalidClientId);
            },
        };
        let tx_id: TransactionId = match atoi_u32(tx_id) {
            Some(tx_id) => tx_id,
            None => {
                return Err(Error::CsvInvalidTxId);
            },
        };
        let amount = if ttype.has_amount() {
            match Amount::parse(amount) {
                Some(amount) => amount,
                None => {
                    return Err(Error::CsvInvalidAmount);
                },
            }
        } else if amount.len() != 0 {
            return Err(Error::CsvUnexpectedAmount);
        } else {
            Amount::zero()
        };
        Ok(Row { client_id, transaction: Transaction { kind: ttype, id: tx_id, amount } })
    }
}

} // verus!
