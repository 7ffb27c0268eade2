//! The budgeting ledger's side of the model: its client configuration, its
//! native transaction record, the normalization of that record, and the
//! records that its create/update write operations carry.

use vstd::prelude::*;
use crate::transaction;

verus! {

/// Configuration of the YNAB client: the token and the budget and account
/// the run works on. The HTTP calls themselves live with the caller.
pub struct Ynab {
    pub personal_token: String,
    pub budget_id: String,
    pub account_id: String,
}

/// A transaction as the budgeting ledger reports it. `amount_in_milliunits`
/// is a thousandth of the currency unit: `1000` is one euro of deposit,
/// `-1000` one euro of spending.
#[derive(Debug)]
pub struct Transaction {
    pub id: String,
    pub amount_in_milliunits: i32,
    pub date: String,
    pub payee_name: Option<String>,
    pub import_id: Option<String>,
}

/// Milliunits reduced to cents: the last digit dropped, toward zero.
pub open spec fn milli_to_cents(m: int) -> int {
    if m >= 0 {
        m / 10
    } else {
        -((-m) / 10)
    }
}

impl Transaction {
    /// Normalize a budgeting-ledger transaction: milliunits become cents, a
    /// missing payee becomes the placeholder label.
    pub fn normalized(self) -> (r: transaction::Transaction)
        requires
            self.amount_in_milliunits > i32::MIN,
        ensures
            r.id == self.id,
            r.amount_in_cents as int == milli_to_cents(self.amount_in_milliunits as int),
            r.date == self.date,
            match self.payee_name {
                Some(p) => r.label == p,
                None => r.label@ == transaction::spec_no_payee(),
            },
            r.import_id == self.import_id,
    {
        let cents: i32 = if self.amount_in_milliunits >= 0 {
            self.amount_in_milliunits / 10
        } else {
            -((-self.amount_in_milliunits) / 10)
        };
        transaction::Transaction {
            id: self.id,
            amount_in_cents: cents,
            date: self.date,
            label: match self.payee_name {
                Some(p) => p,
                None => transaction::no_payee_label(),
            },
            import_id: self.import_id,
        }
    }
}

/// One write operation against the budgeting ledger: with `id` set it
/// updates that transaction, without it creates a new one. `import_id`
/// carries the bank transaction's id as the external reference.
#[derive(Debug)]
pub struct SaveTransaction {
    pub id: Option<String>,
    pub account_id: String,
    pub amount_in_milliunits: i32,
    pub date: String,
    pub import_id: String,
    pub payee_name: Option<String>,
}

/// The batch of write operations a create or update call carries.
#[derive(Debug)]
pub struct SaveTransactionsWrapper {
    pub transactions: Vec<SaveTransaction>,
}

/// The body of a create or update request.
#[derive(Debug)]
pub struct SaveTransactionsRequest {
    pub data: SaveTransactionsWrapper,
}

} // verus!
