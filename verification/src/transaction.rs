//! The normalized, ledger-agnostic transaction model: the shared vocabulary
//! of the two ledger adapters and of the reconciliation engine.

use vstd::prelude::*;

verus! {

/// A transaction normalized from either ledger.
///
/// `amount_in_cents` is the amount in the smallest currency unit, positive
/// for inflows and negative for outflows. `date` is a `YYYY-MM-DD` calendar
/// date. `import_id`, when present on a budgeting-side transaction, is the id
/// of the bank transaction it was imported from; it is set at creation time
/// and never attached afterwards.
#[derive(Debug, PartialEq, Eq, Hash)]
pub struct Transaction {
    pub id: String,
    pub amount_in_cents: i32,
    pub date: String,
    pub label: String,
    pub import_id: Option<String>,
}

/// The label standing in when a ledger reports no payee.
pub open spec fn spec_no_payee() -> Seq<char> {
    "<not set>"@
}

/// The payee a transaction names, or `None` when its label is the
/// placeholder for a missing one.
pub open spec fn spec_payee_name(t: Transaction) -> Option<String> {
    if t.label@ == spec_no_payee() {
        None
    } else {
        Some(t.label)
    }
}

/// The placeholder label for a transaction without a payee.
pub fn no_payee_label() -> (r: String)
    ensures
        r@ == spec_no_payee(),
{
    "<not set>".to_owned()
}

/// The equivalence key used for matching when no reference exists.
pub open spec fn key_of(t: Transaction) -> (int, Seq<char>) {
    (t.amount_in_cents as int, t.date@)
}

/// The reference a budgeting-side transaction carries, as a sequence of
/// characters, or `None` when it carries none.
pub open spec fn import_view(t: Transaction) -> Option<Seq<char>> {
    match t.import_id {
        Some(ii) => Some(ii@),
        None => None,
    }
}

/// `s` and `d` agree on the equivalence key, amount and date.
pub open spec fn spec_same_amount_and_date(a: Transaction, b: Transaction) -> bool {
    key_of(a) == key_of(b)
}

/// `d` carries a reference naming `s`: it was imported from `s`.
pub open spec fn spec_imported_as(s: Transaction, d: Transaction) -> bool {
    import_view(d) == Some(s.id@)
}

impl Transaction {
    /// True iff the two transactions agree on amount and date.
    pub fn same_amount_and_date(&self, other: &Self) -> (r: bool)
        ensures
            r == spec_same_amount_and_date(*self, *other),
    {
        self.amount_in_cents == other.amount_in_cents && self.date == other.date
    }

    /// The payee this transaction names, or `None` when its label is the
    /// placeholder for a missing one.
    pub fn payee_name(&self) -> (r: Option<String>)
        ensures
            r == spec_payee_name(*self),
    {
        if self.label == no_payee_label() {
            None
        } else {
            Some(self.label.clone())
        }
    }

    /// True iff `other` carries a reference naming `self`.
    pub fn imported_as(&self, other: &Self) -> (r: bool)
        ensures
            r == spec_imported_as(*self, *other),
    {
        match &other.import_id {
            Some(ii) => *ii == self.id,
            None => false,
        }
    }
}

impl Clone for Transaction {
    fn clone(&self) -> (r: Self)
        ensures
            r == *self,
    {
        Transaction {
            id: self.id.clone(),
            amount_in_cents: self.amount_in_cents,
            date: self.date.clone(),
            label: self.label.clone(),
            import_id: match &self.import_id {
                Some(ii) => Some(ii.clone()),
                None => None,
            },
        }
    }
}

} // verus!
