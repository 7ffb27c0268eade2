//! The bank ledger's side of the model: normalization of a bank transaction
//! into the shared transaction model. Fetching and authentication live with
//! the caller; the only outside work here is rendering a timestamp as a
//! calendar date.

use vstd::prelude::*;
use crate::transaction;

verus! {

/// The `YYYY-MM-DD` rendering of the calendar day, in UTC, that holds the
/// given unix timestamp in seconds.
pub uninterp spec fn utc_date_of(secs: int) -> Seq<char>;

/// Relies on chrono's `DateTime::<Utc>::from_timestamp` and its `%Y-%m-%d`
/// formatting: the calendar day of a unix timestamp, a function of the
/// timestamp alone. `from_timestamp` returns a date for every number of
/// seconds the range here admits.
#[verifier::external_body]
fn utc_date_string(secs: i64) -> (r: String)
    requires
        0 <= secs < 100_000_000_000,
    ensures
        r@ == utc_date_of(secs as int),
{
    let date_time = chrono::DateTime::<chrono::Utc>::from_timestamp(secs, 0).unwrap();
    date_time.format("%Y-%m-%d").to_string()
}

/// Normalize a bank transaction from the fields the bank reports: the
/// timestamp (in milliseconds) becomes the `YYYY-MM-DD` day holding it, the
/// merchant name or, failing that, the partner name becomes the label, and
/// no import reference is attached — the bank side never carries one.
pub fn normalized(
    id: String,
    amount_in_cents: i32,
    visible_ts: i64,
    merchant_name: Option<String>,
    partner_name: Option<String>,
) -> (t: transaction::Transaction)
    requires
        0 <= visible_ts < 100_000_000_000_000i64,
    ensures
        t.id == id,
        t.amount_in_cents == amount_in_cents,
        t.date@ == utc_date_of(visible_ts as int / 1000),
        match (merchant_name, partner_name) {
            (Some(m), _) => t.label == m,
            (None, Some(p)) => t.label == p,
            (None, None) => t.label@ == transaction::spec_no_payee(),
        },
        t.import_id is None,
{
    let secs: i64 = visible_ts / 1000;
    let date = utc_date_string(secs);
    let label = match merchant_name {
        Some(m) => m,
        None => match partner_name {
            Some(p) => p,
            None => transaction::no_payee_label(),
        },
    };
    transaction::Transaction {
        id,
        amount_in_cents,
        date,
        label,
        import_id: None,
    }
}

} // verus!
