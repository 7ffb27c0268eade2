use ynan26::sync::{new_save_transactions, plan, update_save_transactions};
use ynan26::transaction::Transaction;

fn tx(id: &str, cents: i32, date: &str, label: &str, import_id: Option<&str>) -> Transaction {
    Transaction {
        id: id.to_owned(),
        amount_in_cents: cents,
        date: date.to_owned(),
        label: label.to_owned(),
        import_id: import_id.map(|s| s.to_owned()),
    }
}

#[test]
fn scenario_create_when_destination_empty() {
    let source = vec![tx("s1", -1500, "2019-03-01", "Cafe", None)];
    let destination: Vec<Transaction> = vec![];

    let p = plan(&source, &destination);
    assert_eq!(p.new_transactions.len(), 1);
    assert_eq!(p.new_transactions[0].id, "s1");
    assert_eq!(p.updated_transactions.len(), 0);
    assert_eq!(p.only_ynab.len(), 0);

    let ops = new_save_transactions(&"acct".to_owned(), &p.new_transactions);
    assert_eq!(ops.len(), 1);
    assert_eq!(ops[0].id, None);
    assert_eq!(ops[0].account_id, "acct");
    assert_eq!(ops[0].amount_in_milliunits, -15000);
    assert_eq!(ops[0].date, "2019-03-01");
    assert_eq!(ops[0].import_id, "s1");
    assert_eq!(ops[0].payee_name, Some("Cafe".to_owned()));
}

#[test]
fn scenario_equivalence_match_consumes_manual_entry() {
    let source = vec![tx("s1", -1500, "2019-03-01", "<not set>", None)];
    let destination = vec![tx("d1", -1500, "2019-03-01", "<not set>", None)];

    let p = plan(&source, &destination);
    assert_eq!(p.new_transactions.len(), 0);
    assert_eq!(p.updated_transactions.len(), 0);
    assert_eq!(p.only_ynab.len(), 0);
}

#[test]
fn scenario_update_when_reference_match_changed() {
    let source = vec![tx("s1", -1600, "2019-03-02", "<not set>", None)];
    let destination = vec![tx("d1", -1500, "2019-03-01", "<not set>", Some("s1"))];

    let p = plan(&source, &destination);
    assert_eq!(p.new_transactions.len(), 0);
    assert_eq!(p.updated_transactions.len(), 1);
    assert_eq!(p.updated_transactions[0].n26.id, "s1");
    assert_eq!(p.updated_transactions[0].ynab.id, "d1");
    assert_eq!(p.only_ynab.len(), 0);

    let ops = update_save_transactions(&"acct".to_owned(), &p.updated_transactions);
    assert_eq!(ops.len(), 1);
    assert_eq!(ops[0].id, Some("d1".to_owned()));
    assert_eq!(ops[0].amount_in_milliunits, -16000);
    assert_eq!(ops[0].date, "2019-03-02");
    assert_eq!(ops[0].import_id, "s1");
}

#[test]
fn scenario_destination_only_is_reported() {
    let source: Vec<Transaction> = vec![];
    let destination = vec![tx("d1", 500, "2019-03-05", "<not set>", None)];

    let p = plan(&source, &destination);
    assert_eq!(p.new_transactions.len(), 0);
    assert_eq!(p.updated_transactions.len(), 0);
    assert_eq!(p.only_ynab.len(), 1);
    assert_eq!(p.only_ynab[0].id, "d1");
}

#[test]
fn reference_match_takes_precedence_over_equivalence() {
    // d1 agrees on amount and date but carries no reference; d2 carries the
    // reference with a stale amount. The reference wins: d2 is updated and
    // d1 is left to the destination-only report.
    let source = vec![tx("s1", -1500, "2019-03-01", "Cafe", None)];
    let destination = vec![
        tx("d1", -1500, "2019-03-01", "Cafe", None),
        tx("d2", -1400, "2019-03-01", "Cafe", Some("s1")),
    ];

    let p = plan(&source, &destination);
    assert_eq!(p.new_transactions.len(), 0);
    assert_eq!(p.updated_transactions.len(), 1);
    assert_eq!(p.updated_transactions[0].ynab.id, "d2");
    assert_eq!(p.only_ynab.len(), 1);
    assert_eq!(p.only_ynab[0].id, "d1");
}

#[test]
fn equivalence_match_gets_no_reference() {
    // An equivalence match issues no write at all: the manual entry keeps
    // its missing reference rather than being re-authored.
    let source = vec![tx("s1", -1500, "2019-03-01", "Cafe", None)];
    let destination = vec![tx("d1", -1500, "2019-03-01", "Dinner", None)];

    let p = plan(&source, &destination);
    assert_eq!(p.new_transactions.len(), 0);
    assert_eq!(p.updated_transactions.len(), 0);
    assert_eq!(p.only_ynab.len(), 0);
}

#[test]
fn partition_covers_both_sides() {
    // Four source transactions: one reference match in sync, one reference
    // match changed, one equivalence match, one new; one destination entry
    // stays unmatched.
    let source = vec![
        tx("s1", -100, "2019-03-01", "A", None),
        tx("s2", -200, "2019-03-02", "B", None),
        tx("s3", -300, "2019-03-03", "C", None),
        tx("s4", -400, "2019-03-04", "D", None),
    ];
    let destination = vec![
        tx("d1", -100, "2019-03-01", "A", Some("s1")),
        tx("d2", -250, "2019-03-02", "B", Some("s2")),
        tx("d3", -300, "2019-03-03", "C", None),
        tx("d4", -999, "2019-03-09", "E", None),
    ];

    let p = plan(&source, &destination);
    assert_eq!(p.new_transactions.len(), 1);
    assert_eq!(p.new_transactions[0].id, "s4");
    assert_eq!(p.updated_transactions.len(), 1);
    assert_eq!(p.updated_transactions[0].n26.id, "s2");
    assert_eq!(p.updated_transactions[0].ynab.id, "d2");
    assert_eq!(p.only_ynab.len(), 1);
    assert_eq!(p.only_ynab[0].id, "d4");
}

#[test]
fn second_run_after_creations_is_empty() {
    // A first pass creates s2 and s3; once the creations are applied to the
    // destination, a second pass over the same source finds nothing to do.
    let source = vec![
        tx("s1", -100, "2019-03-01", "A", None),
        tx("s2", -200, "2019-03-02", "B", None),
        tx("s3", -300, "2019-03-03", "C", None),
    ];
    let destination = vec![tx("d1", -100, "2019-03-01", "A", Some("s1"))];

    let first = plan(&source, &destination);
    assert_eq!(first.new_transactions.len(), 2);
    assert_eq!(first.updated_transactions.len(), 0);

    let mut destination2 = destination;
    for (n, created) in first.new_transactions.iter().enumerate() {
        destination2.push(Transaction {
            id: format!("created-{}", n),
            amount_in_cents: created.amount_in_cents,
            date: created.date.clone(),
            label: created.label.clone(),
            import_id: Some(created.id.clone()),
        });
    }

    let second = plan(&source, &destination2);
    assert_eq!(second.new_transactions.len(), 0);
    assert_eq!(second.updated_transactions.len(), 0);
    assert_eq!(second.only_ynab.len(), 0);
}

#[test]
fn second_run_after_updates_is_empty() {
    // A first pass updates d1 and creates s2; once both writes are applied,
    // a second pass finds nothing to do.
    let source = vec![
        tx("s1", -1600, "2019-03-02", "A", None),
        tx("s2", -200, "2019-03-02", "B", None),
    ];
    let destination = vec![tx("d1", -1500, "2019-03-01", "A", Some("s1"))];

    let first = plan(&source, &destination);
    assert_eq!(first.new_transactions.len(), 1);
    assert_eq!(first.updated_transactions.len(), 1);

    let mut destination2 = Vec::new();
    for d in &destination {
        let mut after = d.clone();
        for u in &first.updated_transactions {
            if u.ynab.id == d.id {
                after.amount_in_cents = u.n26.amount_in_cents;
                after.date = u.n26.date.clone();
            }
        }
        destination2.push(after);
    }
    for (n, created) in first.new_transactions.iter().enumerate() {
        destination2.push(Transaction {
            id: format!("created-{}", n),
            amount_in_cents: created.amount_in_cents,
            date: created.date.clone(),
            label: created.label.clone(),
            import_id: Some(created.id.clone()),
        });
    }

    let second = plan(&source, &destination2);
    assert_eq!(second.new_transactions.len(), 0);
    assert_eq!(second.updated_transactions.len(), 0);
    assert_eq!(second.only_ynab.len(), 0);
}

#[test]
fn greedy_pairing_follows_input_order_on_duplicate_keys() {
    // Two destination entries share the equivalence key: the first unclaimed
    // one is taken, the other is reported destination-only.
    let source = vec![tx("s1", -700, "2019-03-06", "Cafe", None)];
    let destination = vec![
        tx("d1", -700, "2019-03-06", "First", None),
        tx("d2", -700, "2019-03-06", "Second", None),
    ];

    let p = plan(&source, &destination);
    assert_eq!(p.new_transactions.len(), 0);
    assert_eq!(p.updated_transactions.len(), 0);
    assert_eq!(p.only_ynab.len(), 1);
    assert_eq!(p.only_ynab[0].id, "d2");
}

#[test]
fn update_keeps_destination_payee_when_present() {
    let source = vec![tx("s1", -1600, "2019-03-02", "Fresh label", None)];
    let destination = vec![tx("d1", -1500, "2019-03-01", "Hand-written", Some("s1"))];

    let p = plan(&source, &destination);
    let ops = update_save_transactions(&"acct".to_owned(), &p.updated_transactions);
    assert_eq!(ops.len(), 1);
    assert_eq!(ops[0].payee_name, Some("Hand-written".to_owned()));
}

#[test]
fn update_falls_back_to_bank_payee() {
    let source = vec![tx("s1", -1600, "2019-03-02", "Fresh label", None)];
    let destination = vec![tx("d1", -1500, "2019-03-01", "<not set>", Some("s1"))];

    let p = plan(&source, &destination);
    let ops = update_save_transactions(&"acct".to_owned(), &p.updated_transactions);
    assert_eq!(ops.len(), 1);
    assert_eq!(ops[0].payee_name, Some("Fresh label".to_owned()));
}
