use ynan26::transaction::Transaction;

#[test]
fn partial_eq() {
    let a = Transaction {
        id: "abc".to_owned(),
        label: "foo".to_owned(),
        amount_in_cents: 123,
        date: "2019-02-10".to_owned(),
        import_id: None,
    };
    let b = Transaction {
        id: "bcd".to_owned(),
        label: "bar".to_owned(),
        amount_in_cents: 123,
        date: "2019-02-10".to_owned(),
        import_id: None,
    };
    assert!(a.same_amount_and_date(&b));
    assert!(b.same_amount_and_date(&a));
}

#[test]
fn same_amount_and_date_differs() {
    let a = Transaction {
        id: "abc".to_owned(),
        label: "foo".to_owned(),
        amount_in_cents: 123,
        date: "2019-02-10".to_owned(),
        import_id: None,
    };
    let b = Transaction {
        id: "bcd".to_owned(),
        label: "bar".to_owned(),
        amount_in_cents: 124,
        date: "2019-02-10".to_owned(),
        import_id: None,
    };
    let c = Transaction {
        id: "cde".to_owned(),
        label: "baz".to_owned(),
        amount_in_cents: 123,
        date: "2019-02-11".to_owned(),
        import_id: None,
    };
    assert!(!a.same_amount_and_date(&b));
    assert!(!a.same_amount_and_date(&c));
}

#[test]
fn imported_as_matches_reference() {
    let s = Transaction {
        id: "n26-1".to_owned(),
        label: "Cafe".to_owned(),
        amount_in_cents: -1500,
        date: "2019-03-01".to_owned(),
        import_id: None,
    };
    let d_linked = Transaction {
        id: "ynab-1".to_owned(),
        label: "Cafe".to_owned(),
        amount_in_cents: -1500,
        date: "2019-03-01".to_owned(),
        import_id: Some("n26-1".to_owned()),
    };
    let d_other = Transaction {
        id: "ynab-2".to_owned(),
        label: "Cafe".to_owned(),
        amount_in_cents: -1500,
        date: "2019-03-01".to_owned(),
        import_id: Some("n26-9".to_owned()),
    };
    let d_manual = Transaction {
        id: "ynab-3".to_owned(),
        label: "Cafe".to_owned(),
        amount_in_cents: -1500,
        date: "2019-03-01".to_owned(),
        import_id: None,
    };
    assert!(s.imported_as(&d_linked));
    assert!(!s.imported_as(&d_other));
    assert!(!s.imported_as(&d_manual));
}

#[test]
fn payee_name_placeholder_is_none() {
    let with_payee = Transaction {
        id: "a".to_owned(),
        label: "Bakery".to_owned(),
        amount_in_cents: -300,
        date: "2019-03-02".to_owned(),
        import_id: None,
    };
    let without_payee = Transaction {
        id: "b".to_owned(),
        label: "<not set>".to_owned(),
        amount_in_cents: -300,
        date: "2019-03-02".to_owned(),
        import_id: None,
    };
    assert_eq!(with_payee.payee_name(), Some("Bakery".to_owned()));
    assert_eq!(without_payee.payee_name(), None);
}

#[test]
fn clone_keeps_all_fields() {
    let t = Transaction {
        id: "abc".to_owned(),
        label: "foo".to_owned(),
        amount_in_cents: -42,
        date: "2019-02-10".to_owned(),
        import_id: Some("ref".to_owned()),
    };
    let c = t.clone();
    assert_eq!(t, c);
}
