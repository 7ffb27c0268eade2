use ynan26::n26;
use ynan26::ynab;

#[test]
fn n26_normalized_renders_the_date() {
    // 2019-03-01T00:00:00Z is 1551398400 seconds after the epoch.
    let t = n26::normalized(
        "n26-1".to_owned(),
        -1500,
        1551398400000,
        Some("Cafe".to_owned()),
        None,
    );
    assert_eq!(t.id, "n26-1");
    assert_eq!(t.amount_in_cents, -1500);
    assert_eq!(t.date, "2019-03-01");
    assert_eq!(t.label, "Cafe");
    assert_eq!(t.import_id, None);
}

#[test]
fn n26_normalized_date_ignores_time_of_day() {
    // 2019-03-01T23:59:59Z still falls on 2019-03-01.
    let t = n26::normalized("a".to_owned(), 1, 1551484799000, None, None);
    assert_eq!(t.date, "2019-03-01");
    // one second later is the next day
    let u = n26::normalized("b".to_owned(), 1, 1551484800000, None, None);
    assert_eq!(u.date, "2019-03-02");
}

#[test]
fn n26_normalized_label_falls_back() {
    let merchant = n26::normalized(
        "a".to_owned(),
        1,
        0,
        Some("Merchant".to_owned()),
        Some("Partner".to_owned()),
    );
    assert_eq!(merchant.label, "Merchant");
    let partner = n26::normalized("b".to_owned(), 1, 0, None, Some("Partner".to_owned()));
    assert_eq!(partner.label, "Partner");
    let neither = n26::normalized("c".to_owned(), 1, 0, None, None);
    assert_eq!(neither.label, "<not set>");
}

#[test]
fn ynab_normalized_scales_milliunits_to_cents() {
    let deposit = ynab::Transaction {
        id: "y1".to_owned(),
        amount_in_milliunits: 1000,
        date: "2019-03-01".to_owned(),
        payee_name: Some("Payee".to_owned()),
        import_id: Some("n26-1".to_owned()),
    };
    let t = deposit.normalized();
    assert_eq!(t.id, "y1");
    assert_eq!(t.amount_in_cents, 100);
    assert_eq!(t.date, "2019-03-01");
    assert_eq!(t.label, "Payee");
    assert_eq!(t.import_id, Some("n26-1".to_owned()));
}

#[test]
fn ynab_normalized_truncates_toward_zero() {
    let spending = ynab::Transaction {
        id: "y2".to_owned(),
        amount_in_milliunits: -1015,
        date: "2019-03-01".to_owned(),
        payee_name: None,
        import_id: None,
    };
    let t = spending.normalized();
    assert_eq!(t.amount_in_cents, -101);
    assert_eq!(t.label, "<not set>");
}
