use ynan26::{Config, ErrorKind};

fn full_env() -> Vec<(String, String)> {
    vec![
        ("YNAB_PERSONAL_TOKEN".to_owned(), "tok".to_owned()),
        ("YNAB_BUDGET_ID".to_owned(), "budget".to_owned()),
        ("YNAB_ACCOUNT_ID".to_owned(), "account".to_owned()),
        ("N26_USERNAME".to_owned(), "user".to_owned()),
        ("N26_PASSWORD".to_owned(), "pass".to_owned()),
    ]
}

#[test]
fn from_env_reads_all_variables() {
    let config = Config::from_env(&full_env()).unwrap();
    assert_eq!(config.ynab_token, "tok");
    assert_eq!(config.ynab_budget_id, "budget");
    assert_eq!(config.ynab_account_id, "account");
    assert_eq!(config.n26_username, "user");
    assert_eq!(config.n26_password, "pass");
}

#[test]
fn from_env_fails_on_missing_variable() {
    let mut env = full_env();
    env.retain(|pair| pair.0 != "N26_PASSWORD");
    let err = Config::from_env(&env).unwrap_err();
    assert_eq!(*err.kind(), ErrorKind::ReadEnvVar);
}

#[test]
fn from_env_takes_the_first_binding() {
    let mut env = full_env();
    env.push(("YNAB_PERSONAL_TOKEN".to_owned(), "shadowed".to_owned()));
    let config = Config::from_env(&env).unwrap();
    assert_eq!(config.ynab_token, "tok");
}

#[test]
fn error_from_kind_keeps_the_kind() {
    let err = ynan26::Error::from(ErrorKind::N26Authenticate);
    assert_eq!(*err.kind(), ErrorKind::N26Authenticate);
}
