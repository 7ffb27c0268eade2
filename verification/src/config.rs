//! Configuration of the two ledger clients, taken from a snapshot of the
//! process environment. Reading the environment itself is the caller's
//! business; the lookup of each variable is done here.

use vstd::prelude::*;
use crate::error::{Error, ErrorKind};

verus! {

/// Credentials and account identifiers for both ledgers.
#[derive(Debug)]
pub struct Config {
    pub ynab_token: String,
    pub ynab_budget_id: String,
    pub ynab_account_id: String,
    pub n26_username: String,
    pub n26_password: String,
}

/// The value bound to `name` in `env`: the second component of the first
/// pair whose first component reads `name`, or `None` when no pair does.
pub open spec fn env_value(env: Seq<(String, String)>, name: Seq<char>) -> Option<String>
    decreases env.len(),
{
    if env.len() == 0 {
        None
    } else if env[0].0@ == name {
        Some(env[0].1)
    } else {
        env_value(env.skip(1), name)
    }
}

/// Look `name` up in the environment snapshot; a missing variable is the
/// `ReadEnvVar` failure.
fn read_env_var(env: &Vec<(String, String)>, name: &String) -> (r: Result<String, Error>)
    ensures
        match r {
            Ok(v) => env_value(env@, name@) == Some(v),
            Err(e) => env_value(env@, name@) is None && e == (Error { kind: ErrorKind::ReadEnvVar }),
        },
{
    let mut i: usize = 0;
    assert(env@.skip(0) =~= env@);
    while i < env.len()
        invariant
            i <= env@.len(),
            env_value(env@, name@) == env_value(env@.skip(i as int), name@),
        decreases env@.len() - i,
    {
        let pair = &env[i];
        if pair.0 == *name {
            assert(env@.skip(i as int)[0] == env@[i as int]);
            return Ok(pair.1.clone());
        }
        assert(env@.skip(i as int).skip(1) =~= env@.skip(i as int + 1));
        i = i + 1;
    }
    Err(Error { kind: ErrorKind::ReadEnvVar })
}

impl Config {
    /// Read the config from an environment snapshot, given as name/value
    /// pairs. Succeeds exactly when all five variables are present; each
    /// field then holds the first value bound to its variable.
    pub fn from_env(env: &Vec<(String, String)>) -> (r: Result<Config, Error>)
        ensures
            match r {
                Ok(c) => {
                    &&& env_value(env@, "YNAB_PERSONAL_TOKEN"@) == Some(c.ynab_token)
                    &&& env_value(env@, "YNAB_BUDGET_ID"@) == Some(c.ynab_budget_id)
                    &&& env_value(env@, "YNAB_ACCOUNT_ID"@) == Some(c.ynab_account_id)
                    &&& env_value(env@, "N26_USERNAME"@) == Some(c.n26_username)
                    &&& env_value(env@, "N26_PASSWORD"@) == Some(c.n26_password)
                },
                Err(e) => {
                    &&& {
                        ||| env_value(env@, "YNAB_PERSONAL_TOKEN"@) is None
                        ||| env_value(env@, "YNAB_BUDGET_ID"@) is None
                        ||| env_value(env@, "YNAB_ACCOUNT_ID"@) is None
                        ||| env_value(env@, "N26_USERNAME"@) is None
                        ||| env_value(env@, "N26_PASSWORD"@) is None
                    }
                    &&& e == (Error { kind: ErrorKind::ReadEnvVar })
                },
            },
    {
        let ynab_token = read_env_var(env, &"YNAB_PERSONAL_TOKEN".to_owned())?;
        let ynab_budget_id = read_env_var(env, &"YNAB_BUDGET_ID".to_owned())?;
        let ynab_account_id = read_env_var(env, &"YNAB_ACCOUNT_ID".to_owned())?;
        let n26_username = read_env_var(env, &"N26_USERNAME".to_owned())?;
        let n26_password = read_env_var(env, &"N26_PASSWORD".to_owned())?;

        let config = Config {
            ynab_token,
            ynab_budget_id,
            ynab_account_id,
            n26_username,
            n26_password,
        };
        Ok(config)
    }
}

} // verus!
