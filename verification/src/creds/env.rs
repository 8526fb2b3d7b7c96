//! The two required configuration values, as the process environment hands
//! them in: the application identifier and the PEM-encoded signing key.
//! Absence of either is a fatal configuration error naming the variable.

use vstd::prelude::*;

verus! {

/// A missing environment value, reported with the variable's name.
#[derive(Debug)]
pub struct GetEnvError {
    pub name: String,
}

/// The raw configuration text read from the environment.
#[derive(Debug)]
pub struct Env {
    pub app_id: String,
    pub app_key: String,
}

pub open spec fn var_app_id() -> Seq<char> {
    "GITHUB_APP_ID"@
}

pub open spec fn var_app_key() -> Seq<char> {
    "GITHUB_APP_KEY"@
}

impl Env {
    /// Builds the configuration from the two environment lookups, handed in
    /// as the values found (or not found) under the two variable names. The
    /// identifier variable is demanded first, as lookups happen in that
    /// order.
    pub fn read(app_id: Option<String>, app_key: Option<String>) -> (r: Result<Env, GetEnvError>)
        ensures
            match r {
                Ok(e) => {
                    &&& app_id matches Some(i)
                    &&& e.app_id@ == i@
                    &&& app_key matches Some(k)
                    &&& e.app_key@ == k@
                },
                Err(err) => (app_id is None && err.name@ == var_app_id()) || (app_id is Some
                    && app_key is None && err.name@ == var_app_key()),
            },
    {
        match app_id {
            None => Err(GetEnvError { name: String::from_str("GITHUB_APP_ID") }),
            Some(id) => match app_key {
                None => Err(GetEnvError { name: String::from_str("GITHUB_APP_KEY") }),
                Some(key) => Ok(Env { app_id: id, app_key: key }),
            },
        }
    }
}

} // verus!
