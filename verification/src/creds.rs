//! Credentials for the configured platform host: the username/password pair
//! handed back to the calling client, where the username is the application
//! identifier in decimal and the password is a short-lived installation
//! access token.

pub mod auth;
pub mod cache;
pub mod env;
pub mod installation;
pub mod record;

use crate::decimal::{dec_digits, u64_to_dec_string};
use vstd::prelude::*;

verus! {

/// The account that owns the installation this helper authenticates for.
/// Resolution of the installation searches for exactly this owner login.
pub const OWNER: &'static str = "BrainiumLLC";

/// The mathematical content of a credential pair: the two character strings.
pub ghost struct PairView {
    pub username: Seq<char>,
    pub password: Seq<char>,
}

/// A username/password pair, replaced wholesale and never field-mutated.
pub struct UsernamePasswordPair {
    pub username: String,
    pub password: String,
}

impl View for UsernamePasswordPair {
    type V = PairView;

    open spec fn view(&self) -> PairView {
        PairView { username: self.username@, password: self.password@ }
    }
}

impl Clone for UsernamePasswordPair {
    fn clone(&self) -> (r: Self)
        ensures
            r@ == self@,
    {
        UsernamePasswordPair {
            username: self.username.clone(),
            password: self.password.clone(),
        }
    }
}

impl UsernamePasswordPair {
    /// Character-exact equality of two pairs: no normalization of any kind.
    pub fn same_as(&self, other: &Self) -> (r: bool)
        ensures
            r == (self@ == other@),
    {
        let r = self.username == other.username && self.password == other.password;
        proof {
            if self@.username == other@.username && self@.password == other@.password {
                assert(self@ == other@);
            }
        }
        r
    }

    /// Wraps a freshly issued installation token: the username is the
    /// application identifier written in decimal, the password the token.
    pub fn from_app_token(app_id: u64, token: String) -> (r: Self)
        ensures
            r@.username == dec_digits(app_id as nat),
            r@.password == token@,
    {
        UsernamePasswordPair { username: u64_to_dec_string(app_id), password: token }
    }

    /// Reads the cached pair, if a fresh one is stored: `Ok(None)` is the
    /// clean miss (absent or stale), exactly as `Cache::read` decides it.
    pub fn from_cache(cache: &cache::Cache, state: &cache::CacheFileState) -> (r: Result<
        Option<Self>,
        cache::ReadError,
    >)
        ensures
            cache.read_post(state, r),
    {
        cache.read(state)
    }

    /// What the `get` verb must do once the cache has answered: hand back a
    /// fresh cached pair as it stands, or acquire a new one from the token
    /// source and store it.
    pub fn generate_plan(cached: Option<Self>) -> (r: GenerateStep)
        ensures
            match cached {
                Some(creds) => r matches GenerateStep::UseCached(c) && c@ == creds@,
                None => r matches GenerateStep::AcquireAndStore,
            },
    {
        match cached {
            Some(creds) => GenerateStep::UseCached(creds),
            None => GenerateStep::AcquireAndStore,
        }
    }
}

/// The decision taken on a cache answer during `get`: a fresh cached pair is
/// used as-is; a miss sends the caller to the token source, after which the
/// acquired pair must be written back to the cache.
pub enum GenerateStep {
    UseCached(UsernamePasswordPair),
    AcquireAndStore,
}

} // verus!
