//! The orchestrator: the one place that knows the three verbs and wires
//! document, cache and token source together. Everything it decides is a
//! function of the parsed input, the observed cache state and (for a miss)
//! the acquired pair; the edge performs the declared effects: write the
//! output, write or delete the cache file, fetch a token.

use crate::creds::cache::{read_err_matches, read_model, Cache, CacheFileState, ReadModel};
use crate::creds::cache::ReadError as CacheReadError;
use crate::creds::UsernamePasswordPair;
use crate::doc::ReadError as DocReadError;
use crate::doc::{
    spec_creds, spec_matches_creds, spec_matches_url, spec_parse, spec_with_creds, spec_with_quit,
    Doc,
};
use vstd::prelude::*;

verus! {

/// The three verbs of the credential-helper contract.
pub enum Operation {
    Get,
    Store,
    Erase,
}

/// The single configured target: requests for any other effective pair are
/// not dispatched at all.
pub open spec fn target_protocol() -> Seq<char> {
    "https"@
}

pub open spec fn target_host() -> Seq<char> {
    "github.com"@
}

/// What an invocation asks the edge to do: at most one output document to
/// emit, at most one pair to write to the cache, and whether to delete the
/// cache file.
pub struct Effects {
    pub output: Option<Doc>,
    pub cache_write: Option<UsernamePasswordPair>,
    pub cache_delete: bool,
}

/// A failed invocation: the input did not parse, the cache read failed, or
/// `store` was asked without credentials to store.
pub enum HelperError {
    Parse(DocReadError),
    CacheRead(CacheReadError),
    NoCredsToStore,
}

/// The first phase's outcome: everything decided, or — only for `get` on a
/// clean cache miss — a token must be acquired before `run_phase2` decides
/// the rest.
pub enum Phase1 {
    Done(Effects),
    NeedToken(Doc),
    Fail(HelperError),
}

pub open spec fn no_effects(e: Effects) -> bool {
    &&& e.output is None
    &&& e.cache_write is None
    &&& !e.cache_delete
}

/// The whole meaning of the first phase, by verb:
/// - any input that does not parse fails with its parse error;
/// - an input whose effective pair is not the target dispatches nothing;
/// - `get` answers from a fresh cache, or asks for a token on a clean miss;
/// - `store` writes the input's credentials, and demands they be present;
/// - `erase` deletes exactly when the cache holds a fresh pair equal to the
///   input's credentials, and otherwise silently does nothing.
pub open spec fn phase1_post(
    op: Operation,
    lines: Seq<Seq<char>>,
    cache: Cache,
    state: CacheFileState,
    r: Phase1,
) -> bool {
    match spec_parse(lines) {
        Err(ev) => {
            &&& r matches Phase1::Fail(HelperError::Parse(e))
            &&& e@ == ev
        },
        Ok(dv) => {
            if !spec_matches_url(dv, target_protocol(), target_host()) {
                &&& r matches Phase1::Done(e)
                &&& no_effects(e)
            } else {
                match op {
                    Operation::Get => match read_model(state) {
                        ReadModel::Miss => {
                            &&& r matches Phase1::NeedToken(d)
                            &&& d@ == dv
                        },
                        ReadModel::Hit(pv) => {
                            &&& r matches Phase1::Done(e)
                            &&& e.output matches Some(od)
                            &&& od@ == spec_with_quit(spec_with_creds(dv, pv), true)
                            &&& e.cache_write is None
                            &&& !e.cache_delete
                        },
                        ReadModel::Failed(m) => {
                            &&& r matches Phase1::Fail(HelperError::CacheRead(e))
                            &&& read_err_matches(e, m, cache.file@)
                        },
                    },
                    Operation::Store => match spec_creds(dv) {
                        Some(pv) => {
                            &&& r matches Phase1::Done(e)
                            &&& e.output is None
                            &&& e.cache_write matches Some(c)
                            &&& c@ == pv
                            &&& !e.cache_delete
                        },
                        None => r matches Phase1::Fail(HelperError::NoCredsToStore),
                    },
                    Operation::Erase => match read_model(state) {
                        ReadModel::Miss => {
                            &&& r matches Phase1::Done(e)
                            &&& no_effects(e)
                        },
                        ReadModel::Hit(pv) => {
                            &&& r matches Phase1::Done(e)
                            &&& e.output is None
                            &&& e.cache_write is None
                            &&& e.cache_delete == spec_matches_creds(dv, pv)
                        },
                        ReadModel::Failed(m) => {
                            &&& r matches Phase1::Fail(HelperError::CacheRead(e))
                            &&& read_err_matches(e, m, cache.file@)
                        },
                    },
                }
            }
        },
    }
}

/// Decides an invocation from the parsed-to-be input and the observed cache
/// state. Beyond `phase1_post`, the contract states directly that `store`
/// and `erase` never produce output, that every output produced carries
/// `quit=true`, and that a token is acquired exactly for `get`, on the
/// target host, on a clean cache miss — a cache file younger than the
/// staleness threshold is never re-acquired, one at or past it always is.
pub fn run_phase1(op: &Operation, lines: &Vec<String>, cache: &Cache, state: &CacheFileState) -> (r:
    Phase1)
    ensures
        phase1_post(*op, lines@.map_values(|l: String| l@), *cache, *state, r),
        match r {
            Phase1::Done(e) => ((*op matches Operation::Store || *op matches Operation::Erase)
                ==> e.output is None) && (match e.output {
                Some(od) => od@.quit == Some(true),
                None => true,
            }),
            Phase1::NeedToken(_) => *op matches Operation::Get,
            Phase1::Fail(_) => true,
        },
        (r matches Phase1::NeedToken(_)) <==> {
            &&& spec_parse(lines@.map_values(|l: String| l@)) matches Ok(dv)
            &&& spec_matches_url(dv, target_protocol(), target_host())
            &&& *op matches Operation::Get
            &&& read_model(*state) is Miss
        },
{
    let doc = match Doc::read(lines) {
        Ok(d) => d,
        Err(e) => {
            return Phase1::Fail(HelperError::Parse(e));
        },
    };
    if !doc.matches_url("https", "github.com") {
        return Phase1::Done(Effects { output: None, cache_write: None, cache_delete: false });
    }
    match op {
        Operation::Get => match cache.read(state) {
            Err(e) => Phase1::Fail(HelperError::CacheRead(e)),
            Ok(Some(creds)) => Phase1::Done(Effects {
                output: Some(doc.with_creds(creds).with_quit(true)),
                cache_write: None,
                cache_delete: false,
            }),
            Ok(None) => Phase1::NeedToken(doc),
        },
        Operation::Store => match doc.creds() {
            Some(creds) => Phase1::Done(Effects {
                output: None,
                cache_write: Some(creds),
                cache_delete: false,
            }),
            None => Phase1::Fail(HelperError::NoCredsToStore),
        },
        Operation::Erase => match cache.read(state) {
            Err(e) => Phase1::Fail(HelperError::CacheRead(e)),
            Ok(Some(creds)) => {
                let matches_stored = doc.matches_creds(&creds);
                Phase1::Done(Effects {
                    output: None,
                    cache_write: None,
                    cache_delete: matches_stored,
                })
            },
            Ok(None) => Phase1::Done(Effects {
                output: None,
                cache_write: None,
                cache_delete: false,
            }),
        },
    }
}

/// Finishes a `get` that missed the cache, once the token source has
/// produced a pair: the pair is written back to the cache and emitted on
/// the document, which always carries `quit=true`.
pub fn run_phase2(doc: Doc, acquired: UsernamePasswordPair) -> (r: Effects)
    ensures
        r.output matches Some(od) && od@ == spec_with_quit(spec_with_creds(doc@, acquired@), true),
        r.cache_write matches Some(c) && c@ == acquired@,
        !r.cache_delete,
        match r.output {
            Some(od) => od@.quit == Some(true),
            None => false,
        },
{
    let stored = acquired.clone();
    let out = doc.with_creds(acquired).with_quit(true);
    Effects { output: Some(out), cache_write: Some(stored), cache_delete: false }
}

} // verus!
