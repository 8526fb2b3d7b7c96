//! The application identity: the numeric identifier parsed from decimal
//! text, and the RSA signing key parsed from PEM text. Either being
//! malformed is an unrecoverable configuration error.

use crate::creds::env::Env;
use crate::decimal::{is_u64_numeral, parse_u64, u64_numeral_val};
use vstd::prelude::*;

verus! {

#[verifier::external_type_specification]
#[verifier::external_body]
pub struct ExEncodingKey(jsonwebtoken::EncodingKey);

#[verifier::external_type_specification]
#[verifier::external_body]
pub struct ExJwtError(jsonwebtoken::errors::Error);

/// Whether the PEM parser accepts this text as an RSA private key: a fixed
/// function of the text alone.
pub uninterp spec fn rsa_pem_accepted(pem: Seq<char>) -> bool;

/// Relies on `jsonwebtoken::EncodingKey::from_rsa_pem`: decodes PEM-encoded
/// RSA key material, failing exactly on text it does not accept; the
/// outcome depends on the text alone.
#[verifier::external_body]
fn rsa_key_from_pem(pem: &str) -> (r: Result<jsonwebtoken::EncodingKey, jsonwebtoken::errors::Error>)
    ensures
        r is Ok <==> rsa_pem_accepted(pem@),
{
    jsonwebtoken::EncodingKey::from_rsa_pem(pem.as_bytes())
}

/// A malformed configuration value: an identifier that is not a decimal
/// `u64` numeral (reported with the offending text), or key material the
/// PEM parser rejects (reported with its error).
pub enum AppAuthFromEnvError {
    AppIdInvalid { app_id: String },
    AppKeyInvalid(jsonwebtoken::errors::Error),
}

/// The application identity the token exchange authenticates as.
pub struct AppIdentity {
    pub id: u64,
    pub key: jsonwebtoken::EncodingKey,
}

impl AppIdentity {
    /// Builds the identity from the raw environment text: the identifier
    /// must be a decimal `u64` numeral and the key valid RSA PEM material;
    /// the identifier is checked first.
    pub fn from_env(env: Env) -> (r: Result<AppIdentity, AppAuthFromEnvError>)
        ensures
            match r {
                Ok(a) => is_u64_numeral(env.app_id@) && a.id as nat == u64_numeral_val(env.app_id@)
                    && rsa_pem_accepted(env.app_key@),
                Err(e) => match e {
                    AppAuthFromEnvError::AppIdInvalid { app_id } => !is_u64_numeral(env.app_id@)
                        && app_id@ == env.app_id@,
                    AppAuthFromEnvError::AppKeyInvalid(_) => is_u64_numeral(env.app_id@)
                        && !rsa_pem_accepted(env.app_key@),
                },
            },
    {
        let Env { app_id, app_key } = env;
        match parse_u64(app_id.as_str()) {
            None => Err(AppAuthFromEnvError::AppIdInvalid { app_id }),
            Some(id) => match rsa_key_from_pem(app_key.as_str()) {
                Ok(key) => Ok(AppIdentity { id, key }),
                Err(e) => Err(AppAuthFromEnvError::AppKeyInvalid(e)),
            },
        }
    }
}

} // verus!
