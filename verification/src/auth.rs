//! The credential collaborator: password hashing and verification. The
//! core treats credentials as an opaque capability of the argon2 crate and
//! never inspects a hash.

use vstd::prelude::*;
use vstd::string::StringSliceAdditionalSpecFns;

use argon2::password_hash::{PasswordHash, PasswordHasher, PasswordVerifier, SaltString};
use argon2::{Algorithm, Argon2, Params, Version};
use rand::rngs::OsRng;

verus! {

/// Whether the secret `pw` matches the password hash `hash`: the outcome
/// of argon2's verification, which recomputes the hash with the algorithm,
/// salt and parameters embedded in the hash string, so it is a function of
/// the two strings alone.
pub uninterp spec fn verifies(hash: Seq<char>, pw: Seq<char>) -> bool;

/// Relies on argon2's `Argon2::hash_password`: the returned PHC string
/// embeds the algorithm, version, parameters and the fresh salt, so
/// verifying the same password against it recomputes the same digest and
/// succeeds. The salt is random: beyond verifiability, nothing is promised.
/// argon2 refuses a password over `MAX_PWD_LEN` bytes, so such inputs are
/// left out; the salt comes from the OS entropy source.
#[verifier::external_body]
pub fn hash_password(pw: &str) -> (r: String)
    requires
        pw.spec_bytes().len() <= 0xFFFF_FFFF,
    ensures
        verifies(r@, pw@),
{
    let salt = SaltString::generate(&mut OsRng);
    let params = Params::new(15000, 2, 1, None).unwrap();
    let argon = Argon2::new(Algorithm::Argon2id, Version::V0x13, params);
    argon.hash_password(pw.as_bytes(), &salt).unwrap().to_string()
}

/// Relies on argon2's `PasswordHash::new` and `Argon2::verify_password`:
/// parsing and recomputation read everything from the two strings, so the
/// result is `verifies` of them; an unparsable hash verifies nothing.
#[verifier::external_body]
pub fn verify_password(hash: &str, pw: &str) -> (r: bool)
    ensures
        r == verifies(hash@, pw@),
{
    if let Ok(parsed) = PasswordHash::new(hash) {
        Argon2::default().verify_password(pw.as_bytes(), &parsed).is_ok()
    } else {
        false
    }
}

} // verus!
