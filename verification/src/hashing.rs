use vstd::prelude::*;

verus! {

/// bcrypt's error type, carried through opaquely and mapped to this
/// crate's own [`crate::errors::Error`] by the callers.
#[verifier::external_type_specification]
#[verifier::external_body]
pub struct ExBcryptError(bcrypt::BcryptError);

/// Whether bcrypt's verification accepts `password` against the stored
/// hash string `hash`.  `bcrypt::verify` re-derives the hash from the
/// password together with the cost and salt parsed out of `hash`, and
/// compares; its result is a function of the two arguments alone.
pub uninterp spec fn bcrypt_verifies(password: Seq<char>, hash: Seq<char>) -> bool;

/// Whether bcrypt accepts `hash` as a well-formed hash string: sixty
/// ASCII bytes of `$`-separated version, two-digit cost within 4..=31,
/// and base64 salt and digest.  This is the condition `bcrypt::verify`
/// parses its hash argument against before comparing; it depends on the
/// hash string alone, never on the password.
pub uninterp spec fn bcrypt_hash_parses(hash: Seq<char>) -> bool;

/// Relies on `bcrypt::hash`: it hashes the password with a freshly drawn
/// random salt and the given cost, and formats cost, salt and digest into
/// the returned sixty-character `$2b$` string, so that `bcrypt::verify`
/// on the same password and that string parses it, re-derives the same
/// digest and accepts.  It fails when the cost is outside 4..=31 or the
/// operating system's randomness source fails; the salt is random, so
/// nothing more is promised of the result.
#[verifier::external_body]
pub(crate) fn hash_password(password: &str, cost: u32) -> (r: Result<String, bcrypt::BcryptError>)
    ensures
        r is Ok ==> bcrypt_verifies(password@, (r->Ok_0)@),
        r is Ok ==> bcrypt_hash_parses((r->Ok_0)@),
        r is Ok ==> (r->Ok_0)@.len() == 60,
        r is Ok ==> (r->Ok_0)@.subrange(0, 4) == "$2b$"@,
{
    bcrypt::hash(password, cost)
}

/// Relies on `bcrypt::verify`: a deterministic check of `password`
/// against `hash`, named by [`bcrypt_verifies`].  It fails exactly when
/// `hash` is not a well-formed bcrypt hash string, named by
/// [`bcrypt_hash_parses`]: parsing the hash is the only thing in it that
/// can fail.
#[verifier::external_body]
pub(crate) fn verify_password(password: &str, hash: &str) -> (r: Result<
    bool,
    bcrypt::BcryptError,
>)
    ensures
        (r is Ok) <==> bcrypt_hash_parses(hash@),
        r is Ok ==> r->Ok_0 == bcrypt_verifies(password@, hash@),
{
    bcrypt::verify(password, hash)
}

} // verus!
