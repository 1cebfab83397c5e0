use vstd::prelude::*;

use argon2::{Argon2, PasswordHasher, PasswordVerifier};

verus! {

/// The hashing backend failed to produce a hash.
#[derive(Debug, Copy, Clone, PartialEq, Eq, Structural)]
pub struct PwdHasherError;

impl PwdHasherError {
    /// The message a caller may show for this error.
    pub fn message(&self) -> (r: &'static str)
        ensures
            r@ == "Password hashing error"@,
    {
        "Password hashing error"
    }
}

/// Whether the memory-hard hash of `pwd`, recomputed under the parameters and
/// salt carried inside the stored string, matches that string.  The outcome is
/// a function of the two texts alone: the salt, the parameters and the digest
/// all travel inside the stored string.  A string that is not a well-formed
/// hash record matches nothing.
pub uninterp spec fn argon2_matches(pwd: Seq<char>, stored: Seq<char>) -> bool;

/// One full verification cycle.
///
/// Relies on argon2's `PasswordVerifier::verify_password` for `str`, which
/// parses the stored text as a PHC record and recomputes the hash with the
/// algorithm, version, parameters and salt the record carries: the outcome
/// depends on the password and the stored text alone, and a malformed record
/// verifies as false rather than failing.
#[verifier::external_body]
fn argon2_verify(password: &str, pwd_and_hash: &str) -> (r: bool)
    ensures
        r == argon2_matches(password@, pwd_and_hash@),
{
    Argon2::default().verify_password(password.as_bytes(), pwd_and_hash).is_ok()
}

/// Create a new hash record from a new password.
///
/// Relies on argon2's `PasswordHasher::hash_password`, which draws a fresh
/// random salt from the operating system, and on the PHC text form of its
/// result: a record just produced from a password verifies against that
/// password, and the text is non-empty printable ASCII that never holds the
/// separator `:`.  Which record comes back depends on the random salt, so
/// nothing else is assumed of it.
#[verifier::external_body]
pub fn new_hash_from_pwd(password: &str) -> (r: Result<String, PwdHasherError>)
    ensures
        r matches Ok(h) ==> argon2_matches(password@, h@) && h@.len() > 0 && crate::codec::hash_ok(
            h@,
        ),
{
    match Argon2::default().hash_password(password.as_bytes()) {
        Ok(h) => Ok(h.to_string()),
        Err(_) => Err(PwdHasherError),
    }
}

/// What a credential check answers: an empty stored record (no such account)
/// or a malformed one never verifies; otherwise the recomputed hash decides.
pub open spec fn spec_verify_outcome(pwd: Seq<char>, stored: Seq<char>) -> bool {
    stored.len() > 0 && argon2_matches(pwd, stored)
}

/// Hash the provided password and compare with `pwd_and_hash`.  If
/// `pwd_and_hash` is empty — the caller found no account — a decoy record is
/// created and checked instead, so that the call performs one full
/// hash-and-compare cycle on every path and its duration does not reveal
/// whether the account exists.
pub fn compare_pwd_with_hash(password: &str, pwd_and_hash: &str) -> (r: bool)
    ensures
        r == spec_verify_outcome(password@, pwd_and_hash@),
{
    // always pay for one full hash cycle before answering: this decoy is the
    // anti-enumeration control, not dead code
    let def_hash = match new_hash_from_pwd("1234") {
        Ok(h) => h,
        Err(_) => String::new(),
    };
    if pwd_and_hash.unicode_len() == 0 {
        let _ = argon2_verify("5678", def_hash.as_str());
        false
    } else {
        argon2_verify(password, pwd_and_hash)
    }
}

/// Law: a stored record that a password's own hashing produced verifies
/// against that password — `verify(p, hash(p))` holds whenever hashing
/// succeeded.
pub proof fn lemma_own_hash_verifies(pwd: Seq<char>, h: Seq<char>)
    requires
        argon2_matches(pwd, h),
        h.len() > 0,
    ensures
        spec_verify_outcome(pwd, h),
{
}

/// Law: a missing account — an empty stored record — never verifies, whatever
/// the password.
pub proof fn lemma_absent_record_never_verifies(pwd: Seq<char>)
    ensures
        !spec_verify_outcome(pwd, Seq::<char>::empty()),
{
}

} // verus!
