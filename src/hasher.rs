//! Salted password hashing with Argon2 in its default configuration
//! (Argon2id, version 19, default cost parameters). Hashes are kept in the
//! PHC string form, which names the algorithm, its parameters, the salt and
//! the digest, so that later changes of parameters leave old hashes usable.

use argon2::password_hash::{Error as HashError, Salt, SaltString};
use argon2::{Argon2, PasswordHash, PasswordHasher, PasswordVerifier};
use rand_core::OsRng;
use vstd::prelude::*;
use vstd::utf8::is_ascii_chars;

verus! {

#[verifier::external_type_specification]
#[verifier::external_body]
pub struct ExHashError(argon2::password_hash::Error);

/// Whether `s` is a well-formed PHC hash string.
pub uninterp spec fn phc_parses(s: Seq<char>) -> bool;

/// Whether Argon2 accepts `password` against the PHC hash string `hash`.
pub uninterp spec fn password_matches(password: Seq<u8>, hash: Seq<char>) -> bool;

/// A hash that the record format can hold: a well-formed PHC string, which
/// begins with the separator `$`.
pub open spec fn storable_hash(h: Seq<char>) -> bool {
    h.len() > 0 && h[0] == '$' && phc_parses(h)
}

/// Relies on `PasswordHash::new`: it accepts or refuses a PHC string by the
/// string alone.
#[verifier::external_body]
pub(crate) fn check_phc(s: &str) -> (r: Result<(), HashError>)
    ensures
        r is Ok <==> phc_parses(s@),
{
    PasswordHash::new(s).map(|_| ())
}

/// Whether `c` is a character of the B64 alphabet: `[A-Za-z0-9+/]`.
pub open spec fn b64_char(c: char) -> bool {
    let u = c as u32;
    (48 <= u <= 57) || (65 <= u <= 90) || (97 <= u <= 122) || u == 43 || u == 47
}

/// The B64 text of a 16-byte salt: 22 characters, the last of which carries
/// only the two final bits and so is one of `A`, `Q`, `g`, `w`.
pub open spec fn salt_ok(s: Seq<char>) -> bool {
    &&& s.len() == 22
    &&& forall|i: int| 0 <= i < s.len() ==> #[trigger] b64_char(s[i])
    &&& (s[21] == 'A' || s[21] == 'Q' || s[21] == 'g' || s[21] == 'w')
}

/// What `Argon2::default()` writes before the salt: algorithm, version and
/// cost parameters.
pub open spec fn phc_head() -> Seq<char> {
    seq!['$', 'a', 'r', 'g', 'o', 'n', '2', 'i', 'd', '$', 'v', '=', '1', '9', '$', 'm', '=', '1', '9', '4', '5', '6', ',', 't', '=', '2', ',', 'p', '=', '1', '$']
}

/// `h` is the PHC string of an Argon2id hash with the default parameters,
/// the salt `salt` and a 32-byte digest (43 B64 characters).
pub open spec fn default_phc(salt: Seq<char>, h: Seq<char>) -> bool {
    let n: int = phc_head().len() + salt.len() + 1int;
    &&& h.len() == n + 43
    &&& h.take(n) == phc_head() + salt + seq!['$']
    &&& forall|i: int| n <= i < h.len() ==> #[trigger] b64_char(h[i])
}

/// Relies on `SaltString::generate` over the operating system's random
/// source: 16 random bytes, B64-encoded without padding.
#[verifier::external_body]
fn generate_salt() -> (r: String)
    ensures
        salt_ok(r@),
{
    SaltString::generate(&mut OsRng).as_str().to_string()
}

/// Relies on `Argon2::hash_password` with `Argon2::default()` (Argon2id,
/// version 19, m=19456, t=2, p=1, 32-byte output), on `Salt::from_b64`,
/// which reads the salt text, and on `PasswordHash::serialize`. The call
/// fails only for a salt that does not decode and for a password over
/// 0xFFFFFFFF bytes. The serialized string is ensured to parse, and
/// `verify_password` recomputes the digest from the parameters and salt
/// written in it, so the same password matches it.
#[verifier::external_body]
fn hash_with_salt(password: &[u8], salt: &str) -> (r: Result<String, HashError>)
    ensures
        salt_ok(salt@) && password@.len() <= 0xFFFF_FFFF ==> r is Ok,
        r matches Ok(h) ==> phc_parses(h@) && default_phc(salt@, h@) && password_matches(password@, h@),
{
    let salt = Salt::from_b64(salt)?;
    Argon2::default().hash_password(password, salt).map(|h| h.serialize().as_str().to_string())
}

/// Relies on `PasswordVerifier::verify_password` of `Argon2::default()`,
/// after `PasswordHash::new` reads the string; an unreadable hash matches no
/// password.
#[verifier::external_body]
pub(crate) fn verify_with_hash(password: &[u8], hash: &str) -> (r: bool)
    ensures
        r == password_matches(password@, hash@),
{
    match PasswordHash::new(hash) {
        Ok(h) => Argon2::default().verify_password(password, &h).is_ok(),
        Err(_) => false,
    }
}

/// A hash as `create_pass_hash` makes it: an Argon2id PHC string with the
/// default parameters and a salt of B64 text, which never holds the record
/// separator `$`.
pub open spec fn fresh_hash(h: Seq<char>) -> bool {
    exists|salt: Seq<char>| salt_ok(salt) && #[trigger] default_phc(salt, h)
}

proof fn lemma_b64_ascii(c: char)
    requires
        b64_char(c),
    ensures
        '\0' <= c <= '\u{7f}',
{
}

proof fn lemma_head_ascii(j: int)
    requires
        0 <= j < phc_head().len(),
    ensures
        '\0' <= phc_head()[j] <= '\u{7f}',
{
}

/// A fresh hash is ASCII and can be stored in a record.
pub proof fn lemma_fresh_hash(h: Seq<char>)
    requires
        fresh_hash(h),
        phc_parses(h),
    ensures
        storable_hash(h),
        is_ascii_chars(h),
{
    let salt = choose|salt: Seq<char>| salt_ok(salt) && #[trigger] default_phc(salt, h);
    let n: int = phc_head().len() + salt.len() + 1int;
    let head = phc_head() + salt + seq!['$'];
    assert(h[0] == h.take(n)[0]);
    assert forall|i: int| 0 <= i < h.len() implies '\0' <= #[trigger] h[i] <= '\u{7f}' by {
        if i < n {
            assert(h[i] == head[i]);
            if i < phc_head().len() {
                lemma_head_ascii(i);
            } else if i < phc_head().len() + salt.len() {
                lemma_b64_ascii(salt[i - phc_head().len()]);
            }
        } else {
            lemma_b64_ascii(h[i]);
        }
    }
}

/// Hashes `password` with a fresh random salt. It succeeds for every
/// password of at most 0xFFFFFFFF bytes; the hash is an ASCII Argon2id PHC
/// string that the record format can hold and that `password` matches.
pub fn create_pass_hash(password: &[u8]) -> (r: Result<String, HashError>)
    ensures
        password@.len() <= 0xFFFF_FFFF ==> r is Ok,
        r matches Ok(h) ==> fresh_hash(h@) && storable_hash(h@) && is_ascii_chars(h@) && password_matches(
            password@,
            h@,
        ),
{
    let salt = generate_salt();
    let r = hash_with_salt(password, salt.as_str());
    proof {
        if r is Ok {
            let h = r->Ok_0@;
            assert(salt_ok(salt@) && default_phc(salt@, h));
            lemma_fresh_hash(h);
        }
    }
    r
}

} // verus!
