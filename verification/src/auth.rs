//! Authentication over the `users` store: users are kept as [`StoredUser`]
//! documents with an argon2 PHC hash of the password (`Argon2::default()`).
//! Sessions are not stored: logging in only checks the credentials.
use crate::catalog::AppError;
use crate::models::{StoredUser, User};
use crate::text::{ascii_lower, is_ascii_text, lowercase, lowercase_of, push_text, trim, trimmed};
use argon2::password_hash::rand_core::OsRng;
use argon2::password_hash::{PasswordHash, SaltString};
use argon2::{Argon2, PasswordHasher, PasswordVerifier};
use vstd::prelude::*;

verus! {

/// Whether `PasswordHash::new` accepts `hash` as a PHC string.
pub uninterp spec fn phc_well_formed(hash: Seq<char>) -> bool;

/// Whether `Argon2::default().verify_password` accepts `password` against
/// the PHC string `hash`.
pub uninterp spec fn argon2_accepts(password: Seq<char>, hash: Seq<char>) -> bool;

/// `Argon2::default().hash_password(password, salt)` with a fresh salt from
/// `SaltString::generate(&mut OsRng)`, as its PHC string, or the error's
/// text. Claimed: it succeeds when the password fits argon2's limit of
/// `0xFFFF_FFFF` bytes (a `char` takes at most 4 bytes; the drawn salt has
/// 16 bytes, past the 8-byte minimum); a hash it returns starts with
/// `$argon2`, `PasswordHash::new` parses it and `verify_password` accepts
/// `password` against it. Which salt was drawn is left unsaid.
#[verifier::external_body]
fn argon2_hash(password: &str) -> (r: Result<String, String>)
    ensures
        password@.len() < 0x4000_0000 ==> r is Ok,
        r matches Ok(h) ==> phc_well_formed(h@) && argon2_accepts(password@, h@) && h@.len()
            >= 7 && h@.subrange(0, 7) == "$argon2"@,
{
    let salt = SaltString::generate(&mut OsRng);
    match Argon2::default().hash_password(password.as_bytes(), &salt) {
        Ok(h) => Ok(h.to_string()),
        Err(e) => Err(e.to_string()),
    }
}

/// `PasswordHash::new(hash)` followed by `Argon2::default().verify_password`.
/// Claimed: an error (its text) exactly when the PHC string does not parse;
/// otherwise whether the password is accepted, as named by
/// `argon2_accepts`.
#[verifier::external_body]
fn argon2_check(password: &str, hash: &str) -> (r: Result<bool, String>)
    ensures
        r is Ok <==> phc_well_formed(hash@),
        r matches Ok(b) ==> b == argon2_accepts(password@, hash@),
{
    match PasswordHash::new(hash) {
        Ok(parsed) => Ok(Argon2::default().verify_password(password.as_bytes(), &parsed).is_ok()),
        Err(e) => Err(e.to_string()),
    }
}

fn prefixed(prefix: &str, s: &str) -> (r: String)
    ensures
        r@ == prefix@ + s@,
{
    let mut r = String::new();
    push_text(&mut r, prefix);
    push_text(&mut r, s);
    r
}

/// Hashes a password with a fresh random salt. It succeeds for every
/// password within argon2's length limit; a failure is
/// `Store("argon2 hash: ...")`.
pub fn hash_password(password: &str) -> (r: Result<String, AppError>)
    ensures
        password@.len() < 0x4000_0000 ==> r is Ok,
        r matches Ok(h) ==> phc_well_formed(h@) && argon2_accepts(password@, h@) && h@.len()
            >= 7 && h@.subrange(0, 7) == "$argon2"@,
        r matches Err(e) ==> (e matches AppError::Store(m) && m@.len() >= 13 && m@.subrange(0, 13)
            == "argon2 hash: "@),
{
    match argon2_hash(password) {
        Ok(h) => Ok(h),
        Err(e) => {
            let m = prefixed("argon2 hash: ", e.as_str());
            proof {
                reveal_strlit("argon2 hash: ");
                assert(m@.subrange(0, 13) =~= "argon2 hash: "@);
            }
            Err(AppError::Store(m))
        },
    }
}

/// Checks a password against a stored PHC string. A string that does not
/// parse is `Store("argon2 parse: ...")`.
pub fn verify_password(password: &str, hash: &str) -> (r: Result<bool, AppError>)
    ensures
        r is Ok <==> phc_well_formed(hash@),
        r matches Ok(b) ==> b == argon2_accepts(password@, hash@),
        r matches Err(e) ==> (e matches AppError::Store(m) && m@.len() >= 14 && m@.subrange(0, 14)
            == "argon2 parse: "@),
{
    match argon2_check(password, hash) {
        Ok(b) => Ok(b),
        Err(e) => {
            let m = prefixed("argon2 parse: ", e.as_str());
            proof {
                reveal_strlit("argon2 parse: ");
                assert(m@.subrange(0, 14) =~= "argon2 parse: "@);
            }
            Err(AppError::Store(m))
        },
    }
}

/// The default user: `admin`, role `super_admin`, first name `Admin`,
/// with the given password hash.
pub fn admin_user(hash: String) -> (u: StoredUser)
    ensures
        u.username@ == "admin"@,
        u.role@ == "super_admin"@,
        u.nombre matches Some(n) && n@ == "Admin"@,
        u.apellido is None,
        u.email is None,
        u.avatar_url is None,
        u.password_hash == hash,
{
    StoredUser {
        username: "admin".to_owned(),
        role: "super_admin".to_owned(),
        nombre: Some("Admin".to_owned()),
        apellido: None,
        email: None,
        avatar_url: None,
        password_hash: hash,
    }
}

/// What logging in with `password` against the stored user gives, before
/// the user is built: `Some(false)` without a user, `None` when the stored
/// hash does not parse, and otherwise whether argon2 accepts the password.
pub open spec fn login_verdict(stored: Option<StoredUser>, password: Seq<char>) -> Option<bool> {
    match stored {
        None => Some(false),
        Some(s) => if phc_well_formed(s.password_hash@) {
            Some(argon2_accepts(password, s.password_hash@))
        } else {
            None
        },
    }
}

/// The default user to store when the `users` store is empty (`None` when
/// it is not: the call is idempotent): `admin`/`admin`, role `super_admin`.
pub fn ensure_admin(users_empty: bool) -> (r: Result<Option<StoredUser>, AppError>)
    ensures
        !users_empty ==> r matches Ok(None),
        users_empty ==> r matches Ok(Some(_)),
        r matches Ok(Some(u)) ==> u.username@ == "admin"@ && u.role@ == "super_admin"@
            && (u.nombre matches Some(n) && n@ == "Admin"@) && u.apellido is None && u.email is None
            && u.avatar_url is None && u.password_hash@.len() >= 7 && u.password_hash@.subrange(
            0,
            7,
        ) == "$argon2"@ && login_verdict(Some(u), "admin"@) == Some(true),
        r matches Err(e) ==> (e matches AppError::Store(m) && m@.len() >= 13 && m@.subrange(0, 13)
            == "argon2 hash: "@),
{
    if !users_empty {
        return Ok(None);
    }
    let password = "admin";
    proof {
        reveal_strlit("admin");
    }
    match hash_password(password) {
        Ok(h) => Ok(Some(admin_user(h))),
        Err(e) => Err(e),
    }
}

/// The key a login looks the user up by: the name trimmed and lowercased.
pub fn login_key(username: &str) -> (r: String)
    ensures
        r@ == lowercase_of(trim(username@)),
        is_ascii_text(trim(username@)) ==> r@ == ascii_lower(trim(username@)),
{
    let t = trimmed(username);
    lowercase(t.as_str())
}

/// The outcome of a login given the stored user under its key: `Ok(None)`
/// for no user or a wrong password, `Ok(Some(user))` (without the hash) for
/// good credentials, and `Err` when the stored hash does not parse.
pub fn login_outcome(stored: Option<StoredUser>, password: &str) -> (r: Result<Option<User>, AppError>)
    ensures
        login_verdict(stored, password@) == Some(false) ==> r matches Ok(None),
        login_verdict(stored, password@) is None ==> (r matches Err(AppError::Store(m))
            && m@.len() >= 14 && m@.subrange(0, 14) == "argon2 parse: "@),
        login_verdict(stored, password@) == Some(true) ==> (r matches Ok(Some(u))
            && u.username == stored->0.username && u.role == stored->0.role && u.nombre
            == stored->0.nombre && u.apellido == stored->0.apellido && u.email
            == stored->0.email && u.avatar_url == stored->0.avatar_url),
{
    match stored {
        None => Ok(None),
        Some(s) => {
            let ok = verify_password(password, s.password_hash.as_str());
            match ok {
                Ok(true) => Ok(Some(s.into_user())),
                Ok(false) => Ok(None),
                Err(e) => Err(e),
            }
        },
    }
}

/// The user seeded into an empty store logs in with `admin`/`admin`: what
/// seeding writes, logging in reads back.
pub proof fn law_seeded_admin_logs_in(seeded: StoredUser)
    requires
        phc_well_formed(seeded.password_hash@),
        argon2_accepts("admin"@, seeded.password_hash@),
    ensures
        login_verdict(Some(seeded), "admin"@) == Some(true),
{
}

} // verus!
