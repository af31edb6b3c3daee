//! Who may use the router: what a token claims, and how passwords are
//! checked.

use vstd::prelude::*;
use crate::text::{append_str, chars_of, string_of};

verus! {

/// What a token says of its bearer.
#[derive(Debug)]
pub struct Claims {
    /// The user's name.
    pub sub: String,
    /// When the token ends, in seconds since the epoch.
    pub exp: i64,
    /// When the token was issued, in seconds since the epoch.
    pub iat: i64,
    /// `admin`, `user` or `viewer`.
    pub role: String,
}

/// A user name and a password.
#[derive(Debug)]
pub struct LoginRequest {
    pub username: String,
    pub password: String,
}

/// A token and how to use it.
#[derive(Debug)]
pub struct AuthResponse {
    pub access_token: String,
    pub token_type: String,
    /// How long the token lasts, in seconds.
    pub expires_in: i64,
}

/// The seconds that a token lasts: a day.
pub const TOKEN_LIFETIME: i64 = 86400;

/// The work factor that passwords are hashed with.
pub const HASH_COST: u32 = 12;

/// What went wrong with a password.
#[derive(Debug)]
pub enum AuthError {
    /// The password could not be hashed.
    Hashing(String),
    /// The password could not be held against the hash.
    Verification(String),
}

impl AuthError {
    /// The message that goes with the error.
    pub fn message(&self) -> (m: String)
        ensures
            m@ == (match *self {
                AuthError::Hashing(d) => "Password hashing failed: "@ + d@,
                AuthError::Verification(d) => "Password verification failed: "@ + d@,
            }),
    {
        let (head, detail) = match self {
            AuthError::Hashing(d) => ("Password hashing failed: ", d),
            AuthError::Verification(d) => ("Password verification failed: ", d),
        };
        let mut out = chars_of(head);
        append_str(&mut out, detail.as_str());
        string_of(out.as_slice())
    }
}

#[verifier::external_type_specification]
#[verifier::external_body]
pub struct ExBcryptError(bcrypt::BcryptError);

/// Whether `password` is the password that `hash` was made from, as
/// `bcrypt::verify` finds; nothing where `hash` is no hash that it can read.
pub uninterp spec fn bcrypt_matches(password: Seq<char>, hash: Seq<char>) -> Option<bool>;

/// Hashes with `bcrypt::hash`, which salts the hash with random bytes: two
/// calls on one password differ, and whether a hash comes back at all is up
/// to the source of randomness. Two things are claimed. A work factor
/// outside 4..=31 is refused. And a hash that comes back is a hash of the
/// password: `bcrypt::verify` reads it, works the password through with the
/// salt and the work factor that the hash names, and finds that it matches.
#[verifier::external_body]
fn bcrypt_hash(password: &str, cost: u32) -> (r: Result<String, bcrypt::BcryptError>)
    ensures
        !(4 <= cost <= 31) ==> r is Err,
        r matches Ok(h) ==> bcrypt_matches(password@, h@) == Some(true),
{
    bcrypt::hash(password, cost)
}

/// Holds a password against a hash with `bcrypt::verify`. The outcome is
/// taken to depend on the two texts alone: [`bcrypt_matches`].
#[verifier::external_body]
fn bcrypt_verify(password: &str, hash: &str) -> (r: Result<bool, bcrypt::BcryptError>)
    ensures
        match r {
            Ok(b) => bcrypt_matches(password@, hash@) == Some(b),
            Err(_) => bcrypt_matches(password@, hash@) is None,
        },
{
    bcrypt::verify(password, hash)
}

/// What `bcrypt::BcryptError` says of itself through its `Display`.
#[verifier::external_body]
fn bcrypt_error_text(e: &bcrypt::BcryptError) -> (s: String) {
    e.to_string()
}

/// The claims of a token issued at the time `now` to the user `username`
/// in the role `role`: it ends a day later.
pub open spec fn claims_at(now: i64) -> (i64, i64) {
    (
        if now + TOKEN_LIFETIME > i64::MAX {
            i64::MAX
        } else {
            (now + TOKEN_LIFETIME) as i64
        },
        now,
    )
}

pub struct AuthManager {
    secret: String,
}

impl AuthManager {
    /// The secret that tokens are signed with.
    pub closed spec fn secret_view(&self) -> Seq<char> {
        self.secret@
    }

    pub fn new(secret: String) -> (m: Self)
        ensures
            m.secret_view() == secret@,
    {
        AuthManager { secret }
    }

    /// The secret that tokens are signed with.
    pub fn secret(&self) -> (s: &str)
        ensures
            s@ == self.secret_view(),
    {
        self.secret.as_str()
    }

    /// The claims of a token issued at the time `now`: see [`claims_at`].
    pub fn claims(username: &str, role: &str, now: i64) -> (c: Claims)
        ensures
            c.sub@ == username@,
            c.role@ == role@,
            (c.exp, c.iat) == claims_at(now),
    {
        let exp: i64 = if now > i64::MAX - TOKEN_LIFETIME {
            i64::MAX
        } else {
            now + TOKEN_LIFETIME
        };
        Claims { sub: username.to_string(), exp, iat: now, role: role.to_string() }
    }

    /// The answer that hands a signed token out.
    pub fn token_response(token: String) -> (r: AuthResponse)
        ensures
            r.access_token@ == token@,
            r.token_type@ == "Bearer"@,
            r.expires_in == TOKEN_LIFETIME,
    {
        AuthResponse {
            access_token: token,
            token_type: "Bearer".to_string(),
            expires_in: TOKEN_LIFETIME,
        }
    }

    /// What hashing comes to: the hash, or the error with its text.
    pub fn hashing_outcome(r: Result<String, bcrypt::BcryptError>) -> (out: Result<
        String,
        AuthError,
    >)
        ensures
            match out {
                Ok(h) => r is Ok && h@ == r->Ok_0@,
                Err(e) => r is Err && e is Hashing,
            },
    {
        match r {
            Ok(h) => Ok(h),
            Err(e) => Err(AuthError::Hashing(bcrypt_error_text(&e))),
        }
    }

    /// What checking comes to: whether the password is the right one, or the
    /// error with its text.
    pub fn checking_outcome(r: Result<bool, bcrypt::BcryptError>) -> (out: Result<bool, AuthError>)
        ensures
            match out {
                Ok(b) => r == Ok::<bool, bcrypt::BcryptError>(b),
                Err(e) => r is Err && e is Verification,
            },
    {
        match r {
            Ok(b) => Ok(b),
            Err(e) => Err(AuthError::Verification(bcrypt_error_text(&e))),
        }
    }

    /// Hashes a password with a fresh random salt. Whether that succeeds is
    /// up to the source of randomness. The hash that comes back is one that
    /// [`verify_password`](Self::verify_password) accepts for the password.
    pub fn hash_password(password: &str) -> (r: Result<String, AuthError>)
        ensures
            match r {
                Ok(h) => bcrypt_matches(password@, h@) == Some(true),
                Err(e) => e is Hashing,
            },
    {
        Self::hashing_outcome(bcrypt_hash(password, HASH_COST))
    }

    /// Whether `password` is the password that `hash` was made from. It is
    /// an error where `hash` is no hash.
    pub fn verify_password(password: &str, hash: &str) -> (r: Result<bool, AuthError>)
        ensures
            match r {
                Ok(b) => bcrypt_matches(password@, hash@) == Some(b),
                Err(e) => bcrypt_matches(password@, hash@) is None && e is Verification,
            },
    {
        Self::checking_outcome(bcrypt_verify(password, hash))
    }
}

} // verus!
