//! The credential verifier of the static-credential mode: one configured
//! user name and an argon2 hash of its password, checked against an HTTP
//! `Authorization: Basic` header.

use argon2::password_hash::rand_core::OsRng;
use argon2::password_hash::{PasswordHash, PasswordHasher, PasswordVerifier, SaltString};
use argon2::Argon2;
use headers::authorization::Basic;
use headers::{Authorization, Header, HeaderValue};
use vstd::prelude::*;

verus! {

#[verifier::external_type_specification]
#[verifier::external_body]
pub struct ExPasswordHashError(argon2::password_hash::Error);

/// The user name and password that a `Basic` header value carries, or
/// `None` where it is no valid one.
pub uninterp spec fn basic_decoded(value: Seq<u8>) -> Option<(Seq<char>, Seq<char>)>;

/// Whether `phc` parses as a PHC string.
pub uninterp spec fn phc_parses(phc: Seq<char>) -> bool;

/// Whether `password` matches the argon2 hash in the PHC string `phc`.
pub uninterp spec fn argon2_matches(password: Seq<char>, phc: Seq<char>) -> bool;

/// What checking `password` against the stored `phc` gives: `None` where
/// the stored string is no PHC string, else whether the password matches.
pub open spec fn password_verdict(password: Seq<char>, phc: Seq<char>) -> Option<bool> {
    if phc_parses(phc) {
        Some(argon2_matches(password, phc))
    } else {
        None
    }
}

/// Relies on password_hash's `SaltString::generate` with `OsRng` (a fresh
/// 16-byte salt) and argon2's `PasswordHasher::hash_password` with default
/// parameters, which fails only for a password over `0xFFFFFFFF` bytes
/// (at most four per character). The PHC string it returns parses, and
/// verifying the same password against it recomputes the same hash.
#[verifier::external_body]
fn hash_new_password(password: &str) -> (r: Result<String, argon2::password_hash::Error>)
    ensures
        password@.len() <= 0x3FFF_FFFF ==> r is Ok,
        r matches Ok(h) ==> phc_parses(h@) && argon2_matches(password@, h@),
{
    let salt = SaltString::generate(&mut OsRng);
    match Argon2::default().hash_password(password.as_bytes(), &salt) {
        Ok(hash) => Ok(hash.to_string()),
        Err(e) => Err(e),
    }
}

/// Relies on password_hash's `PasswordHash::new`, which parses a PHC
/// string, and on argon2's `PasswordVerifier::verify_password`, which
/// recomputes the hash of `password` with the parsed parameters and salt
/// and compares. Both depend on their arguments alone; whether the string
/// parses does not depend on the password.
#[verifier::external_body]
fn check_password(password: &str, phc: &str) -> (r: Option<bool>)
    ensures
        r is Some <==> phc_parses(phc@),
        r matches Some(b) ==> b == argon2_matches(password@, phc@),
{
    match PasswordHash::new(phc) {
        Ok(parsed) => Some(Argon2::default().verify_password(password.as_bytes(), &parsed).is_ok()),
        Err(_) => None,
    }
}

/// Relies on headers' `Authorization::<Basic>::decode`, on the value that
/// http's `HeaderValue::from_bytes` makes of `value`: the decoded user name
/// and password, or `None`. It depends on the bytes alone.
#[verifier::external_body]
fn decode_basic(value: &[u8]) -> (r: Option<(String, String)>)
    ensures
        match r {
            None => basic_decoded(value@) is None,
            Some((user, password)) => basic_decoded(value@) == Some((user@, password@)),
        },
{
    let header = match HeaderValue::from_bytes(value) {
        Ok(header) => header,
        Err(_) => return None,
    };
    match Authorization::<Basic>::decode(&mut std::iter::once(&header)) {
        Ok(auth) => Some((auth.username().to_owned(), auth.password().to_owned())),
        Err(_) => None,
    }
}

/// Why a caller was turned away.
#[derive(Clone, Copy, Debug, PartialEq, Eq, Structural)]
pub enum AuthError {
    /// Missing, malformed or wrong credentials.
    Unauthorized,
    /// The stored hash is unusable, or could not be made.
    Internal,
}

/// A user name and password as presented.
pub struct BasicCredentials {
    pub username: String,
    pub password: String,
}

/// The configured user and the PHC string of its password's hash.
pub struct AuthConfig {
    pub username: String,
    pub password_hash: String,
}

/// The answer to presenting `user` and `password` to a configuration for
/// `expected_user`, where checking the password against the stored hash
/// gives `verdict`. The user name must match exactly, and an empty
/// password is refused before any hashing.
pub open spec fn credentials_outcome(
    expected_user: Seq<char>,
    user: Seq<char>,
    password: Seq<char>,
    verdict: Option<bool>,
) -> Result<(), AuthError> {
    if user != expected_user || password.len() == 0 {
        Err(AuthError::Unauthorized)
    } else {
        match verdict {
            None => Err(AuthError::Internal),
            Some(true) => Ok(()),
            Some(false) => Err(AuthError::Unauthorized),
        }
    }
}

/// The answer to a request whose `Authorization` header is `header`.
pub open spec fn header_outcome(
    expected_user: Seq<char>,
    phc: Seq<char>,
    header: Option<Seq<u8>>,
) -> Result<(), AuthError> {
    match header {
        None => Err(AuthError::Unauthorized),
        Some(value) => match basic_decoded(value) {
            None => Err(AuthError::Unauthorized),
            Some((user, password)) => credentials_outcome(
                expected_user,
                user,
                password,
                password_verdict(password, phc),
            ),
        },
    }
}

impl AuthConfig {
    /// A configuration for `username`, hashing `password` with a fresh
    /// random salt. Succeeds for every password that argon2 accepts; the
    /// stored hash then accepts `password`. Fails with `Internal` where
    /// hashing fails.
    pub fn new(username: &str, password: &str) -> (r: Result<AuthConfig, AuthError>)
        ensures
            password@.len() <= 0x3FFF_FFFF ==> r is Ok,
            r matches Ok(config) ==> config.username@ == username@ && phc_parses(config.password_hash@)
                && argon2_matches(password@, config.password_hash@),
            r is Err ==> r == Err::<AuthConfig, AuthError>(AuthError::Internal),
    {
        match hash_new_password(password) {
            Ok(password_hash) => Ok(AuthConfig { username: username.to_owned(), password_hash }),
            Err(_) => Err(AuthError::Internal),
        }
    }
}

/// Turns what the `Basic` decoder gave into credentials.
pub fn credentials_from_decoded(decoded: Option<(String, String)>) -> (r: Result<BasicCredentials, AuthError>)
    ensures
        match decoded {
            None => r == Err::<BasicCredentials, AuthError>(AuthError::Unauthorized),
            Some((user, password)) => r matches Ok(c) && c.username@ == user@ && c.password@ == password@,
        },
{
    match decoded {
        None => Err(AuthError::Unauthorized),
        Some((username, password)) => Ok(BasicCredentials { username, password }),
    }
}

/// Reads the credentials of an `Authorization` header: `Unauthorized`
/// where there is none, or where it is no valid `Basic` value.
pub fn extract_basic_auth(header: Option<&[u8]>) -> (r: Result<BasicCredentials, AuthError>)
    ensures
        match header {
            None => r == Err::<BasicCredentials, AuthError>(AuthError::Unauthorized),
            Some(value) => match basic_decoded(value@) {
                None => r == Err::<BasicCredentials, AuthError>(AuthError::Unauthorized),
                Some((user, password)) => r matches Ok(c) && c.username@ == user && c.password@ == password,
            },
        },
{
    match header {
        None => Err(AuthError::Unauthorized),
        Some(value) => credentials_from_decoded(decode_basic(value)),
    }
}

/// Decides on `credentials` given the `verdict` of checking the password
/// against the stored hash.
pub fn judge_credentials(config: &AuthConfig, credentials: &BasicCredentials, verdict: Option<bool>) -> (r: Result<(), AuthError>)
    ensures
        r == credentials_outcome(config.username@, credentials.username@, credentials.password@, verdict),
{
    if credentials.username != config.username || credentials.password.as_str().is_empty() {
        return Err(AuthError::Unauthorized);
    }
    match verdict {
        None => Err(AuthError::Internal),
        Some(true) => Ok(()),
        Some(false) => Err(AuthError::Unauthorized),
    }
}

/// Checks `credentials` against `config`; the password is hashed only
/// where the user name matches and the password is not empty.
pub fn authenticate_user(config: &AuthConfig, credentials: &BasicCredentials) -> (r: Result<(), AuthError>)
    ensures
        r == credentials_outcome(
            config.username@,
            credentials.username@,
            credentials.password@,
            password_verdict(credentials.password@, config.password_hash@),
        ),
{
    if credentials.username != config.username || credentials.password.as_str().is_empty() {
        return Err(AuthError::Unauthorized);
    }
    let verdict = check_password(credentials.password.as_str(), config.password_hash.as_str());
    judge_credentials(config, credentials, verdict)
}

/// Checks the `Authorization` header of one request. Each request is judged
/// on its own header alone.
pub fn authenticate_header(config: &AuthConfig, header: Option<&[u8]>) -> (r: Result<(), AuthError>)
    ensures
        r == header_outcome(
            config.username@,
            config.password_hash@,
            match header {
                None => None,
                Some(value) => Some(value@),
            },
        ),
{
    match extract_basic_auth(header) {
        Err(e) => Err(e),
        Ok(credentials) => authenticate_user(config, &credentials),
    }
}

/// Each way of presenting wrong credentials is refused with
/// `Unauthorized`: no header, a header that is no `Basic` value, another
/// user name, an empty password, a password that does not match. The right
/// user name with a password that matches the stored hash is accepted.
pub proof fn lemma_static_auth(expected_user: Seq<char>, phc: Seq<char>, value: Seq<u8>)
    ensures
        header_outcome(expected_user, phc, None) == Err::<(), AuthError>(AuthError::Unauthorized),
        basic_decoded(value) is None ==> header_outcome(expected_user, phc, Some(value)) == Err::<
            (),
            AuthError,
        >(AuthError::Unauthorized),
        basic_decoded(value) matches Some((user, password)) ==> {
            &&& user != expected_user ==> header_outcome(expected_user, phc, Some(value)) == Err::<
                (),
                AuthError,
            >(AuthError::Unauthorized)
            &&& password.len() == 0 ==> header_outcome(expected_user, phc, Some(value)) == Err::<
                (),
                AuthError,
            >(AuthError::Unauthorized)
            &&& phc_parses(phc) && !argon2_matches(password, phc) ==> header_outcome(
                expected_user,
                phc,
                Some(value),
            ) == Err::<(), AuthError>(AuthError::Unauthorized)
            &&& (user == expected_user && password.len() > 0 && phc_parses(phc) && argon2_matches(
                password,
                phc,
            )) ==> header_outcome(expected_user, phc, Some(value)) == Ok::<(), AuthError>(())
        },
{
}

/// Against a configuration whose stored hash parses and accepts
/// `password`, as `AuthConfig::new` makes it, each request is judged on its
/// own header: the configured user name with `password` is accepted, and
/// no header ever meets an internal error, only acceptance or
/// `Unauthorized`.
pub proof fn lemma_configured_credentials(user: Seq<char>, password: Seq<char>, phc: Seq<char>, value: Seq<u8>)
    requires
        phc_parses(phc),
        argon2_matches(password, phc),
    ensures
        password.len() > 0 && basic_decoded(value) == Some((user, password)) ==> header_outcome(
            user,
            phc,
            Some(value),
        ) == Ok::<(), AuthError>(()),
        header_outcome(user, phc, Some(value)) != Err::<(), AuthError>(AuthError::Internal),
        header_outcome(user, phc, None) == Err::<(), AuthError>(AuthError::Unauthorized),
{
}

} // verus!
