//! Credential checks of the admin interface.
use vstd::prelude::*;

verus! {

/// The claims of an admin token: the credential it carries.
#[derive(Debug)]
pub struct Claims {
    pub hex: String,
    pub exp: usize,
}

/// Proof that a request carried a valid token.
#[derive(Debug)]
pub struct Auth;

/// Why an admin request was refused.
#[derive(Debug, PartialEq, Eq, Structural)]
pub enum AuthError {
    WrongCredentials,
    MissingCredentials,
    TokenCreation,
    InvalidToken,
    CredentialsNotFound,
    CredentialsAlreadyExists,
    FileWriteError,
}

/// Checks the credential of `token` against the stored one.
pub fn auth_verify(token: &Claims, credentials: Option<&String>) -> (r: Result<(), AuthError>)
    ensures
        r == auth_verify_spec(token.hex@, credentials),
        credentials is None ==> r == Err::<(), AuthError>(AuthError::CredentialsNotFound),
        credentials matches Some(c) ==> (r is Ok <==> token.hex@ == c@),
        credentials matches Some(c) && token.hex@ != c@ ==> r == Err::<(), AuthError>(
            AuthError::WrongCredentials,
        ),
{
    match credentials {
        None => Err(AuthError::CredentialsNotFound),
        Some(c) => if token.hex == *c {
            Ok(())
        } else {
            Err(AuthError::WrongCredentials)
        },
    }
}

/// Whether a first credential may be registered: it must not be empty, and
/// none may be stored yet.
pub fn check_register(request: &Claims, credentials: Option<&String>) -> (r: Result<(), AuthError>)
    ensures
        request.hex@.len() == 0 ==> r == Err::<(), AuthError>(AuthError::MissingCredentials),
        request.hex@.len() > 0 && credentials is Some ==> r == Err::<(), AuthError>(
            AuthError::CredentialsAlreadyExists,
        ),
        r is Ok <==> request.hex@.len() > 0 && credentials is None,
{
    if request.hex.as_str().is_empty() {
        return Err(AuthError::MissingCredentials);
    }
    match credentials {
        Some(_) => Err(AuthError::CredentialsAlreadyExists),
        None => Ok(()),
    }
}

/// Whether a token may be issued for `request`: its credential must not be
/// empty and must match the stored one.
pub fn check_authorize(request: &Claims, credentials: Option<&String>) -> (r: Result<(), AuthError>)
    ensures
        request.hex@.len() == 0 ==> r == Err::<(), AuthError>(AuthError::MissingCredentials),
        r is Ok <==> request.hex@.len() > 0 && (credentials matches Some(c) && request.hex@ == c@),
        request.hex@.len() > 0 ==> r == auth_verify_spec(request.hex@, credentials),
{
    if request.hex.as_str().is_empty() {
        return Err(AuthError::MissingCredentials);
    }
    auth_verify(request, credentials)
}

/// What `auth_verify` returns.
pub open spec fn auth_verify_spec(hex: Seq<char>, credentials: Option<&String>) -> Result<(), AuthError> {
    match credentials {
        None => Err(AuthError::CredentialsNotFound),
        Some(c) => if hex == c@ {
            Ok(())
        } else {
            Err(AuthError::WrongCredentials)
        },
    }
}

/// The HTTP status of a refusal.
pub fn status_code(e: &AuthError) -> (r: u16)
    ensures
        *e == AuthError::WrongCredentials ==> r == 401,
        (*e == AuthError::MissingCredentials || *e == AuthError::CredentialsAlreadyExists || *e
            == AuthError::InvalidToken) ==> r == 400,
        (*e == AuthError::TokenCreation || *e == AuthError::CredentialsNotFound || *e
            == AuthError::FileWriteError) ==> r == 500,
{
    match e {
        AuthError::WrongCredentials => 401,
        AuthError::MissingCredentials | AuthError::CredentialsAlreadyExists
        | AuthError::InvalidToken => 400,
        AuthError::TokenCreation | AuthError::CredentialsNotFound | AuthError::FileWriteError => 500,
    }
}

} // verus!
