use crate::document_processor::{fresh_id, ID_LENGTH};
use crate::text::{byte_len, byte_length, chars_of, string_of};
use vstd::prelude::*;
use vstd::string::StringExecFns;

verus! {

/// What every mock token starts with.
pub const MOCK_TOKEN_PREFIX: &'static str = "mock_token_";

/// What a bearer authorization starts with, before the token.
pub const BEARER_PREFIX: &'static str = "Bearer ";

/// A mock token is valid only if it has more bytes than this.
pub const MOCK_TOKEN_MIN_BYTES: usize = 20;

/// A bearer token is accepted only if it has more bytes than this.
pub const BEARER_TOKEN_MIN_BYTES: usize = 10;

/// A password is accepted only if it has at least this many bytes.
pub const PASSWORD_MIN_BYTES: usize = 6;

/// Why a request was not authorized: a stable kind and a message for the
/// reader.
#[derive(Debug, PartialEq, Eq)]
pub struct AuthError {
    pub error: String,
    pub message: String,
}

/// Why an authorization fails.
#[derive(Debug, Clone, Copy, PartialEq, Eq, Structural)]
pub enum AuthFailure {
    /// There is no authorization header.
    MissingAuthorization,
    /// The header is no text.
    InvalidHeader,
    /// The header does not start with the bearer prefix.
    InvalidAuthorization,
    /// The token is too short.
    InvalidToken,
    /// There is no bearer token.
    MissingBearer,
}

/// What a login attempt comes to.
#[derive(Debug, Clone, Copy, PartialEq, Eq, Structural)]
pub enum LoginOutcome {
    /// The credentials are accepted.
    Accepted,
    /// The user name or the password is empty.
    MissingCredentials,
    /// The password is too short.
    InvalidCredentials,
}

/// The kind under which a failure is reported.
pub open spec fn failure_kind(failure: AuthFailure) -> Seq<char> {
    match failure {
        AuthFailure::MissingAuthorization => "missing_authorization"@,
        AuthFailure::InvalidHeader => "invalid_header"@,
        AuthFailure::InvalidAuthorization => "invalid_authorization"@,
        AuthFailure::InvalidToken => "invalid_token"@,
        AuthFailure::MissingBearer => "missing_authorization"@,
    }
}

/// The message with which a failure is reported.
pub open spec fn failure_message(failure: AuthFailure) -> Seq<char> {
    match failure {
        AuthFailure::MissingAuthorization => "Authorization header is required"@,
        AuthFailure::InvalidHeader => "Invalid authorization header format"@,
        AuthFailure::InvalidAuthorization => "Authorization header must start with 'Bearer '"@,
        AuthFailure::InvalidToken => "Token is too short or invalid"@,
        AuthFailure::MissingBearer => "Authorization Bearer token is required"@,
    }
}

/// Whether a bearer token is long enough to be accepted.
pub open spec fn is_acceptable_token(token: Seq<char>) -> bool {
    byte_len(token) > BEARER_TOKEN_MIN_BYTES
}

/// What the check of an authorization header comes to: `None` if the
/// request may pass, else the failure.
pub open spec fn header_verdict(header: Option<Seq<char>>) -> Option<AuthFailure> {
    match header {
        None => Some(AuthFailure::MissingAuthorization),
        Some(value) => if !BEARER_PREFIX@.is_prefix_of(value) {
            Some(AuthFailure::InvalidAuthorization)
        } else if is_acceptable_token(value.skip(BEARER_PREFIX@.len() as int)) {
            None
        } else {
            Some(AuthFailure::InvalidToken)
        },
    }
}

/// What the check of a bearer token comes to: `None` if the request may
/// pass, else the failure.
pub open spec fn bearer_verdict(token: Option<Seq<char>>) -> Option<AuthFailure> {
    match token {
        None => Some(AuthFailure::MissingBearer),
        Some(value) => if is_acceptable_token(value) {
            None
        } else {
            Some(AuthFailure::InvalidToken)
        },
    }
}

/// What a login attempt comes to.
pub open spec fn login_verdict(username: Seq<char>, password: Seq<char>) -> LoginOutcome {
    if username.len() == 0 || password.len() == 0 {
        LoginOutcome::MissingCredentials
    } else if byte_len(password) < PASSWORD_MIN_BYTES {
        LoginOutcome::InvalidCredentials
    } else {
        LoginOutcome::Accepted
    }
}

/// Whether a mock token has the form of one: the prefix, and more than
/// `MOCK_TOKEN_MIN_BYTES` bytes.
pub open spec fn is_mock_token(token: Seq<char>) -> bool {
    MOCK_TOKEN_PREFIX@.is_prefix_of(token) && byte_len(token) > MOCK_TOKEN_MIN_BYTES
}

/// Whether `text` starts with `prefix`.
pub fn starts_with(text: &str, prefix: &str) -> (found: bool)
    ensures
        found == prefix@.is_prefix_of(text@),
{
    let text_chars = chars_of(text);
    let prefix_chars = chars_of(prefix);
    if prefix_chars.len() > text_chars.len() {
        return false;
    }
    let mut i: usize = 0;
    while i < prefix_chars.len()
        invariant
            i <= prefix_chars.len() <= text_chars.len(),
            text_chars@ == text@,
            prefix_chars@ == prefix@,
            forall|k: int| 0 <= k < i ==> text_chars@[k] == prefix_chars@[k],
        decreases prefix_chars.len() - i,
    {
        if text_chars[i] != prefix_chars[i] {
            assert(text_chars@.subrange(0, prefix_chars@.len() as int)[i as int]
                != prefix_chars@[i as int]);
            return false;
        }
        i += 1;
    }
    assert(text_chars@.subrange(0, prefix_chars@.len() as int) == prefix_chars@);
    true
}

/// What is left of `text` after its first `n` characters.
pub fn skip_chars(text: &str, n: usize) -> (rest: String)
    requires
        n <= text@.len(),
    ensures
        rest@ == text@.skip(n as int),
{
    let chars = chars_of(text);
    let mut rest: Vec<char> = Vec::new();
    let mut i: usize = n;
    while i < chars.len()
        invariant
            n <= i <= chars.len(),
            rest@ == chars@.subrange(n as int, i as int),
        decreases chars.len() - i,
    {
        rest.push(chars[i]);
        i += 1;
    }
    string_of(&rest)
}

/// The error that reports a failure.
pub fn auth_error(failure: AuthFailure) -> (error: AuthError)
    ensures
        error.error@ == failure_kind(failure),
        error.message@ == failure_message(failure),
{
    match failure {
        AuthFailure::MissingAuthorization => AuthError {
            error: "missing_authorization".to_string(),
            message: "Authorization header is required".to_string(),
        },
        AuthFailure::InvalidHeader => AuthError {
            error: "invalid_header".to_string(),
            message: "Invalid authorization header format".to_string(),
        },
        AuthFailure::InvalidAuthorization => AuthError {
            error: "invalid_authorization".to_string(),
            message: "Authorization header must start with 'Bearer '".to_string(),
        },
        AuthFailure::InvalidToken => AuthError {
            error: "invalid_token".to_string(),
            message: "Token is too short or invalid".to_string(),
        },
        AuthFailure::MissingBearer => AuthError {
            error: "missing_authorization".to_string(),
            message: "Authorization Bearer token is required".to_string(),
        },
    }
}

/// Checks the value of an authorization header, if there is one.
pub fn check_authorization(header: Option<&str>) -> (verdict: Option<AuthFailure>)
    ensures
        verdict == header_verdict(
            match header {
                Some(value) => Some(value@),
                None => None,
            },
        ),
{
    match header {
        None => Some(AuthFailure::MissingAuthorization),
        Some(value) => {
            if !starts_with(value, BEARER_PREFIX) {
                return Some(AuthFailure::InvalidAuthorization);
            }
            let prefix_len = BEARER_PREFIX.unicode_len();
            let token = skip_chars(value, prefix_len);
            if byte_length(token.as_str()) > BEARER_TOKEN_MIN_BYTES {
                None
            } else {
                Some(AuthFailure::InvalidToken)
            }
        },
    }
}

/// Checks a bearer token, if there is one.
pub fn check_bearer_token(token: Option<&str>) -> (verdict: Option<AuthFailure>)
    ensures
        verdict == bearer_verdict(
            match token {
                Some(value) => Some(value@),
                None => None,
            },
        ),
{
    match token {
        None => Some(AuthFailure::MissingBearer),
        Some(value) => if byte_length(value) > BEARER_TOKEN_MIN_BYTES {
            None
        } else {
            Some(AuthFailure::InvalidToken)
        },
    }
}

/// Checks the credentials of a login attempt.
pub fn check_login(username: &str, password: &str) -> (outcome: LoginOutcome)
    ensures
        outcome == login_verdict(username@, password@),
{
    if username.unicode_len() == 0 || password.unicode_len() == 0 {
        LoginOutcome::MissingCredentials
    } else if byte_length(password) < PASSWORD_MIN_BYTES {
        LoginOutcome::InvalidCredentials
    } else {
        LoginOutcome::Accepted
    }
}

/// The mock token of a user with the given identifier: the prefix, the
/// user's name, an underscore and the identifier.
pub open spec fn mock_token_of(user_id: Seq<char>, id: Seq<char>) -> Seq<char> {
    MOCK_TOKEN_PREFIX@ + user_id + "_"@ + id
}

/// The mock token of a user with the given identifier.
pub fn mock_token(user_id: &str, id: &str) -> (token: String)
    ensures
        token@ == mock_token_of(user_id@, id@),
{
    let mut token = String::new();
    token.append(MOCK_TOKEN_PREFIX);
    token.append(user_id);
    token.append("_");
    token.append(id);
    token
}

/// A new mock token for a user: the mock token of the user with a random
/// identifier.
pub fn generate_mock_token(user_id: &str) -> (token: String)
    ensures
        exists|id: Seq<char>| id.len() == ID_LENGTH && token@ == mock_token_of(user_id@, id),
{
    let id = fresh_id();
    let token = mock_token(user_id, id.as_str());
    assert(id@.len() == ID_LENGTH && token@ == mock_token_of(user_id@, id@));
    token
}

/// Whether a token has the form of a mock token.
pub fn validate_mock_token(token: &str) -> (valid: bool)
    ensures
        valid == is_mock_token(token@),
{
    starts_with(token, MOCK_TOKEN_PREFIX) && byte_length(token) > MOCK_TOKEN_MIN_BYTES
}

} // verus!
