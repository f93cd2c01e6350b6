use rag_system::auth::{
    auth_error,
    check_authorization,
    check_bearer_token,
    check_login,
    generate_mock_token,
    mock_token,
    skip_chars,
    starts_with,
    validate_mock_token,
    AuthError,
    AuthFailure,
    LoginOutcome,
};

#[test]
fn prefix_test_compares_characters() {
    assert!(starts_with("Bearer abc", "Bearer "));
    assert!(starts_with("abc", ""));
    assert!(starts_with("abc", "abc"));
    assert!(!starts_with("ab", "abc"));
    assert!(!starts_with("bearer abc", "Bearer "));
    assert!(starts_with("éa", "é"));
}

#[test]
fn skipping_drops_leading_characters() {
    assert_eq!(skip_chars("Bearer tok", 7), "tok");
    assert_eq!(skip_chars("éab", 1), "ab");
    assert_eq!(skip_chars("ab", 2), "");
    assert_eq!(skip_chars("ab", 0), "ab");
}

#[test]
fn mock_token_needs_prefix_and_length() {
    assert!(validate_mock_token("mock_token_alice_1234"));
    assert!(!validate_mock_token("mock_token_alice_123"));
    assert!(!validate_mock_token("fake_token_alice_12345678"));
    assert!(!validate_mock_token(""));
    assert!(!validate_mock_token("mock_token_"));
}

#[test]
fn generated_mock_token_is_valid_and_names_the_user() {
    let token = generate_mock_token("alice");
    assert!(token.starts_with("mock_token_alice_"));
    assert_eq!(token.len(), "mock_token_alice_".len() + 36);
    assert!(validate_mock_token(&token));
    assert_ne!(token, generate_mock_token("alice"));
}

#[test]
fn missing_header_is_refused() {
    assert_eq!(check_authorization(None), Some(AuthFailure::MissingAuthorization));
}

#[test]
fn header_without_bearer_prefix_is_refused() {
    assert_eq!(
        check_authorization(Some("Basic dXNlcjpwYXNz")),
        Some(AuthFailure::InvalidAuthorization)
    );
    assert_eq!(check_authorization(Some("Bearer")), Some(AuthFailure::InvalidAuthorization));
    assert_eq!(check_authorization(Some("")), Some(AuthFailure::InvalidAuthorization));
}

#[test]
fn short_token_is_refused() {
    assert_eq!(check_authorization(Some("Bearer ")), Some(AuthFailure::InvalidToken));
    assert_eq!(check_authorization(Some("Bearer 0123456789")), Some(AuthFailure::InvalidToken));
    assert_eq!(check_bearer_token(Some("0123456789")), Some(AuthFailure::InvalidToken));
    assert_eq!(check_bearer_token(Some("")), Some(AuthFailure::InvalidToken));
}

#[test]
fn long_token_is_accepted() {
    assert_eq!(check_authorization(Some("Bearer 0123456789a")), None);
    assert_eq!(check_bearer_token(Some("0123456789a")), None);
    // Ten characters of eleven bytes.
    assert_eq!(check_bearer_token(Some("012345678é")), None);
}

#[test]
fn missing_bearer_token_is_refused() {
    assert_eq!(check_bearer_token(None), Some(AuthFailure::MissingBearer));
}

#[test]
fn failures_are_reported_with_kind_and_message() {
    assert_eq!(
        auth_error(AuthFailure::MissingAuthorization),
        AuthError {
            error: "missing_authorization".to_string(),
            message: "Authorization header is required".to_string(),
        }
    );
    assert_eq!(
        auth_error(AuthFailure::InvalidHeader),
        AuthError {
            error: "invalid_header".to_string(),
            message: "Invalid authorization header format".to_string(),
        }
    );
    assert_eq!(
        auth_error(AuthFailure::InvalidAuthorization),
        AuthError {
            error: "invalid_authorization".to_string(),
            message: "Authorization header must start with 'Bearer '".to_string(),
        }
    );
    assert_eq!(
        auth_error(AuthFailure::InvalidToken),
        AuthError {
            error: "invalid_token".to_string(),
            message: "Token is too short or invalid".to_string(),
        }
    );
    assert_eq!(
        auth_error(AuthFailure::MissingBearer),
        AuthError {
            error: "missing_authorization".to_string(),
            message: "Authorization Bearer token is required".to_string(),
        }
    );
}

#[test]
fn login_needs_both_credentials_and_a_long_password() {
    assert_eq!(check_login("", "secret1"), LoginOutcome::MissingCredentials);
    assert_eq!(check_login("alice", ""), LoginOutcome::MissingCredentials);
    assert_eq!(check_login("alice", "12345"), LoginOutcome::InvalidCredentials);
    assert_eq!(check_login("alice", "123456"), LoginOutcome::Accepted);
    assert_eq!(check_login("alice", "ééé"), LoginOutcome::Accepted);
}

#[test]
fn mock_token_is_made_of_prefix_user_and_identifier() {
    assert_eq!(mock_token("alice", "1234"), "mock_token_alice_1234");
    assert_eq!(mock_token("", ""), "mock_token__");
}
