use piwifi::auth::{AuthError, AuthManager, HASH_COST, TOKEN_LIFETIME};
use piwifi::pty::PTYSession;

#[test]
fn test_password_hashing() {
    let password = "secure_password_123";
    let hash = AuthManager::hash_password(password).unwrap();
    assert!(AuthManager::verify_password(password, &hash).unwrap());
    assert!(!AuthManager::verify_password("wrong_password", &hash).unwrap());
}

#[test]
fn test_pty_creation() {
    let pty = PTYSession::new();
    assert!(!pty.session_id().is_empty());
}

#[test]
fn hash_is_not_the_password_and_differs_each_time() {
    let a = AuthManager::hash_password("pw").unwrap();
    let b = AuthManager::hash_password("pw").unwrap();
    assert_ne!(a, "pw");
    assert_ne!(a, b);
    assert!(a.starts_with("$2b$12$"));
    assert_eq!(HASH_COST, 12);
}

#[test]
fn verifying_against_what_is_no_hash_is_an_error() {
    let e = AuthManager::verify_password("pw", "not a hash").unwrap_err();
    assert!(matches!(e, AuthError::Verification(_)));
    assert!(e.message().starts_with("Password verification failed: "));
    assert!(e.message().len() > "Password verification failed: ".len());
}

#[test]
fn known_hash_verifies() {
    // Made from "hunter2" with a work factor of 4.
    let hash = AuthManager::hashing_outcome(bcrypt::hash("hunter2", 4)).unwrap();
    assert!(AuthManager::verify_password("hunter2", &hash).unwrap());
    assert!(!AuthManager::verify_password("hunter3", &hash).unwrap());
}

#[test]
fn outcomes_carry_the_error() {
    let e = AuthManager::hashing_outcome(bcrypt::hash("x", 3)).unwrap_err();
    assert!(matches!(e, AuthError::Hashing(_)));
    assert!(e.message().starts_with("Password hashing failed: "));
    assert_eq!(AuthManager::checking_outcome(Ok(true)).unwrap(), true);
    assert_eq!(AuthManager::checking_outcome(Ok(false)).unwrap(), false);
    assert_eq!(AuthManager::hashing_outcome(Ok("h".to_string())).unwrap(), "h");
}

#[test]
fn claims_end_a_day_after_they_were_issued() {
    let c = AuthManager::claims("admin", "viewer", 1_700_000_000);
    assert_eq!(c.sub, "admin");
    assert_eq!(c.role, "viewer");
    assert_eq!(c.iat, 1_700_000_000);
    assert_eq!(c.exp, 1_700_086_400);
    assert_eq!(AuthManager::claims("a", "b", i64::MAX - 5).exp, i64::MAX);
    assert_eq!(AuthManager::claims("a", "b", i64::MAX - 86400).exp, i64::MAX);
    assert_eq!(AuthManager::claims("a", "b", -86400).exp, 0);
}

#[test]
fn token_response_is_a_bearer_token_for_a_day() {
    let r = AuthManager::token_response("abc".to_string());
    assert_eq!(r.access_token, "abc");
    assert_eq!(r.token_type, "Bearer");
    assert_eq!(r.expires_in, 86400);
    assert_eq!(TOKEN_LIFETIME, 86400);
    assert_eq!(AuthManager::new("s3cret".to_string()).secret(), "s3cret");
}

#[test]
fn session_ids_are_36_characters_and_differ() {
    let a = PTYSession::new();
    let b = PTYSession::new();
    assert_eq!(a.session_id().len(), 36);
    assert_ne!(a.session_id(), b.session_id());
    assert_eq!(a.session_id().matches('-').count(), 4);
}

#[test]
fn a_session_without_a_terminal_reads_nothing() {
    let pty = PTYSession::new();
    let mut buf = vec![7u8; 16];
    assert_eq!(pty.read(&mut buf), 0);
    assert_eq!(buf, vec![0u8; 16]);
    pty.write(b"ls\n");
    pty.resize(24, 80);
}

#[test]
fn a_password_verifies_against_its_own_hash() {
    let long = "x".repeat(100);
    for password in ["", "a", "with\0nul", "pässwörd", long.as_str()] {
        let hash = AuthManager::hash_password(password).unwrap();
        assert_eq!(AuthManager::verify_password(password, &hash).unwrap(), true, "{:?}", password);
    }
}
