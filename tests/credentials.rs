use beam::{
    authenticate_header, authenticate_user, credentials_from_decoded, extract_basic_auth,
    judge_credentials, AuthConfig, AuthError, BasicCredentials,
};

const ALICE_SECRET: &[u8] = b"Basic YWxpY2U6c2VjcmV0MTIz";
const ALICE_WRONG: &[u8] = b"Basic YWxpY2U6d3Jvbmc=";
const MALLORY_SECRET: &[u8] = b"Basic bWFsbG9yeTpzZWNyZXQxMjM=";
const ALICE_EMPTY: &[u8] = b"Basic YWxpY2U6";

fn config_with_hash(hash: &str) -> AuthConfig {
    AuthConfig { username: "alice".to_string(), password_hash: hash.to_string() }
}

fn creds(user: &str, password: &str) -> BasicCredentials {
    BasicCredentials { username: user.to_string(), password: password.to_string() }
}

#[test]
fn basic_header_is_decoded() {
    let c = extract_basic_auth(Some(ALICE_SECRET)).unwrap();
    assert_eq!(c.username, "alice");
    assert_eq!(c.password, "secret123");
    let c = extract_basic_auth(Some(b"Basic Ym9iOmh1bnRlcjI6ZXh0cmE=")).unwrap();
    assert_eq!(c.username, "bob");
    assert_eq!(c.password, "hunter2:extra");
}

#[test]
fn missing_or_malformed_header_is_unauthorized() {
    assert_eq!(extract_basic_auth(None).err(), Some(AuthError::Unauthorized));
    assert_eq!(extract_basic_auth(Some(b"Bearer abc")).err(), Some(AuthError::Unauthorized));
    assert_eq!(extract_basic_auth(Some(b"Basic !!!")).err(), Some(AuthError::Unauthorized));
    assert_eq!(extract_basic_auth(Some(b"Basic bm9jb2xvbg==")).err(), Some(AuthError::Unauthorized));
}

#[test]
fn decoded_pair_becomes_credentials() {
    let c = credentials_from_decoded(Some(("u".to_string(), "p".to_string()))).unwrap();
    assert_eq!((c.username.as_str(), c.password.as_str()), ("u", "p"));
    assert_eq!(credentials_from_decoded(None).err(), Some(AuthError::Unauthorized));
}

#[test]
fn verdicts_are_judged() {
    let config = config_with_hash("unused");
    assert_eq!(judge_credentials(&config, &creds("alice", "pw"), Some(true)), Ok(()));
    assert_eq!(judge_credentials(&config, &creds("alice", "pw"), Some(false)), Err(AuthError::Unauthorized));
    assert_eq!(judge_credentials(&config, &creds("alice", "pw"), None), Err(AuthError::Internal));
    assert_eq!(judge_credentials(&config, &creds("Alice", "pw"), Some(true)), Err(AuthError::Unauthorized));
    assert_eq!(judge_credentials(&config, &creds("alice", ""), Some(true)), Err(AuthError::Unauthorized));
}

#[test]
fn correct_credentials_are_accepted() {
    let config = AuthConfig::new("alice", "secret123").unwrap();
    assert_eq!(config.username, "alice");
    assert_ne!(config.password_hash, "secret123");
    assert_eq!(authenticate_header(&config, Some(ALICE_SECRET)), Ok(()));
}

#[test]
fn wrong_password_is_unauthorized() {
    let config = AuthConfig::new("alice", "secret123").unwrap();
    assert_eq!(authenticate_header(&config, Some(ALICE_WRONG)), Err(AuthError::Unauthorized));
}

#[test]
fn wrong_user_empty_password_and_no_header_are_unauthorized() {
    let config = AuthConfig::new("alice", "secret123").unwrap();
    assert_eq!(authenticate_header(&config, Some(MALLORY_SECRET)), Err(AuthError::Unauthorized));
    assert_eq!(authenticate_header(&config, Some(ALICE_EMPTY)), Err(AuthError::Unauthorized));
    assert_eq!(authenticate_header(&config, None), Err(AuthError::Unauthorized));
}

#[test]
fn corrupt_stored_hash_is_internal() {
    let config = config_with_hash("not a phc string");
    assert_eq!(authenticate_user(&config, &creds("alice", "secret123")), Err(AuthError::Internal));
    assert_eq!(authenticate_user(&config, &creds("alice", "")), Err(AuthError::Unauthorized));
}
