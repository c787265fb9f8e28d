use beam::{TokenError, TokenId, TokenLedger, TOKEN_EXTENSION_SECS, TOKEN_LIFETIME_SECS};

#[test]
fn fresh_token_lives_its_lifetime() {
    let mut ledger = TokenLedger::new();
    let id = ledger.issue(42, 1000).unwrap();
    assert_eq!(id, TokenId { serial: 0, secret: 42 });
    let mut probe = TokenLedger::new();
    let same = probe.issue(42, 1000).unwrap();
    assert_eq!(probe.validate_and_extend(same, 1000 + TOKEN_LIFETIME_SECS - 1), Ok(()));
    assert_eq!(ledger.validate_and_extend(id, 1000 + TOKEN_LIFETIME_SECS), Err(TokenError::Unauthorized));
}

#[test]
fn issued_tokens_get_new_serials() {
    let mut ledger = TokenLedger::new();
    let a = ledger.issue(1, 0).unwrap();
    let b = ledger.issue(1, 0).unwrap();
    assert_ne!(a, b);
    assert_eq!(b.serial, 1);
}

#[test]
fn token_in_use_outlives_its_lifetime() {
    let mut ledger = TokenLedger::new();
    let id = ledger.issue(7, 0).unwrap();
    let mut now = 0u64;
    while now < 3 * TOKEN_LIFETIME_SECS {
        assert_eq!(ledger.validate_and_extend(id, now), Ok(()));
        ledger.sweep(now);
        now += TOKEN_EXTENSION_SECS - 1;
    }
    assert_eq!(ledger.validate_and_extend(id, now), Ok(()));
}

#[test]
fn idle_token_expires_after_extension_window() {
    let mut ledger = TokenLedger::new();
    let id = ledger.issue(7, 0).unwrap();
    let last_use = TOKEN_LIFETIME_SECS - 10;
    assert_eq!(ledger.validate_and_extend(id, last_use), Ok(()));
    let expiry = last_use + TOKEN_EXTENSION_SECS;
    let mut before = TokenLedger::new();
    let other = before.issue(7, 0).unwrap();
    assert_eq!(before.validate_and_extend(other, last_use), Ok(()));
    assert_eq!(before.validate_and_extend(other, expiry - 1), Ok(()));
    assert_eq!(ledger.validate_and_extend(id, expiry), Err(TokenError::Unauthorized));
}

#[test]
fn use_never_shortens_expiry() {
    let mut ledger = TokenLedger::new();
    let id = ledger.issue(7, 0).unwrap();
    assert_eq!(ledger.validate_and_extend(id, 10), Ok(()));
    assert_eq!(ledger.validate_and_extend(id, TOKEN_LIFETIME_SECS - 1), Ok(()));
}

#[test]
fn wrong_secret_is_refused() {
    let mut ledger = TokenLedger::new();
    let id = ledger.issue(7, 0).unwrap();
    assert_eq!(
        ledger.validate_and_extend(TokenId { serial: id.serial, secret: 8 }, 1),
        Err(TokenError::Unauthorized)
    );
    assert_eq!(ledger.validate_and_extend(TokenId { serial: 5, secret: 7 }, 1), Err(TokenError::Unauthorized));
}

#[test]
fn sweep_removes_only_expired() {
    let mut ledger = TokenLedger::new();
    let old = ledger.issue(1, 0).unwrap();
    let young = ledger.issue(2, 500).unwrap();
    ledger.sweep(TOKEN_LIFETIME_SECS);
    assert_eq!(ledger.validate_and_extend(young, TOKEN_LIFETIME_SECS), Ok(()));
    assert_eq!(ledger.validate_and_extend(old, TOKEN_LIFETIME_SECS - 1), Err(TokenError::Unauthorized));
}

#[test]
fn active_count_adjusts_and_ignores_unknown() {
    let mut ledger = TokenLedger::new();
    let id = ledger.issue(1, 0).unwrap();
    ledger.adjust_active_count(id, 1);
    ledger.adjust_active_count(id, 1);
    ledger.adjust_active_count(id, -1);
    assert_eq!(ledger.state_of(id).map(|s| s.active_streams), Some(1));
    ledger.adjust_active_count(id, -5);
    assert_eq!(ledger.state_of(id).map(|s| s.active_streams), Some(0));
    let unknown = TokenId { serial: 9, secret: 9 };
    ledger.adjust_active_count(unknown, 1);
    assert_eq!(ledger.state_of(unknown).map(|s| s.active_streams), None);
}

#[test]
fn token_count_follows_issue_and_sweep() {
    let mut ledger = TokenLedger::new();
    assert_eq!(ledger.token_count(), 0);
    ledger.issue(1, 0).unwrap();
    ledger.issue(2, 100).unwrap();
    assert_eq!(ledger.token_count(), 2);
    ledger.sweep(TOKEN_LIFETIME_SECS + 50);
    assert_eq!(ledger.token_count(), 1);
    ledger.sweep(TOKEN_LIFETIME_SECS + 100);
    assert_eq!(ledger.token_count(), 0);
}
