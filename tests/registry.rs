use beam::{RegistryError, StreamRegistry};

fn s(x: &str) -> String {
    x.to_string()
}

#[test]
fn claim_returns_registered_payload() {
    let mut reg: StreamRegistry<Vec<u8>> = StreamRegistry::new();
    assert_eq!(reg.register(s("test_file.txt"), None, b"payload".to_vec()), Ok(0));
    assert!(reg.contains(&s("test_file.txt")));
    assert_eq!(reg.claim(&s("test_file.txt"), None), Ok(b"payload".to_vec()));
    assert!(!reg.contains(&s("test_file.txt")));
}

#[test]
fn second_registration_conflicts() {
    let mut reg: StreamRegistry<u32> = StreamRegistry::new();
    assert_eq!(reg.register(s("f"), None, 1), Ok(0));
    assert_eq!(reg.register(s("f"), None, 2), Err(RegistryError::Conflict));
    assert_eq!(reg.claim(&s("f"), None), Ok(1));
}

#[test]
fn name_is_reusable_after_claim() {
    let mut reg: StreamRegistry<u32> = StreamRegistry::new();
    assert_eq!(reg.register(s("f"), None, 1), Ok(0));
    assert_eq!(reg.claim(&s("f"), None), Ok(1));
    assert_eq!(reg.register(s("f"), None, 2), Ok(1));
    assert_eq!(reg.claim(&s("f"), None), Ok(2));
}

#[test]
fn name_is_reusable_after_withdrawal() {
    let mut reg: StreamRegistry<u32> = StreamRegistry::new();
    let serial = reg.register(s("f"), None, 1).unwrap();
    assert!(reg.withdraw(&s("f"), serial));
    assert!(!reg.contains(&s("f")));
    assert_eq!(reg.register(s("f"), None, 2), Ok(1));
}

#[test]
fn stale_withdrawal_keeps_newer_registration() {
    let mut reg: StreamRegistry<u32> = StreamRegistry::new();
    let first = reg.register(s("f"), None, 1).unwrap();
    assert_eq!(reg.claim(&s("f"), None), Ok(1));
    let second = reg.register(s("f"), None, 2).unwrap();
    assert_ne!(first, second);
    assert!(!reg.withdraw(&s("f"), first));
    assert!(reg.contains(&s("f")));
    assert!(reg.withdraw(&s("f"), second));
}

#[test]
fn withdrawing_unknown_name_does_nothing() {
    let mut reg: StreamRegistry<u32> = StreamRegistry::new();
    assert!(!reg.withdraw(&s("nothing"), 0));
}

#[test]
fn claim_without_upload_is_not_found() {
    let mut reg: StreamRegistry<u32> = StreamRegistry::new();
    assert_eq!(reg.claim(&s("nonexistent_file.txt"), None), Err(RegistryError::NotFound));
}

#[test]
fn wrong_token_is_forbidden_and_keeps_session() {
    let mut reg: StreamRegistry<u32> = StreamRegistry::new();
    assert_eq!(reg.register(s("f"), Some(10), 5), Ok(0));
    assert_eq!(reg.claim(&s("f"), Some(11)), Err(RegistryError::Forbidden));
    assert_eq!(reg.claim(&s("f"), None), Err(RegistryError::Forbidden));
    assert!(reg.contains(&s("f")));
    assert_eq!(reg.claim(&s("f"), Some(10)), Ok(5));
}

#[test]
fn unowned_session_is_claimable_by_anyone() {
    let mut reg: StreamRegistry<u32> = StreamRegistry::new();
    assert_eq!(reg.register(s("f"), None, 5), Ok(0));
    assert_eq!(reg.claim(&s("f"), Some(99)), Ok(5));
}

#[test]
fn active_ids_list_pending_names() {
    let mut reg: StreamRegistry<u32> = StreamRegistry::new();
    assert!(reg.active_file_ids().is_empty());
    reg.register(s("a"), None, 1).unwrap();
    reg.register(s("b"), None, 2).unwrap();
    reg.register(s("c"), None, 3).unwrap();
    reg.claim(&s("b"), None).unwrap();
    let mut ids = reg.active_file_ids();
    ids.sort();
    assert_eq!(ids, vec![s("a"), s("c")]);
}

#[test]
fn many_transfers_stay_apart() {
    let mut reg: StreamRegistry<Vec<u8>> = StreamRegistry::new();
    let n = 32u8;
    for i in 0..n {
        let name = format!("file_{i}");
        reg.register(name, None, vec![i; (i as usize) + 1]).unwrap();
    }
    for i in (0..n).rev().step_by(2) {
        let got = reg.claim(&format!("file_{i}"), None).unwrap();
        assert_eq!(got, vec![i; (i as usize) + 1]);
    }
    for i in (0..n).filter(|i| i % 2 == 0) {
        let got = reg.claim(&format!("file_{i}"), None).unwrap();
        assert_eq!(got, vec![i; (i as usize) + 1]);
    }
    assert!(reg.active_file_ids().is_empty());
}
