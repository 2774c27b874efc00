use mls_api::Client;
use mls_api::Error;

fn key(pair: &str) -> String {
    pair.repeat(32)
}

#[test]
fn uninitialized_client_reports_not_initialized() {
    let client = Client::new();
    assert_eq!(client.get_ciphersuite(), Err(Error::NotInitialized));
    assert_eq!(client.get_extensions(), Err(Error::NotInitialized));
    assert!(matches!(client.get_group(&[0u8; 32]), Err(Error::NotInitialized)));
    assert!(matches!(client.get_members(&[0u8; 32]), Err(Error::NotInitialized)));
    assert!(matches!(client.export_secret(&[0u8; 32]), Err(Error::NotInitialized)));
    assert!(matches!(
        client.create_message_for_group(&[0u8; 32], b"hi"),
        Err(Error::NotInitialized)
    ));
    assert!(matches!(client.leave_group(&[0u8; 32]), Err(Error::NotInitialized)));
}

#[test]
fn init_rejects_malformed_identity() {
    let mut client = Client::new();
    assert!(matches!(client.init_nostr_mls("not hex"), Err(Error::InvalidInput)));
    assert!(matches!(client.init_nostr_mls(&"aa".repeat(31)), Err(Error::InvalidInput)));
    assert_eq!(client.get_ciphersuite(), Err(Error::NotInitialized));
}

#[test]
fn init_installs_session_with_defaults() {
    let mut client = Client::new();
    assert!(client.init_nostr_mls(&key("aa")).is_ok());
    assert_eq!(client.get_ciphersuite(), Ok(1));
    assert_eq!(client.get_extensions().unwrap(), vec![3u16, 10u16]);
}

#[test]
fn init_accepts_upper_case_hex() {
    let mut client = Client::new();
    assert!(client.init_nostr_mls(&"AB".repeat(32)).is_ok());
}

#[test]
fn reinit_replaces_prior_session() {
    let mut client = Client::new();
    client.init_nostr_mls(&key("cc")).unwrap();
    let kp_a = client
        .create_key_package_for_event(&key("aa"), &vec![])
        .unwrap();
    let created = client
        .create_group(
            "room",
            "a room",
            &vec![String::from_utf8(kp_a.encoded_key_package).unwrap()],
            &vec![key("aa")],
            &key("cc"),
            &vec![key("cc")],
            &vec![],
        )
        .unwrap();
    let gid = created.group.group_id.as_bytes().to_vec();
    assert!(client.get_group(&gid).is_ok());

    client.init_nostr_mls(&key("cc")).unwrap();
    assert!(matches!(client.get_group(&gid), Err(Error::GroupNotFound)));
}

#[test]
fn failed_reinit_keeps_prior_session() {
    let mut client = Client::new();
    client.init_nostr_mls(&key("cc")).unwrap();
    assert!(matches!(client.init_nostr_mls("bogus"), Err(Error::InvalidInput)));
    assert_eq!(client.get_ciphersuite(), Ok(1));
}
