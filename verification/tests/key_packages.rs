use mls_api::Client;
use mls_api::Error;

fn key(pair: &str) -> String {
    pair.repeat(32)
}

fn ready_client(identity: &str) -> Client {
    let mut client = Client::new();
    client.init_nostr_mls(identity).unwrap();
    client
}

#[test]
fn create_key_package_returns_parseable_encoding() {
    let mut client = ready_client(&key("cc"));
    let made = client
        .create_key_package_for_event(&key("aa"), &vec!["wss://relay.example.com".to_string()])
        .unwrap();
    assert_eq!(made.ciphersuite, 1);
    assert_eq!(made.extensions, vec![3u16, 10u16]);
    assert_eq!(made.relays, vec!["wss://relay.example.com".to_string()]);
    let encoded = String::from_utf8(made.encoded_key_package).unwrap();
    let parsed = client.parse_key_package(&encoded).unwrap();
    assert_eq!(parsed.pubkey.to_hex(), key("aa").into_bytes());
    assert_eq!(parsed.ciphersuite, 1);
    assert_eq!(parsed.extensions, vec![3u16, 10u16]);
}

#[test]
fn distinct_key_packages_get_distinct_references() {
    let mut client = ready_client(&key("cc"));
    let one = client.create_key_package_for_event(&key("aa"), &vec![]).unwrap();
    let two = client.create_key_package_for_event(&key("aa"), &vec![]).unwrap();
    let p1 = client
        .parse_key_package(&String::from_utf8(one.encoded_key_package).unwrap())
        .unwrap();
    let p2 = client
        .parse_key_package(&String::from_utf8(two.encoded_key_package).unwrap())
        .unwrap();
    assert_ne!(p1.reference, p2.reference);
}

#[test]
fn create_key_package_rejects_bad_inputs() {
    let mut client = ready_client(&key("cc"));
    assert!(matches!(
        client.create_key_package_for_event("short", &vec![]),
        Err(Error::InvalidInput)
    ));
    assert!(matches!(
        client.create_key_package_for_event(&key("aa"), &vec!["http://x.example".to_string()]),
        Err(Error::InvalidInput)
    ));
    assert!(matches!(
        client.create_key_package_for_event(&key("aa"), &vec!["wss://".to_string()]),
        Err(Error::InvalidInput)
    ));
}

#[test]
fn relay_schemes_accepted() {
    let mut client = ready_client(&key("cc"));
    assert!(client
        .create_key_package_for_event(
            &key("aa"),
            &vec!["ws://h".to_string(), "wss://relay.example.com".to_string()],
        )
        .is_ok());
}

#[test]
fn parse_key_package_rejects_malformed_text() {
    let client = ready_client(&key("cc"));
    assert!(matches!(client.parse_key_package("zz"), Err(Error::InvalidKeyPackage)));
    assert!(matches!(client.parse_key_package("00ff"), Err(Error::InvalidKeyPackage)));
    assert!(matches!(client.parse_key_package(""), Err(Error::InvalidKeyPackage)));
}

#[test]
fn parse_key_package_rejects_foreign_ciphersuite() {
    let mut client = ready_client(&key("cc"));
    let made = client.create_key_package_for_event(&key("aa"), &vec![]).unwrap();
    let encoded = String::from_utf8(made.encoded_key_package).unwrap();
    let mut kp = client.parse_key_package(&encoded).unwrap();
    kp.ciphersuite = 2;
    let reencoded = String::from_utf8(kp.encode()).unwrap();
    assert!(matches!(client.parse_key_package(&reencoded), Err(Error::InvalidKeyPackage)));
}
