use mls_api::Client;
use mls_api::Error;

fn key(pair: &str) -> String {
    pair.repeat(32)
}

fn ready_client(identity: &str) -> Client {
    let mut client = Client::new();
    client.init_nostr_mls(identity).unwrap();
    client
}

/// Creator `cc` builds a group with members `aa` and `bb`, admins `cc`;
/// both members join from the welcome. Returns (c, a, b, group id).
fn three_member_group() -> (Client, Client, Client, Vec<u8>) {
    let mut c = ready_client(&key("cc"));
    let mut a = ready_client(&key("aa"));
    let mut b = ready_client(&key("bb"));
    let kp_a = a.create_key_package_for_event(&key("aa"), &vec![]).unwrap();
    let kp_b = b.create_key_package_for_event(&key("bb"), &vec![]).unwrap();
    let made = c
        .create_group(
            "room",
            "a room",
            &vec![
                String::from_utf8(kp_a.encoded_key_package).unwrap(),
                String::from_utf8(kp_b.encoded_key_package).unwrap(),
            ],
            &vec![key("aa"), key("bb")],
            &key("cc"),
            &vec![key("cc")],
            &vec![],
        )
        .unwrap();
    let gid = made.group.group_id.as_bytes().to_vec();
    a.join_group_from_welcome(&[1u8; 32], &made.welcome).unwrap();
    b.join_group_from_welcome(&[2u8; 32], &made.welcome).unwrap();
    (c, a, b, gid)
}

#[test]
fn encrypt_decrypt_round_trip() {
    let (mut c, a, _b, gid) = three_member_group();
    let wire = a.create_message_for_group(&gid, b"hello from a").unwrap();
    assert_eq!(wire.epoch, 0);
    let processed = c.process_message_for_group(&wire).unwrap();
    assert_eq!(processed.message.as_deref(), Some(b"hello from a".as_slice()));
    assert!(processed.member_changes.is_none());
    // processing an application message changes no state
    assert_eq!(c.get_group(&gid).unwrap().epoch, 0);
}

#[test]
fn encrypt_requires_membership() {
    let (_c, a, _b, gid) = three_member_group();
    let outsider = ready_client(&key("ee"));
    assert!(matches!(
        outsider.create_message_for_group(&gid, b"x"),
        Err(Error::GroupNotFound)
    ));
    assert!(matches!(
        a.create_message_for_group(&[9u8; 32], b"x"),
        Err(Error::GroupNotFound)
    ));
    assert!(matches!(
        a.create_message_for_group(&[9u8; 2], b"x"),
        Err(Error::InvalidInput)
    ));
}

#[test]
fn end_to_end_removal_scenario() {
    let (mut c, mut a, mut b, gid) = three_member_group();

    // B protects a message while everyone is still at epoch 0
    let old_epoch_message = b.create_message_for_group(&gid, b"late").unwrap();

    // C removes B: epoch advances from 0 to 1
    let commit = c.remove_members(&gid, &vec![key("bb")]).unwrap();
    assert_eq!(c.get_group(&gid).unwrap().epoch, 1);
    let mut members: Vec<String> = c
        .get_members(&gid)
        .unwrap()
        .iter()
        .map(|m| String::from_utf8(m.to_hex()).unwrap())
        .collect();
    members.sort();
    assert_eq!(members, {
        let mut v = vec![key("aa"), key("cc")];
        v.sort();
        v
    });

    // A processes the commit and follows to epoch 1
    let changes = a.process_message_for_group(&commit).unwrap();
    assert!(changes.message.is_none());
    let mc = changes.member_changes.unwrap();
    assert!(mc.added_members.is_empty());
    assert_eq!(mc.removed_members.len(), 1);
    assert_eq!(mc.removed_members[0].to_hex(), key("bb").into_bytes());
    assert_eq!(a.get_group(&gid).unwrap().epoch, 1);

    // B's epoch-0 message delivered after the removal no longer decrypts
    assert!(matches!(
        c.process_message_for_group(&old_epoch_message),
        Err(Error::EpochMismatch)
    ));

    // a message protected by A under epoch 1 decrypts for C
    let fresh = a.create_message_for_group(&gid, b"current").unwrap();
    assert_eq!(fresh.epoch, 1);
    let got = c.process_message_for_group(&fresh).unwrap();
    assert_eq!(got.message.as_deref(), Some(b"current".as_slice()));
}

#[test]
fn removed_member_cannot_decrypt() {
    let (mut c, mut _a, mut b, gid) = three_member_group();
    let commit = c.remove_members(&gid, &vec![key("bb")]).unwrap();
    // B applies the commit that removes them and ends up a non-member
    b.process_message_for_group(&commit).unwrap();
    assert_eq!(b.get_group(&gid).unwrap().epoch, 1);
    let wire = c.create_message_for_group(&gid, b"without b").unwrap();
    assert!(matches!(b.process_message_for_group(&wire), Err(Error::NotAMember)));
    assert!(matches!(
        b.create_message_for_group(&gid, b"plea"),
        Err(Error::NotAMember)
    ));
}

#[test]
fn decrypt_unknown_group_fails() {
    let (_c, a, _b, gid) = three_member_group();
    let wire = a.create_message_for_group(&gid, b"x").unwrap();
    let mut stranger = ready_client(&key("ee"));
    assert!(matches!(
        stranger.process_message_for_group(&wire),
        Err(Error::GroupNotFound)
    ));
}

#[test]
fn export_secret_is_epoch_scoped() {
    let (c, mut _a, _b, gid) = three_member_group();
    let s0 = c.export_secret(&gid).unwrap();
    assert_eq!(s0.epoch, 0);
    assert_eq!(s0.secret.len(), 32);
    let again = c.export_secret(&gid).unwrap();
    assert_eq!(s0.secret, again.secret);

    let mut c = c;
    c.remove_members(&gid, &vec![key("bb")]).unwrap();
    let s1 = c.export_secret(&gid).unwrap();
    assert_eq!(s1.epoch, 1);
    assert_ne!(s0.secret, s1.secret);
}

#[test]
fn export_secret_exact_value() {
    // counters are allocated deterministically: the members minted their
    // key packages on their own clients, so the creator's first
    // allocation is the group itself at counter zero, and its base
    // secret is the tag byte followed by that counter; the epoch-0
    // export equals it.
    let (c, _a, _b, gid) = three_member_group();
    let s0 = c.export_secret(&gid).unwrap();
    let mut expected = vec![0u8; 32];
    expected[0] = 6;
    assert_eq!(s0.secret, expected);

    let mut c = c;
    c.remove_members(&gid, &vec![key("bb")]).unwrap();
    let s1 = c.export_secret(&gid).unwrap();
    // at epoch 1, each base byte is mixed with the epoch's little-endian
    // bytes: positions at offset 0 modulo 8 flip their lowest bit
    let mut expected1 = expected.clone();
    for i in (0..32).step_by(8) {
        expected1[i] ^= 1;
    }
    assert_eq!(s1.secret, expected1);
}

#[test]
fn commit_message_framing() {
    let (c, _a, _b, gid) = three_member_group();
    let framed = c
        .create_commit_message_for_group(&gid, b"opaque-commit", &[3u8; 32])
        .unwrap();
    assert_eq!(framed.epoch, 0);
    assert_eq!(framed.sender.to_hex(), key("cc").into_bytes());
    assert!(matches!(
        c.create_commit_message_for_group(&gid, b"x", &[3u8; 5]),
        Err(Error::InvalidInput)
    ));
    assert!(matches!(
        c.create_commit_message_for_group(&[9u8; 32], b"x", &[3u8; 32]),
        Err(Error::GroupNotFound)
    ));
}

#[test]
fn processing_an_add_commit_admits_the_new_member() {
    let (mut c, mut a, _b, gid) = three_member_group();
    let mut d = ready_client(&key("dd"));
    let kp_d = d.create_key_package_for_event(&key("dd"), &vec![]).unwrap();
    let added = c
        .add_members(&gid, &vec![String::from_utf8(kp_d.encoded_key_package).unwrap()])
        .unwrap();
    let changes = a.process_message_for_group(&added.commit).unwrap();
    let mc = changes.member_changes.unwrap();
    assert_eq!(mc.added_members.len(), 1);
    assert_eq!(mc.added_members[0].to_hex(), key("dd").into_bytes());
    assert!(mc.removed_members.is_empty());
    assert_eq!(a.get_group(&gid).unwrap().epoch, 1);
    let names: Vec<Vec<u8>> = a
        .get_members(&gid)
        .unwrap()
        .iter()
        .map(|m| m.to_hex())
        .collect();
    assert!(names.contains(&key("dd").into_bytes()));

    // the newly added member joins from the welcome and sees epoch 1
    let joined = d.join_group_from_welcome(&[5u8; 32], &added.welcome).unwrap();
    assert_eq!(joined.epoch, 1);
}
