use mls_api::Client;
use mls_api::Error;

fn key(pair: &str) -> String {
    pair.repeat(32)
}

fn ready_client(identity: &str) -> Client {
    let mut client = Client::new();
    client.init_nostr_mls(identity).unwrap();
    client
}

/// Creator `cc` makes a group for member `aa`, whose key package was
/// minted on `joiner`'s client so that the welcome addresses a package
/// the joiner owns.
fn group_with_welcome(joiner: &mut Client) -> (Client, mls_api::messages::Welcome, Vec<u8>) {
    let mut creator = ready_client(&key("cc"));
    let kp_a = joiner.create_key_package_for_event(&key("aa"), &vec![]).unwrap();
    let made = creator
        .create_group(
            "room",
            "a room",
            &vec![String::from_utf8(kp_a.encoded_key_package).unwrap()],
            &vec![key("aa")],
            &key("cc"),
            &vec![key("cc")],
            &vec![],
        )
        .unwrap();
    let gid = made.group.group_id.as_bytes().to_vec();
    (creator, made.welcome, gid)
}

#[test]
fn preview_discloses_metadata_without_joining() {
    let mut joiner = ready_client(&key("aa"));
    let (_creator, welcome, gid) = group_with_welcome(&mut joiner);
    let preview = joiner.preview_group_from_welcome(&[7u8; 32], &welcome).unwrap();
    assert_eq!(preview.name, "room");
    assert_eq!(preview.description, "a room");
    assert_eq!(preview.admins.len(), 1);
    assert_eq!(preview.admins[0].to_hex(), key("cc").into_bytes());
    // preview never materializes state
    assert!(matches!(joiner.get_group(&gid), Err(Error::GroupNotFound)));
}

#[test]
fn preview_rejects_unaddressed_welcome() {
    let mut joiner = ready_client(&key("aa"));
    let (_creator, welcome, _gid) = group_with_welcome(&mut joiner);
    let stranger = ready_client(&key("ee"));
    assert!(matches!(
        stranger.preview_group_from_welcome(&[7u8; 32], &welcome),
        Err(Error::WelcomeDecryptionError)
    ));
}

#[test]
fn preview_rejects_short_wrapper_id() {
    let mut joiner = ready_client(&key("aa"));
    let (_creator, welcome, _gid) = group_with_welcome(&mut joiner);
    assert!(matches!(
        joiner.preview_group_from_welcome(&[7u8; 4], &welcome),
        Err(Error::InvalidInput)
    ));
}

#[test]
fn join_materializes_the_creators_state() {
    let mut joiner = ready_client(&key("aa"));
    let (creator, welcome, gid) = group_with_welcome(&mut joiner);
    let joined = joiner.join_group_from_welcome(&[7u8; 32], &welcome).unwrap();
    assert_eq!(joined.epoch, 0);
    assert_eq!(joined.group_id.as_bytes(), gid.as_slice());
    let mine: Vec<Vec<u8>> = joiner
        .get_members(&gid)
        .unwrap()
        .iter()
        .map(|m| m.to_hex())
        .collect();
    let theirs: Vec<Vec<u8>> = creator
        .get_members(&gid)
        .unwrap()
        .iter()
        .map(|m| m.to_hex())
        .collect();
    assert_eq!(mine, theirs);
}

#[test]
fn join_twice_is_idempotent() {
    let mut joiner = ready_client(&key("aa"));
    let (_creator, welcome, gid) = group_with_welcome(&mut joiner);
    let first = joiner.join_group_from_welcome(&[7u8; 32], &welcome).unwrap();
    let second = joiner.join_group_from_welcome(&[7u8; 32], &welcome).unwrap();
    assert_eq!(first.group_id.as_bytes(), second.group_id.as_bytes());
    assert_eq!(first.epoch, second.epoch);
    assert_eq!(first.members.len(), second.members.len());
    // still exactly one record for the group id
    assert_eq!(joiner.get_group(&gid).unwrap().epoch, 0);
}

#[test]
fn diverging_welcome_for_known_group_is_rejected() {
    let mut joiner = ready_client(&key("aa"));
    let (_creator, welcome, _gid) = group_with_welcome(&mut joiner);
    joiner.join_group_from_welcome(&[7u8; 32], &welcome).unwrap();
    let tampered = mls_api::messages::Welcome {
        group_id: welcome.group_id.clone(),
        nostr_group_id: welcome.nostr_group_id.clone(),
        name: "other".to_string(),
        description: welcome.description.clone(),
        epoch: welcome.epoch,
        members: welcome.members.clone(),
        admins: welcome.admins.clone(),
        relays: welcome.relays.clone(),
        base_secret: welcome.base_secret.clone(),
        addressee_refs: welcome.addressee_refs.clone(),
    };
    assert!(matches!(
        joiner.join_group_from_welcome(&[7u8; 32], &tampered),
        Err(Error::WelcomeAlreadyProcessed)
    ));
}

#[test]
fn join_rejects_unaddressed_welcome() {
    let mut joiner = ready_client(&key("aa"));
    let (_creator, welcome, gid) = group_with_welcome(&mut joiner);
    let mut stranger = ready_client(&key("ee"));
    assert!(matches!(
        stranger.join_group_from_welcome(&[7u8; 32], &welcome),
        Err(Error::WelcomeDecryptionError)
    ));
    assert!(matches!(stranger.get_group(&gid), Err(Error::GroupNotFound)));
}
