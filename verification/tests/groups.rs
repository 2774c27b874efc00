use mls_api::Client;
use mls_api::Error;

fn key(pair: &str) -> String {
    pair.repeat(32)
}

fn ready_client(identity: &str) -> Client {
    let mut client = Client::new();
    client.init_nostr_mls(identity).unwrap();
    client
}

fn mint_kp(client: &mut Client, member: &str) -> String {
    let made = client
        .create_key_package_for_event(member, &vec![])
        .unwrap();
    String::from_utf8(made.encoded_key_package).unwrap()
}

fn member_hexes(client: &Client, gid: &[u8]) -> Vec<String> {
    let mut hexes: Vec<String> = client
        .get_members(gid)
        .unwrap()
        .iter()
        .map(|m| String::from_utf8(m.to_hex()).unwrap())
        .collect();
    hexes.sort();
    hexes
}

#[test]
fn create_group_starts_at_epoch_zero() {
    let mut c = ready_client(&key("cc"));
    let kp_a = mint_kp(&mut c, &key("aa"));
    let kp_b = mint_kp(&mut c, &key("bb"));
    let made = c
        .create_group(
            "room",
            "a room",
            &vec![kp_a, kp_b],
            &vec![key("aa"), key("bb")],
            &key("cc"),
            &vec![key("cc")],
            &vec!["wss://relay.example.com".to_string()],
        )
        .unwrap();
    assert_eq!(made.group.epoch, 0);
    assert_eq!(made.welcome.epoch, 0);
    assert_eq!(made.group.name, "room");
    assert_eq!(made.group.description, "a room");
    let gid = made.group.group_id.as_bytes().to_vec();
    assert_eq!(member_hexes(&c, &gid), {
        let mut v = vec![key("aa"), key("bb"), key("cc")];
        v.sort();
        v
    });
    let got = c.get_group(&gid).unwrap();
    assert_eq!(got.epoch, 0);
    assert_eq!(got.admins.len(), 1);
    assert_eq!(got.admins[0].to_hex(), key("cc").into_bytes());
}

#[test]
fn create_group_rejects_arity_mismatch() {
    let mut c = ready_client(&key("cc"));
    let kp_a = mint_kp(&mut c, &key("aa"));
    let r = c.create_group(
        "room",
        "",
        &vec![kp_a],
        &vec![key("aa"), key("bb")],
        &key("cc"),
        &vec![key("cc")],
        &vec![],
    );
    assert!(matches!(r, Err(Error::GroupCreationError)));
}

#[test]
fn create_group_rejects_mispaired_key_package() {
    let mut c = ready_client(&key("cc"));
    let kp_for_b = mint_kp(&mut c, &key("bb"));
    let r = c.create_group(
        "room",
        "",
        &vec![kp_for_b],
        &vec![key("aa")],
        &key("cc"),
        &vec![key("cc")],
        &vec![],
    );
    assert!(matches!(r, Err(Error::GroupCreationError)));
}

#[test]
fn create_group_rejects_admin_outside_membership() {
    let mut c = ready_client(&key("cc"));
    let kp_a = mint_kp(&mut c, &key("aa"));
    let r = c.create_group(
        "room",
        "",
        &vec![kp_a],
        &vec![key("aa")],
        &key("cc"),
        &vec![key("dd")],
        &vec![],
    );
    assert!(matches!(r, Err(Error::GroupCreationError)));
}

#[test]
fn create_group_rejects_malformed_member_key() {
    let mut c = ready_client(&key("cc"));
    let kp_a = mint_kp(&mut c, &key("aa"));
    let r = c.create_group(
        "room",
        "",
        &vec![kp_a],
        &vec!["nonsense".to_string()],
        &key("cc"),
        &vec![key("cc")],
        &vec![],
    );
    assert!(matches!(r, Err(Error::InvalidInput)));
}

#[test]
fn key_package_single_use_across_calls() {
    let mut c = ready_client(&key("cc"));
    let kp_a = mint_kp(&mut c, &key("aa"));
    let made = c
        .create_group(
            "room",
            "",
            &vec![kp_a.clone()],
            &vec![key("aa")],
            &key("cc"),
            &vec![key("cc")],
            &vec![],
        )
        .unwrap();
    let gid = made.group.group_id.as_bytes().to_vec();
    let second = c.add_members(&gid, &vec![kp_a]);
    assert!(matches!(second, Err(Error::InvalidKeyPackage)));
    assert_eq!(c.get_group(&gid).unwrap().epoch, 0);
}

#[test]
fn add_members_advances_one_epoch() {
    let mut c = ready_client(&key("cc"));
    let kp_a = mint_kp(&mut c, &key("aa"));
    let made = c
        .create_group(
            "room",
            "",
            &vec![kp_a],
            &vec![key("aa")],
            &key("cc"),
            &vec![key("cc")],
            &vec![],
        )
        .unwrap();
    let gid = made.group.group_id.as_bytes().to_vec();
    let kp_b = mint_kp(&mut c, &key("bb"));
    let added = c.add_members(&gid, &vec![kp_b]).unwrap();
    assert_eq!(added.commit.epoch, 0);
    assert_eq!(added.welcome.epoch, 1);
    assert_eq!(c.get_group(&gid).unwrap().epoch, 1);
    assert!(member_hexes(&c, &gid).contains(&key("bb")));
}

#[test]
fn add_members_rejects_existing_member() {
    let mut c = ready_client(&key("cc"));
    let kp_a = mint_kp(&mut c, &key("aa"));
    let made = c
        .create_group(
            "room",
            "",
            &vec![kp_a],
            &vec![key("aa")],
            &key("cc"),
            &vec![key("cc")],
            &vec![],
        )
        .unwrap();
    let gid = made.group.group_id.as_bytes().to_vec();
    let kp_a2 = mint_kp(&mut c, &key("aa"));
    assert!(matches!(c.add_members(&gid, &vec![kp_a2]), Err(Error::InvalidKeyPackage)));
}

#[test]
fn add_members_unknown_group_fails() {
    let mut c = ready_client(&key("cc"));
    let kp_a = mint_kp(&mut c, &key("aa"));
    assert!(matches!(c.add_members(&[9u8; 32], &vec![kp_a]), Err(Error::GroupNotFound)));
    assert!(matches!(c.add_members(&[9u8; 3], &vec![]), Err(Error::InvalidInput)));
}

#[test]
fn remove_members_drops_member_and_admin_rank() {
    let mut c = ready_client(&key("cc"));
    let kp_a = mint_kp(&mut c, &key("aa"));
    let kp_b = mint_kp(&mut c, &key("bb"));
    let made = c
        .create_group(
            "room",
            "",
            &vec![kp_a, kp_b],
            &vec![key("aa"), key("bb")],
            &key("cc"),
            &vec![key("cc"), key("bb")],
            &vec![],
        )
        .unwrap();
    let gid = made.group.group_id.as_bytes().to_vec();
    let commit = c.remove_members(&gid, &vec![key("bb")]).unwrap();
    assert_eq!(commit.epoch, 0);
    let g = c.get_group(&gid).unwrap();
    assert_eq!(g.epoch, 1);
    assert_eq!(member_hexes(&c, &gid), {
        let mut v = vec![key("aa"), key("cc")];
        v.sort();
        v
    });
    // the removed member also loses admin standing: admins stay members
    assert_eq!(g.admins.len(), 1);
    assert_eq!(g.admins[0].to_hex(), key("cc").into_bytes());
}

#[test]
fn remove_members_requires_current_membership() {
    let mut c = ready_client(&key("cc"));
    let kp_a = mint_kp(&mut c, &key("aa"));
    let made = c
        .create_group(
            "room",
            "",
            &vec![kp_a],
            &vec![key("aa")],
            &key("cc"),
            &vec![key("cc")],
            &vec![],
        )
        .unwrap();
    let gid = made.group.group_id.as_bytes().to_vec();
    assert!(matches!(
        c.remove_members(&gid, &vec![key("dd")]),
        Err(Error::MemberNotFound)
    ));
    assert_eq!(c.get_group(&gid).unwrap().epoch, 0);
}

#[test]
fn remove_all_members_leaves_empty_terminal_group() {
    let mut c = ready_client(&key("cc"));
    let kp_a = mint_kp(&mut c, &key("aa"));
    let made = c
        .create_group(
            "room",
            "",
            &vec![kp_a],
            &vec![key("aa")],
            &key("cc"),
            &vec![key("cc")],
            &vec![],
        )
        .unwrap();
    let gid = made.group.group_id.as_bytes().to_vec();
    c.remove_members(&gid, &vec![key("aa"), key("cc")]).unwrap();
    let g = c.get_group(&gid).unwrap();
    assert_eq!(g.epoch, 1);
    assert!(g.members.is_empty());
}

#[test]
fn commit_proposal_applies_at_current_epoch_only() {
    let mut c = ready_client(&key("cc"));
    let kp_a = mint_kp(&mut c, &key("aa"));
    let made = c
        .create_group(
            "room",
            "",
            &vec![kp_a],
            &vec![key("aa")],
            &key("cc"),
            &vec![key("cc")],
            &vec![],
        )
        .unwrap();
    let gid = made.group.group_id.as_bytes().to_vec();
    let proposal = c.leave_group(&gid).unwrap();
    assert_eq!(proposal.epoch, 0);
    // advance the group past the proposal's epoch, then try to commit it
    let kp_b = mint_kp(&mut c, &key("bb"));
    c.add_members(&gid, &vec![kp_b]).unwrap();
    assert!(matches!(
        c.commit_proposal(&gid, &proposal),
        Err(Error::StaleProposal)
    ));
    // a proposal at the current epoch commits and removes the proposer
    let fresh = c.leave_group(&gid).unwrap();
    assert_eq!(fresh.epoch, 1);
    let done = c.commit_proposal(&gid, &fresh).unwrap();
    assert!(done.welcome.is_none());
    let g = c.get_group(&gid).unwrap();
    assert_eq!(g.epoch, 2);
    assert!(!member_hexes(&c, &gid).contains(&key("cc")));
}

#[test]
fn leave_group_does_not_mutate_state() {
    let mut c = ready_client(&key("cc"));
    let kp_a = mint_kp(&mut c, &key("aa"));
    let made = c
        .create_group(
            "room",
            "",
            &vec![kp_a],
            &vec![key("aa")],
            &key("cc"),
            &vec![key("cc")],
            &vec![],
        )
        .unwrap();
    let gid = made.group.group_id.as_bytes().to_vec();
    let proposal = c.leave_group(&gid).unwrap();
    assert_eq!(proposal.removes.len(), 1);
    assert_eq!(proposal.removes[0].to_hex(), key("cc").into_bytes());
    assert!(proposal.add_packages.is_empty());
    let g = c.get_group(&gid).unwrap();
    assert_eq!(g.epoch, 0);
    assert!(member_hexes(&c, &gid).contains(&key("cc")));
}

#[test]
fn get_group_rejects_bad_ids() {
    let c = ready_client(&key("cc"));
    assert!(matches!(c.get_group(&[1u8; 5]), Err(Error::InvalidInput)));
    assert!(matches!(c.get_group(&[1u8; 32]), Err(Error::GroupNotFound)));
    assert!(matches!(c.get_members(&[1u8; 32]), Err(Error::GroupNotFound)));
}

#[test]
fn colliding_generated_group_id_is_a_storage_error() {
    // a joined group can carry any 32-byte id; when it happens to equal
    // the id the next creation would generate, creation refuses rather
    // than record two groups under one id
    let mut c = ready_client(&key("cc"));
    let kp_a = mint_kp(&mut c, &key("aa"));
    let own = c
        .parse_key_package(&kp_a)
        .expect("freshly minted key package parses");
    // after one mint the next allocation counter is 1, so the next
    // created group would take the id [1, 1, 0, 0, ...]
    let mut clash = vec![0u8; 32];
    clash[0] = 1;
    clash[1] = 1;
    let welcome = mls_api::messages::Welcome {
        group_id: mls_api::keys::GroupId::from_bytes(clash.clone()).unwrap(),
        nostr_group_id: vec![7u8; 32],
        name: "elsewhere".to_string(),
        description: String::new(),
        epoch: 0,
        members: vec![],
        admins: vec![],
        relays: vec![],
        base_secret: vec![9u8; 32],
        addressee_refs: vec![own.reference.clone()],
    };
    c.join_group_from_welcome(&[4u8; 32], &welcome).unwrap();
    let r = c.create_group(
        "room",
        "",
        &vec![kp_a],
        &vec![key("aa")],
        &key("cc"),
        &vec![key("cc")],
        &vec![],
    );
    assert!(matches!(r, Err(Error::StorageError)));
}

#[test]
fn create_group_with_no_listed_members_holds_only_creator() {
    let mut c = ready_client(&key("cc"));
    let made = c
        .create_group(
            "solo",
            "",
            &vec![],
            &vec![],
            &key("cc"),
            &vec![key("cc")],
            &vec![],
        )
        .unwrap();
    let gid = made.group.group_id.as_bytes().to_vec();
    assert_eq!(member_hexes(&c, &gid), vec![key("cc")]);
    assert_eq!(made.welcome.addressee_refs.len(), 0);
}

#[test]
fn create_group_rejects_duplicate_members() {
    let mut c = ready_client(&key("cc"));
    let kp_1 = mint_kp(&mut c, &key("aa"));
    let kp_2 = mint_kp(&mut c, &key("aa"));
    let r = c.create_group(
        "room",
        "",
        &vec![kp_1, kp_2],
        &vec![key("aa"), key("aa")],
        &key("cc"),
        &vec![key("cc")],
        &vec![],
    );
    assert!(matches!(r, Err(Error::GroupCreationError)));
}

#[test]
fn add_members_with_empty_list_still_commits_one_epoch() {
    let mut c = ready_client(&key("cc"));
    let made = c
        .create_group("solo", "", &vec![], &vec![], &key("cc"), &vec![key("cc")], &vec![])
        .unwrap();
    let gid = made.group.group_id.as_bytes().to_vec();
    let added = c.add_members(&gid, &vec![]).unwrap();
    assert_eq!(added.commit.epoch, 0);
    assert_eq!(c.get_group(&gid).unwrap().epoch, 1);
    assert_eq!(member_hexes(&c, &gid), vec![key("cc")]);
}

#[test]
fn remove_members_tolerates_repeated_names() {
    let mut c = ready_client(&key("cc"));
    let kp_a = mint_kp(&mut c, &key("aa"));
    let made = c
        .create_group(
            "room",
            "",
            &vec![kp_a],
            &vec![key("aa")],
            &key("cc"),
            &vec![key("cc")],
            &vec![],
        )
        .unwrap();
    let gid = made.group.group_id.as_bytes().to_vec();
    c.remove_members(&gid, &vec![key("aa"), key("aa")]).unwrap();
    assert_eq!(member_hexes(&c, &gid), vec![key("cc")]);
}

#[test]
fn propose_then_commit_adds_a_member() {
    let mut c = ready_client(&key("cc"));
    let made = c
        .create_group("solo", "", &vec![], &vec![], &key("cc"), &vec![key("cc")], &vec![])
        .unwrap();
    let gid = made.group.group_id.as_bytes().to_vec();
    let kp_b_text = mint_kp(&mut c, &key("bb"));
    let kp_b = c.parse_key_package(&kp_b_text).unwrap();
    let proposal = c.propose(&gid, vec![kp_b], vec![]).unwrap();
    assert_eq!(proposal.epoch, 0);
    let done = c.commit_proposal(&gid, &proposal).unwrap();
    assert!(done.welcome.is_some());
    assert_eq!(done.welcome.unwrap().epoch, 1);
    assert_eq!(c.get_group(&gid).unwrap().epoch, 1);
    assert!(member_hexes(&c, &gid).contains(&key("bb")));
}

#[test]
fn propose_requires_a_known_group() {
    let c = ready_client(&key("cc"));
    assert!(matches!(c.propose(&[8u8; 32], vec![], vec![]), Err(Error::GroupNotFound)));
    assert!(matches!(c.propose(&[8u8; 2], vec![], vec![]), Err(Error::InvalidInput)));
}
