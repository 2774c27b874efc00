//! The process-wide client: an explicit value holding the one active
//! session, if any. Initialization tears down the previous session and
//! installs a fresh one atomically; every other operation reports
//! `NotInitialized` until then. The storage path, at-rest passphrase and
//! locking live at the application boundary around this value.

use vstd::prelude::*;
use vstd::string::StringSliceAdditionalSpecFns;
use crate::errors::Error;
use crate::keys::{PublicKey, valid_pk_hex};
use crate::hex::hex_decode;
use crate::keypkg::{KeyPackage, clone_u16s};
use crate::group::{GroupState, views_of};
use crate::messages::{
    Welcome, WireMessage, Proposal, ProcessedMessage, GroupPreview, ExportedSecret,
    KeyPackageEvent, CreateGroupResult, AddMembersResult, CommitProposalResult,
};
use crate::session::{
    Session, SessionView, ckp_state, ckp_ok, cg_state, cg_err, cg_group, cg_welcome, am_state,
    am_err, am_group, rm_state, rm_err, cp_state, cp_err, cp_group, lg_err, cm_err,
    cm_wire, pm_state, pm_err, jw_state, jw_err, pw_err, group_of_welcome, grp, str_bytes,
    commit_of, welcome_of, refs_of, pks_of, kps_of, made_kp, decode_pks,
};
use crate::hex::hex_encode;
use crate::keypkg::kp_frame;

verus! {

/// The ciphersuite this session layer drives the crypto engine with.
pub const DEFAULT_CIPHERSUITE: u16 = 1;

/// MLS extension type id: required capabilities.
pub const EXT_REQUIRED_CAPABILITIES: u16 = 3;

/// MLS extension type id: last resort key package.
pub const EXT_LAST_RESORT: u16 = 10;

/// The session that initialization installs for `identity`.
pub open spec fn fresh_session(identity: Seq<u8>) -> SessionView {
    SessionView {
        identity: identity,
        ciphersuite: DEFAULT_CIPHERSUITE,
        extensions: seq![EXT_REQUIRED_CAPABILITIES, EXT_LAST_RESORT],
        groups: Seq::empty(),
        owned: Seq::empty(),
        consumed: Seq::empty(),
        next_id: 0,
    }
}

/// The one active handle to groups, key packages and epoch secrets.
pub struct Client {
    pub session: Option<Session>,
}

impl View for Client {
    type V = Option<SessionView>;

    open spec fn view(&self) -> Option<SessionView> {
        match self.session {
            Some(s) => Some(s@),
            None => None,
        }
    }
}

impl Client {
    /// The client invariant: an installed session is well formed.
    pub open spec fn wf(&self) -> bool {
        self@ matches Some(s) ==> s.swf()
    }

    /// The installed session can still advance epochs and generate
    /// identifiers.
    pub open spec fn headroom(&self) -> bool {
        self@ matches Some(s) ==> s.headroom()
    }

    /// A client with no session installed.
    pub fn new() -> (r: Client)
        ensures
            r@ is None,
            r.wf(),
    {
        Client { session: None }
    }

    /// Tear down any previous session and install a fresh one for
    /// `identity`. Succeeds exactly when the identity is 64 hex digits;
    /// on failure the previous session stays untouched, so no caller
    /// observes a half-replaced session.
    pub fn init_nostr_mls(&mut self, identity: &str) -> (r: Result<(), Error>)
        requires
            old(self).wf(),
        ensures
            final(self).wf(),
            r is Ok <==> valid_pk_hex(identity.spec_bytes()),
            r is Ok ==> final(self)@ == Some(fresh_session(hex_decode(identity.spec_bytes()))),
            r is Err ==> r->Err_0 == Error::InvalidInput && final(self)@ == old(self)@,
    {
        let pk = match PublicKey::parse(identity) {
            Ok(p) => p,
            Err(e) => { return Err(e) },
        };
        let mut extensions: Vec<u16> = Vec::new();
        extensions.push(EXT_REQUIRED_CAPABILITIES);
        extensions.push(EXT_LAST_RESORT);
        let fresh = Session {
            identity: pk,
            ciphersuite: DEFAULT_CIPHERSUITE,
            extensions,
            groups: Vec::new(),
            owned: Vec::new(),
            consumed: Vec::new(),
            next_id: 0,
        };
        proof {
            assert(fresh@ =~= fresh_session(hex_decode(identity.spec_bytes())));
            assert(views_of(fresh.groups@) =~= Seq::<crate::group::GroupView>::empty());
            assert(views_of(fresh.owned@) =~= Seq::<Seq<u8>>::empty());
            assert(views_of(fresh.consumed@) =~= Seq::<Seq<u8>>::empty());
            assert(fresh@.extensions =~= seq![EXT_REQUIRED_CAPABILITIES, EXT_LAST_RESORT]);
        }
        self.session = Some(fresh);
        Ok(())
    }

    /// The active ciphersuite id, or `NotInitialized`.
    pub fn get_ciphersuite(&self) -> (r: Result<u16, Error>)
        ensures
            r is Ok <==> self@ is Some,
            r is Ok ==> r->Ok_0 == self@->0.ciphersuite,
            r is Err ==> r->Err_0 == Error::NotInitialized,
    {
        match &self.session {
            Some(s) => Ok(s.ciphersuite),
            None => Err(Error::NotInitialized),
        }
    }

    /// The enabled extension ids, or `NotInitialized`.
    pub fn get_extensions(&self) -> (r: Result<Vec<u16>, Error>)
        ensures
            r is Ok <==> self@ is Some,
            r is Ok ==> r->Ok_0@ == self@->0.extensions,
            r is Err ==> r->Err_0 == Error::NotInitialized,
    {
        match &self.session {
            Some(s) => Ok(clone_u16s(&s.extensions)),
            None => Err(Error::NotInitialized),
        }
    }

    /// Create and record a fresh key package (see
    /// `Session::create_key_package_for_event`), or `NotInitialized`.
    pub fn create_key_package_for_event(
        &mut self,
        public_key: &str,
        relay: &Vec<String>,
    ) -> (r: Result<KeyPackageEvent, Error>)
        requires
            old(self).wf(),
            old(self).headroom(),
        ensures
            final(self).wf(),
            old(self)@ is None ==> final(self)@ == old(self)@ && r == Err::<
                KeyPackageEvent,
                Error,
            >(Error::NotInitialized),
            old(self)@ matches Some(s0) ==> ({
                &&& final(self)@ == Some(
                    ckp_state(s0, public_key.spec_bytes(), views_of(relay@)),
                )
                &&& (r is Ok <==> ckp_ok(public_key.spec_bytes(), views_of(relay@)))
                &&& (r is Ok ==> ({
                    let k = made_kp(s0, public_key.spec_bytes());
                    &&& r->Ok_0.encoded_key_package@ == hex_encode(kp_frame(k))
                    &&& views_of(r->Ok_0.relays@) == views_of(relay@)
                    &&& r->Ok_0.ciphersuite == s0.ciphersuite
                    &&& r->Ok_0.extensions@ == s0.extensions
                }))
                &&& (r is Err ==> r->Err_0 == Error::InvalidInput)
            }),
    {
        match &mut self.session {
            Some(s) => s.create_key_package_for_event(public_key, relay),
            None => Err(Error::NotInitialized),
        }
    }

    /// Parse and validate a hex key package against the active session
    /// (see `Session::parse_key_package`), or `NotInitialized`.
    pub fn parse_key_package(&self, encoded: &str) -> (r: Result<KeyPackage, Error>)
        ensures
            self@ is None ==> r == Err::<KeyPackage, Error>(Error::NotInitialized),
            self@ matches Some(s0) ==> ({
                &&& (r is Ok <==> (crate::keypkg::parse_kp_hex(encoded.spec_bytes())
                    matches Some(k) && crate::session::kp_compatible(
                    k,
                    s0.ciphersuite,
                    s0.extensions,
                )))
                &&& (r is Ok ==> Some(r->Ok_0@) == crate::keypkg::parse_kp_hex(
                    encoded.spec_bytes(),
                ))
                &&& (r is Err ==> r->Err_0 == Error::InvalidKeyPackage)
            }),
    {
        match &self.session {
            Some(s) => s.parse_key_package(encoded),
            None => Err(Error::NotInitialized),
        }
    }

    /// Create a group (see `Session::create_group`), or `NotInitialized`.
    pub fn create_group(
        &mut self,
        group_name: &str,
        group_description: &str,
        group_members_serialized_key_packages: &Vec<String>,
        group_members_pubkeys: &Vec<String>,
        group_creator_public_key: &str,
        group_admin_public_keys: &Vec<String>,
        relays: &Vec<String>,
    ) -> (r: Result<CreateGroupResult, Error>)
        requires
            old(self).wf(),
            old(self).headroom(),
        ensures
            final(self).wf(),
            old(self)@ is None ==> final(self)@ == old(self)@ && r == Err::<
                CreateGroupResult,
                Error,
            >(Error::NotInitialized),
            old(self)@ matches Some(s0) ==> ({
                let nm = group_name@;
                let dc = group_description@;
                let ch = group_creator_public_key.spec_bytes();
                let mh = str_bytes(views_of(group_members_pubkeys@));
                let kh = str_bytes(views_of(group_members_serialized_key_packages@));
                let ah = str_bytes(views_of(group_admin_public_keys@));
                let rl = views_of(relays@);
                &&& final(self)@ == Some(cg_state(s0, nm, dc, ch, mh, kh, ah, rl))
                &&& (r is Ok <==> cg_err(s0, ch, mh, kh, ah, rl) is None)
                &&& (r is Ok ==> r->Ok_0.group@ == cg_group(s0, nm, dc, ch, mh, ah, rl))
                &&& (r is Ok ==> r->Ok_0.welcome@ == cg_welcome(s0, nm, dc, ch, mh, kh, ah, rl))
                &&& (r is Err ==> Some(r->Err_0) == cg_err(s0, ch, mh, kh, ah, rl))
            }),
    {
        match &mut self.session {
            Some(s) => s.create_group(
                group_name,
                group_description,
                group_members_serialized_key_packages,
                group_members_pubkeys,
                group_creator_public_key,
                group_admin_public_keys,
                relays,
            ),
            None => Err(Error::NotInitialized),
        }
    }

    /// Add members to a group (see `Session::add_members`), or
    /// `NotInitialized`.
    pub fn add_members(
        &mut self,
        group_id: &[u8],
        serialized_key_packages: &Vec<String>,
    ) -> (r: Result<AddMembersResult, Error>)
        requires
            old(self).wf(),
            old(self).headroom(),
        ensures
            final(self).wf(),
            old(self)@ is None ==> final(self)@ == old(self)@ && r == Err::<
                AddMembersResult,
                Error,
            >(Error::NotInitialized),
            old(self)@ matches Some(s0) ==> ({
                let kh = str_bytes(views_of(serialized_key_packages@));
                &&& final(self)@ == Some(am_state(s0, group_id@, kh))
                &&& (r is Ok <==> am_err(s0, group_id@, kh) is None)
                &&& (r is Ok ==> ({
                    let g = grp(s0.groups, group_id@);
                    &&& r->Ok_0.commit@ == commit_of(
                        s0,
                        group_id@,
                        g.epoch,
                        pks_of(kps_of(kh)),
                        Seq::empty(),
                    )
                    &&& r->Ok_0.welcome@ == welcome_of(
                        am_group(s0, group_id@, kh),
                        refs_of(kps_of(kh)),
                    )
                }))
                &&& (r is Err ==> Some(r->Err_0) == am_err(s0, group_id@, kh))
            }),
    {
        match &mut self.session {
            Some(s) => s.add_members(group_id, serialized_key_packages),
            None => Err(Error::NotInitialized),
        }
    }

    /// Remove members from a group (see `Session::remove_members`), or
    /// `NotInitialized`.
    pub fn remove_members(
        &mut self,
        group_id: &[u8],
        member_pubkeys: &Vec<String>,
    ) -> (r: Result<WireMessage, Error>)
        requires
            old(self).wf(),
            old(self).headroom(),
        ensures
            final(self).wf(),
            old(self)@ is None ==> final(self)@ == old(self)@ && r == Err::<
                WireMessage,
                Error,
            >(Error::NotInitialized),
            old(self)@ matches Some(s0) ==> ({
                let mh = str_bytes(views_of(member_pubkeys@));
                &&& final(self)@ == Some(rm_state(s0, group_id@, mh))
                &&& (r is Ok <==> rm_err(s0, group_id@, mh) is None)
                &&& (r is Ok ==> r->Ok_0@ == commit_of(
                    s0,
                    group_id@,
                    grp(s0.groups, group_id@).epoch,
                    Seq::empty(),
                    decode_pks(mh),
                ))
                &&& (r is Err ==> Some(r->Err_0) == rm_err(s0, group_id@, mh))
            }),
    {
        match &mut self.session {
            Some(s) => s.remove_members(group_id, member_pubkeys),
            None => Err(Error::NotInitialized),
        }
    }

    /// Commit a pending proposal (see `Session::commit_proposal`), or
    /// `NotInitialized`.
    pub fn commit_proposal(
        &mut self,
        group_id: &[u8],
        proposal: &Proposal,
    ) -> (r: Result<CommitProposalResult, Error>)
        requires
            old(self).wf(),
            old(self).headroom(),
        ensures
            final(self).wf(),
            old(self)@ is None ==> final(self)@ == old(self)@ && r == Err::<
                CommitProposalResult,
                Error,
            >(Error::NotInitialized),
            old(self)@ matches Some(s0) ==> ({
                &&& final(self)@ == Some(cp_state(s0, group_id@, proposal@))
                &&& (r is Ok <==> cp_err(s0, group_id@, proposal@) is None)
                &&& (r is Ok ==> ({
                    let g = grp(s0.groups, group_id@);
                    let p = proposal@;
                    &&& r->Ok_0.commit@ == commit_of(
                        s0,
                        group_id@,
                        g.epoch,
                        pks_of(p.add_packages),
                        p.removes,
                    )
                    &&& (r->Ok_0.welcome is Some <==> p.add_packages.len() > 0)
                    &&& (p.add_packages.len() > 0 ==> r->Ok_0.welcome->0@ == welcome_of(
                        cp_group(s0, group_id@, p),
                        refs_of(p.add_packages),
                    ))
                }))
                &&& (r is Err ==> Some(r->Err_0) == cp_err(s0, group_id@, proposal@))
            }),
    {
        match &mut self.session {
            Some(s) => s.commit_proposal(group_id, proposal),
            None => Err(Error::NotInitialized),
        }
    }

    /// Draft a proposal against a group's current epoch (see
    /// `Session::propose`), or `NotInitialized`. Local state is
    /// untouched.
    pub fn propose(
        &self,
        group_id: &[u8],
        add_packages: Vec<KeyPackage>,
        removes: Vec<PublicKey>,
    ) -> (r: Result<Proposal, Error>)
        requires
            self.wf(),
        ensures
            self@ is None ==> r == Err::<Proposal, Error>(Error::NotInitialized),
            self@ matches Some(s0) ==> ({
                &&& (r is Ok <==> Session::lookup_ok(s0, group_id@))
                &&& (r is Ok ==> r->Ok_0@ == (crate::messages::ProposalView {
                    group_id: group_id@,
                    epoch: grp(s0.groups, group_id@).epoch,
                    add_packages: views_of(add_packages@),
                    removes: views_of(removes@),
                }))
                &&& (r is Err ==> r->Err_0 == Session::lookup_err(s0, group_id@))
            }),
    {
        match &self.session {
            Some(s) => s.propose(group_id, add_packages, removes),
            None => Err(Error::NotInitialized),
        }
    }

    /// Produce the self-removal proposal (see `Session::leave_group`), or
    /// `NotInitialized`. Local state is untouched.
    pub fn leave_group(&self, group_id: &[u8]) -> (r: Result<Proposal, Error>)
        requires
            self.wf(),
        ensures
            self@ is None ==> r == Err::<Proposal, Error>(Error::NotInitialized),
            self@ matches Some(s0) ==> ({
                &&& (r is Ok <==> lg_err(s0, group_id@) is None)
                &&& (r is Ok ==> r->Ok_0@ == (crate::messages::ProposalView {
                    group_id: group_id@,
                    epoch: grp(s0.groups, group_id@).epoch,
                    add_packages: Seq::empty(),
                    removes: seq![s0.identity],
                }))
                &&& (r is Err ==> Some(r->Err_0) == lg_err(s0, group_id@))
            }),
    {
        match &self.session {
            Some(s) => s.leave_group(group_id),
            None => Err(Error::NotInitialized),
        }
    }

    /// Look up a group's state (see `Session::get_group`), or
    /// `NotInitialized`.
    pub fn get_group(&self, group_id: &[u8]) -> (r: Result<GroupState, Error>)
        requires
            self.wf(),
        ensures
            self@ is None ==> r == Err::<GroupState, Error>(Error::NotInitialized),
            self@ matches Some(s0) ==> ({
                &&& (r is Ok <==> Session::lookup_ok(s0, group_id@))
                &&& (r is Ok ==> r->Ok_0@ == grp(s0.groups, group_id@))
                &&& (r is Err ==> r->Err_0 == Session::lookup_err(s0, group_id@))
            }),
    {
        match &self.session {
            Some(s) => s.get_group(group_id),
            None => Err(Error::NotInitialized),
        }
    }

    /// Look up a group's member list (see `Session::get_members`), or
    /// `NotInitialized`.
    pub fn get_members(&self, group_id: &[u8]) -> (r: Result<Vec<PublicKey>, Error>)
        requires
            self.wf(),
        ensures
            self@ is None ==> r == Err::<Vec<PublicKey>, Error>(Error::NotInitialized),
            self@ matches Some(s0) ==> ({
                &&& (r is Ok <==> Session::lookup_ok(s0, group_id@))
                &&& (r is Ok ==> views_of(r->Ok_0@) == grp(s0.groups, group_id@).members)
                &&& (r is Err ==> r->Err_0 == Session::lookup_err(s0, group_id@))
            }),
    {
        match &self.session {
            Some(s) => s.get_members(group_id),
            None => Err(Error::NotInitialized),
        }
    }

    /// Export the current epoch's labeled secret (see
    /// `Session::export_secret`), or `NotInitialized`.
    pub fn export_secret(&self, group_id: &[u8]) -> (r: Result<ExportedSecret, Error>)
        requires
            self.wf(),
        ensures
            self@ is None ==> r == Err::<ExportedSecret, Error>(Error::NotInitialized),
            self@ matches Some(s0) ==> ({
                &&& (r is Ok <==> Session::lookup_ok(s0, group_id@))
                &&& (r is Ok ==> ({
                    let g = grp(s0.groups, group_id@);
                    r->Ok_0.secret@ == crate::group::mix_secret(g.base_secret, g.epoch)
                        && r->Ok_0.epoch == g.epoch
                }))
                &&& (r is Err ==> r->Err_0 == Session::lookup_err(s0, group_id@))
            }),
    {
        match &self.session {
            Some(s) => s.export_secret(group_id),
            None => Err(Error::NotInitialized),
        }
    }

    /// Protect an outgoing application payload (see
    /// `Session::create_message_for_group`), or `NotInitialized`.
    pub fn create_message_for_group(
        &self,
        group_id: &[u8],
        rumor: &[u8],
    ) -> (r: Result<WireMessage, Error>)
        requires
            self.wf(),
        ensures
            self@ is None ==> r == Err::<WireMessage, Error>(Error::NotInitialized),
            self@ matches Some(s0) ==> ({
                &&& (r is Ok <==> cm_err(s0, group_id@) is None)
                &&& (r is Ok ==> r->Ok_0@ == cm_wire(s0, group_id@, rumor@))
                &&& (r is Err ==> Some(r->Err_0) == cm_err(s0, group_id@))
            }),
    {
        match &self.session {
            Some(s) => s.create_message_for_group(group_id, rumor),
            None => Err(Error::NotInitialized),
        }
    }

    /// Frame an already-serialized commit (see
    /// `Session::create_commit_message_for_group`), or `NotInitialized`.
    pub fn create_commit_message_for_group(
        &self,
        group_id: &[u8],
        serialized_commit: &[u8],
        secret_key: &[u8],
    ) -> (r: Result<WireMessage, Error>)
        requires
            self.wf(),
        ensures
            self@ is None ==> r == Err::<WireMessage, Error>(Error::NotInitialized),
            self@ matches Some(s0) ==> ({
                &&& (r is Ok <==> (secret_key@.len() == crate::keys::ID_LEN && group_id@.len()
                    == crate::keys::ID_LEN && crate::session::has_group(s0.groups, group_id@)))
                &&& (r is Ok ==> r->Ok_0@ == (crate::messages::WireView {
                    group_id: group_id@,
                    epoch: grp(s0.groups, group_id@).epoch,
                    sender: s0.identity,
                    body: crate::messages::BodyView::Application(serialized_commit@),
                }))
            }),
    {
        match &self.session {
            Some(s) => s.create_commit_message_for_group(group_id, serialized_commit, secret_key),
            None => Err(Error::NotInitialized),
        }
    }

    /// Process one incoming message (see
    /// `Session::process_message_for_group`), or `NotInitialized`.
    pub fn process_message_for_group(
        &mut self,
        wire: &WireMessage,
    ) -> (r: Result<ProcessedMessage, Error>)
        requires
            old(self).wf(),
            old(self).headroom(),
        ensures
            final(self).wf(),
            old(self)@ is None ==> final(self)@ == old(self)@ && r == Err::<
                ProcessedMessage,
                Error,
            >(Error::NotInitialized),
            old(self)@ matches Some(s0) ==> ({
                &&& final(self)@ == Some(pm_state(s0, wire@))
                &&& (r is Ok <==> pm_err(s0, wire@) is None)
                &&& (r is Ok && wire@.body is Application ==> ({
                    &&& r->Ok_0.message is Some
                    &&& r->Ok_0.message->0@ == wire@.body->Application_0
                    &&& r->Ok_0.member_changes is None
                }))
                &&& (r is Ok && wire@.body is Membership ==> ({
                    let c = wire@.body->Membership_0;
                    &&& r->Ok_0.message is None
                    &&& r->Ok_0.member_changes is Some
                    &&& views_of(r->Ok_0.member_changes->0.added_members@) == c.adds
                    &&& views_of(r->Ok_0.member_changes->0.removed_members@) == c.removes
                }))
                &&& (r is Err ==> Some(r->Err_0) == pm_err(s0, wire@))
            }),
    {
        match &mut self.session {
            Some(s) => s.process_message_for_group(wire),
            None => Err(Error::NotInitialized),
        }
    }

    /// Preview a welcome without state change (see
    /// `Session::preview_welcome`), or `NotInitialized`.
    pub fn preview_group_from_welcome(
        &self,
        wrapper_event_id: &[u8],
        welcome: &Welcome,
    ) -> (r: Result<GroupPreview, Error>)
        requires
            self.wf(),
        ensures
            self@ is None ==> r == Err::<GroupPreview, Error>(Error::NotInitialized),
            self@ matches Some(s0) ==> ({
                &&& (r is Ok <==> pw_err(s0, wrapper_event_id@, welcome@) is None)
                &&& (r is Ok ==> ({
                    &&& r->Ok_0.nostr_group_id@ == welcome@.nostr_id
                    &&& r->Ok_0.name@ == welcome@.name
                    &&& r->Ok_0.description@ == welcome@.description
                    &&& views_of(r->Ok_0.admins@) == welcome@.admins
                }))
                &&& (r is Err ==> Some(r->Err_0) == pw_err(s0, wrapper_event_id@, welcome@))
            }),
    {
        match &self.session {
            Some(s) => s.preview_welcome(wrapper_event_id, welcome),
            None => Err(Error::NotInitialized),
        }
    }

    /// Join a group from a welcome (see
    /// `Session::join_group_from_welcome`), or `NotInitialized`.
    pub fn join_group_from_welcome(
        &mut self,
        wrapper_event_id: &[u8],
        welcome: &Welcome,
    ) -> (r: Result<GroupState, Error>)
        requires
            old(self).wf(),
        ensures
            final(self).wf(),
            old(self)@ is None ==> final(self)@ == old(self)@ && r == Err::<
                GroupState,
                Error,
            >(Error::NotInitialized),
            old(self)@ matches Some(s0) ==> ({
                &&& final(self)@ == Some(jw_state(s0, wrapper_event_id@, welcome@))
                &&& (r is Ok <==> jw_err(s0, wrapper_event_id@, welcome@) is None)
                &&& (r is Ok ==> r->Ok_0@ == group_of_welcome(welcome@))
                &&& (r is Err ==> Some(r->Err_0) == jw_err(s0, wrapper_event_id@, welcome@))
            }),
    {
        match &mut self.session {
            Some(s) => s.join_group_from_welcome(wrapper_event_id, welcome),
            None => Err(Error::NotInitialized),
        }
    }
}

} // verus!
