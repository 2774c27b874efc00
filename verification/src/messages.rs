//! The artifacts that move between members: wire messages (application
//! payloads and membership commits), welcomes, proposals, and the
//! structured results the session operations return.

use vstd::prelude::*;
use vstd::string::StrSliceExecFns;
use crate::keys::{PublicKey, GroupId, ID_LEN};
use crate::keypkg::{KeyPackage, KeyPackageView};
use crate::group::{views_of, distinct_seq, subset_seq, GroupState};

verus! {

/// A relay hint is a websocket URL: `ws://` or `wss://` with a nonempty
/// remainder.
pub open spec fn valid_relay(s: Seq<char>) -> bool {
    ||| (s.len() >= 6 && s[0] == 'w' && s[1] == 's' && s[2] == ':' && s[3] == '/' && s[4]
        == '/')
    ||| (s.len() >= 7 && s[0] == 'w' && s[1] == 's' && s[2] == 's' && s[3] == ':' && s[4] == '/'
        && s[5] == '/')
}

/// Every relay hint in `rs` is a valid websocket URL.
pub open spec fn valid_relays(rs: Seq<Seq<char>>) -> bool {
    forall|i: int| 0 <= i < rs.len() ==> valid_relay(#[trigger] rs[i])
}

/// Whether `s` is a valid relay hint.
pub fn check_relay(s: &str) -> (r: bool)
    ensures
        r == valid_relay(s@),
{
    let n = s.unicode_len();
    if n < 6 {
        return false;
    }
    if s.get_char(0) != 'w' || s.get_char(1) != 's' {
        return false;
    }
    if s.get_char(2) == ':' && s.get_char(3) == '/' && s.get_char(4) == '/' {
        return true;
    }
    if n >= 7 && s.get_char(2) == 's' && s.get_char(3) == ':' && s.get_char(4) == '/'
        && s.get_char(5) == '/' {
        return true;
    }
    false
}

/// Whether every entry of `rs` is a valid relay hint.
pub fn check_relays(rs: &Vec<String>) -> (r: bool)
    ensures
        r == valid_relays(views_of(rs@)),
{
    let mut i: usize = 0;
    while i < rs.len()
        invariant
            i <= rs@.len(),
            forall|j: int| 0 <= j < i ==> valid_relay(#[trigger] views_of(rs@)[j]),
        decreases rs.len() - i,
    {
        if !check_relay(rs[i].as_str()) {
            assert(!valid_relay(views_of(rs@)[i as int]));
            return false;
        }
        i = i + 1;
    }
    true
}

/// Model of a membership commit: identities added and removed by one
/// epoch transition.
#[verifier::ext_equal]
pub struct CommitBodyView {
    pub adds: Seq<Seq<u8>>,
    pub removes: Seq<Seq<u8>>,
}

/// Model of a wire message's content.
pub enum BodyView {
    Application(Seq<u8>),
    Membership(CommitBodyView),
}

/// Model of a wire message.
#[verifier::ext_equal]
pub struct WireView {
    pub group_id: Seq<u8>,
    pub epoch: u64,
    pub sender: Seq<u8>,
    pub body: BodyView,
}

/// Identities added and removed by one commit.
pub struct CommitBody {
    pub adds: Vec<PublicKey>,
    pub removes: Vec<PublicKey>,
}

impl View for CommitBody {
    type V = CommitBodyView;

    open spec fn view(&self) -> CommitBodyView {
        CommitBodyView { adds: views_of(self.adds@), removes: views_of(self.removes@) }
    }
}

/// The content of a wire message: an application payload, or a membership
/// commit.
pub enum MessageBody {
    Application(Vec<u8>),
    Membership(CommitBody),
}

impl View for MessageBody {
    type V = BodyView;

    open spec fn view(&self) -> BodyView {
        match self {
            MessageBody::Application(p) => BodyView::Application(p@),
            MessageBody::Membership(c) => BodyView::Membership(c@),
        }
    }
}

/// One protected message addressed to a group at one epoch.
pub struct WireMessage {
    pub group_id: GroupId,
    pub epoch: u64,
    pub sender: PublicKey,
    pub body: MessageBody,
}

impl View for WireMessage {
    type V = WireView;

    open spec fn view(&self) -> WireView {
        WireView {
            group_id: self.group_id@,
            epoch: self.epoch,
            sender: self.sender@,
            body: self.body@,
        }
    }
}

/// Model of a welcome artifact.
#[verifier::ext_equal]
pub struct WelcomeView {
    pub group_id: Seq<u8>,
    pub nostr_id: Seq<u8>,
    pub name: Seq<char>,
    pub description: Seq<char>,
    pub epoch: u64,
    pub members: Seq<Seq<u8>>,
    pub admins: Seq<Seq<u8>>,
    pub relays: Seq<Seq<char>>,
    pub base_secret: Seq<u8>,
    pub addressee_refs: Seq<Seq<u8>>,
}

impl WelcomeView {
    /// Structural validity of a welcome: full-length identifiers and a
    /// coherent member/admin listing.
    pub open spec fn wf(self) -> bool {
        &&& self.group_id.len() == ID_LEN
        &&& self.nostr_id.len() == ID_LEN
        &&& self.base_secret.len() == ID_LEN
        &&& distinct_seq(self.members)
        &&& distinct_seq(self.admins)
        &&& subset_seq(self.admins, self.members)
        &&& forall|i: int| 0 <= i < self.members.len() ==> #[trigger] self.members[i].len()
            == ID_LEN
    }
}

/// The artifact that admits newly added members: the group state they
/// materialize, encrypted to the key packages named by `addressee_refs`.
pub struct Welcome {
    pub group_id: GroupId,
    pub nostr_group_id: Vec<u8>,
    pub name: String,
    pub description: String,
    pub epoch: u64,
    pub members: Vec<PublicKey>,
    pub admins: Vec<PublicKey>,
    pub relays: Vec<String>,
    pub base_secret: Vec<u8>,
    pub addressee_refs: Vec<Vec<u8>>,
}

impl View for Welcome {
    type V = WelcomeView;

    open spec fn view(&self) -> WelcomeView {
        WelcomeView {
            group_id: self.group_id@,
            nostr_id: self.nostr_group_id@,
            name: self.name@,
            description: self.description@,
            epoch: self.epoch,
            members: views_of(self.members@),
            admins: views_of(self.admins@),
            relays: views_of(self.relays@),
            base_secret: self.base_secret@,
            addressee_refs: views_of(self.addressee_refs@),
        }
    }
}

/// Model of a pending proposal.
#[verifier::ext_equal]
pub struct ProposalView {
    pub group_id: Seq<u8>,
    pub epoch: u64,
    pub add_packages: Seq<KeyPackageView>,
    pub removes: Seq<Seq<u8>>,
}

/// A pending, not-yet-committed membership change, bound to the epoch it
/// was proposed at.
pub struct Proposal {
    pub group_id: GroupId,
    pub epoch: u64,
    pub add_packages: Vec<KeyPackage>,
    pub removes: Vec<PublicKey>,
}

impl View for Proposal {
    type V = ProposalView;

    open spec fn view(&self) -> ProposalView {
        ProposalView {
            group_id: self.group_id@,
            epoch: self.epoch,
            add_packages: views_of(self.add_packages@),
            removes: views_of(self.removes@),
        }
    }
}

/// Membership changes reported by processing a commit message.
pub struct MemberChanges {
    pub added_members: Vec<PublicKey>,
    pub removed_members: Vec<PublicKey>,
}

/// What processing one incoming message produced: exactly one of an
/// application payload or a set of membership changes.
pub struct ProcessedMessage {
    pub message: Option<Vec<u8>>,
    pub member_changes: Option<MemberChanges>,
}

/// Group metadata disclosed by previewing a welcome, without any state
/// change.
pub struct GroupPreview {
    pub nostr_group_id: Vec<u8>,
    pub name: String,
    pub description: String,
    pub admins: Vec<PublicKey>,
}

/// A labeled secret exported from the current epoch's key schedule,
/// valid only while the group stays at `epoch`.
pub struct ExportedSecret {
    pub secret: Vec<u8>,
    pub epoch: u64,
}

/// A freshly created key package: its hex encoding and the publication
/// metadata that accompanies it.
pub struct KeyPackageEvent {
    pub encoded_key_package: Vec<u8>,
    pub relays: Vec<String>,
    pub ciphersuite: u16,
    pub extensions: Vec<u16>,
}

/// A created group: its initial state and the welcome for its members.
pub struct CreateGroupResult {
    pub group: GroupState,
    pub welcome: Welcome,
}

/// An add-members commit: the commit for current members and the welcome
/// for the added ones.
pub struct AddMembersResult {
    pub commit: WireMessage,
    pub welcome: Welcome,
}

/// A committed proposal: the commit, and a welcome when members were
/// added.
pub struct CommitProposalResult {
    pub commit: WireMessage,
    pub welcome: Option<Welcome>,
}

} // verus!


