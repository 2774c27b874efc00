//! The session: one identity's live handle to all of its groups and key
//! packages. Every operation's effect on the session model is stated
//! exactly; commits are the only transitions that move a group's epoch.

use vstd::prelude::*;
use vstd::string::StringSliceAdditionalSpecFns;
use vstd::string::StringExecFns;
use crate::errors::Error;
use crate::keys::{PublicKey, GroupId, ID_LEN, valid_pk_hex};
use crate::hex::{hex_decode, hex_encode};
use crate::keypkg::{
    KeyPackage, KeyPackageView, kp_frame, parse_kp_hex, clone_u16s, push_bytes,
};
use crate::group::{
    GroupState, GroupView, views_of, distinct_seq, subset_seq, remove_all, gen_bytes,
    make_gen_bytes, mix_secret, make_mix_secret, clone_keys, clone_bytes_list,
};
use crate::messages::{
    ExportedSecret, KeyPackageEvent, valid_relays, check_relays,
};
use crate::group::clone_strings;
use crate::group::lemma_remove_all_props;
use crate::keys::clone_bytes;

verus! {

/// Some group in `gs` carries the id `id`.
pub open spec fn has_group(gs: Seq<GroupView>, id: Seq<u8>) -> bool {
    exists|i: int| 0 <= i < gs.len() && gs[i].id == id
}

/// The index of the group with id `id`.
pub open spec fn gidx(gs: Seq<GroupView>, id: Seq<u8>) -> int {
    choose|i: int| 0 <= i < gs.len() && gs[i].id == id
}

/// The group with id `id`.
pub open spec fn grp(gs: Seq<GroupView>, id: Seq<u8>) -> GroupView {
    gs[gidx(gs, id)]
}

/// No two groups carry the same id.
pub open spec fn distinct_ids(gs: Seq<GroupView>) -> bool {
    forall|i: int, j: int| 0 <= i < j < gs.len() ==> gs[i].id != gs[j].id
}

/// With distinct ids, the index of a group is determined by its id.
pub proof fn lemma_gidx(gs: Seq<GroupView>, id: Seq<u8>, i: int)
    requires
        distinct_ids(gs),
        0 <= i < gs.len(),
        gs[i].id == id,
    ensures
        gidx(gs, id) == i,
        grp(gs, id) == gs[i],
{
    assert(has_group(gs, id));
    let j = gidx(gs, id);
    if i < j {
        assert(gs[i].id != gs[j].id);
    } else if j < i {
        assert(gs[j].id != gs[i].id);
    }
}

/// Whether `x` occurs in `v`.
pub fn contains_u16(v: &Vec<u16>, x: u16) -> (r: bool)
    ensures
        r == v@.contains(x),
{
    let mut i: usize = 0;
    while i < v.len()
        invariant
            i <= v@.len(),
            forall|j: int| 0 <= j < i ==> v@[j] != x,
        decreases v.len() - i,
    {
        if v[i] == x {
            return true;
        }
        i = i + 1;
    }
    proof {
        if v@.contains(x) {
            let j = choose|j: int| 0 <= j < v@.len() && v@[j] == x;
            assert(v@[j] == x);
        }
    }
    false
}

/// Whether every entry of `a` occurs in `b`.
pub fn u16_subset(a: &Vec<u16>, b: &Vec<u16>) -> (r: bool)
    ensures
        r == subset_seq(a@, b@),
{
    let mut i: usize = 0;
    while i < a.len()
        invariant
            i <= a@.len(),
            forall|j: int| 0 <= j < i ==> b@.contains(#[trigger] a@[j]),
        decreases a.len() - i,
    {
        if !contains_u16(b, a[i]) {
            return false;
        }
        i = i + 1;
    }
    true
}

/// The model signature this session writes into a fresh key package: a
/// deterministic 64-byte value derived from the allocation counter. The
/// cryptographic signature itself belongs to the external crypto engine.
pub open spec fn sig64(n: u64) -> Seq<u8> {
    gen_bytes(3, n) + gen_bytes(4, n)
}

/// The storage reference of a key package: a tag byte, the session's
/// allocation counter, then a prefix of the session identity, so that
/// references differ across counters and across sessions.
pub open spec fn kp_ref_bytes(identity: Seq<u8>, n: u64) -> Seq<u8> {
    Seq::new(
        ID_LEN as nat,
        |i: int|
            if i == 0 {
                2
            } else if i <= 8 {
                crate::group::u64_byte(n, i - 1)
            } else {
                identity[i - 9]
            },
    )
}

/// Produce the 32-byte value `kp_ref_bytes(identity, n)`.
fn make_kp_ref(identity: &PublicKey, n: u64) -> (r: Vec<u8>)
    requires
        identity@.len() == ID_LEN,
    ensures
        r@ == kp_ref_bytes(identity@, n),
{
    let mut out = make_gen_bytes(2, n);
    let id_bytes = identity.as_bytes();
    let mut i: usize = 9;
    while i < 32
        invariant
            9 <= i <= 32,
            identity@.len() == ID_LEN,
            id_bytes@ == identity@,
            out@.len() == 32,
            forall|j: int| 0 <= j < 9 ==> out@[j] == gen_bytes(2, n)[j],
            forall|j: int| 9 <= j < i ==> out@[j] == identity@[j - 9],
            forall|j: int| i <= j < 32 ==> out@[j] == gen_bytes(2, n)[j],
        decreases 32 - i,
    {
        out.set(i, id_bytes[i - 9]);
        i = i + 1;
    }
    proof {
        assert(out@ =~= kp_ref_bytes(identity@, n));
    }
    out
}

/// The key package a session at counter `s.next_id` creates for the key
/// with hex text `ph`.
pub open spec fn made_kp(s: SessionView, ph: Seq<u8>) -> KeyPackageView {
    KeyPackageView {
        pubkey: hex_decode(ph),
        ciphersuite: s.ciphersuite,
        extensions: s.extensions,
        reference: kp_ref_bytes(s.identity, s.next_id),
        signature: sig64(s.next_id),
    }
}

/// A key package fits this session: same ciphersuite, and every extension
/// it claims is one the session supports.
pub open spec fn kp_compatible(k: KeyPackageView, cs: u16, exts: Seq<u16>) -> bool {
    k.ciphersuite == cs && subset_seq(k.extensions, exts)
}

/// Mathematical model of one session.
#[verifier::ext_equal]
pub struct SessionView {
    pub identity: Seq<u8>,
    pub ciphersuite: u16,
    pub extensions: Seq<u16>,
    pub groups: Seq<GroupView>,
    pub owned: Seq<Seq<u8>>,
    pub consumed: Seq<Seq<u8>>,
    pub next_id: u64,
}

impl SessionView {
    /// Session invariant: a full-length identity, distinct group ids, and
    /// every group well-formed (in particular, admins are members).
    pub open spec fn swf(self) -> bool {
        &&& self.identity.len() == ID_LEN
        &&& self.extensions.len() <= 255
        &&& distinct_ids(self.groups)
        &&& forall|i: int| 0 <= i < self.groups.len() ==> (#[trigger] self.groups[i]).wf()
    }

    /// Every group can still advance its epoch, and identifiers can still
    /// be generated: the machine-limit headroom the mutating operations
    /// ask of their callers.
    pub open spec fn headroom(self) -> bool {
        &&& self.next_id < u64::MAX
        &&& forall|i: int| 0 <= i < self.groups.len() ==> (#[trigger] self.groups[i]).epoch
            < u64::MAX
    }
}

/// One identity's live session: its groups, the key packages it has
/// published, and the key-package references it has consumed.
pub struct Session {
    pub identity: PublicKey,
    pub ciphersuite: u16,
    pub extensions: Vec<u16>,
    pub groups: Vec<GroupState>,
    pub owned: Vec<Vec<u8>>,
    pub consumed: Vec<Vec<u8>>,
    pub next_id: u64,
}

impl View for Session {
    type V = SessionView;

    open spec fn view(&self) -> SessionView {
        SessionView {
            identity: self.identity@,
            ciphersuite: self.ciphersuite,
            extensions: self.extensions@,
            groups: views_of(self.groups@),
            owned: views_of(self.owned@),
            consumed: views_of(self.consumed@),
            next_id: self.next_id,
        }
    }
}

impl Session {
    /// The session invariant, on the model.
    pub open spec fn wf(&self) -> bool {
        self@.swf()
    }

    /// The index of the group with id `gid`, when one exists.
    fn find_group(&self, gid: &GroupId) -> (r: Option<usize>)
        ensures
            r is Some <==> has_group(self@.groups, gid@),
            r is Some ==> r->0 < self.groups@.len() && self.groups@[r->0 as int]@.id == gid@,
    {
        let mut i: usize = 0;
        while i < self.groups.len()
            invariant
                i <= self.groups@.len(),
                forall|j: int| 0 <= j < i ==> views_of(self.groups@)[j].id != gid@,
            decreases self.groups.len() - i,
        {
            if self.groups[i].group_id.id_eq(gid) {
                assert(views_of(self.groups@)[i as int].id == gid@);
                return Some(i);
            }
            i = i + 1;
        }
        proof {
            if has_group(self@.groups, gid@) {
                let j = choose|j: int|
                    0 <= j < self@.groups.len() && self@.groups[j].id == gid@;
                assert(views_of(self.groups@)[j].id == gid@);
            }
        }
        None
    }

    /// Success condition shared by the read-only group accessors: the id
    /// is full length and names a known group.
    pub open spec fn lookup_ok(s: SessionView, gid: Seq<u8>) -> bool {
        gid.len() == ID_LEN && has_group(s.groups, gid)
    }

    /// The error a failed lookup reports.
    pub open spec fn lookup_err(s: SessionView, gid: Seq<u8>) -> Error {
        if gid.len() != ID_LEN {
            Error::InvalidInput
        } else {
            Error::GroupNotFound
        }
    }

    /// Look up a group's state. Succeeds exactly when the id is well
    /// formed and known; the result is that group's record.
    pub fn get_group(&self, group_id: &[u8]) -> (r: Result<GroupState, Error>)
        requires
            self.wf(),
        ensures
            r is Ok <==> Self::lookup_ok(self@, group_id@),
            r is Ok ==> r->Ok_0@ == grp(self@.groups, group_id@),
            r is Err ==> r->Err_0 == Self::lookup_err(self@, group_id@),
    {
        if group_id.len() != ID_LEN {
            return Err(Error::InvalidInput);
        }
        let gid = match GroupId::from_bytes(vstd::slice::slice_to_vec(group_id)) {
            Ok(g) => g,
            Err(e) => { return Err(e) },
        };
        match self.find_group(&gid) {
            Some(i) => {
                proof {
                    lemma_gidx(self@.groups, group_id@, i as int);
                }
                Ok(self.groups[i].clone())
            },
            None => Err(Error::GroupNotFound),
        }
    }

    /// Look up a group's current member list. Succeeds exactly when the
    /// id is well formed and known.
    pub fn get_members(&self, group_id: &[u8]) -> (r: Result<Vec<PublicKey>, Error>)
        requires
            self.wf(),
        ensures
            r is Ok <==> Self::lookup_ok(self@, group_id@),
            r is Ok ==> views_of(r->Ok_0@) == grp(self@.groups, group_id@).members,
            r is Err ==> r->Err_0 == Self::lookup_err(self@, group_id@),
    {
        if group_id.len() != ID_LEN {
            return Err(Error::InvalidInput);
        }
        let gid = match GroupId::from_bytes(vstd::slice::slice_to_vec(group_id)) {
            Ok(g) => g,
            Err(e) => { return Err(e) },
        };
        match self.find_group(&gid) {
            Some(i) => {
                proof {
                    lemma_gidx(self@.groups, group_id@, i as int);
                }
                Ok(clone_keys(&self.groups[i].members))
            },
            None => Err(Error::GroupNotFound),
        }
    }

    /// Export the labeled secret of a group's current epoch. Succeeds
    /// exactly when the id is well formed and known; the secret is the
    /// current epoch's mix over the group's base secret, together with
    /// that epoch.
    pub fn export_secret(&self, group_id: &[u8]) -> (r: Result<ExportedSecret, Error>)
        requires
            self.wf(),
        ensures
            r is Ok <==> Self::lookup_ok(self@, group_id@),
            r is Ok ==> ({
                let g = grp(self@.groups, group_id@);
                r->Ok_0.secret@ == mix_secret(g.base_secret, g.epoch) && r->Ok_0.epoch
                    == g.epoch
            }),
            r is Err ==> r->Err_0 == Self::lookup_err(self@, group_id@),
    {
        if group_id.len() != ID_LEN {
            return Err(Error::InvalidInput);
        }
        let gid = match GroupId::from_bytes(vstd::slice::slice_to_vec(group_id)) {
            Ok(g) => g,
            Err(e) => { return Err(e) },
        };
        match self.find_group(&gid) {
            Some(i) => {
                proof {
                    lemma_gidx(self@.groups, group_id@, i as int);
                }
                let g = &self.groups[i];
                Ok(ExportedSecret { secret: make_mix_secret(&g.base_secret, g.epoch), epoch: g.epoch })
            },
            None => Err(Error::GroupNotFound),
        }
    }
}

/// Whether key-package creation succeeds: the key text and every relay
/// hint must be valid.
pub open spec fn ckp_ok(ph: Seq<u8>, rv: Seq<Seq<char>>) -> bool {
    valid_pk_hex(ph) && valid_relays(rv)
}

/// The session after key-package creation: on success the fresh
/// reference is recorded as owned and the counter advances; on failure
/// nothing changes.
pub open spec fn ckp_state(s: SessionView, ph: Seq<u8>, rv: Seq<Seq<char>>) -> SessionView {
    if ckp_ok(ph, rv) {
        SessionView {
            owned: s.owned.push(kp_ref_bytes(s.identity, s.next_id)),
            next_id: (s.next_id + 1) as u64,
            ..s
        }
    } else {
        s
    }
}

impl Session {
    /// Create and record a fresh key package for the key named by
    /// `public_key`, returning its hex encoding and the publication
    /// metadata. Succeeds exactly when the key text is 64 hex digits and
    /// every relay hint is a valid websocket URL; anything else is
    /// `InvalidInput`.
    pub fn create_key_package_for_event(
        &mut self,
        public_key: &str,
        relay: &Vec<String>,
    ) -> (r: Result<KeyPackageEvent, Error>)
        requires
            old(self).wf(),
            old(self)@.next_id < u64::MAX,
        ensures
            final(self).wf(),
            final(self)@ == ckp_state(old(self)@, public_key.spec_bytes(), views_of(relay@)),
            r is Ok <==> ckp_ok(public_key.spec_bytes(), views_of(relay@)),
            r is Ok ==> ({
                let k = made_kp(old(self)@, public_key.spec_bytes());
                &&& r->Ok_0.encoded_key_package@ == hex_encode(kp_frame(k))
                &&& views_of(r->Ok_0.relays@) == views_of(relay@)
                &&& r->Ok_0.ciphersuite == old(self)@.ciphersuite
                &&& r->Ok_0.extensions@ == old(self)@.extensions
            }),
            r is Err ==> r->Err_0 == Error::InvalidInput,
    {
        let pubkey = match PublicKey::parse(public_key) {
            Ok(p) => p,
            Err(e) => { return Err(e) },
        };
        if !check_relays(relay) {
            return Err(Error::InvalidInput);
        }
        let reference = make_kp_ref(&self.identity, self.next_id);
        let mut signature = make_gen_bytes(3, self.next_id);
        let tail = make_gen_bytes(4, self.next_id);
        push_bytes(&mut signature, tail.as_slice());
        let kp = KeyPackage {
            pubkey,
            ciphersuite: self.ciphersuite,
            extensions: clone_u16s(&self.extensions),
            reference,
            signature,
        };
        proof {
            assert(kp@ =~= made_kp(self@, public_key.spec_bytes()));
        }
        let encoded = kp.encode();
        let result = KeyPackageEvent {
            encoded_key_package: encoded,
            relays: clone_strings(relay),
            ciphersuite: self.ciphersuite,
            extensions: clone_u16s(&self.extensions),
        };
        self.owned.push(kp.reference);
        self.next_id = self.next_id + 1;
        proof {
            assert(self@ =~= ckp_state(old(self)@, public_key.spec_bytes(), views_of(
                relay@,
            )));
            assert(self@.groups =~= old(self)@.groups);
        }
        Ok(result)
    }

    /// Parse hex text as a key package and check it against this
    /// session's ciphersuite and supported extensions. Pure: no state is
    /// touched. Succeeds exactly on a well-formed frame that fits the
    /// session; anything else is `InvalidKeyPackage`.
    pub fn parse_key_package(&self, encoded: &str) -> (r: Result<KeyPackage, Error>)
        ensures
            r is Ok <==> (parse_kp_hex(encoded.spec_bytes()) matches Some(k) && kp_compatible(
                k,
                self@.ciphersuite,
                self@.extensions,
            )),
            r is Ok ==> Some(r->Ok_0@) == parse_kp_hex(encoded.spec_bytes()),
            r is Err ==> r->Err_0 == Error::InvalidKeyPackage,
    {
        let kp = match KeyPackage::parse_hex(encoded.as_bytes()) {
            Ok(k) => k,
            Err(e) => { return Err(e) },
        };
        if kp.ciphersuite != self.ciphersuite {
            return Err(Error::InvalidKeyPackage);
        }
        if !u16_subset(&kp.extensions, &self.extensions) {
            return Err(Error::InvalidKeyPackage);
        }
        Ok(kp)
    }
}

/// The UTF-8 byte strings of a list of texts.
pub open spec fn str_bytes(s: Seq<Seq<char>>) -> Seq<Seq<u8>> {
    Seq::new(s.len(), |i: int| vstd::utf8::encode_utf8(s[i]))
}

/// Every entry is 64 hex digits.
pub open spec fn all_pk_hex(hs: Seq<Seq<u8>>) -> bool {
    forall|i: int| 0 <= i < hs.len() ==> valid_pk_hex(#[trigger] hs[i])
}

/// The keys the hex entries denote.
pub open spec fn decode_pks(hs: Seq<Seq<u8>>) -> Seq<Seq<u8>> {
    Seq::new(hs.len(), |i: int| hex_decode(hs[i]))
}

/// Every entry parses as a key package that fits the session.
pub open spec fn all_kp_valid(cs: u16, exts: Seq<u16>, ks: Seq<Seq<u8>>) -> bool {
    forall|i: int|
        0 <= i < ks.len() ==> ((#[trigger] parse_kp_hex(ks[i])) matches Some(k)
            && kp_compatible(k, cs, exts))
}

/// The key packages the hex entries denote.
pub open spec fn kps_of(ks: Seq<Seq<u8>>) -> Seq<KeyPackageView> {
    Seq::new(ks.len(), |i: int| parse_kp_hex(ks[i])->0)
}

/// The storage references of a list of key packages.
pub open spec fn refs_of(ks: Seq<KeyPackageView>) -> Seq<Seq<u8>> {
    Seq::new(ks.len(), |i: int| ks[i].reference)
}

/// Each key package belongs to the member at the same position.
pub open spec fn paired(ks: Seq<KeyPackageView>, mems: Seq<Seq<u8>>) -> bool {
    forall|i: int| 0 <= i < ks.len() ==> (#[trigger] ks[i]).pubkey == mems[i]
}

/// Some reference in `refs` was already consumed in `s`.
pub open spec fn any_consumed(s: SessionView, refs: Seq<Seq<u8>>) -> bool {
    exists|i: int| 0 <= i < refs.len() && s.consumed.contains(#[trigger] refs[i])
}

/// Parse a list of hex public keys; the first malformed entry fails the
/// whole list with `InvalidInput`.
fn parse_pk_list(v: &Vec<String>) -> (r: Result<Vec<PublicKey>, Error>)
    ensures
        r is Ok <==> all_pk_hex(str_bytes(views_of(v@))),
        r is Ok ==> views_of(r->Ok_0@) == decode_pks(str_bytes(views_of(v@))),
        r is Err ==> r->Err_0 == Error::InvalidInput,
{
    let ghost hs = str_bytes(views_of(v@));
    let mut out: Vec<PublicKey> = Vec::new();
    let mut i: usize = 0;
    while i < v.len()
        invariant
            i <= v@.len(),
            hs == str_bytes(views_of(v@)),
            out@.len() == i,
            forall|j: int| 0 <= j < i ==> valid_pk_hex(#[trigger] hs[j]),
            forall|j: int| 0 <= j < i ==> out@[j]@ == hex_decode(#[trigger] hs[j]),
        decreases v.len() - i,
    {
        let sref = v[i].as_str();
        proof {
            assert(sref.spec_bytes() == hs[i as int]);
        }
        match PublicKey::parse(sref) {
            Ok(p) => {
                out.push(p);
            },
            Err(e) => {
                return Err(e);
            },
        }
        i = i + 1;
    }
    proof {
        assert(views_of(out@) =~= decode_pks(hs));
    }
    Ok(out)
}

/// Whether the key list is duplicate-free.
fn all_distinct_keys(v: &Vec<PublicKey>) -> (r: bool)
    ensures
        r == distinct_seq(views_of(v@)),
{
    let mut i: usize = 0;
    while i < v.len()
        invariant
            i <= v@.len(),
            forall|a: int, b: int| 0 <= a < b < i ==> views_of(v@)[a] != views_of(v@)[b],
        decreases v.len() - i,
    {
        let mut j: usize = 0;
        while j < i
            invariant
                j <= i < v@.len(),
                forall|a: int, b: int| 0 <= a < b < i ==> views_of(v@)[a] != views_of(v@)[b],
                forall|a: int| 0 <= a < j ==> views_of(v@)[a] != views_of(v@)[i as int],
            decreases i - j,
        {
            if v[j].key_eq(&v[i]) {
                assert(views_of(v@)[j as int] == views_of(v@)[i as int]);
                return false;
            }
            j = j + 1;
        }
        i = i + 1;
    }
    true
}

/// Whether the byte-string list is duplicate-free.
fn all_distinct_bytes(v: &Vec<Vec<u8>>) -> (r: bool)
    ensures
        r == distinct_seq(views_of(v@)),
{
    let mut i: usize = 0;
    while i < v.len()
        invariant
            i <= v@.len(),
            forall|a: int, b: int| 0 <= a < b < i ==> views_of(v@)[a] != views_of(v@)[b],
        decreases v.len() - i,
    {
        let mut j: usize = 0;
        while j < i
            invariant
                j <= i < v@.len(),
                forall|a: int, b: int| 0 <= a < b < i ==> views_of(v@)[a] != views_of(v@)[b],
                forall|a: int| 0 <= a < j ==> views_of(v@)[a] != views_of(v@)[i as int],
            decreases i - j,
        {
            if crate::keys::bytes_eq(v[j].as_slice(), v[i].as_slice()) {
                assert(views_of(v@)[j as int] == views_of(v@)[i as int]);
                return false;
            }
            j = j + 1;
        }
        i = i + 1;
    }
    true
}

/// Whether every key of `a` occurs in `b`.
fn keys_subset(a: &Vec<PublicKey>, b: &Vec<PublicKey>) -> (r: bool)
    ensures
        r == subset_seq(views_of(a@), views_of(b@)),
{
    let mut i: usize = 0;
    while i < a.len()
        invariant
            i <= a@.len(),
            forall|j: int|
                0 <= j < i ==> views_of(b@).contains(#[trigger] views_of(a@)[j]),
        decreases a.len() - i,
    {
        if !crate::group::contains_key(b, &a[i]) {
            assert(!views_of(b@).contains(views_of(a@)[i as int]));
            return false;
        }
        i = i + 1;
    }
    true
}

/// Whether some entry of `refs` occurs in `consumed`.
fn any_in(consumed: &Vec<Vec<u8>>, refs: &Vec<Vec<u8>>) -> (r: bool)
    ensures
        r == (exists|i: int|
            0 <= i < views_of(refs@).len() && views_of(consumed@).contains(
                #[trigger] views_of(refs@)[i],
            )),
{
    let mut i: usize = 0;
    while i < refs.len()
        invariant
            i <= refs@.len(),
            forall|j: int|
                0 <= j < i ==> !views_of(consumed@).contains(#[trigger] views_of(refs@)[j]),
        decreases refs.len() - i,
    {
        if crate::group::contains_bytes(consumed, refs[i].as_slice()) {
            assert(views_of(consumed@).contains(views_of(refs@)[i as int]));
            return true;
        }
        i = i + 1;
    }
    false
}

/// The storage references of the parsed key packages.
fn collect_refs(kps: &Vec<KeyPackage>) -> (r: Vec<Vec<u8>>)
    ensures
        views_of(r@) == refs_of(views_of(kps@)),
{
    let mut out: Vec<Vec<u8>> = Vec::new();
    let mut i: usize = 0;
    while i < kps.len()
        invariant
            i <= kps@.len(),
            out@.len() == i,
            forall|j: int| 0 <= j < i ==> out@[j]@ == views_of(kps@)[j].reference,
        decreases kps.len() - i,
    {
        out.push(clone_bytes(&kps[i].reference));
        i = i + 1;
    }
    proof {
        assert(views_of(out@) =~= refs_of(views_of(kps@)));
    }
    out
}

/// Append every byte string of `src` to `dst`.
fn append_bytes_list(dst: &mut Vec<Vec<u8>>, src: &Vec<Vec<u8>>)
    ensures
        views_of(final(dst)@) == views_of(old(dst)@) + views_of(src@),
{
    let mut i: usize = 0;
    while i < src.len()
        invariant
            i <= src@.len(),
            views_of(dst@) == views_of(old(dst)@) + views_of(src@).subrange(0, i as int),
        decreases src.len() - i,
    {
        let ghost pre = views_of(dst@);
        dst.push(clone_bytes(&src[i]));
        proof {
            assert(views_of(dst@) =~= pre.push(views_of(src@)[i as int]));
            assert(views_of(old(dst)@) + views_of(src@).subrange(0, i as int + 1) =~= (
            views_of(old(dst)@) + views_of(src@).subrange(0, i as int)).push(
                views_of(src@)[i as int],
            ));
        }
        i = i + 1;
    }
    proof {
        assert(views_of(src@).subrange(0, views_of(src@).len() as int) =~= views_of(src@));
    }
}

/// The key list `head` followed by `tail`.
fn cons_keys(head: &PublicKey, tail: &Vec<PublicKey>) -> (r: Vec<PublicKey>)
    ensures
        views_of(r@) == seq![head@] + views_of(tail@),
{
    let mut out: Vec<PublicKey> = Vec::new();
    out.push(head.clone());
    let mut i: usize = 0;
    while i < tail.len()
        invariant
            i <= tail@.len(),
            out@.len() == 1 + i,
            out@[0]@ == head@,
            forall|j: int| 0 <= j < i ==> out@[1 + j]@ == views_of(tail@)[j],
        decreases tail.len() - i,
    {
        out.push(tail[i].clone());
        i = i + 1;
    }
    proof {
        assert(views_of(out@) =~= seq![head@] + views_of(tail@));
    }
    out
}

/// The new group's member roll: the creator, then the listed members.
pub open spec fn cg_members(ch: Seq<u8>, mh: Seq<Seq<u8>>) -> Seq<Seq<u8>> {
    seq![hex_decode(ch)] + decode_pks(mh)
}

/// Why group creation fails, or `None` when it succeeds. `s` is the
/// session; `ch`, `mh`, `kh`, `ah` are the hex texts of the creator, the
/// members, their key packages, and the admins; `rl` the relay hints.
pub open spec fn cg_err(
    s: SessionView,
    ch: Seq<u8>,
    mh: Seq<Seq<u8>>,
    kh: Seq<Seq<u8>>,
    ah: Seq<Seq<u8>>,
    rl: Seq<Seq<char>>,
) -> Option<Error> {
    if !all_pk_hex(mh) {
        Some(Error::InvalidInput)
    } else if !all_kp_valid(s.ciphersuite, s.extensions, kh) {
        Some(Error::InvalidKeyPackage)
    } else if !all_pk_hex(ah) {
        Some(Error::InvalidInput)
    } else if !valid_pk_hex(ch) {
        Some(Error::InvalidInput)
    } else if !valid_relays(rl) {
        Some(Error::InvalidInput)
    } else if mh.len() != kh.len() {
        Some(Error::GroupCreationError)
    } else if !paired(kps_of(kh), decode_pks(mh)) {
        Some(Error::GroupCreationError)
    } else if !distinct_seq(cg_members(ch, mh)) {
        Some(Error::GroupCreationError)
    } else if !distinct_seq(decode_pks(ah)) {
        Some(Error::GroupCreationError)
    } else if !subset_seq(decode_pks(ah), cg_members(ch, mh)) {
        Some(Error::GroupCreationError)
    } else if !distinct_seq(refs_of(kps_of(kh))) {
        Some(Error::InvalidKeyPackage)
    } else if any_consumed(s, refs_of(kps_of(kh))) {
        Some(Error::InvalidKeyPackage)
    } else if has_group(s.groups, gen_bytes(1, s.next_id)) {
        Some(Error::StorageError)
    } else {
        None
    }
}

/// The group that creation establishes: epoch zero, the creator and the
/// listed members, the listed admins, and fresh identifiers.
pub open spec fn cg_group(
    s: SessionView,
    nm: Seq<char>,
    dc: Seq<char>,
    ch: Seq<u8>,
    mh: Seq<Seq<u8>>,
    ah: Seq<Seq<u8>>,
    rl: Seq<Seq<char>>,
) -> GroupView {
    GroupView {
        id: gen_bytes(1, s.next_id),
        nostr_id: gen_bytes(5, s.next_id),
        name: nm,
        description: dc,
        epoch: 0,
        members: cg_members(ch, mh),
        admins: decode_pks(ah),
        relays: rl,
        base_secret: gen_bytes(6, s.next_id),
    }
}

/// The welcome that creation produces: the new group's state at epoch
/// zero, addressed to the consumed key packages.
pub open spec fn cg_welcome(
    s: SessionView,
    nm: Seq<char>,
    dc: Seq<char>,
    ch: Seq<u8>,
    mh: Seq<Seq<u8>>,
    kh: Seq<Seq<u8>>,
    ah: Seq<Seq<u8>>,
    rl: Seq<Seq<char>>,
) -> crate::messages::WelcomeView {
    let g = cg_group(s, nm, dc, ch, mh, ah, rl);
    crate::messages::WelcomeView {
        group_id: g.id,
        nostr_id: g.nostr_id,
        name: g.name,
        description: g.description,
        epoch: 0,
        members: g.members,
        admins: g.admins,
        relays: g.relays,
        base_secret: g.base_secret,
        addressee_refs: refs_of(kps_of(kh)),
    }
}

/// The session after group creation: on success the new group is
/// recorded, every supplied key package is consumed, and the counter
/// advances; on failure nothing changes.
pub open spec fn cg_state(
    s: SessionView,
    nm: Seq<char>,
    dc: Seq<char>,
    ch: Seq<u8>,
    mh: Seq<Seq<u8>>,
    kh: Seq<Seq<u8>>,
    ah: Seq<Seq<u8>>,
    rl: Seq<Seq<char>>,
) -> SessionView {
    if cg_err(s, ch, mh, kh, ah, rl) is None {
        SessionView {
            groups: s.groups.push(cg_group(s, nm, dc, ch, mh, ah, rl)),
            consumed: s.consumed + refs_of(kps_of(kh)),
            next_id: (s.next_id + 1) as u64,
            ..s
        }
    } else {
        s
    }
}

impl Session {
    /// Parse a list of hex key packages against this session; the first
    /// entry that is malformed or does not fit fails the whole list with
    /// `InvalidKeyPackage`.
    fn parse_kp_list(&self, v: &Vec<String>) -> (r: Result<Vec<KeyPackage>, Error>)
        ensures
            r is Ok <==> all_kp_valid(self@.ciphersuite, self@.extensions, str_bytes(
                views_of(v@),
            )),
            r is Ok ==> views_of(r->Ok_0@) == kps_of(str_bytes(views_of(v@))),
            r is Err ==> r->Err_0 == Error::InvalidKeyPackage,
    {
        let ghost ks = str_bytes(views_of(v@));
        let mut out: Vec<KeyPackage> = Vec::new();
        let mut i: usize = 0;
        while i < v.len()
            invariant
                i <= v@.len(),
                ks == str_bytes(views_of(v@)),
                out@.len() == i,
                forall|j: int|
                    0 <= j < i ==> ((#[trigger] parse_kp_hex(ks[j])) matches Some(k)
                        && kp_compatible(k, self@.ciphersuite, self@.extensions)),
                forall|j: int| 0 <= j < i ==> Some(out@[j]@) == parse_kp_hex(#[trigger] ks[j]),
            decreases v.len() - i,
        {
            let sref = v[i].as_str();
            proof {
                assert(sref.spec_bytes() == ks[i as int]);
            }
            match self.parse_key_package(sref) {
                Ok(k) => {
                    out.push(k);
                },
                Err(e) => {
                    return Err(e);
                },
            }
            i = i + 1;
        }
        proof {
            assert(views_of(out@) =~= kps_of(ks));
        }
        Ok(out)
    }

    /// Create a group with the creator and the listed members, consuming
    /// one key package per member. Succeeds exactly when every input
    /// parses, the member and key-package lists pair up, the admins are
    /// drawn from the new member roll, and no key package was consumed
    /// before; the new group starts at epoch zero and its welcome
    /// addresses exactly the consumed key packages.
    #[verifier::loop_isolation(false)]
    pub fn create_group(
        &mut self,
        group_name: &str,
        group_description: &str,
        group_members_serialized_key_packages: &Vec<String>,
        group_members_pubkeys: &Vec<String>,
        group_creator_public_key: &str,
        group_admin_public_keys: &Vec<String>,
        relays: &Vec<String>,
    ) -> (r: Result<crate::messages::CreateGroupResult, Error>)
        requires
            old(self).wf(),
            old(self)@.next_id < u64::MAX,
        ensures
            final(self).wf(),
            final(self)@ == cg_state(
                old(self)@,
                group_name@,
                group_description@,
                group_creator_public_key.spec_bytes(),
                str_bytes(views_of(group_members_pubkeys@)),
                str_bytes(views_of(group_members_serialized_key_packages@)),
                str_bytes(views_of(group_admin_public_keys@)),
                views_of(relays@),
            ),
            r is Ok <==> cg_err(
                old(self)@,
                group_creator_public_key.spec_bytes(),
                str_bytes(views_of(group_members_pubkeys@)),
                str_bytes(views_of(group_members_serialized_key_packages@)),
                str_bytes(views_of(group_admin_public_keys@)),
                views_of(relays@),
            ) is None,
            r is Ok ==> r->Ok_0.group@ == cg_group(
                old(self)@,
                group_name@,
                group_description@,
                group_creator_public_key.spec_bytes(),
                str_bytes(views_of(group_members_pubkeys@)),
                str_bytes(views_of(group_admin_public_keys@)),
                views_of(relays@),
            ),
            r is Ok ==> r->Ok_0.welcome@ == cg_welcome(
                old(self)@,
                group_name@,
                group_description@,
                group_creator_public_key.spec_bytes(),
                str_bytes(views_of(group_members_pubkeys@)),
                str_bytes(views_of(group_members_serialized_key_packages@)),
                str_bytes(views_of(group_admin_public_keys@)),
                views_of(relays@),
            ),
            r is Err ==> Some(r->Err_0) == cg_err(
                old(self)@,
                group_creator_public_key.spec_bytes(),
                str_bytes(views_of(group_members_pubkeys@)),
                str_bytes(views_of(group_members_serialized_key_packages@)),
                str_bytes(views_of(group_admin_public_keys@)),
                views_of(relays@),
            ),
    {
        let ghost ch = group_creator_public_key.spec_bytes();
        let ghost mh = str_bytes(views_of(group_members_pubkeys@));
        let ghost kh = str_bytes(views_of(group_members_serialized_key_packages@));
        let ghost ah = str_bytes(views_of(group_admin_public_keys@));
        let ghost rl = views_of(relays@);
        let member_pks = match parse_pk_list(group_members_pubkeys) {
            Ok(v) => v,
            Err(e) => { return Err(e) },
        };
        let kps = match self.parse_kp_list(group_members_serialized_key_packages) {
            Ok(v) => v,
            Err(e) => { return Err(e) },
        };
        let admin_pks = match parse_pk_list(group_admin_public_keys) {
            Ok(v) => v,
            Err(e) => { return Err(e) },
        };
        let creator_pk = match PublicKey::parse(group_creator_public_key) {
            Ok(p) => p,
            Err(e) => { return Err(e) },
        };
        if !check_relays(relays) {
            return Err(Error::InvalidInput);
        }
        if group_members_pubkeys.len() != group_members_serialized_key_packages.len() {
            return Err(Error::GroupCreationError);
        }
        let mut i: usize = 0;
        while i < kps.len()
            invariant
                self@ == old(self)@,
                i <= kps@.len(),
                kps@.len() == member_pks@.len(),
                views_of(kps@) == kps_of(kh),
                views_of(member_pks@) == decode_pks(mh),
                forall|j: int|
                    0 <= j < i ==> (#[trigger] views_of(kps@)[j]).pubkey == views_of(
                        member_pks@,
                    )[j],
            decreases kps.len() - i,
        {
            if !kps[i].pubkey.key_eq(&member_pks[i]) {
                assert(views_of(kps@)[i as int].pubkey != views_of(member_pks@)[i as int]);
                return Err(Error::GroupCreationError);
            }
            i = i + 1;
        }
        let full_members = cons_keys(&creator_pk, &member_pks);
        proof {
            assert(views_of(full_members@) == cg_members(ch, mh));
        }
        if !all_distinct_keys(&full_members) {
            return Err(Error::GroupCreationError);
        }
        if !all_distinct_keys(&admin_pks) {
            return Err(Error::GroupCreationError);
        }
        if !keys_subset(&admin_pks, &full_members) {
            return Err(Error::GroupCreationError);
        }
        let refs = collect_refs(&kps);
        if !all_distinct_bytes(&refs) {
            return Err(Error::InvalidKeyPackage);
        }
        if any_in(&self.consumed, &refs) {
            return Err(Error::InvalidKeyPackage);
        }
        let gid_bytes = make_gen_bytes(1, self.next_id);
        let gid = match GroupId::from_bytes(gid_bytes) {
            Ok(g) => g,
            Err(e) => { return Err(e) },
        };
        if self.find_group(&gid).is_some() {
            return Err(Error::StorageError);
        }
        let group = GroupState {
            group_id: gid.clone(),
            nostr_group_id: make_gen_bytes(5, self.next_id),
            name: String::from_str(group_name),
            description: String::from_str(group_description),
            epoch: 0,
            members: full_members,
            admins: admin_pks,
            relays: clone_strings(relays),
            base_secret: make_gen_bytes(6, self.next_id),
        };
        let welcome = crate::messages::Welcome {
            group_id: gid,
            nostr_group_id: make_gen_bytes(5, self.next_id),
            name: String::from_str(group_name),
            description: String::from_str(group_description),
            epoch: 0,
            members: clone_keys(&group.members),
            admins: clone_keys(&group.admins),
            relays: clone_strings(relays),
            base_secret: make_gen_bytes(6, self.next_id),
            addressee_refs: clone_bytes_list(&refs),
        };
        let returned = group.clone();
        proof {
            assert(group@ =~= cg_group(self@, group_name@, group_description@, ch, mh, ah, rl));
            assert(welcome@ =~= cg_welcome(
                self@,
                group_name@,
                group_description@,
                ch,
                mh,
                kh,
                ah,
                rl,
            ));
        }
        self.groups.push(group);
        append_bytes_list(&mut self.consumed, &refs);
        self.next_id = self.next_id + 1;
        proof {
            let s0 = old(self)@;
            assert(views_of(self.groups@) =~= s0.groups.push(cg_group(
                s0,
                group_name@,
                group_description@,
                ch,
                mh,
                ah,
                rl,
            )));
            assert(self@ =~= cg_state(s0, group_name@, group_description@, ch, mh, kh, ah, rl));
            let g = cg_group(s0, group_name@, group_description@, ch, mh, ah, rl);
            assert(g.wf()) by {
                assert(forall|i: int|
                    0 <= i < g.members.len() ==> #[trigger] g.members[i].len() == ID_LEN);
            }
            assert(self.wf()) by {
                assert forall|i: int, j: int|
                    0 <= i < j < self@.groups.len() implies self@.groups[i].id
                    != self@.groups[j].id by {
                    if j == self@.groups.len() - 1 {
                        assert(!has_group(s0.groups, gen_bytes(1, s0.next_id)));
                        assert(self@.groups[i] == s0.groups[i]);
                    }
                }
            }
        }
        Ok(crate::messages::CreateGroupResult { group: returned, welcome })
    }
}

/// The public keys bound by a list of key packages.
pub open spec fn pks_of(ks: Seq<KeyPackageView>) -> Seq<Seq<u8>> {
    Seq::new(ks.len(), |i: int| ks[i].pubkey)
}

/// The identities may be added to `g`: none is a member yet, and no two
/// are equal.
pub open spec fn adds_ok(g: GroupView, adds: Seq<Seq<u8>>) -> bool {
    distinct_seq(adds) && forall|i: int|
        0 <= i < adds.len() ==> !g.members.contains(#[trigger] adds[i])
}

/// The identities may be removed from `g`: each is a current member.
pub open spec fn removes_ok(g: GroupView, rm: Seq<Seq<u8>>) -> bool {
    forall|i: int| 0 <= i < rm.len() ==> g.members.contains(#[trigger] rm[i])
}

/// One committed epoch transition: the epoch advances by exactly one, the
/// removed identities leave the member and admin rolls, and the added
/// identities join the member roll.
pub open spec fn apply_change(g: GroupView, adds: Seq<Seq<u8>>, rm: Seq<Seq<u8>>) -> GroupView {
    GroupView {
        epoch: (g.epoch + 1) as u64,
        members: remove_all(g.members, rm) + adds,
        admins: remove_all(g.admins, rm),
        ..g
    }
}

/// A committed change on a well-formed group leaves it well formed; in
/// particular the admins stay a subset of the members.
pub proof fn lemma_apply_change_wf(g: GroupView, adds: Seq<Seq<u8>>, rm: Seq<Seq<u8>>)
    requires
        g.wf(),
        adds_ok(g, adds),
        forall|i: int| 0 <= i < adds.len() ==> (#[trigger] adds[i]).len() == ID_LEN,
    ensures
        apply_change(g, adds, rm).wf(),
{
    lemma_remove_all_props(g.members, rm);
    lemma_remove_all_props(g.admins, rm);
    let ra = remove_all(g.members, rm);
    let m2 = ra + adds;
    let k = ra.len() as int;
    assert forall|i: int| 0 <= i < ra.len() implies g.members.contains(#[trigger] ra[i])
        && ra[i].len() == ID_LEN by {
        assert(ra.contains(ra[i]));
        assert(g.members.contains(ra[i]));
        let w = choose|w: int| 0 <= w < g.members.len() && g.members[w] == ra[i];
        assert(0 <= w < g.members.len());
        assert(g.members[w].len() == ID_LEN);
    }
    assert forall|i: int, j: int| 0 <= i < j < m2.len() implies m2[i] != m2[j] by {
        if j < k {
            assert(m2[i] == ra[i] && m2[j] == ra[j]);
        } else if i >= k {
            assert(m2[i] == adds[i - k] && m2[j] == adds[j - k]);
        } else {
            assert(m2[i] == ra[i] && m2[j] == adds[j - k]);
            assert(g.members.contains(ra[i]));
            assert(!g.members.contains(adds[j - k]));
        }
    }
    let a2 = remove_all(g.admins, rm);
    assert forall|i: int| 0 <= i < a2.len() implies m2.contains(#[trigger] a2[i]) by {
        assert(a2.contains(a2[i]));
        assert(g.admins.contains(a2[i]) && !rm.contains(a2[i]));
        let w = choose|w: int| 0 <= w < g.admins.len() && g.admins[w] == a2[i];
        assert(g.members.contains(g.admins[w]));
        assert(ra.contains(a2[i]));
        let u = choose|u: int| 0 <= u < ra.len() && ra[u] == a2[i];
        assert(m2[u] == a2[i]);
    }
    assert forall|i: int| 0 <= i < m2.len() implies (#[trigger] m2[i]).len() == ID_LEN by {
        if i < k {
        } else {
            assert(m2[i] == adds[i - k]);
        }
    }
}

/// Whether some key of `a` occurs in `b`.
fn any_key_in(b: &Vec<PublicKey>, a: &Vec<PublicKey>) -> (r: bool)
    ensures
        r == (exists|i: int|
            0 <= i < views_of(a@).len() && views_of(b@).contains(
                #[trigger] views_of(a@)[i],
            )),
{
    let mut i: usize = 0;
    while i < a.len()
        invariant
            i <= a@.len(),
            forall|j: int|
                0 <= j < i ==> !views_of(b@).contains(#[trigger] views_of(a@)[j]),
        decreases a.len() - i,
    {
        if crate::group::contains_key(b, &a[i]) {
            assert(views_of(b@).contains(views_of(a@)[i as int]));
            return true;
        }
        i = i + 1;
    }
    false
}

/// The public keys bound by the parsed key packages.
fn kp_pubkeys(kps: &Vec<KeyPackage>) -> (r: Vec<PublicKey>)
    ensures
        views_of(r@) == pks_of(views_of(kps@)),
{
    let mut out: Vec<PublicKey> = Vec::new();
    let mut i: usize = 0;
    while i < kps.len()
        invariant
            i <= kps@.len(),
            out@.len() == i,
            forall|j: int| 0 <= j < i ==> out@[j]@ == views_of(kps@)[j].pubkey,
        decreases kps.len() - i,
    {
        out.push(kps[i].pubkey.clone());
        i = i + 1;
    }
    proof {
        assert(views_of(out@) =~= pks_of(views_of(kps@)));
    }
    out
}

/// Append every key of `src` to `dst`.
fn append_keys(dst: &mut Vec<PublicKey>, src: &Vec<PublicKey>)
    ensures
        views_of(final(dst)@) == views_of(old(dst)@) + views_of(src@),
{
    let mut i: usize = 0;
    while i < src.len()
        invariant
            i <= src@.len(),
            views_of(dst@) == views_of(old(dst)@) + views_of(src@).subrange(0, i as int),
        decreases src.len() - i,
    {
        let ghost pre = views_of(dst@);
        dst.push(src[i].clone());
        proof {
            assert(views_of(dst@) =~= pre.push(views_of(src@)[i as int]));
            assert(views_of(old(dst)@) + views_of(src@).subrange(0, i as int + 1) =~= (
            views_of(old(dst)@) + views_of(src@).subrange(0, i as int)).push(
                views_of(src@)[i as int],
            ));
        }
        i = i + 1;
    }
    proof {
        assert(views_of(src@).subrange(0, views_of(src@).len() as int) =~= views_of(src@));
    }
}

/// Build the group record after one committed change.
fn group_apply_change(
    g: &GroupState,
    adds: &Vec<PublicKey>,
    removes: &Vec<PublicKey>,
) -> (r: GroupState)
    requires
        g@.epoch < u64::MAX,
    ensures
        r@ == apply_change(g@, views_of(adds@), views_of(removes@)),
{
    let mut members = crate::group::filter_out_keys(&g.members, removes);
    append_keys(&mut members, adds);
    let admins = crate::group::filter_out_keys(&g.admins, removes);
    let r = GroupState {
        group_id: g.group_id.clone(),
        nostr_group_id: clone_bytes(&g.nostr_group_id),
        name: g.name.clone(),
        description: g.description.clone(),
        epoch: g.epoch + 1,
        members,
        admins,
        relays: clone_strings(&g.relays),
        base_secret: clone_bytes(&g.base_secret),
    };
    proof {
        assert(r@ =~= apply_change(g@, views_of(adds@), views_of(removes@)));
    }
    r
}

/// The welcome describing group `g`, addressed to `refs`.
fn welcome_for(g: &GroupState, refs: &Vec<Vec<u8>>) -> (r: crate::messages::Welcome)
    ensures
        r@ == welcome_of(g@, views_of(refs@)),
{
    let r = crate::messages::Welcome {
        group_id: g.group_id.clone(),
        nostr_group_id: clone_bytes(&g.nostr_group_id),
        name: g.name.clone(),
        description: g.description.clone(),
        epoch: g.epoch,
        members: clone_keys(&g.members),
        admins: clone_keys(&g.admins),
        relays: clone_strings(&g.relays),
        base_secret: clone_bytes(&g.base_secret),
        addressee_refs: clone_bytes_list(refs),
    };
    proof {
        assert(r@ =~= welcome_of(g@, views_of(refs@)));
    }
    r
}

/// The welcome describing group state `g`, addressed to `refs`.
pub open spec fn welcome_of(g: GroupView, refs: Seq<Seq<u8>>) -> crate::messages::WelcomeView {
    crate::messages::WelcomeView {
        group_id: g.id,
        nostr_id: g.nostr_id,
        name: g.name,
        description: g.description,
        epoch: g.epoch,
        members: g.members,
        admins: g.admins,
        relays: g.relays,
        base_secret: g.base_secret,
        addressee_refs: refs,
    }
}

/// The commit message a member at `s.identity` issues for group `gid` at
/// epoch `ep`, adding `adds` and removing `rm`.
pub open spec fn commit_of(
    s: SessionView,
    gid: Seq<u8>,
    ep: u64,
    adds: Seq<Seq<u8>>,
    rm: Seq<Seq<u8>>,
) -> crate::messages::WireView {
    crate::messages::WireView {
        group_id: gid,
        epoch: ep,
        sender: s.identity,
        body: crate::messages::BodyView::Membership(
            crate::messages::CommitBodyView { adds, removes: rm },
        ),
    }
}

/// Why adding members fails, or `None` when it succeeds.
pub open spec fn am_err(s: SessionView, gid: Seq<u8>, kh: Seq<Seq<u8>>) -> Option<Error> {
    if gid.len() != ID_LEN {
        Some(Error::InvalidInput)
    } else if !has_group(s.groups, gid) {
        Some(Error::GroupNotFound)
    } else if !all_kp_valid(s.ciphersuite, s.extensions, kh) {
        Some(Error::InvalidKeyPackage)
    } else if !distinct_seq(refs_of(kps_of(kh))) {
        Some(Error::InvalidKeyPackage)
    } else if any_consumed(s, refs_of(kps_of(kh))) {
        Some(Error::InvalidKeyPackage)
    } else if !adds_ok(grp(s.groups, gid), pks_of(kps_of(kh))) {
        Some(Error::InvalidKeyPackage)
    } else {
        None
    }
}

/// The group after an add-members commit.
pub open spec fn am_group(s: SessionView, gid: Seq<u8>, kh: Seq<Seq<u8>>) -> GroupView {
    apply_change(grp(s.groups, gid), pks_of(kps_of(kh)), Seq::empty())
}

/// The session after adding members: on success the group advances one
/// epoch with the new members and every supplied key package is
/// consumed; on failure nothing changes.
pub open spec fn am_state(s: SessionView, gid: Seq<u8>, kh: Seq<Seq<u8>>) -> SessionView {
    if am_err(s, gid, kh) is None {
        SessionView {
            groups: s.groups.update(gidx(s.groups, gid), am_group(s, gid, kh)),
            consumed: s.consumed + refs_of(kps_of(kh)),
            ..s
        }
    } else {
        s
    }
}

impl Session {
    /// Add members to a group, consuming one key package per new member.
    /// Succeeds exactly when the id names a known group and every key
    /// package parses, fits the session, is fresh, and names a new,
    /// distinct member; the group then advances one epoch, the commit is
    /// issued at the old epoch, and the welcome describes the new state.
    #[verifier::loop_isolation(false)]
    pub fn add_members(
        &mut self,
        group_id: &[u8],
        serialized_key_packages: &Vec<String>,
    ) -> (r: Result<crate::messages::AddMembersResult, Error>)
        requires
            old(self).wf(),
            old(self)@.headroom(),
        ensures
            final(self).wf(),
            final(self)@ == am_state(
                old(self)@,
                group_id@,
                str_bytes(views_of(serialized_key_packages@)),
            ),
            r is Ok <==> am_err(
                old(self)@,
                group_id@,
                str_bytes(views_of(serialized_key_packages@)),
            ) is None,
            r is Ok ==> ({
                let kh = str_bytes(views_of(serialized_key_packages@));
                let g = grp(old(self)@.groups, group_id@);
                &&& r->Ok_0.commit@ == commit_of(
                    old(self)@,
                    group_id@,
                    g.epoch,
                    pks_of(kps_of(kh)),
                    Seq::empty(),
                )
                &&& r->Ok_0.welcome@ == welcome_of(
                    am_group(old(self)@, group_id@, kh),
                    refs_of(kps_of(kh)),
                )
            }),
            r is Err ==> Some(r->Err_0) == am_err(
                old(self)@,
                group_id@,
                str_bytes(views_of(serialized_key_packages@)),
            ),
    {
        let ghost kh = str_bytes(views_of(serialized_key_packages@));
        if group_id.len() != ID_LEN {
            return Err(Error::InvalidInput);
        }
        let gid = match GroupId::from_bytes(vstd::slice::slice_to_vec(group_id)) {
            Ok(g) => g,
            Err(e) => { return Err(e) },
        };
        let gi = match self.find_group(&gid) {
            Some(i) => i,
            None => { return Err(Error::GroupNotFound) },
        };
        proof {
            lemma_gidx(self@.groups, group_id@, gi as int);
        }
        let kps = match self.parse_kp_list(serialized_key_packages) {
            Ok(v) => v,
            Err(e) => { return Err(e) },
        };
        let refs = collect_refs(&kps);
        if !all_distinct_bytes(&refs) {
            return Err(Error::InvalidKeyPackage);
        }
        if any_in(&self.consumed, &refs) {
            return Err(Error::InvalidKeyPackage);
        }
        let adds = kp_pubkeys(&kps);
        if !all_distinct_keys(&adds) {
            return Err(Error::InvalidKeyPackage);
        }
        if any_key_in(&self.groups[gi].members, &adds) {
            return Err(Error::InvalidKeyPackage);
        }
        let empty_removes: Vec<PublicKey> = Vec::new();
        let new_group = group_apply_change(&self.groups[gi], &adds, &empty_removes);
        let welcome = welcome_for(&new_group, &refs);
        let commit = crate::messages::WireMessage {
            group_id: gid,
            epoch: self.groups[gi].epoch,
            sender: self.identity.clone(),
            body: crate::messages::MessageBody::Membership(
                crate::messages::CommitBody { adds, removes: empty_removes },
            ),
        };
        proof {
            assert(views_of(empty_removes@) =~= Seq::<Seq<u8>>::empty());
            assert(new_group@ =~= am_group(old(self)@, group_id@, kh));
            assert(commit@ =~= commit_of(
                old(self)@,
                group_id@,
                grp(old(self)@.groups, group_id@).epoch,
                pks_of(kps_of(kh)),
                Seq::empty(),
            ));
        }
        self.groups.set(gi, new_group);
        append_bytes_list(&mut self.consumed, &refs);
        proof {
            let s0 = old(self)@;
            assert(views_of(self.groups@) =~= s0.groups.update(
                gidx(s0.groups, group_id@),
                am_group(s0, group_id@, kh),
            ));
            assert(self@ =~= am_state(s0, group_id@, kh));
            lemma_apply_change_wf(
                grp(s0.groups, group_id@),
                pks_of(kps_of(kh)),
                Seq::empty(),
            );
            assert(self.wf()) by {
                assert forall|i: int|
                    0 <= i < self@.groups.len() implies (#[trigger] self@.groups[i]).wf() by {
                    if i != gi as int {
                        assert(self@.groups[i] == s0.groups[i]);
                    }
                }
                assert forall|i: int, j: int|
                    0 <= i < j < self@.groups.len() implies self@.groups[i].id
                    != self@.groups[j].id by {
                    assert(s0.groups[i].id != s0.groups[j].id);
                    assert(self@.groups[i].id == s0.groups[i].id);
                    assert(self@.groups[j].id == s0.groups[j].id);
                }
            }
        }
        Ok(crate::messages::AddMembersResult { commit, welcome })
    }
}

/// Why removing members fails, or `None` when it succeeds.
pub open spec fn rm_err(s: SessionView, gid: Seq<u8>, mh: Seq<Seq<u8>>) -> Option<Error> {
    if gid.len() != ID_LEN {
        Some(Error::InvalidInput)
    } else if !all_pk_hex(mh) {
        Some(Error::InvalidInput)
    } else if !has_group(s.groups, gid) {
        Some(Error::GroupNotFound)
    } else if !subset_seq(decode_pks(mh), grp(s.groups, gid).members) {
        Some(Error::MemberNotFound)
    } else {
        None
    }
}

/// The group after a remove-members commit.
pub open spec fn rm_group(s: SessionView, gid: Seq<u8>, mh: Seq<Seq<u8>>) -> GroupView {
    apply_change(grp(s.groups, gid), Seq::empty(), decode_pks(mh))
}

/// The session after removing members: on success the group advances one
/// epoch without the removed identities; on failure nothing changes.
pub open spec fn rm_state(s: SessionView, gid: Seq<u8>, mh: Seq<Seq<u8>>) -> SessionView {
    if rm_err(s, gid, mh) is None {
        SessionView { groups: s.groups.update(gidx(s.groups, gid), rm_group(s, gid, mh)), ..s }
    } else {
        s
    }
}

/// Every supplied key package is well formed and fits the session.
pub open spec fn all_kps_fit(cs: u16, exts: Seq<u16>, ks: Seq<KeyPackageView>) -> bool {
    forall|i: int|
        0 <= i < ks.len() ==> ((#[trigger] ks[i]).wf() && kp_compatible(ks[i], cs, exts))
}

/// Why committing a proposal fails, or `None` when it succeeds.
pub open spec fn cp_err(s: SessionView, gid: Seq<u8>, p: crate::messages::ProposalView) -> Option<
    Error,
> {
    if gid.len() != ID_LEN {
        Some(Error::InvalidInput)
    } else if !has_group(s.groups, gid) {
        Some(Error::GroupNotFound)
    } else if p.group_id != gid {
        Some(Error::InvalidInput)
    } else if p.epoch != grp(s.groups, gid).epoch {
        Some(Error::StaleProposal)
    } else if !all_kps_fit(s.ciphersuite, s.extensions, p.add_packages) {
        Some(Error::InvalidKeyPackage)
    } else if !distinct_seq(refs_of(p.add_packages)) {
        Some(Error::InvalidKeyPackage)
    } else if any_consumed(s, refs_of(p.add_packages)) {
        Some(Error::InvalidKeyPackage)
    } else if !adds_ok(grp(s.groups, gid), pks_of(p.add_packages)) {
        Some(Error::InvalidKeyPackage)
    } else if !subset_seq(p.removes, grp(s.groups, gid).members) {
        Some(Error::MemberNotFound)
    } else {
        None
    }
}

/// The group after committing a proposal.
pub open spec fn cp_group(s: SessionView, gid: Seq<u8>, p: crate::messages::ProposalView) -> GroupView {
    apply_change(grp(s.groups, gid), pks_of(p.add_packages), p.removes)
}

/// The session after committing a proposal: on success the group
/// advances one epoch with the proposal's changes and the added key
/// packages are consumed; on failure nothing changes.
pub open spec fn cp_state(s: SessionView, gid: Seq<u8>, p: crate::messages::ProposalView) -> SessionView {
    if cp_err(s, gid, p) is None {
        SessionView {
            groups: s.groups.update(gidx(s.groups, gid), cp_group(s, gid, p)),
            consumed: s.consumed + refs_of(p.add_packages),
            ..s
        }
    } else {
        s
    }
}

/// Why leaving a group fails, or `None` when it succeeds.
pub open spec fn lg_err(s: SessionView, gid: Seq<u8>) -> Option<Error> {
    if gid.len() != ID_LEN {
        Some(Error::InvalidInput)
    } else if !has_group(s.groups, gid) {
        Some(Error::GroupNotFound)
    } else if !grp(s.groups, gid).members.contains(s.identity) {
        Some(Error::MemberNotFound)
    } else {
        None
    }
}

impl Session {
    /// Remove members from a group. Succeeds exactly when the id names a
    /// known group, every key text parses, and each named identity is a
    /// current member; the group then advances one epoch without them
    /// (removing everyone, the local member included, is permitted), and
    /// the commit is issued at the old epoch.
    #[verifier::loop_isolation(false)]
    pub fn remove_members(
        &mut self,
        group_id: &[u8],
        member_pubkeys: &Vec<String>,
    ) -> (r: Result<crate::messages::WireMessage, Error>)
        requires
            old(self).wf(),
            old(self)@.headroom(),
        ensures
            final(self).wf(),
            final(self)@ == rm_state(
                old(self)@,
                group_id@,
                str_bytes(views_of(member_pubkeys@)),
            ),
            r is Ok <==> rm_err(
                old(self)@,
                group_id@,
                str_bytes(views_of(member_pubkeys@)),
            ) is None,
            r is Ok ==> r->Ok_0@ == commit_of(
                old(self)@,
                group_id@,
                grp(old(self)@.groups, group_id@).epoch,
                Seq::empty(),
                decode_pks(str_bytes(views_of(member_pubkeys@))),
            ),
            r is Err ==> Some(r->Err_0) == rm_err(
                old(self)@,
                group_id@,
                str_bytes(views_of(member_pubkeys@)),
            ),
    {
        let ghost mh = str_bytes(views_of(member_pubkeys@));
        if group_id.len() != ID_LEN {
            return Err(Error::InvalidInput);
        }
        let removes = match parse_pk_list(member_pubkeys) {
            Ok(v) => v,
            Err(e) => { return Err(e) },
        };
        let gid = match GroupId::from_bytes(vstd::slice::slice_to_vec(group_id)) {
            Ok(g) => g,
            Err(e) => { return Err(e) },
        };
        let gi = match self.find_group(&gid) {
            Some(i) => i,
            None => { return Err(Error::GroupNotFound) },
        };
        proof {
            lemma_gidx(self@.groups, group_id@, gi as int);
        }
        if !keys_subset(&removes, &self.groups[gi].members) {
            return Err(Error::MemberNotFound);
        }
        let empty_adds: Vec<PublicKey> = Vec::new();
        let new_group = group_apply_change(&self.groups[gi], &empty_adds, &removes);
        let commit = crate::messages::WireMessage {
            group_id: gid,
            epoch: self.groups[gi].epoch,
            sender: self.identity.clone(),
            body: crate::messages::MessageBody::Membership(
                crate::messages::CommitBody { adds: empty_adds, removes },
            ),
        };
        proof {
            assert(views_of(Seq::<PublicKey>::empty()) =~= Seq::<Seq<u8>>::empty());
            assert(new_group@ =~= rm_group(old(self)@, group_id@, mh));
            assert(commit@ =~= commit_of(
                old(self)@,
                group_id@,
                grp(old(self)@.groups, group_id@).epoch,
                Seq::empty(),
                decode_pks(mh),
            ));
        }
        self.groups.set(gi, new_group);
        proof {
            let s0 = old(self)@;
            assert(views_of(self.groups@) =~= s0.groups.update(
                gidx(s0.groups, group_id@),
                rm_group(s0, group_id@, mh),
            ));
            assert(self@ =~= rm_state(s0, group_id@, mh));
            lemma_apply_change_wf(grp(s0.groups, group_id@), Seq::empty(), decode_pks(mh));
            assert(self.wf()) by {
                assert forall|i: int|
                    0 <= i < self@.groups.len() implies (#[trigger] self@.groups[i]).wf() by {
                    if i != gi as int {
                        assert(self@.groups[i] == s0.groups[i]);
                    }
                }
                assert forall|i: int, j: int|
                    0 <= i < j < self@.groups.len() implies self@.groups[i].id
                    != self@.groups[j].id by {
                    assert(s0.groups[i].id != s0.groups[j].id);
                    assert(self@.groups[i].id == s0.groups[i].id);
                    assert(self@.groups[j].id == s0.groups[j].id);
                }
            }
        }
        Ok(commit)
    }

    /// Commit a pending proposal against a group. Succeeds exactly when
    /// the id names a known group, the proposal targets that group at its
    /// current epoch (an older epoch is `StaleProposal`), its key
    /// packages fit and are fresh, and its removals name current members;
    /// the group then advances one epoch, and a welcome is produced
    /// exactly when members were added.
    #[verifier::loop_isolation(false)]
    pub fn commit_proposal(
        &mut self,
        group_id: &[u8],
        proposal: &crate::messages::Proposal,
    ) -> (r: Result<crate::messages::CommitProposalResult, Error>)
        requires
            old(self).wf(),
            old(self)@.headroom(),
        ensures
            final(self).wf(),
            final(self)@ == cp_state(old(self)@, group_id@, proposal@),
            r is Ok <==> cp_err(old(self)@, group_id@, proposal@) is None,
            r is Ok ==> ({
                let g = grp(old(self)@.groups, group_id@);
                let p = proposal@;
                &&& r->Ok_0.commit@ == commit_of(
                    old(self)@,
                    group_id@,
                    g.epoch,
                    pks_of(p.add_packages),
                    p.removes,
                )
                &&& (r->Ok_0.welcome is Some <==> p.add_packages.len() > 0)
                &&& (p.add_packages.len() > 0 ==> r->Ok_0.welcome->0@ == welcome_of(
                    cp_group(old(self)@, group_id@, p),
                    refs_of(p.add_packages),
                ))
            }),
            r is Err ==> Some(r->Err_0) == cp_err(old(self)@, group_id@, proposal@),
    {
        let ghost p = proposal@;
        if group_id.len() != ID_LEN {
            return Err(Error::InvalidInput);
        }
        let gid = match GroupId::from_bytes(vstd::slice::slice_to_vec(group_id)) {
            Ok(g) => g,
            Err(e) => { return Err(e) },
        };
        let gi = match self.find_group(&gid) {
            Some(i) => i,
            None => { return Err(Error::GroupNotFound) },
        };
        proof {
            lemma_gidx(self@.groups, group_id@, gi as int);
        }
        if !proposal.group_id.id_eq(&gid) {
            return Err(Error::InvalidInput);
        }
        if proposal.epoch != self.groups[gi].epoch {
            return Err(Error::StaleProposal);
        }
        let mut i: usize = 0;
        while i < proposal.add_packages.len()
            invariant
                i <= p.add_packages.len(),
                forall|j: int|
                    0 <= j < i ==> ((#[trigger] p.add_packages[j]).wf() && kp_compatible(
                        p.add_packages[j],
                        self@.ciphersuite,
                        self@.extensions,
                    )),
            decreases proposal.add_packages.len() - i,
        {
            let kp = &proposal.add_packages[i];
            if !kp.check_wf() || kp.ciphersuite != self.ciphersuite || !u16_subset(
                &kp.extensions,
                &self.extensions,
            ) {
                assert(!(p.add_packages[i as int].wf() && kp_compatible(
                    p.add_packages[i as int],
                    self@.ciphersuite,
                    self@.extensions,
                )));
                return Err(Error::InvalidKeyPackage);
            }
            i = i + 1;
        }
        let refs = collect_refs(&proposal.add_packages);
        if !all_distinct_bytes(&refs) {
            return Err(Error::InvalidKeyPackage);
        }
        if any_in(&self.consumed, &refs) {
            return Err(Error::InvalidKeyPackage);
        }
        let adds = kp_pubkeys(&proposal.add_packages);
        if !all_distinct_keys(&adds) {
            return Err(Error::InvalidKeyPackage);
        }
        if any_key_in(&self.groups[gi].members, &adds) {
            return Err(Error::InvalidKeyPackage);
        }
        if !keys_subset(&proposal.removes, &self.groups[gi].members) {
            return Err(Error::MemberNotFound);
        }
        let new_group = group_apply_change(&self.groups[gi], &adds, &proposal.removes);
        let welcome = if proposal.add_packages.len() > 0 {
            Some(welcome_for(&new_group, &refs))
        } else {
            None
        };
        let commit = crate::messages::WireMessage {
            group_id: gid,
            epoch: self.groups[gi].epoch,
            sender: self.identity.clone(),
            body: crate::messages::MessageBody::Membership(
                crate::messages::CommitBody {
                    adds,
                    removes: clone_keys(&proposal.removes),
                },
            ),
        };
        proof {
            assert(new_group@ =~= cp_group(old(self)@, group_id@, p));
            assert(commit@ =~= commit_of(
                old(self)@,
                group_id@,
                grp(old(self)@.groups, group_id@).epoch,
                pks_of(p.add_packages),
                p.removes,
            ));
        }
        self.groups.set(gi, new_group);
        append_bytes_list(&mut self.consumed, &refs);
        proof {
            let s0 = old(self)@;
            assert(views_of(self.groups@) =~= s0.groups.update(
                gidx(s0.groups, group_id@),
                cp_group(s0, group_id@, p),
            ));
            assert(views_of(refs@) == refs_of(p.add_packages));
            assert(self@ =~= cp_state(s0, group_id@, p));
            lemma_apply_change_wf(
                grp(s0.groups, group_id@),
                pks_of(p.add_packages),
                p.removes,
            );
            assert(self.wf()) by {
                assert forall|i2: int|
                    0 <= i2 < self@.groups.len() implies (#[trigger] self@.groups[i2]).wf() by {
                    if i2 != gi as int {
                        assert(self@.groups[i2] == s0.groups[i2]);
                    }
                }
                assert forall|i2: int, j2: int|
                    0 <= i2 < j2 < self@.groups.len() implies self@.groups[i2].id
                    != self@.groups[j2].id by {
                    assert(s0.groups[i2].id != s0.groups[j2].id);
                    assert(self@.groups[i2].id == s0.groups[i2].id);
                    assert(self@.groups[j2].id == s0.groups[j2].id);
                }
            }
        }
        Ok(crate::messages::CommitProposalResult { commit, welcome })
    }

    /// Draft a proposal against a group's current epoch, without touching
    /// local state: the change takes effect only when the proposal is
    /// committed. Succeeds exactly when the id names a known group.
    pub fn propose(
        &self,
        group_id: &[u8],
        add_packages: Vec<KeyPackage>,
        removes: Vec<PublicKey>,
    ) -> (r: Result<crate::messages::Proposal, Error>)
        requires
            self.wf(),
        ensures
            r is Ok <==> Self::lookup_ok(self@, group_id@),
            r is Ok ==> r->Ok_0@ == (crate::messages::ProposalView {
                group_id: group_id@,
                epoch: grp(self@.groups, group_id@).epoch,
                add_packages: views_of(add_packages@),
                removes: views_of(removes@),
            }),
            r is Err ==> r->Err_0 == Self::lookup_err(self@, group_id@),
    {
        if group_id.len() != ID_LEN {
            return Err(Error::InvalidInput);
        }
        let gid = match GroupId::from_bytes(vstd::slice::slice_to_vec(group_id)) {
            Ok(g) => g,
            Err(e) => { return Err(e) },
        };
        let gi = match self.find_group(&gid) {
            Some(i) => i,
            None => { return Err(Error::GroupNotFound) },
        };
        proof {
            lemma_gidx(self@.groups, group_id@, gi as int);
        }
        Ok(
            crate::messages::Proposal {
                group_id: gid,
                epoch: self.groups[gi].epoch,
                add_packages,
                removes,
            },
        )
    }

    /// Produce the self-removal proposal for a group, without touching
    /// local state: the removal takes effect only when a corresponding
    /// commit is processed. Succeeds exactly when the id names a known
    /// group of which this session's identity is a current member.
    pub fn leave_group(&self, group_id: &[u8]) -> (r: Result<crate::messages::Proposal, Error>)
        requires
            self.wf(),
        ensures
            r is Ok <==> lg_err(self@, group_id@) is None,
            r is Ok ==> r->Ok_0@ == (crate::messages::ProposalView {
                group_id: group_id@,
                epoch: grp(self@.groups, group_id@).epoch,
                add_packages: Seq::empty(),
                removes: seq![self@.identity],
            }),
            r is Err ==> Some(r->Err_0) == lg_err(self@, group_id@),
    {
        if group_id.len() != ID_LEN {
            return Err(Error::InvalidInput);
        }
        let gid = match GroupId::from_bytes(vstd::slice::slice_to_vec(group_id)) {
            Ok(g) => g,
            Err(e) => { return Err(e) },
        };
        let gi = match self.find_group(&gid) {
            Some(i) => i,
            None => { return Err(Error::GroupNotFound) },
        };
        proof {
            lemma_gidx(self@.groups, group_id@, gi as int);
        }
        if !crate::group::contains_key(&self.groups[gi].members, &self.identity) {
            return Err(Error::MemberNotFound);
        }
        let empty_adds: Vec<KeyPackage> = Vec::new();
        let mut removes: Vec<PublicKey> = Vec::new();
        removes.push(self.identity.clone());
        let prop = crate::messages::Proposal {
            group_id: gid,
            epoch: self.groups[gi].epoch,
            add_packages: empty_adds,
            removes,
        };
        proof {
            assert(views_of(prop.add_packages@) =~= Seq::<KeyPackageView>::empty());
            assert(views_of(prop.removes@) =~= seq![self@.identity]);
        }
        Ok(prop)
    }
}

/// Every identity in `ks` is full length.
pub open spec fn keys_full_len(ks: Seq<Seq<u8>>) -> bool {
    forall|i: int| 0 <= i < ks.len() ==> (#[trigger] ks[i]).len() == ID_LEN
}

/// Whether every key in `v` is full length.
fn check_keys_len(v: &Vec<PublicKey>) -> (r: bool)
    ensures
        r == keys_full_len(views_of(v@)),
{
    let mut i: usize = 0;
    while i < v.len()
        invariant
            i <= v@.len(),
            forall|j: int| 0 <= j < i ==> (#[trigger] views_of(v@)[j]).len() == ID_LEN,
        decreases v.len() - i,
    {
        if v[i].as_bytes().len() != ID_LEN {
            assert(views_of(v@)[i as int].len() != ID_LEN);
            return false;
        }
        i = i + 1;
    }
    true
}

/// Why protecting an outgoing application message fails, or `None` when
/// it succeeds.
pub open spec fn cm_err(s: SessionView, gid: Seq<u8>) -> Option<Error> {
    if gid.len() != ID_LEN {
        Some(Error::InvalidInput)
    } else if !has_group(s.groups, gid) {
        Some(Error::GroupNotFound)
    } else if !grp(s.groups, gid).members.contains(s.identity) {
        Some(Error::NotAMember)
    } else {
        None
    }
}

/// The protected message for payload `p`: addressed to the group at its
/// current epoch, from this session's identity.
pub open spec fn cm_wire(s: SessionView, gid: Seq<u8>, p: Seq<u8>) -> crate::messages::WireView {
    crate::messages::WireView {
        group_id: gid,
        epoch: grp(s.groups, gid).epoch,
        sender: s.identity,
        body: crate::messages::BodyView::Application(p),
    }
}

/// Why processing an incoming message fails, or `None` when it succeeds.
pub open spec fn pm_err(s: SessionView, w: crate::messages::WireView) -> Option<Error> {
    if !has_group(s.groups, w.group_id) {
        Some(Error::GroupNotFound)
    } else if w.epoch != grp(s.groups, w.group_id).epoch {
        Some(Error::EpochMismatch)
    } else if !grp(s.groups, w.group_id).members.contains(s.identity) {
        Some(Error::NotAMember)
    } else {
        match w.body {
            crate::messages::BodyView::Membership(c) => {
                if !(adds_ok(grp(s.groups, w.group_id), c.adds) && keys_full_len(c.adds)) {
                    Some(Error::InvalidInput)
                } else if !subset_seq(c.removes, grp(s.groups, w.group_id).members) {
                    Some(Error::MemberNotFound)
                } else {
                    None
                }
            },
            crate::messages::BodyView::Application(_) => None,
        }
    }
}

/// The session after processing a message: a commit advances its group by
/// one epoch with the changes it carries; an application message, or any
/// failure, changes nothing.
pub open spec fn pm_state(s: SessionView, w: crate::messages::WireView) -> SessionView {
    match w.body {
        crate::messages::BodyView::Membership(c) => {
            if pm_err(s, w) is None {
                SessionView {
                    groups: s.groups.update(
                        gidx(s.groups, w.group_id),
                        apply_change(grp(s.groups, w.group_id), c.adds, c.removes),
                    ),
                    ..s
                }
            } else {
                s
            }
        },
        crate::messages::BodyView::Application(_) => s,
    }
}

impl Session {
    /// Protect an outgoing application payload for a group. Pure: the
    /// session and the group are unchanged. Succeeds exactly when the id
    /// names a known group of which this session's identity is a current
    /// member; the message carries the group's current epoch.
    pub fn create_message_for_group(
        &self,
        group_id: &[u8],
        rumor: &[u8],
    ) -> (r: Result<crate::messages::WireMessage, Error>)
        requires
            self.wf(),
        ensures
            r is Ok <==> cm_err(self@, group_id@) is None,
            r is Ok ==> r->Ok_0@ == cm_wire(self@, group_id@, rumor@),
            r is Err ==> Some(r->Err_0) == cm_err(self@, group_id@),
    {
        if group_id.len() != ID_LEN {
            return Err(Error::InvalidInput);
        }
        let gid = match GroupId::from_bytes(vstd::slice::slice_to_vec(group_id)) {
            Ok(g) => g,
            Err(e) => { return Err(e) },
        };
        let gi = match self.find_group(&gid) {
            Some(i) => i,
            None => { return Err(Error::GroupNotFound) },
        };
        proof {
            lemma_gidx(self@.groups, group_id@, gi as int);
        }
        if !crate::group::contains_key(&self.groups[gi].members, &self.identity) {
            return Err(Error::NotAMember);
        }
        Ok(
            crate::messages::WireMessage {
                group_id: gid,
                epoch: self.groups[gi].epoch,
                sender: self.identity.clone(),
                body: crate::messages::MessageBody::Application(
                    vstd::slice::slice_to_vec(rumor),
                ),
            },
        )
    }

    /// Frame an already-serialized commit for delivery, to be signed with
    /// the supplied key by the transport layer. The commit's content is
    /// opaque here, so it travels as payload. Pure. Succeeds exactly when
    /// the secret key is full length and the id names a known group.
    pub fn create_commit_message_for_group(
        &self,
        group_id: &[u8],
        serialized_commit: &[u8],
        secret_key: &[u8],
    ) -> (r: Result<crate::messages::WireMessage, Error>)
        requires
            self.wf(),
        ensures
            r is Ok <==> (secret_key@.len() == ID_LEN && group_id@.len() == ID_LEN
                && has_group(self@.groups, group_id@)),
            r is Ok ==> r->Ok_0@ == (crate::messages::WireView {
                group_id: group_id@,
                epoch: grp(self@.groups, group_id@).epoch,
                sender: self@.identity,
                body: crate::messages::BodyView::Application(serialized_commit@),
            }),
            r is Err ==> r->Err_0 == (if secret_key@.len() != ID_LEN {
                Error::InvalidInput
            } else if group_id@.len() != ID_LEN {
                Error::InvalidInput
            } else {
                Error::GroupNotFound
            }),
    {
        if secret_key.len() != ID_LEN {
            return Err(Error::InvalidInput);
        }
        if group_id.len() != ID_LEN {
            return Err(Error::InvalidInput);
        }
        let gid = match GroupId::from_bytes(vstd::slice::slice_to_vec(group_id)) {
            Ok(g) => g,
            Err(e) => { return Err(e) },
        };
        let gi = match self.find_group(&gid) {
            Some(i) => i,
            None => { return Err(Error::GroupNotFound) },
        };
        proof {
            lemma_gidx(self@.groups, group_id@, gi as int);
        }
        Ok(
            crate::messages::WireMessage {
                group_id: gid,
                epoch: self.groups[gi].epoch,
                sender: self.identity.clone(),
                body: crate::messages::MessageBody::Application(
                    vstd::slice::slice_to_vec(serialized_commit),
                ),
            },
        )
    }

    /// Process one incoming message. Succeeds exactly when the message
    /// names a known group at that group's current epoch (any other epoch
    /// is `EpochMismatch`, never silently dropped) and this session's
    /// identity is a current member. An application message yields its
    /// payload and changes nothing; a commit yields the membership
    /// changes and advances the group by exactly one epoch.
    #[verifier::loop_isolation(false)]
    pub fn process_message_for_group(
        &mut self,
        wire: &crate::messages::WireMessage,
    ) -> (r: Result<crate::messages::ProcessedMessage, Error>)
        requires
            old(self).wf(),
            old(self)@.headroom(),
        ensures
            final(self).wf(),
            final(self)@ == pm_state(old(self)@, wire@),
            r is Ok <==> pm_err(old(self)@, wire@) is None,
            r is Ok && wire@.body is Application ==> ({
                &&& r->Ok_0.message is Some
                &&& r->Ok_0.message->0@ == wire@.body->Application_0
                &&& r->Ok_0.member_changes is None
            }),
            r is Ok && wire@.body is Membership ==> ({
                let c = wire@.body->Membership_0;
                &&& r->Ok_0.message is None
                &&& r->Ok_0.member_changes is Some
                &&& views_of(r->Ok_0.member_changes->0.added_members@) == c.adds
                &&& views_of(r->Ok_0.member_changes->0.removed_members@) == c.removes
            }),
            r is Err ==> Some(r->Err_0) == pm_err(old(self)@, wire@),
    {
        let gi = match self.find_group(&wire.group_id) {
            Some(i) => i,
            None => { return Err(Error::GroupNotFound) },
        };
        proof {
            lemma_gidx(self@.groups, wire@.group_id, gi as int);
        }
        if wire.epoch != self.groups[gi].epoch {
            return Err(Error::EpochMismatch);
        }
        if !crate::group::contains_key(&self.groups[gi].members, &self.identity) {
            return Err(Error::NotAMember);
        }
        match &wire.body {
            crate::messages::MessageBody::Application(p) => {
                Ok(
                    crate::messages::ProcessedMessage {
                        message: Some(crate::keys::clone_bytes(p)),
                        member_changes: None,
                    },
                )
            },
            crate::messages::MessageBody::Membership(c) => {
                if !all_distinct_keys(&c.adds) {
                    return Err(Error::InvalidInput);
                }
                if any_key_in(&self.groups[gi].members, &c.adds) {
                    return Err(Error::InvalidInput);
                }
                if !check_keys_len(&c.adds) {
                    return Err(Error::InvalidInput);
                }
                if !keys_subset(&c.removes, &self.groups[gi].members) {
                    return Err(Error::MemberNotFound);
                }
                let new_group = group_apply_change(&self.groups[gi], &c.adds, &c.removes);
                proof {
                    assert(new_group@ =~= apply_change(
                        grp(old(self)@.groups, wire@.group_id),
                        wire@.body->Membership_0.adds,
                        wire@.body->Membership_0.removes,
                    ));
                }
                self.groups.set(gi, new_group);
                proof {
                    let s0 = old(self)@;
                    assert(views_of(self.groups@) =~= s0.groups.update(
                        gidx(s0.groups, wire@.group_id),
                        apply_change(
                            grp(s0.groups, wire@.group_id),
                            wire@.body->Membership_0.adds,
                            wire@.body->Membership_0.removes,
                        ),
                    ));
                    assert(self@ =~= pm_state(s0, wire@));
                    lemma_apply_change_wf(
                        grp(s0.groups, wire@.group_id),
                        wire@.body->Membership_0.adds,
                        wire@.body->Membership_0.removes,
                    );
                    assert(self.wf()) by {
                        assert forall|i2: int|
                            0 <= i2 < self@.groups.len() implies (
                        #[trigger] self@.groups[i2]).wf() by {
                            if i2 != gi as int {
                                assert(self@.groups[i2] == s0.groups[i2]);
                            }
                        }
                        assert forall|i2: int, j2: int|
                            0 <= i2 < j2 < self@.groups.len() implies self@.groups[i2].id
                            != self@.groups[j2].id by {
                            assert(s0.groups[i2].id != s0.groups[j2].id);
                            assert(self@.groups[i2].id == s0.groups[i2].id);
                            assert(self@.groups[j2].id == s0.groups[j2].id);
                        }
                    }
                }
                Ok(
                    crate::messages::ProcessedMessage {
                        message: None,
                        member_changes: Some(
                            crate::messages::MemberChanges {
                                added_members: clone_keys(&c.adds),
                                removed_members: clone_keys(&c.removes),
                            },
                        ),
                    },
                )
            },
        }
    }
}

/// The group a welcome lets its addressee materialize: the creator-side
/// state at the welcome's epoch.
pub open spec fn group_of_welcome(w: crate::messages::WelcomeView) -> GroupView {
    GroupView {
        id: w.group_id,
        nostr_id: w.nostr_id,
        name: w.name,
        description: w.description,
        epoch: w.epoch,
        members: w.members,
        admins: w.admins,
        relays: w.relays,
        base_secret: w.base_secret,
    }
}

/// Why previewing a welcome fails, or `None` when it succeeds. Shared by
/// joining, which makes the same checks first.
pub open spec fn pw_err(s: SessionView, wid: Seq<u8>, w: crate::messages::WelcomeView) -> Option<
    Error,
> {
    if wid.len() != ID_LEN {
        Some(Error::InvalidInput)
    } else if !w.wf() {
        Some(Error::InvalidInput)
    } else if !(exists|i: int|
        0 <= i < w.addressee_refs.len() && s.owned.contains(#[trigger] w.addressee_refs[i])) {
        Some(Error::WelcomeDecryptionError)
    } else {
        None
    }
}

/// Why joining from a welcome fails, or `None` when it succeeds. A
/// welcome whose group already exists is accepted exactly when the
/// record on file equals the state the welcome describes.
pub open spec fn jw_err(s: SessionView, wid: Seq<u8>, w: crate::messages::WelcomeView) -> Option<
    Error,
> {
    if pw_err(s, wid, w) is Some {
        pw_err(s, wid, w)
    } else if has_group(s.groups, w.group_id) && grp(s.groups, w.group_id)
        != group_of_welcome(w) {
        Some(Error::WelcomeAlreadyProcessed)
    } else {
        None
    }
}

/// The session after joining from a welcome: on first success the
/// welcome's group is materialized; joining again with the same welcome
/// changes nothing, and failure changes nothing.
pub open spec fn jw_state(s: SessionView, wid: Seq<u8>, w: crate::messages::WelcomeView) -> SessionView {
    if jw_err(s, wid, w) is None && !has_group(s.groups, w.group_id) {
        SessionView { groups: s.groups.push(group_of_welcome(w)), ..s }
    } else {
        s
    }
}

/// Whether two key lists hold the same keys in the same order.
fn keys_list_eq(a: &Vec<PublicKey>, b: &Vec<PublicKey>) -> (r: bool)
    ensures
        r == (views_of(a@) == views_of(b@)),
{
    if a.len() != b.len() {
        proof {
            assert(views_of(a@).len() != views_of(b@).len());
        }
        return false;
    }
    let mut i: usize = 0;
    while i < a.len()
        invariant
            i <= a@.len(),
            a@.len() == b@.len(),
            forall|j: int| 0 <= j < i ==> views_of(a@)[j] == views_of(b@)[j],
        decreases a.len() - i,
    {
        if !a[i].key_eq(&b[i]) {
            assert(views_of(a@)[i as int] != views_of(b@)[i as int]);
            return false;
        }
        i = i + 1;
    }
    proof {
        assert(views_of(a@) =~= views_of(b@));
    }
    true
}

/// Whether two string lists hold the same texts in the same order.
fn strings_list_eq(a: &Vec<String>, b: &Vec<String>) -> (r: bool)
    ensures
        r == (views_of(a@) == views_of(b@)),
{
    if a.len() != b.len() {
        proof {
            assert(views_of(a@).len() != views_of(b@).len());
        }
        return false;
    }
    let mut i: usize = 0;
    while i < a.len()
        invariant
            i <= a@.len(),
            a@.len() == b@.len(),
            forall|j: int| 0 <= j < i ==> views_of(a@)[j] == views_of(b@)[j],
        decreases a.len() - i,
    {
        if !(a[i].eq(&b[i])) {
            assert(views_of(a@)[i as int] != views_of(b@)[i as int]);
            return false;
        }
        i = i + 1;
    }
    proof {
        assert(views_of(a@) =~= views_of(b@));
    }
    true
}

/// Whether a welcome is structurally valid.
fn check_welcome_wf(w: &crate::messages::Welcome) -> (r: bool)
    ensures
        r == w@.wf(),
{
    w.group_id.as_bytes().len() == ID_LEN && w.nostr_group_id.len() == ID_LEN
        && w.base_secret.len() == ID_LEN && all_distinct_keys(&w.members)
        && all_distinct_keys(&w.admins) && keys_subset(&w.admins, &w.members)
        && check_keys_len(&w.members)
}

/// Whether group `g` equals the state welcome `w` describes.
fn group_matches_welcome(g: &GroupState, w: &crate::messages::Welcome) -> (r: bool)
    ensures
        r == (g@ == group_of_welcome(w@)),
{
    let r = g.group_id.id_eq(&w.group_id) && crate::keys::bytes_eq(
        g.nostr_group_id.as_slice(),
        w.nostr_group_id.as_slice(),
    ) && g.name.eq(&w.name) && g.description.eq(&w.description) && g.epoch == w.epoch
        && keys_list_eq(&g.members, &w.members) && keys_list_eq(&g.admins, &w.admins)
        && strings_list_eq(&g.relays, &w.relays) && crate::keys::bytes_eq(
        g.base_secret.as_slice(),
        w.base_secret.as_slice(),
    );
    proof {
        if r {
            assert(g@ =~= group_of_welcome(w@));
        } else {
            assert(g@ != group_of_welcome(w@));
        }
    }
    r
}

impl Session {
    /// Disclose a welcome's group metadata without creating or changing
    /// any state (the receiver is untouched: this takes `&self`).
    /// Succeeds exactly when the wrapper id is full length, the welcome
    /// is structurally valid, and it is addressed to a key package this
    /// session owns; a welcome addressed elsewhere is
    /// `WelcomeDecryptionError`.
    pub fn preview_welcome(
        &self,
        wrapper_event_id: &[u8],
        welcome: &crate::messages::Welcome,
    ) -> (r: Result<crate::messages::GroupPreview, Error>)
        requires
            self.wf(),
        ensures
            r is Ok <==> pw_err(self@, wrapper_event_id@, welcome@) is None,
            r is Ok ==> ({
                &&& r->Ok_0.nostr_group_id@ == welcome@.nostr_id
                &&& r->Ok_0.name@ == welcome@.name
                &&& r->Ok_0.description@ == welcome@.description
                &&& views_of(r->Ok_0.admins@) == welcome@.admins
            }),
            r is Err ==> Some(r->Err_0) == pw_err(self@, wrapper_event_id@, welcome@),
    {
        if wrapper_event_id.len() != ID_LEN {
            return Err(Error::InvalidInput);
        }
        if !check_welcome_wf(welcome) {
            return Err(Error::InvalidInput);
        }
        if !any_in(&self.owned, &welcome.addressee_refs) {
            return Err(Error::WelcomeDecryptionError);
        }
        proof {
            let w = choose|i: int|
                0 <= i < views_of(welcome.addressee_refs@).len() && views_of(
                    self.owned@,
                ).contains(#[trigger] views_of(welcome.addressee_refs@)[i]);
            assert(self@.owned.contains(welcome@.addressee_refs[w]));
        }
        Ok(
            crate::messages::GroupPreview {
                nostr_group_id: clone_bytes(&welcome.nostr_group_id),
                name: welcome.name.clone(),
                description: welcome.description.clone(),
                admins: clone_keys(&welcome.admins),
            },
        )
    }

    /// Materialize and persist the group a welcome describes, and return
    /// its state. Makes the same checks as previewing; additionally, a
    /// welcome whose group is already on file returns that record
    /// unchanged when it matches (processing the same welcome twice is
    /// idempotent) and is `WelcomeAlreadyProcessed` when it differs — two
    /// divergent records for one group id are never created.
    pub fn join_group_from_welcome(
        &mut self,
        wrapper_event_id: &[u8],
        welcome: &crate::messages::Welcome,
    ) -> (r: Result<GroupState, Error>)
        requires
            old(self).wf(),
        ensures
            final(self).wf(),
            final(self)@ == jw_state(old(self)@, wrapper_event_id@, welcome@),
            r is Ok <==> jw_err(old(self)@, wrapper_event_id@, welcome@) is None,
            r is Ok ==> r->Ok_0@ == group_of_welcome(welcome@),
            r is Err ==> Some(r->Err_0) == jw_err(old(self)@, wrapper_event_id@, welcome@),
    {
        if wrapper_event_id.len() != ID_LEN {
            return Err(Error::InvalidInput);
        }
        if !check_welcome_wf(welcome) {
            return Err(Error::InvalidInput);
        }
        if !any_in(&self.owned, &welcome.addressee_refs) {
            return Err(Error::WelcomeDecryptionError);
        }
        proof {
            let w = choose|i: int|
                0 <= i < views_of(welcome.addressee_refs@).len() && views_of(
                    self.owned@,
                ).contains(#[trigger] views_of(welcome.addressee_refs@)[i]);
            assert(self@.owned.contains(welcome@.addressee_refs[w]));
        }
        match self.find_group(&welcome.group_id) {
            Some(i) => {
                proof {
                    lemma_gidx(self@.groups, welcome@.group_id, i as int);
                }
                if group_matches_welcome(&self.groups[i], welcome) {
                    Ok(self.groups[i].clone())
                } else {
                    Err(Error::WelcomeAlreadyProcessed)
                }
            },
            None => {
                let g = GroupState {
                    group_id: welcome.group_id.clone(),
                    nostr_group_id: clone_bytes(&welcome.nostr_group_id),
                    name: welcome.name.clone(),
                    description: welcome.description.clone(),
                    epoch: welcome.epoch,
                    members: clone_keys(&welcome.members),
                    admins: clone_keys(&welcome.admins),
                    relays: clone_strings(&welcome.relays),
                    base_secret: clone_bytes(&welcome.base_secret),
                };
                let returned = g.clone();
                proof {
                    assert(g@ =~= group_of_welcome(welcome@));
                }
                self.groups.push(g);
                proof {
                    let s0 = old(self)@;
                    assert(views_of(self.groups@) =~= s0.groups.push(
                        group_of_welcome(welcome@),
                    ));
                    assert(self@ =~= jw_state(s0, wrapper_event_id@, welcome@));
                    assert(self.wf()) by {
                        assert(group_of_welcome(welcome@).wf());
                        assert forall|i: int, j: int|
                            0 <= i < j < self@.groups.len() implies self@.groups[i].id
                            != self@.groups[j].id by {
                            if j == self@.groups.len() - 1 {
                                assert(!has_group(s0.groups, welcome@.group_id));
                                assert(self@.groups[i] == s0.groups[i]);
                            }
                        }
                    }
                }
                Ok(returned)
            },
        }
    }
}

} // verus!
