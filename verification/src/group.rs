//! Group state: the authoritative record for one group, its mathematical
//! model, and the membership-set helpers the session operations share.

use vstd::prelude::*;
use crate::keys::{PublicKey, GroupId, bytes_eq, clone_bytes, ID_LEN};

verus! {

/// The element-wise views of a list.
pub open spec fn views_of<T: View>(s: Seq<T>) -> Seq<T::V> {
    Seq::new(s.len(), |i: int| s[i]@)
}

/// No two entries of `s` are equal.
pub open spec fn distinct_seq<T>(s: Seq<T>) -> bool {
    forall|i: int, j: int| 0 <= i < j < s.len() ==> s[i] != s[j]
}

/// Every entry of `a` occurs in `b`.
pub open spec fn subset_seq<T>(a: Seq<T>, b: Seq<T>) -> bool {
    forall|i: int| 0 <= i < a.len() ==> b.contains(#[trigger] a[i])
}

/// Mathematical model of one group's authoritative record.
#[verifier::ext_equal]
pub struct GroupView {
    pub id: Seq<u8>,
    pub nostr_id: Seq<u8>,
    pub name: Seq<char>,
    pub description: Seq<char>,
    pub epoch: u64,
    pub members: Seq<Seq<u8>>,
    pub admins: Seq<Seq<u8>>,
    pub relays: Seq<Seq<char>>,
    pub base_secret: Seq<u8>,
}

impl GroupView {
    /// Structural invariant: identifiers are full length, member and admin
    /// lists are duplicate-free, and every admin is a member.
    pub open spec fn wf(self) -> bool {
        &&& self.id.len() == ID_LEN
        &&& self.nostr_id.len() == ID_LEN
        &&& self.base_secret.len() == ID_LEN
        &&& distinct_seq(self.members)
        &&& distinct_seq(self.admins)
        &&& subset_seq(self.admins, self.members)
        &&& forall|i: int| 0 <= i < self.members.len() ==> #[trigger] self.members[i].len()
            == ID_LEN
    }
}

/// The authoritative, storage-backed record for one group.
pub struct GroupState {
    pub group_id: GroupId,
    pub nostr_group_id: Vec<u8>,
    pub name: String,
    pub description: String,
    pub epoch: u64,
    pub members: Vec<PublicKey>,
    pub admins: Vec<PublicKey>,
    pub relays: Vec<String>,
    pub base_secret: Vec<u8>,
}

impl View for GroupState {
    type V = GroupView;

    open spec fn view(&self) -> GroupView {
        GroupView {
            id: self.group_id@,
            nostr_id: self.nostr_group_id@,
            name: self.name@,
            description: self.description@,
            epoch: self.epoch,
            members: views_of(self.members@),
            admins: views_of(self.admins@),
            relays: views_of(self.relays@),
            base_secret: self.base_secret@,
        }
    }
}

/// Copy a list of public keys.
pub fn clone_keys(v: &Vec<PublicKey>) -> (r: Vec<PublicKey>)
    ensures
        views_of(r@) == views_of(v@),
{
    let mut out: Vec<PublicKey> = Vec::new();
    let mut i: usize = 0;
    while i < v.len()
        invariant
            i <= v@.len(),
            out@.len() == i,
            forall|j: int| 0 <= j < i ==> out@[j]@ == v@[j]@,
        decreases v.len() - i,
    {
        out.push(v[i].clone());
        i = i + 1;
    }
    proof {
        assert(views_of(out@) =~= views_of(v@));
    }
    out
}

/// Copy a list of strings.
pub fn clone_strings(v: &Vec<String>) -> (r: Vec<String>)
    ensures
        views_of(r@) == views_of(v@),
{
    let mut out: Vec<String> = Vec::new();
    let mut i: usize = 0;
    while i < v.len()
        invariant
            i <= v@.len(),
            out@.len() == i,
            forall|j: int| 0 <= j < i ==> out@[j]@ == v@[j]@,
        decreases v.len() - i,
    {
        out.push(v[i].clone());
        i = i + 1;
    }
    proof {
        assert(views_of(out@) =~= views_of(v@));
    }
    out
}

/// Copy a list of byte strings.
pub fn clone_bytes_list(v: &Vec<Vec<u8>>) -> (r: Vec<Vec<u8>>)
    ensures
        views_of(r@) == views_of(v@),
{
    let mut out: Vec<Vec<u8>> = Vec::new();
    let mut i: usize = 0;
    while i < v.len()
        invariant
            i <= v@.len(),
            out@.len() == i,
            forall|j: int| 0 <= j < i ==> out@[j]@ == v@[j]@,
        decreases v.len() - i,
    {
        out.push(clone_bytes(&v[i]));
        i = i + 1;
    }
    proof {
        assert(views_of(out@) =~= views_of(v@));
    }
    out
}

/// Whether `k` occurs in the key list `v`.
pub fn contains_key(v: &Vec<PublicKey>, k: &PublicKey) -> (r: bool)
    ensures
        r == views_of(v@).contains(k@),
{
    let mut i: usize = 0;
    while i < v.len()
        invariant
            i <= v@.len(),
            forall|j: int| 0 <= j < i ==> v@[j]@ != k@,
        decreases v.len() - i,
    {
        if v[i].key_eq(k) {
            assert(views_of(v@)[i as int] == k@);
            return true;
        }
        i = i + 1;
    }
    proof {
        if views_of(v@).contains(k@) {
            let j = choose|j: int| 0 <= j < views_of(v@).len() && views_of(v@)[j] == k@;
            assert(v@[j]@ == k@);
        }
    }
    false
}

/// Whether byte string `b` occurs in `v`.
pub fn contains_bytes(v: &Vec<Vec<u8>>, b: &[u8]) -> (r: bool)
    ensures
        r == views_of(v@).contains(b@),
{
    let mut i: usize = 0;
    while i < v.len()
        invariant
            i <= v@.len(),
            forall|j: int| 0 <= j < i ==> v@[j]@ != b@,
        decreases v.len() - i,
    {
        if bytes_eq(v[i].as_slice(), b) {
            assert(views_of(v@)[i as int] == b@);
            return true;
        }
        i = i + 1;
    }
    proof {
        if views_of(v@).contains(b@) {
            let j = choose|j: int| 0 <= j < views_of(v@).len() && views_of(v@)[j] == b@;
            assert(v@[j]@ == b@);
        }
    }
    false
}

/// The members of `s` that do not occur in `rm`, in their original order.
pub open spec fn remove_all(s: Seq<Seq<u8>>, rm: Seq<Seq<u8>>) -> Seq<Seq<u8>>
    decreases s.len(),
{
    if s.len() == 0 {
        Seq::empty()
    } else {
        let rest = remove_all(s.drop_last(), rm);
        if rm.contains(s.last()) {
            rest
        } else {
            rest.push(s.last())
        }
    }
}

/// What removal leaves: exactly the entries of `s` outside `rm`, without
/// introducing duplicates.
pub proof fn lemma_remove_all_props(s: Seq<Seq<u8>>, rm: Seq<Seq<u8>>)
    ensures
        remove_all(s, rm).len() <= s.len(),
        forall|x: Seq<u8>|
            remove_all(s, rm).contains(x) <==> (s.contains(x) && !rm.contains(x)),
        distinct_seq(s) ==> distinct_seq(remove_all(s, rm)),
    decreases s.len(),
{
    if s.len() == 0 {
    } else {
        let head = s.drop_last();
        let rest = remove_all(head, rm);
        lemma_remove_all_props(head, rm);
        assert(s =~= head.push(s.last()));
        assert forall|x: Seq<u8>| s.contains(x) implies head.contains(x) || s.last() == x by {
            let i = choose|i: int| 0 <= i < s.len() && s[i] == x;
            if i < s.len() - 1 {
                assert(head[i] == x);
            }
        }
        assert forall|x: Seq<u8>| head.contains(x) implies s.contains(x) by {
            let i = choose|i: int| 0 <= i < head.len() && head[i] == x;
            assert(s[i] == x);
        }
        assert(s.contains(s.last()));
        if rm.contains(s.last()) {
        } else {
            let out = rest.push(s.last());
            assert forall|x: Seq<u8>| out.contains(x) implies (s.contains(x)
                && !rm.contains(x)) by {
                let i = choose|i: int| 0 <= i < out.len() && out[i] == x;
                if i < rest.len() {
                    assert(rest[i] == x);
                    assert(rest.contains(x));
                }
            }
            assert forall|x: Seq<u8>| s.contains(x) && !rm.contains(x) implies out.contains(
                x,
            ) by {
                if head.contains(x) {
                    assert(out[choose|i: int| 0 <= i < rest.len() && rest[i] == x] == x);
                } else {
                    assert(out[rest.len() as int] == x);
                }
            }
            if distinct_seq(s) {
                assert forall|i: int, j: int| 0 <= i < j < out.len() implies out[i]
                    != out[j] by {
                    if j == out.len() - 1 {
                        assert(out[i] == rest[i]);
                        assert(rest.contains(rest[i]));
                        if out[i] == s.last() {
                            let k = choose|k: int| 0 <= k < head.len() && head[k] == rest[i];
                            assert(s[k] == s[s.len() - 1]);
                        }
                    } else {
                        assert(out[i] == rest[i] && out[j] == rest[j]);
                    }
                }
            }
        }
    }
}

/// Retain the keys of `v` that are not in `rm`.
pub fn filter_out_keys(v: &Vec<PublicKey>, rm: &Vec<PublicKey>) -> (r: Vec<PublicKey>)
    ensures
        views_of(r@) == remove_all(views_of(v@), views_of(rm@)),
{
    let mut out: Vec<PublicKey> = Vec::new();
    let mut i: usize = 0;
    while i < v.len()
        invariant
            i <= v@.len(),
            views_of(out@) == remove_all(views_of(v@).subrange(0, i as int), views_of(rm@)),
        decreases v.len() - i,
    {
        let ghost pfx = views_of(v@).subrange(0, i as int);
        let ghost elem = v@[i as int]@;
        let ghost rv = views_of(rm@);
        let keep = !contains_key(rm, &v[i]);
        proof {
            assert(views_of(v@).subrange(0, i as int + 1) =~= pfx.push(elem));
            assert(pfx.push(elem).drop_last() =~= pfx);
            assert(remove_all(pfx.push(elem), rv) == (if rv.contains(elem) {
                remove_all(pfx, rv)
            } else {
                remove_all(pfx, rv).push(elem)
            }));
        }
        if keep {
            let ghost pre = views_of(out@);
            out.push(v[i].clone());
            proof {
                assert(views_of(out@) =~= pre.push(elem));
            }
        }
        i = i + 1;
    }
    proof {
        assert(views_of(v@).subrange(0, views_of(v@).len() as int) =~= views_of(v@));
    }
    out
}

/// Byte `j` (little-endian) of `n`.
pub open spec fn u64_byte(n: u64, j: int) -> u8 {
    (n >> (8 * j)) as u8
}

/// A deterministic 32-byte value, distinct across tags and counters: the
/// tag byte, the counter little-endian, then zeroes.
pub open spec fn gen_bytes(tag: u8, n: u64) -> Seq<u8> {
    Seq::new(
        ID_LEN as nat,
        |i: int|
            if i == 0 {
                tag
            } else if i <= 8 {
                u64_byte(n, i - 1)
            } else {
                0
            },
    )
}

/// Produce the 32-byte value `gen_bytes(tag, n)`.
pub fn make_gen_bytes(tag: u8, n: u64) -> (r: Vec<u8>)
    ensures
        r@ == gen_bytes(tag, n),
{
    let mut out: Vec<u8> = Vec::new();
    out.push(tag);
    let mut j: usize = 0;
    while j < 8
        invariant
            j <= 8,
            out@.len() == 1 + j,
            out@[0] == tag,
            forall|k: int| 0 <= k < j ==> out@[1 + k] == u64_byte(n, k),
        decreases 8 - j,
    {
        let b: u8 = (n >> ((8 * j) as u64)) as u8;
        out.push(b);
        j = j + 1;
    }
    let mut k: usize = 9;
    while k < 32
        invariant
            9 <= k <= 32,
            out@.len() == k,
            out@[0] == tag,
            forall|t: int| 0 <= t < 8 ==> out@[1 + t] == u64_byte(n, t),
            forall|t: int| 9 <= t < k ==> out@[t] == 0,
        decreases 32 - k,
    {
        out.push(0);
        k = k + 1;
    }
    proof {
        assert(out@ =~= gen_bytes(tag, n));
    }
    out
}

/// The secret exported at `epoch` from a group's base secret: each byte of
/// the base secret mixed with one little-endian byte of the epoch.
pub open spec fn mix_secret(base: Seq<u8>, epoch: u64) -> Seq<u8> {
    Seq::new(base.len(), |i: int| base[i] ^ u64_byte(epoch, i % 8))
}

/// Produce the exported secret `mix_secret(base, epoch)`.
pub fn make_mix_secret(base: &Vec<u8>, epoch: u64) -> (r: Vec<u8>)
    ensures
        r@ == mix_secret(base@, epoch),
{
    let mut out: Vec<u8> = Vec::new();
    let mut i: usize = 0;
    while i < base.len()
        invariant
            i <= base@.len(),
            out@.len() == i,
            forall|j: int| 0 <= j < i ==> out@[j] == mix_secret(base@, epoch)[j],
        decreases base.len() - i,
    {
        let b: u8 = base[i] ^ ((epoch >> ((8 * (i % 8)) as u64)) as u8);
        out.push(b);
        i = i + 1;
    }
    proof {
        assert(out@ =~= mix_secret(base@, epoch));
    }
    out
}

impl Clone for GroupState {
    fn clone(&self) -> (r: Self)
        ensures
            r@ == self@,
    {
        let r = GroupState {
            group_id: self.group_id.clone(),
            nostr_group_id: clone_bytes(&self.nostr_group_id),
            name: self.name.clone(),
            description: self.description.clone(),
            epoch: self.epoch,
            members: clone_keys(&self.members),
            admins: clone_keys(&self.admins),
            relays: clone_strings(&self.relays),
            base_secret: clone_bytes(&self.base_secret),
        };
        proof {
            assert(r@ =~= self@);
        }
        r
    }
}

} // verus!
