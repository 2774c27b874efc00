//! Identifiers: member public keys and group identifiers. Both are opaque
//! 32-byte values; public keys additionally travel as 64-digit hex text at
//! the API boundary.

use vstd::prelude::*;
use vstd::string::StrSliceExecFns;
use vstd::string::StringSliceAdditionalSpecFns;
use crate::errors::Error;
use crate::hex::{valid_hex, hex_decode, hex_encode, decode_hex, encode_hex};

verus! {

/// Length in bytes of a public key and of a group identifier.
pub const ID_LEN: usize = 32;

/// Compare two byte strings for equality.
pub fn bytes_eq(a: &[u8], b: &[u8]) -> (r: bool)
    ensures
        r == (a@ == b@),
{
    if a.len() != b.len() {
        assert(a@ != b@);
        return false;
    }
    let mut i: usize = 0;
    while i < a.len()
        invariant
            i <= a.len(),
            a@.len() == b@.len(),
            forall|j: int| 0 <= j < i ==> a@[j] == b@[j],
        decreases a.len() - i,
    {
        if a[i] != b[i] {
            assert(a@ != b@);
            return false;
        }
        i = i + 1;
    }
    proof {
        assert(a@ =~= b@);
    }
    true
}

/// Copy a byte vector.
pub fn clone_bytes(v: &Vec<u8>) -> (r: Vec<u8>)
    ensures
        r@ == v@,
{
    let r = v.clone();
    proof {
        assert(r@ =~= v@);
    }
    r
}

/// Hex text denoting a well-formed public key: exactly 64 hex digits.
pub open spec fn valid_pk_hex(s: Seq<u8>) -> bool {
    valid_hex(s) && s.len() == 64
}

/// A member identity: a 32-byte public key.
pub struct PublicKey {
    pub bytes: Vec<u8>,
}

impl View for PublicKey {
    type V = Seq<u8>;

    open spec fn view(&self) -> Seq<u8> {
        self.bytes@
    }
}

impl Clone for PublicKey {
    fn clone(&self) -> (r: Self)
        ensures
            r@ == self@,
    {
        PublicKey { bytes: clone_bytes(&self.bytes) }
    }
}

impl PublicKey {
    /// A public key holds exactly `ID_LEN` bytes.
    pub open spec fn wf(&self) -> bool {
        self@.len() == ID_LEN
    }

    /// Parse a public key from hex text. Succeeds exactly on 64 hex
    /// digits; anything else is `InvalidInput`.
    pub fn parse(s: &str) -> (r: Result<PublicKey, Error>)
        ensures
            r is Ok <==> valid_pk_hex(s.spec_bytes()),
            r is Ok ==> r->Ok_0@ == hex_decode(s.spec_bytes()) && r->Ok_0.wf(),
            r is Err ==> r->Err_0 == Error::InvalidInput,
    {
        let b = s.as_bytes_vec();
        if b.len() != 64 {
            return Err(Error::InvalidInput);
        }
        match decode_hex(b.as_slice()) {
            Some(raw) => Ok(PublicKey { bytes: raw }),
            None => Err(Error::InvalidInput),
        }
    }

    /// Wrap raw key bytes. Succeeds exactly on 32 bytes.
    pub fn from_bytes(b: Vec<u8>) -> (r: Result<PublicKey, Error>)
        ensures
            r is Ok <==> b@.len() == ID_LEN,
            r is Ok ==> r->Ok_0@ == b@ && r->Ok_0.wf(),
            r is Err ==> r->Err_0 == Error::InvalidInput,
    {
        if b.len() != ID_LEN {
            return Err(Error::InvalidInput);
        }
        Ok(PublicKey { bytes: b })
    }

    /// The raw key bytes.
    pub fn as_bytes(&self) -> (r: &[u8])
        ensures
            r@ == self@,
    {
        self.bytes.as_slice()
    }

    /// Lower-case hex text for this key.
    pub fn to_hex(&self) -> (r: Vec<u8>)
        ensures
            r@ == hex_encode(self@),
    {
        encode_hex(self.bytes.as_slice())
    }

    /// Equality of the underlying key bytes.
    pub fn key_eq(&self, other: &PublicKey) -> (r: bool)
        ensures
            r == (self@ == other@),
    {
        bytes_eq(self.bytes.as_slice(), other.bytes.as_slice())
    }
}

/// A group identifier: an opaque 32-byte value, stable for the group's
/// lifetime.
pub struct GroupId {
    pub bytes: Vec<u8>,
}

impl View for GroupId {
    type V = Seq<u8>;

    open spec fn view(&self) -> Seq<u8> {
        self.bytes@
    }
}

impl Clone for GroupId {
    fn clone(&self) -> (r: Self)
        ensures
            r@ == self@,
    {
        GroupId { bytes: clone_bytes(&self.bytes) }
    }
}

impl GroupId {
    /// A group id holds exactly `ID_LEN` bytes.
    pub open spec fn wf(&self) -> bool {
        self@.len() == ID_LEN
    }

    /// Wrap raw id bytes. Succeeds exactly on 32 bytes; anything else is
    /// `InvalidInput`.
    pub fn from_bytes(b: Vec<u8>) -> (r: Result<GroupId, Error>)
        ensures
            r is Ok <==> b@.len() == ID_LEN,
            r is Ok ==> r->Ok_0@ == b@ && r->Ok_0.wf(),
            r is Err ==> r->Err_0 == Error::InvalidInput,
    {
        if b.len() != ID_LEN {
            return Err(Error::InvalidInput);
        }
        Ok(GroupId { bytes: b })
    }

    /// The raw id bytes.
    pub fn as_bytes(&self) -> (r: &[u8])
        ensures
            r@ == self@,
    {
        self.bytes.as_slice()
    }

    /// Equality of the underlying id bytes.
    pub fn id_eq(&self, other: &GroupId) -> (r: bool)
        ensures
            r == (self@ == other@),
    {
        bytes_eq(self.bytes.as_slice(), other.bytes.as_slice())
    }
}

} // verus!
