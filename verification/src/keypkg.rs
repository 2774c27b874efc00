//! Key packages: single-use signed credentials binding a member's public
//! key, a ciphersuite, and capability extensions. A key package travels as
//! hex text over a fixed byte frame; this module owns that frame, its
//! parser, and their round-trip law.

use vstd::prelude::*;
use vstd::slice::{slice_subrange, slice_to_vec};
use crate::errors::Error;
use crate::hex::{valid_hex, hex_decode, hex_encode, decode_hex, encode_hex};
use crate::keys::{PublicKey, clone_bytes, ID_LEN};

verus! {

/// Length in bytes of a key-package signature.
pub const SIG_LEN: usize = 64;

/// Byte length of a key-package frame carrying `n` extensions.
pub open spec fn frame_len(n: int) -> int {
    131 + 2 * n
}

/// High byte of a big-endian `u16`.
pub open spec fn be_hi(v: u16) -> u8 {
    (v / 256) as u8
}

/// Low byte of a big-endian `u16`.
pub open spec fn be_lo(v: u16) -> u8 {
    (v % 256) as u8
}

/// The `u16` with big-endian bytes `hi`, `lo`.
pub open spec fn u16_of(hi: u8, lo: u8) -> u16 {
    (hi * 256 + lo) as u16
}

/// Mathematical model of a key package.
#[verifier::ext_equal]
pub struct KeyPackageView {
    pub pubkey: Seq<u8>,
    pub ciphersuite: u16,
    pub extensions: Seq<u16>,
    pub reference: Seq<u8>,
    pub signature: Seq<u8>,
}

impl KeyPackageView {
    /// Component lengths are as the frame requires.
    pub open spec fn wf(self) -> bool {
        &&& self.pubkey.len() == ID_LEN
        &&& self.reference.len() == ID_LEN
        &&& self.signature.len() == SIG_LEN
        &&& self.extensions.len() <= 255
    }
}

/// Byte `i` of the frame for `k`.
pub open spec fn kp_frame_byte(k: KeyPackageView, i: int) -> u8 {
    if i == 0 {
        be_hi(k.ciphersuite)
    } else if i == 1 {
        be_lo(k.ciphersuite)
    } else if i < 34 {
        k.pubkey[i - 2]
    } else if i < 66 {
        k.reference[i - 34]
    } else if i < 130 {
        k.signature[i - 66]
    } else if i == 130 {
        k.extensions.len() as u8
    } else if (i - 131) % 2 == 0 {
        be_hi(k.extensions[(i - 131) / 2])
    } else {
        be_lo(k.extensions[(i - 131) / 2])
    }
}

/// The byte frame for `k`: ciphersuite, public key, reference, signature,
/// extension count, then each extension big-endian.
pub open spec fn kp_frame(k: KeyPackageView) -> Seq<u8> {
    Seq::new(frame_len(k.extensions.len() as int) as nat, |i: int| kp_frame_byte(k, i))
}

/// The key package a byte frame denotes, or `None` when the frame is
/// malformed.
pub open spec fn parse_kp_frame(b: Seq<u8>) -> Option<KeyPackageView> {
    if b.len() < 131 {
        None
    } else if b.len() != frame_len(b[130] as int) {
        None
    } else {
        Some(
            KeyPackageView {
                pubkey: b.subrange(2, 34),
                ciphersuite: u16_of(b[0], b[1]),
                extensions: Seq::new(
                    b[130] as nat,
                    |i: int| u16_of(b[131 + 2 * i], b[132 + 2 * i]),
                ),
                reference: b.subrange(34, 66),
                signature: b.subrange(66, 130),
            },
        )
    }
}

/// The key package denoted by hex text, or `None` when the text is not hex
/// or the decoded frame is malformed.
pub open spec fn parse_kp_hex(s: Seq<u8>) -> Option<KeyPackageView> {
    if valid_hex(s) {
        parse_kp_frame(hex_decode(s))
    } else {
        None
    }
}

/// A big-endian `u16` survives the split into bytes.
pub proof fn lemma_u16_bytes(v: u16)
    ensures
        u16_of(be_hi(v), be_lo(v)) == v,
        be_hi(v) < 256,
{
    assert(v / 256 < 256 && v % 256 < 256 && (v / 256) * 256 + v % 256 == v) by (nonlinear_arith);
}

/// Parsing inverts framing: the frame of a well-formed key package parses
/// back to the same key package.
pub proof fn lemma_kp_frame_round_trip(k: KeyPackageView)
    requires
        k.wf(),
    ensures
        parse_kp_frame(kp_frame(k)) == Some(k),
{
    let b = kp_frame(k);
    assert(b.len() == frame_len(k.extensions.len() as int));
    assert(b[130] == k.extensions.len() as u8);
    let p = parse_kp_frame(b).unwrap();
    lemma_u16_bytes(k.ciphersuite);
    assert(p.ciphersuite == k.ciphersuite);
    assert(p.pubkey =~= k.pubkey);
    assert(p.reference =~= k.reference);
    assert(p.signature =~= k.signature);
    assert forall|i: int| 0 <= i < k.extensions.len() implies p.extensions[i]
        == k.extensions[i] by {
        assert((131 + 2 * i - 131) % 2 == 0 && (131 + 2 * i - 131) / 2 == i) by (nonlinear_arith);
        assert((132 + 2 * i - 131) % 2 == 1 && (132 + 2 * i - 131) / 2 == i) by (nonlinear_arith);
        assert(b[131 + 2 * i] == be_hi(k.extensions[i]));
        assert(b[132 + 2 * i] == be_lo(k.extensions[i]));
        lemma_u16_bytes(k.extensions[i]);
    }
    assert(p.extensions =~= k.extensions);
    assert(p =~= k);
}

/// A single-use signed credential admitting one member into one group.
pub struct KeyPackage {
    pub pubkey: PublicKey,
    pub ciphersuite: u16,
    pub extensions: Vec<u16>,
    pub reference: Vec<u8>,
    pub signature: Vec<u8>,
}

impl View for KeyPackage {
    type V = KeyPackageView;

    open spec fn view(&self) -> KeyPackageView {
        KeyPackageView {
            pubkey: self.pubkey@,
            ciphersuite: self.ciphersuite,
            extensions: self.extensions@,
            reference: self.reference@,
            signature: self.signature@,
        }
    }
}

impl Clone for KeyPackage {
    fn clone(&self) -> (r: Self)
        ensures
            r@ == self@,
    {
        let r = KeyPackage {
            pubkey: self.pubkey.clone(),
            ciphersuite: self.ciphersuite,
            extensions: clone_u16s(&self.extensions),
            reference: clone_bytes(&self.reference),
            signature: clone_bytes(&self.signature),
        };
        proof {
            assert(r@ =~= self@);
        }
        r
    }
}

/// Copy a vector of `u16` values.
pub fn clone_u16s(v: &Vec<u16>) -> (r: Vec<u16>)
    ensures
        r@ == v@,
{
    let r = v.clone();
    proof {
        assert(r@ =~= v@);
    }
    r
}

/// Append all of `b` to `out`.
pub fn push_bytes(out: &mut Vec<u8>, b: &[u8])
    ensures
        final(out)@ == old(out)@ + b@,
{
    let mut i: usize = 0;
    while i < b.len()
        invariant
            i <= b.len(),
            out@ == old(out)@ + b@.subrange(0, i as int),
        decreases b.len() - i,
    {
        out.push(b[i]);
        proof {
            assert(old(out)@ + b@.subrange(0, i as int + 1) =~= (old(out)@ + b@.subrange(
                0,
                i as int,
            )).push(b@[i as int]));
        }
        i = i + 1;
    }
    proof {
        assert(b@.subrange(0, b@.len() as int) =~= b@);
    }
}

impl KeyPackage {
    /// Component lengths are as the frame requires.
    pub open spec fn wf(&self) -> bool {
        self@.wf()
    }

    /// Whether the component lengths are as the frame requires.
    pub fn check_wf(&self) -> (r: bool)
        ensures
            r == self@.wf(),
    {
        self.pubkey.as_bytes().len() == ID_LEN && self.reference.len() == ID_LEN
            && self.signature.len() == SIG_LEN && self.extensions.len() <= 255
    }

    /// The byte frame for this key package.
    pub fn frame(&self) -> (r: Vec<u8>)
        requires
            self.wf(),
        ensures
            r@ == kp_frame(self@),
    {
        let mut out: Vec<u8> = Vec::new();
        out.push((self.ciphersuite / 256) as u8);
        out.push((self.ciphersuite % 256) as u8);
        push_bytes(&mut out, self.pubkey.as_bytes());
        push_bytes(&mut out, self.reference.as_slice());
        push_bytes(&mut out, self.signature.as_slice());
        out.push(self.extensions.len() as u8);
        let ghost head = out@;
        let mut i: usize = 0;
        while i < self.extensions.len()
            invariant
                i <= self.extensions@.len(),
                out@.len() == 131 + 2 * i,
                out@ == head + ext_bytes(self.extensions@, i as int),
                head.len() == 131,
                head == out@.subrange(0, 131),
                self.wf(),
            decreases self.extensions.len() - i,
        {
            let e = self.extensions[i];
            out.push((e / 256) as u8);
            out.push((e % 256) as u8);
            proof {
                assert(ext_bytes(self.extensions@, i as int + 1) =~= ext_bytes(
                    self.extensions@,
                    i as int,
                ).push(be_hi(self.extensions@[i as int])).push(be_lo(self.extensions@[i as int])));
                assert(out@ =~= head + ext_bytes(self.extensions@, i as int + 1));
            }
            i = i + 1;
        }
        proof {
            assert forall|j: int| 0 <= j < out@.len() implies out@[j] == kp_frame_byte(
                self@,
                j,
            ) by {
                if j >= 131 {
                    let e = ext_bytes(self.extensions@, self.extensions@.len() as int);
                    assert(out@[j] == e[j - 131]);
                    assert((j - 131) % 2 == 0 ==> e[j - 131] == be_hi(
                        self.extensions@[(j - 131) / 2],
                    ));
                }
            }
            assert(out@ =~= kp_frame(self@));
        }
        out
    }

    /// Hex text encoding of this key package's frame.
    pub fn encode(&self) -> (r: Vec<u8>)
        requires
            self.wf(),
        ensures
            r@ == hex_encode(kp_frame(self@)),
            parse_kp_hex(r@) == Some(self@),
    {
        let f = self.frame();
        let r = encode_hex(f.as_slice());
        proof {
            crate::hex::lemma_hex_round_trip(kp_frame(self@));
            lemma_kp_frame_round_trip(self@);
        }
        r
    }

    /// Parse a key-package frame. Succeeds exactly when the byte string is
    /// a well-formed frame; anything else is `InvalidKeyPackage`.
    pub fn parse_frame(b: &[u8]) -> (r: Result<KeyPackage, Error>)
        ensures
            r is Ok <==> parse_kp_frame(b@) is Some,
            r is Ok ==> Some(r->Ok_0@) == parse_kp_frame(b@) && r->Ok_0.wf(),
            r is Err ==> r->Err_0 == Error::InvalidKeyPackage,
    {
        if b.len() < 131 {
            return Err(Error::InvalidKeyPackage);
        }
        let count = b[130] as usize;
        if b.len() != 131 + 2 * count {
            return Err(Error::InvalidKeyPackage);
        }
        let cs: u16 = (b[0] as u16) * 256 + (b[1] as u16);
        let pk_bytes = slice_to_vec(slice_subrange(b, 2, 34));
        let reference = slice_to_vec(slice_subrange(b, 34, 66));
        let signature = slice_to_vec(slice_subrange(b, 66, 130));
        let pubkey = match PublicKey::from_bytes(pk_bytes) {
            Ok(p) => p,
            Err(_) => { return Err(Error::InvalidKeyPackage) },
        };
        let mut extensions: Vec<u16> = Vec::new();
        let mut i: usize = 0;
        while i < count
            invariant
                i <= count,
                b@.len() == 131 + 2 * count,
                b@.len() <= usize::MAX,
                extensions@.len() == i,
                forall|j: int|
                    0 <= j < i ==> extensions@[j] == u16_of(b@[131 + 2 * j], b@[132 + 2 * j]),
            decreases count - i,
        {
            proof {
                assert(132 + 2 * (i as int) < b@.len());
            }
            let e: u16 = (b[131 + 2 * i] as u16) * 256 + (b[132 + 2 * i] as u16);
            extensions.push(e);
            i = i + 1;
        }
        let kp = KeyPackage { pubkey, ciphersuite: cs, extensions, reference, signature };
        proof {
            let p = parse_kp_frame(b@).unwrap();
            assert(kp@.pubkey =~= p.pubkey);
            assert(kp@.reference =~= p.reference);
            assert(kp@.signature =~= p.signature);
            assert(kp@.extensions =~= p.extensions);
            assert(kp@ =~= p);
        }
        Ok(kp)
    }

    /// Parse hex text as a key package. Succeeds exactly when the text is
    /// hex for a well-formed frame; anything else is `InvalidKeyPackage`.
    pub fn parse_hex(s: &[u8]) -> (r: Result<KeyPackage, Error>)
        ensures
            r is Ok <==> parse_kp_hex(s@) is Some,
            r is Ok ==> Some(r->Ok_0@) == parse_kp_hex(s@) && r->Ok_0.wf(),
            r is Err ==> r->Err_0 == Error::InvalidKeyPackage,
    {
        match decode_hex(s) {
            Some(raw) => Self::parse_frame(raw.as_slice()),
            None => Err(Error::InvalidKeyPackage),
        }
    }
}

/// The big-endian byte string of the first `n` of `exts`.
pub open spec fn ext_bytes(exts: Seq<u16>, n: int) -> Seq<u8> {
    Seq::new(
        (2 * n) as nat,
        |i: int|
            if i % 2 == 0 {
                be_hi(exts[i / 2])
            } else {
                be_lo(exts[i / 2])
            },
    )
}

} // verus!
