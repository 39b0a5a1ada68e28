//! Scalars and group elements of the secp256k1 prime-order group, carried as
//! their canonical byte encodings.
//!
//! A [`FieldScalar`] holds the 32-byte big-endian canonical representation of
//! a scalar; a [`GroupElement`] holds the 33-byte compressed SEC1 encoding of
//! a curve point (the identity encodes as 33 zero bytes). All arithmetic goes
//! through `k256`, and every encoding the library itself produces comes from
//! `to_bytes`, so values the library computes are equal exactly when their
//! held bytes are equal. A decoder may also accept other SEC1 forms of a
//! point; nothing here claims that every accepted encoding is canonical.

use vstd::prelude::*;
use k256::elliptic_curve::Field;
use k256::elliptic_curve::PrimeField;
use k256::elliptic_curve::group::{Group, GroupEncoding};
use rand_core::SeedableRng;

verus! {

/// Canonical-encoding validity of 32 scalar bytes: the big-endian value lies
/// below the group order, so `k256::Scalar::from_repr` accepts them.
pub uninterp spec fn scalar_bytes_valid(b: Seq<u8>) -> bool;

/// The canonical bytes of the sum of the two scalars encoded by `a` and `b`.
pub uninterp spec fn scalar_sum(a: Seq<u8>, b: Seq<u8>) -> Seq<u8>;

/// The canonical bytes of the difference of the scalars encoded by `a` and `b`.
pub uninterp spec fn scalar_diff(a: Seq<u8>, b: Seq<u8>) -> Seq<u8>;

/// The canonical bytes of the scalar with small integer value `x`.
pub uninterp spec fn scalar_of_u64(x: u64) -> Seq<u8>;

/// Validity of 33 bytes as a compressed SEC1 point encoding:
/// `k256::ProjectivePoint::from_bytes` accepts them.
pub uninterp spec fn point_bytes_valid(b: Seq<u8>) -> bool;

/// The compressed encoding of the sum of the points encoded by `a` and `b`.
pub uninterp spec fn point_sum(a: Seq<u8>, b: Seq<u8>) -> Seq<u8>;

/// The compressed encoding of the difference of the points encoded by `a` and `b`.
pub uninterp spec fn point_diff(a: Seq<u8>, b: Seq<u8>) -> Seq<u8>;

/// The compressed encoding of the point encoded by `p` multiplied by the
/// scalar encoded by `s`.
pub uninterp spec fn point_smul(s: Seq<u8>, p: Seq<u8>) -> Seq<u8>;

/// The encoding of the group element sampled from a deterministic CSPRNG
/// seeded with the first 32 bytes of `m`.
pub uninterp spec fn blinder_for(m: Seq<u8>) -> Seq<u8>;

/// The canonical encoding of the zero scalar: 32 zero bytes.
pub open spec fn zero_scalar_bytes() -> Seq<u8> {
    Seq::new(32, |i: int| 0u8)
}

/// The compressed encoding of the group identity: 33 zero bytes.
pub open spec fn identity_bytes() -> Seq<u8> {
    Seq::new(33, |i: int| 0u8)
}

/// Whether `b` encodes the group identity.
pub open spec fn is_identity_bytes(b: Seq<u8>) -> bool {
    b == identity_bytes()
}

/// The compressed encoding of the conventional secp256k1 base point.
pub open spec fn generator_bytes() -> Seq<u8> {
    seq![
        0x02u8, 0x79u8, 0xbeu8, 0x66u8, 0x7eu8, 0xf9u8, 0xdcu8, 0xbbu8, 0xacu8, 0x55u8, 0xa0u8,
        0x62u8, 0x95u8, 0xceu8, 0x87u8, 0x0bu8, 0x07u8, 0x02u8, 0x9bu8, 0xfcu8, 0xdbu8, 0x2du8,
        0xceu8, 0x28u8, 0xd9u8, 0x59u8, 0xf2u8, 0x81u8, 0x5bu8, 0x16u8, 0xf8u8, 0x17u8, 0x98u8,
    ]
}

/// A scalar of the secp256k1 scalar field, as its canonical 32-byte encoding.
pub struct FieldScalar {
    pub(crate) bytes: Vec<u8>,
}

/// A point of the secp256k1 group, as its compressed 33-byte SEC1 encoding.
pub struct GroupElement {
    pub(crate) bytes: Vec<u8>,
}

impl View for FieldScalar {
    type V = Seq<u8>;

    closed spec fn view(&self) -> Seq<u8> {
        self.bytes@
    }
}

impl View for GroupElement {
    type V = Seq<u8>;

    closed spec fn view(&self) -> Seq<u8> {
        self.bytes@
    }
}

impl FieldScalar {
    #[verifier::type_invariant]
    spec fn wf(self) -> bool {
        self.bytes@.len() == 32 && scalar_bytes_valid(self.bytes@)
    }

    /// The canonical 32-byte encoding of this scalar.
    pub fn to_bytes(&self) -> (r: Vec<u8>)
        ensures
            r@ == self@,
    {
        clone_bytes(&self.bytes)
    }

    /// A borrow of the canonical encoding bytes.
    pub(crate) fn raw_bytes(&self) -> (r: &Vec<u8>)
        ensures
            r@ == self@,
    {
        &self.bytes
    }

    /// The canonical encoding is 32 bytes that a scalar decode accepts.
    pub fn encoding_lemma(&self)
        ensures
            self@.len() == 32,
            scalar_bytes_valid(self@),
    {
        proof {
            use_type_invariant(self);
        }
    }

    /// Whether this scalar is zero, that is, all encoding bytes are zero.
    pub fn is_zero(&self) -> (r: bool)
        ensures
            r == (self@ == zero_scalar_bytes()),
    {
        proof {
            use_type_invariant(self);
        }
        let r = all_zero(&self.bytes);
        proof {
            if r && self.bytes@.len() == 32 {
                assert(self.bytes@ =~= zero_scalar_bytes());
            }
            if self.bytes@ == zero_scalar_bytes() {
                assert(forall|i: int| 0 <= i < 32 ==> self.bytes@[i] == 0u8);
            }
        }
        r && self.bytes.len() == 32
    }

    /// Whether the two scalars are equal, that is, their canonical
    /// encodings agree.
    pub fn equals(&self, other: &FieldScalar) -> (r: bool)
        ensures
            r == (self@ == other@),
    {
        bytes_eq(&self.bytes, &other.bytes)
    }
}

impl GroupElement {
    #[verifier::type_invariant]
    spec fn wf(self) -> bool {
        self.bytes@.len() == 33 && point_bytes_valid(self.bytes@)
    }

    /// The compressed 33-byte encoding of this group element.
    pub fn to_bytes(&self) -> (r: Vec<u8>)
        ensures
            r@ == self@,
    {
        clone_bytes(&self.bytes)
    }

    /// A borrow of the compressed encoding bytes.
    pub(crate) fn raw_bytes(&self) -> (r: &Vec<u8>)
        ensures
            r@ == self@,
    {
        &self.bytes
    }

    /// The compressed encoding is 33 bytes that a point decode accepts.
    pub fn encoding_lemma(&self)
        ensures
            self@.len() == 33,
            point_bytes_valid(self@),
    {
        proof {
            use_type_invariant(self);
        }
    }

    /// Whether this element is the group identity, whose compressed
    /// encoding is all zero bytes.
    pub fn is_identity(&self) -> (r: bool)
        ensures
            r == is_identity_bytes(self@),
    {
        proof {
            use_type_invariant(self);
        }
        let r = all_zero(&self.bytes);
        proof {
            if r && self.bytes@.len() == 33 {
                assert(self.bytes@ =~= identity_bytes());
            }
            if self.bytes@ == identity_bytes() {
                assert(forall|i: int| 0 <= i < 33 ==> self.bytes@[i] == 0u8);
            }
        }
        r && self.bytes.len() == 33
    }

    /// Whether the two group elements are equal, that is, their compressed
    /// encodings agree.
    pub fn equals(&self, other: &GroupElement) -> (r: bool)
        ensures
            r == (self@ == other@),
    {
        bytes_eq(&self.bytes, &other.bytes)
    }
}

impl Clone for FieldScalar {
    fn clone(&self) -> (r: Self)
        ensures
            r@ == self@,
    {
        proof {
            use_type_invariant(self);
        }
        FieldScalar { bytes: clone_bytes(&self.bytes) }
    }
}

impl Clone for GroupElement {
    fn clone(&self) -> (r: Self)
        ensures
            r@ == self@,
    {
        proof {
            use_type_invariant(self);
        }
        GroupElement { bytes: clone_bytes(&self.bytes) }
    }
}

/// A copy of the byte vector.
pub fn clone_bytes(v: &Vec<u8>) -> (r: Vec<u8>)
    ensures
        r@ == v@,
{
    let mut out: Vec<u8> = Vec::new();
    let mut i: usize = 0;
    while i < v.len()
        invariant
            i <= v@.len(),
            out@ == v@.subrange(0, i as int),
        decreases v@.len() - i,
    {
        out.push(v[i]);
        i += 1;
    }
    proof {
        assert(out@ =~= v@);
    }
    out
}

/// The bytes of `v` from `from` (inclusive) to `to` (exclusive).
pub fn sub_bytes(v: &Vec<u8>, from: usize, to: usize) -> (r: Vec<u8>)
    requires
        from <= to <= v@.len(),
    ensures
        r@ == v@.subrange(from as int, to as int),
{
    let mut out: Vec<u8> = Vec::new();
    let mut i: usize = from;
    while i < to
        invariant
            from <= i <= to <= v@.len(),
            out@ == v@.subrange(from as int, i as int),
        decreases to - i,
    {
        out.push(v[i]);
        i += 1;
    }
    out
}

/// Whether the two byte vectors hold the same bytes. The scan accumulates a
/// difference mask instead of exiting at the first mismatch, so the work
/// done does not depend on where the vectors differ.
pub fn bytes_eq(a: &Vec<u8>, b: &Vec<u8>) -> (r: bool)
    ensures
        r == (a@ == b@),
{
    if a.len() != b.len() {
        return false;
    }
    let mut i: usize = 0;
    let mut acc: u8 = 0;
    while i < a.len()
        invariant
            i <= a@.len(),
            a@.len() == b@.len(),
            (acc == 0) == (forall|j: int| 0 <= j < i ==> a@[j] == b@[j]),
        decreases a@.len() - i,
    {
        let x = a[i];
        let y = b[i];
        let ghost pre = acc;
        acc = acc | (x ^ y);
        proof {
            assert(((pre | (x ^ y)) == 0) == (pre == 0 && x == y)) by (bit_vector);
        }
        i += 1;
    }
    let ok = acc == 0;
    proof {
        if ok {
            assert(a@ =~= b@);
        }
    }
    ok
}

/// Whether every byte of `v` is zero, by accumulating a difference mask
/// rather than exiting at the first nonzero byte.
pub(crate) fn all_zero(v: &Vec<u8>) -> (r: bool)
    ensures
        r == (forall|i: int| 0 <= i < v@.len() ==> v@[i] == 0u8),
{
    let mut i: usize = 0;
    let mut acc: u8 = 0;
    while i < v.len()
        invariant
            i <= v@.len(),
            (acc == 0) == (forall|j: int| 0 <= j < i ==> v@[j] == 0u8),
        decreases v@.len() - i,
    {
        let x = v[i];
        let ghost pre = acc;
        acc = acc | x;
        proof {
            assert(((pre | x) == 0) == (pre == 0 && x == 0)) by (bit_vector);
        }
        i += 1;
    }
    acc == 0
}

/// The byte-sequence views of a sequence of byte vectors.
pub open spec fn bytes_views(s: Seq<Vec<u8>>) -> Seq<Seq<u8>> {
    Seq::new(s.len(), |i: int| s[i]@)
}

/// The encoding views of a sequence of group elements.
pub open spec fn points_views(s: Seq<GroupElement>) -> Seq<Seq<u8>> {
    Seq::new(s.len(), |i: int| s[i]@)
}

/// Append all bytes of `src` to `dst`.
pub fn push_all(dst: &mut Vec<u8>, src: &Vec<u8>)
    ensures
        final(dst)@ == old(dst)@ + src@,
{
    let mut i: usize = 0;
    while i < src.len()
        invariant
            i <= src@.len(),
            dst@ == old(dst)@ + src@.subrange(0, i as int),
        decreases src@.len() - i,
    {
        let ghost pre = dst@;
        dst.push(src[i]);
        proof {
            assert(pre.push(src@[i as int]) =~= old(dst)@ + src@.subrange(0, i + 1));
        }
        i += 1;
    }
    proof {
        assert(old(dst)@ + src@.subrange(0, src@.len() as int) =~= old(dst)@ + src@);
    }
}

/// Relies on `ff::Field::random` for `k256::Scalar`: a scalar sampled from
/// the operating system CSPRNG, returned in canonical form by `to_repr`.
#[verifier::external_body]
pub fn scalar_random() -> FieldScalar {
    let s = k256::Scalar::random(&mut rand_core::OsRng);
    FieldScalar { bytes: s.to_repr().to_vec() }
}

/// Relies on `k256::Scalar::from::<u64>` and `to_repr`: the canonical bytes
/// of the scalar with integer value `x`; the zero scalar encodes as 32 zero
/// bytes.
#[verifier::external_body]
pub fn scalar_from_u64(x: u64) -> (r: FieldScalar)
    ensures
        r@ == scalar_of_u64(x),
        x == 0 ==> r@ == zero_scalar_bytes(),
{
    FieldScalar { bytes: k256::Scalar::from(x).to_repr().to_vec() }
}

/// Relies on `k256::Scalar::from_repr`: succeeds exactly on canonical
/// encodings, and `to_repr` returns the bytes it was given.
#[verifier::external_body]
pub fn scalar_from_repr(b: &Vec<u8>) -> (r: Option<FieldScalar>)
    requires
        b@.len() == 32,
    ensures
        match r {
            Some(s) => s@ == b@ && scalar_bytes_valid(b@),
            None => !scalar_bytes_valid(b@),
        },
{
    let repr = *k256::FieldBytes::from_slice(&b[..]);
    let ct = k256::Scalar::from_repr(repr);
    if bool::from(ct.is_some()) {
        Some(FieldScalar { bytes: b.clone() })
    } else {
        None
    }
}

/// Relies on scalar addition of `k256::Scalar`, on canonical encodings.
#[verifier::external_body]
pub fn scalar_add(a: &FieldScalar, b: &FieldScalar) -> (r: FieldScalar)
    ensures
        r@ == scalar_sum(a@, b@),
{
    let x = k256::Scalar::from_repr(*k256::FieldBytes::from_slice(&a.bytes[..])).unwrap();
    let y = k256::Scalar::from_repr(*k256::FieldBytes::from_slice(&b.bytes[..])).unwrap();
    FieldScalar { bytes: (x + y).to_repr().to_vec() }
}

/// Relies on scalar subtraction of `k256::Scalar`, on canonical encodings.
#[verifier::external_body]
pub fn scalar_sub(a: &FieldScalar, b: &FieldScalar) -> (r: FieldScalar)
    ensures
        r@ == scalar_diff(a@, b@),
{
    let x = k256::Scalar::from_repr(*k256::FieldBytes::from_slice(&a.bytes[..])).unwrap();
    let y = k256::Scalar::from_repr(*k256::FieldBytes::from_slice(&b.bytes[..])).unwrap();
    FieldScalar { bytes: (x - y).to_repr().to_vec() }
}

/// Relies on `k256::ProjectivePoint::IDENTITY` and `GroupEncoding::to_bytes`:
/// the identity encodes as 33 zero bytes.
#[verifier::external_body]
pub fn point_identity() -> (r: GroupElement)
    ensures
        r@ == identity_bytes(),
{
    GroupElement { bytes: k256::ProjectivePoint::IDENTITY.to_bytes().to_vec() }
}

/// Relies on `k256::ProjectivePoint::GENERATOR`: the conventional base point,
/// whose compressed encoding is the fixed SEC1 constant.
#[verifier::external_body]
pub fn point_generator() -> (r: GroupElement)
    ensures
        r@ == generator_bytes(),
{
    GroupElement { bytes: k256::ProjectivePoint::GENERATOR.to_bytes().to_vec() }
}

/// Relies on `k256::ProjectivePoint::from_bytes`: succeeds exactly on valid
/// compressed encodings, and `to_bytes` returns the bytes it was given.
#[verifier::external_body]
pub fn point_from_repr(b: &Vec<u8>) -> (r: Option<GroupElement>)
    requires
        b@.len() == 33,
    ensures
        match r {
            Some(g) => g@ == b@ && point_bytes_valid(b@),
            None => !point_bytes_valid(b@),
        },
{
    let repr = k256::CompressedPoint::clone_from_slice(&b[..]);
    let ct = k256::ProjectivePoint::from_bytes(&repr);
    if bool::from(ct.is_some()) {
        Some(GroupElement { bytes: b.clone() })
    } else {
        None
    }
}

/// Relies on point addition of `k256::ProjectivePoint`, on compressed encodings.
#[verifier::external_body]
pub fn point_add(a: &GroupElement, b: &GroupElement) -> (r: GroupElement)
    ensures
        r@ == point_sum(a@, b@),
{
    let x = k256::ProjectivePoint::from_bytes(&k256::CompressedPoint::clone_from_slice(&a.bytes[..])).unwrap();
    let y = k256::ProjectivePoint::from_bytes(&k256::CompressedPoint::clone_from_slice(&b.bytes[..])).unwrap();
    GroupElement { bytes: (x + y).to_bytes().to_vec() }
}

/// Relies on point subtraction of `k256::ProjectivePoint`, on compressed
/// encodings; a point minus itself is the identity.
#[verifier::external_body]
pub fn point_sub(a: &GroupElement, b: &GroupElement) -> (r: GroupElement)
    ensures
        r@ == point_diff(a@, b@),
        a@ == b@ ==> r@ == identity_bytes(),
{
    let x = k256::ProjectivePoint::from_bytes(&k256::CompressedPoint::clone_from_slice(&a.bytes[..])).unwrap();
    let y = k256::ProjectivePoint::from_bytes(&k256::CompressedPoint::clone_from_slice(&b.bytes[..])).unwrap();
    GroupElement { bytes: (x - y).to_bytes().to_vec() }
}

/// Relies on scalar multiplication of `k256::ProjectivePoint` by `k256::Scalar`,
/// on canonical encodings.
#[verifier::external_body]
pub fn point_mul(s: &FieldScalar, p: &GroupElement) -> (r: GroupElement)
    ensures
        r@ == point_smul(s@, p@),
{
    let x = k256::Scalar::from_repr(*k256::FieldBytes::from_slice(&s.bytes[..])).unwrap();
    let y = k256::ProjectivePoint::from_bytes(&k256::CompressedPoint::clone_from_slice(&p.bytes[..])).unwrap();
    GroupElement { bytes: (y * x).to_bytes().to_vec() }
}

/// Relies on `rand_chacha::ChaChaRng::from_seed` and `Group::random`: a group
/// element drawn from a CSPRNG seeded with the first 32 bytes of `m`'s
/// encoding, hence a deterministic function of `m`.
#[verifier::external_body]
pub fn derive_blinder(m: &GroupElement) -> (r: GroupElement)
    ensures
        r@ == blinder_for(m@),
{
    let mut seed = [0u8; 32];
    seed.copy_from_slice(&m.bytes[0..32]);
    let rng = rand_chacha::ChaChaRng::from_seed(seed);
    GroupElement { bytes: k256::ProjectivePoint::random(rng).to_bytes().to_vec() }
}


/// Decode a vector of compressed point encodings. The conversion succeeds
/// exactly when every entry is a valid 33-byte encoding; any other entry
/// fails the whole conversion.
pub fn decode_points(v: &Vec<Vec<u8>>) -> (r: Option<Vec<GroupElement>>)
    ensures
        r matches Some(ps) ==> ps@.len() == v@.len()
            && forall|i: int| 0 <= i < v@.len() ==> (#[trigger] ps@[i])@ == v@[i]@,
        r is Some <==> (forall|i: int| 0 <= i < v@.len()
            ==> ((#[trigger] v@[i])@.len() == 33 && point_bytes_valid(v@[i]@))),
{
    let mut out: Vec<GroupElement> = Vec::new();
    let mut i: usize = 0;
    while i < v.len()
        invariant
            i <= v@.len(),
            out@.len() == i,
            forall|j: int| 0 <= j < i ==> (#[trigger] out@[j])@ == v@[j]@,
            forall|j: int| 0 <= j < i ==> ((#[trigger] v@[j])@.len() == 33 && point_bytes_valid(v@[j]@)),
        decreases v@.len() - i,
    {
        if v[i].len() != 33 {
            proof {
                assert(!((v@[i as int])@.len() == 33 && point_bytes_valid(v@[i as int]@)));
            }
            return None;
        }
        match point_from_repr(&v[i]) {
            Some(g) => {
                out.push(g);
            },
            None => {
                proof {
                    assert(!((v@[i as int])@.len() == 33 && point_bytes_valid(v@[i as int]@)));
                }
                return None;
            },
        }
        i += 1;
    }
    Some(out)
}

} // verus!
