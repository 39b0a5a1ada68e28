//! The Pedersen verifiable-secret-sharing split.
//!
//! One local split of a participant's contribution yields `n` Shamir shares
//! of the secret polynomial and of a companion blinding polynomial, together
//! with the Pedersen commitments `C_k = a_k*M + b_k*H` and the Feldman
//! commitments `A_k = a_k*M` to the `t` coefficients of each. A share is 33
//! bytes: the recipient identifier, then the canonical scalar encoding of the
//! polynomial evaluated at that identifier.

use vstd::prelude::*;
use k256::elliptic_curve::PrimeField;
use k256::elliptic_curve::group::GroupEncoding;
use k256::{CompressedPoint, FieldBytes, ProjectivePoint, Scalar};
use rand_core::OsRng;
use vsss_rs::Pedersen;
use crate::group::{GroupElement, point_bytes_valid, point_smul, scalar_bytes_valid, zero_scalar_bytes};

verus! {

/// Whether `s` is a well-formed share addressed to `recipient`: the
/// identifier byte, then a canonical scalar encoding.
pub open spec fn share_bytes_wf(s: Seq<u8>, recipient: usize) -> bool {
    &&& s.len() == 33
    &&& s[0] as usize == recipient
    &&& scalar_bytes_valid(s.subrange(1, 33))
}

/// The output of one Pedersen split: the two share lists, evaluated at
/// `1..=n`, and the two commitment lists, one entry per coefficient.
pub struct SplitParts {
    /// Share `i` holds the secret polynomial at `i + 1`.
    pub secret_shares: Vec<Vec<u8>>,
    /// Share `i` holds the blinding polynomial at `i + 1`.
    pub blind_shares: Vec<Vec<u8>>,
    /// `C_k = a_k*M + b_k*H`, for `k` in `0..t`.
    pub pedersen_commitments: Vec<GroupElement>,
    /// `A_k = a_k*M`, for `k` in `0..t`.
    pub feldman_commitments: Vec<GroupElement>,
}

/// Relies on `vsss_rs::Pedersen::split_secret`: it refuses exactly a
/// threshold under 2, a limit under the threshold or over 255, and a zero
/// secret; otherwise it returns `n` shares of each polynomial, share `i`
/// carrying identifier `i + 1` followed by the canonical 32-byte scalar
/// encoding, and `t` commitments of each kind as compressed point
/// encodings. The secret polynomial's constant coefficient is the secret
/// itself, so the first Feldman commitment is `secret * M`. The result is
/// `(secret shares, blind shares, Pedersen commitments, Feldman
/// commitments)`.
#[verifier::external_body]
pub(crate) fn pedersen_split(
    secret: &Vec<u8>,
    blinder: &Vec<u8>,
    t: usize,
    n: usize,
    m: &Vec<u8>,
    h: &Vec<u8>,
) -> (r: Option<(Vec<Vec<u8>>, Vec<Vec<u8>>, Vec<Vec<u8>>, Vec<Vec<u8>>)>)
    requires
        secret@.len() == 32 && scalar_bytes_valid(secret@),
        blinder@.len() == 32 && scalar_bytes_valid(blinder@),
        m@.len() == 33 && point_bytes_valid(m@),
        h@.len() == 33 && point_bytes_valid(h@),
    ensures
        r is Some <==> (2 <= t && t <= n && n <= 255 && secret@ != zero_scalar_bytes()),
        r matches Some(sp) ==> {
            &&& sp.0@.len() == n
            &&& sp.1@.len() == n
            &&& sp.2@.len() == t
            &&& sp.3@.len() == t
            &&& forall|i: int| 0 <= i < n ==> share_bytes_wf((#[trigger] sp.0@[i])@, (i + 1) as usize)
            &&& forall|i: int| 0 <= i < n ==> share_bytes_wf((#[trigger] sp.1@[i])@, (i + 1) as usize)
            &&& forall|k: int| 0 <= k < t ==> ((#[trigger] sp.2@[k])@.len() == 33 && point_bytes_valid(sp.2@[k]@))
            &&& forall|k: int| 0 <= k < t ==> ((#[trigger] sp.3@[k])@.len() == 33 && point_bytes_valid(sp.3@[k]@))
            &&& sp.3@[0]@ == point_smul(secret@, m@)
        },
{
    let sc = |v| Scalar::from_repr(*FieldBytes::from_slice(v)).unwrap();
    let pt = |v| ProjectivePoint::from_bytes(CompressedPoint::from_slice(v)).unwrap();
    let enc = |c: &ProjectivePoint| c.to_bytes().to_vec();
    let r = Pedersen { t, n }
        .split_secret(sc(secret), Some(sc(blinder)), Some(pt(m)), Some(pt(h)), &mut OsRng)
        .ok()?;
    Some((
        r.secret_shares.into_iter().map(Vec::from).collect(),
        r.blind_shares.into_iter().map(Vec::from).collect(),
        r.verifier.commitments.iter().map(enc).collect(),
        r.verifier.feldman_verifier.commitments.iter().map(enc).collect(),
    ))
}

} // verus!
