//! Wire encodings for shares and commitment vectors.
//!
//! Two encodings exist. The human-readable form of a share is the
//! base64url encoding of its bytes. The compact binary form of a
//! commitment vector is a varint element count followed by the
//! concatenated fixed-size 33-byte point encodings; short or trailing
//! input is a decoding error, never silently truncated.

use vstd::prelude::*;
use crate::DkgError;
use crate::group::{GroupElement, point_bytes_valid, point_from_repr, points_views, push_all, sub_bytes};

verus! {

/// The base64url text of a byte string, as `base64_url::encode` produces it.
pub uninterp spec fn b64_of(b: Seq<u8>) -> Seq<char>;

/// What `base64_url::decode` makes of a text: the decoded bytes, or nothing.
pub uninterp spec fn b64_parse(s: Seq<char>) -> Option<Seq<u8>>;

/// The varint bytes of `x`, as `uint_zigzag::Uint::to_vec` produces them.
pub uninterp spec fn varint_of(x: u64) -> Seq<u8>;

/// Relies on `base64_url::encode`, and on `base64_url::decode` recovering
/// exactly the encoded bytes from it.
#[verifier::external_body]
fn b64_encode(b: &Vec<u8>) -> (r: String)
    ensures
        r@ == b64_of(b@),
        b64_parse(r@) == Some(b@),
{
    base64_url::encode(b.as_slice())
}

/// Relies on `base64_url::decode`: the decoded bytes of the text, or
/// nothing when the text is not valid base64url.
#[verifier::external_body]
fn b64_decode(s: &str) -> (r: Option<Vec<u8>>)
    ensures
        match r {
            Some(v) => b64_parse(s@) == Some(v@),
            None => b64_parse(s@) is None,
        },
{
    base64_url::decode(s).ok().map(|v| v)
}

/// Relies on `uint_zigzag::Uint::to_vec`: the varint form of `x`, between 1
/// and 19 bytes.
#[verifier::external_body]
fn varint_encode(x: u64) -> (r: Vec<u8>)
    ensures
        r@ == varint_of(x),
        1 <= r@.len() <= 19,
{
    let mut buf = [0u8; 19];
    let n = uint_zigzag::Uint::from(x).to_bytes_with_length(&mut buf);
    buf[..n].to_vec()
}

/// Relies on `uint_zigzag::Uint::peek` and `Uint::try_from`: on any input
/// that starts with the varint form of `x`, the parse returns `x` and
/// consumes exactly those bytes.
#[verifier::external_body]
fn varint_decode(b: &Vec<u8>) -> (r: Option<(u64, usize)>)
    ensures
        forall|x: u64, rest: Seq<u8>| b@ == #[trigger] (varint_of(x) + rest)
            ==> r == Some((x, varint_of(x).len() as usize)),
        r matches Some(p) ==> p.1 <= b@.len(),
{
    let len = uint_zigzag::Uint::peek(&b[..])?;
    let u = uint_zigzag::Uint::try_from(&b[..len]).ok()?;
    if u.0 <= u64::MAX as u128 {
        Some((u.0 as u64, len))
    } else {
        None
    }
}

/// The concatenation of the point encodings.
pub open spec fn flat_points(pv: Seq<Seq<u8>>) -> Seq<u8>
    decreases pv.len(),
{
    if pv.len() == 0 {
        Seq::empty()
    } else {
        pv[0] + flat_points(pv.subrange(1, pv.len() as int))
    }
}

/// The compact binary encoding of a commitment vector: a varint element
/// count, then the concatenated 33-byte point encodings.
pub open spec fn commitments_encoding(pv: Seq<Seq<u8>>) -> Seq<u8> {
    varint_of(pv.len() as u64) + flat_points(pv)
}

/// Whether `rest` is a well-formed body of `n` point encodings.
pub open spec fn valid_commitment_body(rest: Seq<u8>, n: int) -> bool {
    &&& rest.len() == 33 * n
    &&& forall|k: int| 0 <= k < n ==> point_bytes_valid(#[trigger] rest.subrange(33 * k, 33 * k + 33))
}

/// Appending one more encoding extends the concatenation on the right.
proof fn lemma_flat_push(pv: Seq<Seq<u8>>, x: Seq<u8>)
    ensures
        flat_points(pv.push(x)) == flat_points(pv) + x,
    decreases pv.len(),
{
    if pv.len() == 0 {
        let e = pv.push(x).subrange(1, pv.push(x).len() as int);
        assert(e =~= Seq::<Seq<u8>>::empty());
        assert(flat_points(e) == Seq::<u8>::empty());
        assert(flat_points(pv.push(x)) == x + flat_points(e));
        assert(x + Seq::<u8>::empty() =~= x);
        assert(flat_points(pv) == Seq::<u8>::empty());
        assert(Seq::<u8>::empty() + x =~= x);
    } else {
        let tail = pv.subrange(1, pv.len() as int);
        assert(pv.push(x).subrange(1, pv.push(x).len() as int) =~= tail.push(x));
        lemma_flat_push(tail, x);
        assert(flat_points(pv.push(x)) == pv[0] + flat_points(tail.push(x)));
        assert(flat_points(pv) == pv[0] + flat_points(tail));
        assert((pv[0] + flat_points(tail)) + x =~= pv[0] + (flat_points(tail) + x));
    }
}

/// The human-readable encoding of a share: base64url text of its bytes. The
/// matching decode recovers the bytes exactly.
pub fn share_to_string(share: &Vec<u8>) -> (r: String)
    ensures
        r@ == b64_of(share@),
        b64_parse(r@) == Some(share@),
{
    b64_encode(share)
}

/// Decode the human-readable form of a share.
pub fn share_from_string(s: &str) -> (r: Result<Vec<u8>, DkgError>)
    ensures
        r matches Ok(v) ==> b64_parse(s@) == Some(v@),
        r is Err <==> b64_parse(s@) is None,
{
    match b64_decode(s) {
        Some(v) => Ok(v),
        None => Err(DkgError::SerializationError("invalid base64url text")),
    }
}

/// Encode a commitment vector in the compact binary form.
pub fn encode_commitments(v: &Vec<GroupElement>) -> (r: Vec<u8>)
    requires
        v@.len() <= 0xffff_ffff,
    ensures
        r@ == commitments_encoding(points_views(v@)),
{
    let n = v.len();
    let mut out = varint_encode(n as u64);
    let mut i: usize = 0;
    proof {
        assert(points_views(v@).subrange(0, 0) =~= Seq::<Seq<u8>>::empty());
        assert(out@ =~= varint_of(n as u64) + flat_points(points_views(v@).subrange(0, 0)));
    }
    while i < v.len()
        invariant
            i <= v@.len(),
            v@.len() == n,
            n <= 0xffff_ffff,
            out@ == varint_of(n as u64) + flat_points(points_views(v@).subrange(0, i as int)),
        decreases v@.len() - i,
    {
        let b = v[i].to_bytes();
        push_all(&mut out, &b);
        proof {
            let pv = points_views(v@);
            assert(pv.subrange(0, i + 1) =~= pv.subrange(0, i as int).push(pv[i as int]));
            lemma_flat_push(pv.subrange(0, i as int), pv[i as int]);
            assert(varint_of(n as u64) + flat_points(pv.subrange(0, i as int)) + pv[i as int]
                =~= varint_of(n as u64) + flat_points(pv.subrange(0, i + 1)));
        }
        i += 1;
    }
    proof {
        assert(points_views(v@).subrange(0, v@.len() as int) =~= points_views(v@));
    }
    out
}

/// Decode the compact binary form of a commitment vector. Exactly the
/// declared number of well-formed points must follow the count, with no
/// bytes to spare: short input and trailing input are errors.
pub fn decode_commitments(b: &Vec<u8>) -> (r: Result<Vec<GroupElement>, DkgError>)
    ensures
        r matches Ok(v) ==> forall|x: u64, rest: Seq<u8>| b@ == varint_of(x) + rest
            ==> v@.len() == x && rest == flat_points(points_views(v@)),
        forall|x: u64, rest: Seq<u8>| (b@ == varint_of(x) + rest && valid_commitment_body(rest, x as int))
            ==> r is Ok,
{
    let (n64, used) = match varint_decode(b) {
        Some(p) => p,
        None => {
            return Err(DkgError::SerializationError("missing element count"));
        },
    };
    let remaining = b.len() - used;
    if n64 > (remaining / 33) as u64 {
        return Err(DkgError::SerializationError("short input"));
    }
    let n = n64 as usize;
    if remaining != n * 33 {
        return Err(DkgError::SerializationError("trailing input"));
    }
    let ghost rest0 = b@.subrange(used as int, b@.len() as int);
    proof {
        assert(rest0.len() == 33 * n);
    }
    let blen = b.len();
    let mut out: Vec<GroupElement> = Vec::new();
    let mut i: usize = 0;
    while i < n
        invariant
            i <= n,
            blen == b@.len(),
            used + n * 33 == blen,
            n == n64,
            forall|x: u64, rest: Seq<u8>| b@ == #[trigger] (varint_of(x) + rest) ==> x == n64 && varint_of(x).len() == used,
            out@.len() == i,
            rest0 == b@.subrange(used as int, b@.len() as int),
            rest0.len() == 33 * n,
            forall|k: int| 0 <= k < i ==> (#[trigger] out@[k])@ == rest0.subrange(33 * k, 33 * k + 33),
        decreases n - i,
    {
        proof {
            assert(used + (i + 1) * 33 <= b@.len());
        }
        let chunk = sub_bytes(b, used + i * 33, used + (i + 1) * 33);
        proof {
            assert(chunk@ =~= rest0.subrange(33 * (i as int), 33 * (i as int) + 33));
        }
        match point_from_repr(&chunk) {
            Some(g) => {
                out.push(g);
            },
            None => {
                proof {
                    assert(!point_bytes_valid(rest0.subrange(33 * (i as int), 33 * (i as int) + 33)));
                    assert forall|x: u64, rest: Seq<u8>| b@ == varint_of(x) + rest
                        implies !valid_commitment_body(rest, x as int) by {
                        assert(varint_of(x).len() == used);
                        assert(rest =~= rest0);
                        assert(x == n64);
                        if valid_commitment_body(rest, x as int) {
                            assert(point_bytes_valid(rest.subrange(33 * (i as int), 33 * (i as int) + 33)));
                        }
                    }
                }
                return Err(DkgError::SerializationError("invalid point encoding"));
            },
        }
        i += 1;
    }
    proof {
        lemma_flat_of_chunks(points_views(out@), rest0);
        assert forall|x: u64, rest: Seq<u8>| b@ == varint_of(x) + rest
            implies out@.len() == x && rest == flat_points(points_views(out@)) by {
            assert(varint_of(x).len() == used);
            assert(rest =~= b@.subrange(used as int, b@.len() as int));
        }
    }
    Ok(out)
}

/// A sequence of 33-byte chunks read off `rest` in order concatenates back
/// to `rest`.
proof fn lemma_flat_of_chunks(pv: Seq<Seq<u8>>, rest: Seq<u8>)
    requires
        rest.len() == 33 * pv.len(),
        forall|k: int| 0 <= k < pv.len() ==> #[trigger] pv[k] == rest.subrange(33 * k, 33 * k + 33),
    ensures
        flat_points(pv) == rest,
    decreases pv.len(),
{
    if pv.len() == 0 {
        assert(flat_points(pv) =~= rest);
    } else {
        let tail = pv.subrange(1, pv.len() as int);
        let rtail = rest.subrange(33, rest.len() as int);
        assert forall|k: int| 0 <= k < tail.len() implies #[trigger] tail[k] == rtail.subrange(33 * k, 33 * k + 33) by {
            assert(tail[k] == pv[k + 1]);
            assert(pv[k + 1] == rest.subrange(33 * (k + 1), 33 * (k + 1) + 33));
            assert(rtail.subrange(33 * k, 33 * k + 33) =~= rest.subrange(33 * (k + 1), 33 * (k + 1) + 33));
        }
        lemma_flat_of_chunks(tail, rtail);
        assert(pv[0] == rest.subrange(0, 33));
        assert(flat_points(pv) =~= rest);
    }
}


/// Chunking the concatenation of 33-byte encodings recovers each encoding.
proof fn lemma_flat_chunks_of(pv: Seq<Seq<u8>>)
    requires
        forall|k: int| 0 <= k < pv.len() ==> (#[trigger] pv[k]).len() == 33,
    ensures
        flat_points(pv).len() == 33 * pv.len(),
        forall|k: int| 0 <= k < pv.len() ==> flat_points(pv).subrange(33 * k, 33 * k + 33) == pv[k],
    decreases pv.len(),
{
    if pv.len() > 0 {
        let tail = pv.subrange(1, pv.len() as int);
        lemma_flat_chunks_of(tail);
        assert(flat_points(pv) == pv[0] + flat_points(tail));
        assert forall|k: int| 0 <= k < pv.len() implies flat_points(pv).subrange(33 * k, 33 * k + 33) == pv[k] by {
            if k == 0 {
                assert(flat_points(pv).subrange(0, 33) =~= pv[0]);
            } else {
                assert(flat_points(tail).subrange(33 * (k - 1), 33 * (k - 1) + 33) == tail[k - 1]);
                assert(flat_points(pv).subrange(33 * k, 33 * k + 33) =~= flat_points(tail).subrange(33 * (k - 1), 33 * (k - 1) + 33));
                assert(tail[k - 1] == pv[k]);
            }
        }
    }
}

/// Round trip: the encoding of any vector of valid 33-byte point encodings
/// is a well-formed commitment body, so feeding `encode_commitments` output
/// to `decode_commitments` succeeds and, by the decoder's contract, returns
/// a vector with exactly the encoded views.
pub proof fn lemma_encoding_decodes(pv: Seq<Seq<u8>>)
    requires
        forall|k: int| 0 <= k < pv.len() ==> ((#[trigger] pv[k]).len() == 33 && point_bytes_valid(pv[k])),
        pv.len() <= 0xffff_ffff,
    ensures
        valid_commitment_body(flat_points(pv), pv.len() as int),
        commitments_encoding(pv) == varint_of(pv.len() as u64) + flat_points(pv),
{
    lemma_flat_chunks_of(pv);
    assert forall|k: int| 0 <= k < pv.len() implies point_bytes_valid(#[trigger] flat_points(pv).subrange(33 * k, 33 * k + 33)) by {
        assert(flat_points(pv).subrange(33 * k, 33 * k + 33) == pv[k]);
    }
}

} // verus!
