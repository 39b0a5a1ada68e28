use gennaro_dkg::codec::{decode_commitments, encode_commitments, share_from_string, share_to_string};
use gennaro_dkg::DkgError;
use gennaro_dkg::group::GroupElement;
use gennaro_dkg::participant::{Parameters, Participant};

/// A few real commitment points to exercise the codec.
fn sample_points() -> Vec<GroupElement> {
    let params = Parameters::new(3, 4);
    let mut p = Participant::new(1, &params).unwrap();
    let (bcast, _) = p.round1().unwrap();
    bcast.pedersen_commitments
}

#[test]
fn commitments_binary_round_trip() {
    let points = sample_points();
    let encoded = encode_commitments(&points);
    // One count byte, then three 33-byte points.
    assert_eq!(encoded.len(), 1 + 3 * 33);
    assert_eq!(encoded[0], 3);
    let decoded = decode_commitments(&encoded).unwrap();
    assert_eq!(decoded.len(), points.len());
    for (a, b) in decoded.iter().zip(points.iter()) {
        assert_eq!(a.to_bytes(), b.to_bytes());
    }
}

#[test]
fn commitments_decoder_rejects_short_input() {
    let points = sample_points();
    let mut encoded = encode_commitments(&points);
    encoded.pop();
    assert!(decode_commitments(&encoded).is_err());
    assert!(decode_commitments(&Vec::new()).is_err());
}

#[test]
fn commitments_decoder_rejects_trailing_input() {
    let points = sample_points();
    let mut encoded = encode_commitments(&points);
    encoded.push(0);
    assert!(decode_commitments(&encoded).is_err());
}

#[test]
fn commitments_decoder_rejects_bad_point() {
    let points = sample_points();
    let mut encoded = encode_commitments(&points);
    // A compressed point must start with a 2 or 3 tag byte; 0xff cannot.
    encoded[1] = 0xff;
    assert!(decode_commitments(&encoded).is_err());
}

#[test]
fn share_text_round_trip() {
    let share: Vec<u8> = (0..33u8).collect();
    let text = share_to_string(&share);
    assert_eq!(text, "AAECAwQFBgcICQoLDA0ODxAREhMUFRYXGBkaGxwdHh8g");
    let back = share_from_string(&text).unwrap();
    assert_eq!(share, back);
}

#[test]
fn share_text_rejects_garbage() {
    let r = share_from_string("not*base64*url!");
    assert!(matches!(r, Err(DkgError::SerializationError(_))));
}
