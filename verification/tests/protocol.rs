use gennaro_dkg::DkgError;
use gennaro_dkg::group::{point_generator, point_identity, FieldScalar, GroupElement};
use gennaro_dkg::idmap::{IdMap, IdSet};
use gennaro_dkg::participant::{
    Parameters, Participant, Round1BroadcastData, Round1P2PData, Round2EchoBroadcastData,
    Round3BroadcastData, Round4EchoBroadcastData,
};
use k256::elliptic_curve::group::GroupEncoding;
use k256::elliptic_curve::PrimeField;
use vsss_rs::{Shamir, Share};

fn scalar_of(fs: &FieldScalar) -> k256::Scalar {
    let b = fs.to_bytes();
    Option::<k256::Scalar>::from(k256::Scalar::from_repr(*k256::FieldBytes::from_slice(&b)))
        .unwrap()
}

fn point_bytes(g: &GroupElement) -> Vec<u8> {
    g.to_bytes()
}

/// Round-1 all participants; returns broadcasts and p2p maps indexed by
/// position (participant with id i+1 at position i).
fn run_round1(parts: &mut Vec<Participant>) -> (Vec<Round1BroadcastData>, Vec<IdMap<Round1P2PData>>) {
    let mut r1b = Vec::new();
    let mut r1p = Vec::new();
    for p in parts.iter_mut() {
        let (b, m) = p.round1().expect("round 1 should work");
        r1b.push(b);
        r1p.push(m);
    }
    (r1b, r1p)
}

/// The round-2 inputs for the participant with identifier `my_id`.
fn round2_inputs(
    my_id: usize,
    ids: &[usize],
    r1b: &[Round1BroadcastData],
    r1p: &[IdMap<Round1P2PData>],
) -> (IdMap<Round1BroadcastData>, IdMap<Round1P2PData>) {
    let mut bdata = IdMap::new();
    let mut p2p = IdMap::new();
    for (k, &id) in ids.iter().enumerate() {
        if id == my_id {
            continue;
        }
        bdata.insert(id, r1b[k].clone());
        p2p.insert(id, r1p[k].get(my_id).unwrap().clone());
    }
    (bdata, p2p)
}

fn new_participants(t: usize, n: usize) -> (Parameters, Vec<Participant>) {
    let params = Parameters::new(t, n);
    let mut parts = Vec::new();
    for id in 1..=n {
        parts.push(Participant::new(id, &params).unwrap());
    }
    (params, parts)
}

/// Run a full honest DKG with identifiers `1..=n` and return the finished
/// participants.
fn run_full_dkg(parts: &mut Vec<Participant>) {
    let n = parts.len();
    let ids: Vec<usize> = (1..=n).collect();
    let (r1b, r1p) = run_round1(parts);
    let mut echoes = IdMap::new();
    let mut collected = Vec::new();
    for k in 0..n {
        let my_id = ids[k];
        let (bdata, p2p) = round2_inputs(my_id, &ids, &r1b, &r1p);
        let echo = parts[k].round2(bdata, p2p).expect("round 2 should work");
        collected.push((my_id, echo));
    }
    for (id, echo) in collected {
        echoes.insert(id, echo);
    }
    let mut r3 = IdMap::new();
    for k in 0..n {
        let b = parts[k].round3(&echoes).expect("round 3 should work");
        r3.insert(ids[k], b);
    }
    let mut r4 = IdMap::new();
    for k in 0..n {
        let e = parts[k].round4(&r3).expect("round 4 should work");
        r4.insert(ids[k], e);
    }
    for k in 0..n {
        parts[k].round5(&r4).expect("round 5 should work");
    }
}

fn lagrange_combine(t: usize, n: usize, shares: &[(usize, FieldScalar)]) -> k256::Scalar {
    let mut vs = Vec::new();
    for (id, fs) in shares {
        let mut bytes = fs.to_bytes();
        bytes.insert(0, *id as u8);
        vs.push(Share(bytes));
    }
    Shamir { t, n }.combine_shares::<k256::Scalar>(&vs).unwrap()
}

#[test]
fn generator_matches_curve() {
    // The contract pins the message generator to the fixed SEC1 constant;
    // this must be exactly the curve's base point.
    let g = point_generator();
    assert_eq!(g.to_bytes(), k256::ProjectivePoint::GENERATOR.to_bytes().to_vec());
}

#[test]
fn s1_happy_path_k256() {
    let (_params, mut parts) = new_participants(2, 3);
    run_full_dkg(&mut parts);

    let pk1 = parts[0].get_public_key();
    let pk2 = parts[1].get_public_key();
    let pk3 = parts[2].get_public_key();
    assert_eq!(point_bytes(&pk1), point_bytes(&pk2));
    assert_eq!(point_bytes(&pk2), point_bytes(&pk3));
    assert!(!pk1.is_identity());

    // Shares are pairwise distinct.
    let s1 = parts[0].get_secret_share();
    let s2 = parts[1].get_secret_share();
    let s3 = parts[2].get_secret_share();
    assert!(!s1.equals(&s2));
    assert!(!s1.equals(&s3));
    assert!(!s2.equals(&s3));

    // Any two shares reconstruct a secret whose public key is the joint key.
    let x = lagrange_combine(2, 3, &[(1, s1.clone()), (2, s2.clone())]);
    let expected = (k256::ProjectivePoint::GENERATOR * x).to_bytes().to_vec();
    assert_eq!(point_bytes(&pk1), expected);
    let x2 = lagrange_combine(2, 3, &[(2, s2), (3, s3)]);
    assert_eq!(x, x2);
}

#[test]
fn one_corrupted_party_k256() {
    const THRESHOLD: usize = 2;
    const LIMIT: usize = 4;
    const BAD_ID: usize = 4;

    let (_params, mut participants) = new_participants(THRESHOLD, LIMIT);
    let ids: Vec<usize> = (1..=LIMIT).collect();

    let (mut r1bdata, r1p2pdata) = run_round1(&mut participants);
    for p in participants.iter_mut() {
        assert!(p.round1().is_err());
    }

    // Corrupt the bad actor's commitments.
    for i in 0..THRESHOLD {
        r1bdata[BAD_ID - 1].pedersen_commitments[i] = point_identity();
    }

    let mut r2bdata = IdMap::new();
    for k in 0..LIMIT {
        let my_id = participants[k].get_id();
        let (bdata, p2pdata) = round2_inputs(my_id, &ids, &r1bdata, &r1p2pdata);
        let res = participants[k].round2(bdata, p2pdata);
        assert!(res.is_ok());
        if my_id == BAD_ID {
            continue;
        }
        let echo: Round2EchoBroadcastData = res.unwrap();
        // The good participants exclude the bad one.
        assert!(!echo.valid_participant_ids.contains(BAD_ID));
        r2bdata.insert(my_id, echo);
    }

    let mut r3bdata = IdMap::new();
    for k in 0..LIMIT {
        if BAD_ID == participants[k].get_id() {
            continue;
        }
        let res = participants[k].round3(&r2bdata);
        assert!(res.is_ok());
        r3bdata.insert(participants[k].get_id(), res.unwrap());
        assert!(participants[k].round3(&r2bdata).is_err());
    }

    let mut r4bdata = IdMap::new();
    let mut r4shares = Vec::new();
    for k in 0..LIMIT {
        if BAD_ID == participants[k].get_id() {
            continue;
        }
        let res = participants[k].round4(&r3bdata);
        assert!(res.is_ok());
        let bdata: Round4EchoBroadcastData = res.unwrap();
        let share = participants[k].get_secret_share();
        r4bdata.insert(participants[k].get_id(), bdata);
        r4shares.push((participants[k].get_id(), share));
        assert!(participants[k].round4(&r3bdata).is_err());
    }

    for k in 0..LIMIT {
        if BAD_ID == participants[k].get_id() {
            continue;
        }
        assert!(participants[k].round5(&r4bdata).is_ok());
    }

    let secret = lagrange_combine(THRESHOLD, LIMIT, &r4shares);
    let expected = (k256::ProjectivePoint::GENERATOR * secret).to_bytes().to_vec();
    let pk = r4bdata.get(1).unwrap();
    assert_eq!(point_bytes(&pk.public_key), expected);
}

#[test]
fn s3_disagreeing_echo() {
    let (_params, mut parts) = new_participants(2, 3);
    let ids: Vec<usize> = vec![1, 2, 3];
    let (r1b, r1p) = run_round1(&mut parts);
    let (bdata, p2p) = round2_inputs(1, &ids, &r1b, &r1p);
    let echo1 = parts[0].round2(bdata, p2p).unwrap();

    // Peer 2 reports a different valid set; peer 3 agrees with us.
    let mut bogus = IdSet::new();
    bogus.insert(1);
    bogus.insert(2);
    let mut echoes = IdMap::new();
    echoes.insert(1, echo1.clone());
    echoes.insert(2, Round2EchoBroadcastData { valid_participant_ids: bogus });
    echoes.insert(3, echo1.clone());
    let b = parts[0].round3(&echoes).unwrap();
    assert_eq!(b.commitments.len(), 2);

    // With both peers disagreeing, fewer than `t` survive and round 3 aborts.
    let (_params2, mut parts2) = new_participants(2, 3);
    let (r1b2, r1p2) = run_round1(&mut parts2);
    let (bdata2, p2p2) = round2_inputs(1, &ids, &r1b2, &r1p2);
    let echo = parts2[0].round2(bdata2, p2p2).unwrap();
    let mut bogus2 = IdSet::new();
    bogus2.insert(1);
    bogus2.insert(2);
    let mut echoes2 = IdMap::new();
    echoes2.insert(1, echo);
    echoes2.insert(2, Round2EchoBroadcastData { valid_participant_ids: bogus2.clone() });
    echoes2.insert(3, Round2EchoBroadcastData { valid_participant_ids: bogus2 });
    let r = parts2[0].round3(&echoes2);
    assert!(matches!(r, Err(DkgError::RoundError(3, _))));
}

#[test]
fn s4_missing_p2p_marks_invalid() {
    let (_params, mut parts) = new_participants(2, 3);
    let ids: Vec<usize> = vec![1, 2, 3];
    let (r1b, r1p) = run_round1(&mut parts);
    let (bdata, mut p2p) = round2_inputs(1, &ids, &r1b, &r1p);
    // Remove peer 2's share by rebuilding the map without it.
    let mut p2p_short = IdMap::new();
    if let Some(e) = p2p.get(3) {
        p2p_short.insert(3, e.clone());
    }
    p2p = p2p_short;
    let echo = parts[0].round2(bdata, p2p).unwrap();
    assert!(!echo.valid_participant_ids.contains(2));
    assert!(echo.valid_participant_ids.contains(1));
    assert!(echo.valid_participant_ids.contains(3));
    // A second round-2 call is refused.
    assert!(parts[0].round2(IdMap::new(), IdMap::new()).is_err());
}

#[test]
fn s6_round_misorder() {
    let params = Parameters::new(2, 3);
    let mut p = Participant::new(1, &params).unwrap();
    let bdata = IdMap::new();
    let p2p = IdMap::new();
    let r = p.round2(bdata, p2p);
    assert!(matches!(r, Err(DkgError::RoundError(2, _))));
    // Round 1 still works afterwards.
    assert!(p.round1().is_ok());
    // And cannot run twice.
    assert!(p.round1().is_err());
}

#[test]
fn round_ordering_denied_everywhere() {
    let params = Parameters::new(2, 3);
    let mut p = Participant::new(1, &params).unwrap();
    assert!(p.round3(&IdMap::new()).is_err());
    assert!(p.round4(&IdMap::new()).is_err());
    assert!(p.round5(&IdMap::new()).is_err());
    let id_before = p.get_id();
    let share_before = p.get_secret_share();
    let pk_before = p.get_public_key();
    assert!(p.round4(&IdMap::new()).is_err());
    // Errors leave the observable state unchanged.
    assert_eq!(p.get_id(), id_before);
    assert!(p.get_secret_share().equals(&share_before));
    assert!(p.get_public_key().equals(&pk_before));
}

#[test]
fn p6_parameter_disagreement_excludes() {
    let (_params, mut parts) = new_participants(2, 3);
    let ids: Vec<usize> = vec![1, 2, 3];
    let (mut r1b, r1p) = run_round1(&mut parts);
    // Peer 2 claims a different message generator.
    r1b[1].message_generator = point_identity();
    let (bdata, p2p) = round2_inputs(1, &ids, &r1b, &r1p);
    let echo = parts[0].round2(bdata, p2p).unwrap();
    assert!(!echo.valid_participant_ids.contains(2));
    assert!(echo.valid_participant_ids.contains(3));
}

#[test]
fn p7_pedersen_soundness() {
    let (_params, mut parts) = new_participants(2, 3);
    let ids: Vec<usize> = vec![1, 2, 3];
    let (r1b, r1p) = run_round1(&mut parts);
    let (bdata, p2p) = round2_inputs(1, &ids, &r1b, &r1p);
    // Alter peer 2's secret share by flipping a low bit.
    let mut tampered = IdMap::new();
    let e2 = p2p.get(2).unwrap();
    let mut ss = e2.secret_share.clone();
    let last = ss.len() - 1;
    ss[last] ^= 1;
    tampered.insert(
        2,
        Round1P2PData { secret_share: ss, blind_share: e2.blind_share.clone() },
    );
    tampered.insert(3, p2p.get(3).unwrap().clone());
    let echo = parts[0].round2(bdata, tampered).unwrap();
    assert!(!echo.valid_participant_ids.contains(2));
    assert!(echo.valid_participant_ids.contains(3));
}

#[test]
fn p8_feldman_soundness() {
    let (_params, mut parts) = new_participants(2, 3);
    let ids: Vec<usize> = vec![1, 2, 3];
    let (r1b, r1p) = run_round1(&mut parts);
    let mut echoes = IdMap::new();
    let mut collected = Vec::new();
    for k in 0..3 {
        let my_id = ids[k];
        let (bdata, p2p) = round2_inputs(my_id, &ids, &r1b, &r1p);
        collected.push((my_id, parts[k].round2(bdata, p2p).unwrap()));
    }
    for (id, e) in collected {
        echoes.insert(id, e);
    }
    let mut r3 = IdMap::new();
    for k in 0..3 {
        r3.insert(ids[k], parts[k].round3(&echoes).unwrap());
    }
    // Corrupt peer 2's Feldman commitments: replace the constant-term
    // commitment with an unrelated point.
    let b2 = r3.get(2).unwrap();
    let corrupted = Round3BroadcastData {
        message_generator: b2.message_generator.clone(),
        commitments: vec![b2.message_generator.clone(), b2.commitments[1].clone()],
    };
    let mut r3_bad = IdMap::new();
    r3_bad.insert(1, r3.get(1).unwrap().clone());
    r3_bad.insert(2, corrupted);
    r3_bad.insert(3, r3.get(3).unwrap().clone());
    let r = parts[0].round4(&r3_bad);
    assert!(matches!(r, Err(DkgError::RoundError(4, _))));
}

#[test]
fn s5_refresh_composition() {
    // A normal run.
    let (_params, mut parts) = new_participants(2, 3);
    run_full_dkg(&mut parts);
    let pk = parts[0].get_public_key();
    let base: Vec<(usize, FieldScalar)> =
        (0..3).map(|k| (k + 1, parts[k].get_secret_share())).collect();
    let x = lagrange_combine(2, 3, &base[0..2]);

    // A refresh run with the same identifiers and shape.
    let params2 = Parameters::new(2, 3);
    let mut refreshers: Vec<Participant> =
        (1..=3).map(|id| Participant::refresh(id, &params2).unwrap()).collect();
    run_full_dkg(&mut refreshers);
    // The refresh run re-shares zero, so its joint key is the identity.
    assert!(refreshers[0].get_public_key().is_identity());

    // Element-wise summed shares reconstruct the original secret.
    let mut summed = Vec::new();
    for k in 0..3 {
        let a = scalar_of(&base[k].1);
        let d = scalar_of(&refreshers[k].get_secret_share());
        let s = a + d;
        let fsum = s.to_repr().to_vec();
        summed.push((k + 1, fsum));
    }
    let mut vs = Vec::new();
    for (id, bytes) in &summed[0..2] {
        let mut b = bytes.clone();
        b.insert(0, *id as u8);
        vs.push(Share(b));
    }
    let x2 = Shamir { t: 2, n: 3 }.combine_shares::<k256::Scalar>(&vs).unwrap();
    assert_eq!(x, x2);
    let expected = (k256::ProjectivePoint::GENERATOR * x2).to_bytes().to_vec();
    assert_eq!(point_bytes(&pk), expected);
}

#[test]
fn initialization_rejects_bad_parameters() {
    // Threshold below 2 is refused by the splitter.
    let params = Parameters::new(1, 3);
    assert!(matches!(
        Participant::new(1, &params),
        Err(DkgError::InitializationError(_))
    ));
    // A limit over 255 is refused.
    let params = Parameters::new(2, 300);
    assert!(matches!(
        Participant::new(1, &params),
        Err(DkgError::InitializationError(_))
    ));
    // Identity generators are refused.
    let params = Parameters::with_generators(2, 3, point_identity(), point_identity());
    assert!(matches!(
        Participant::new(1, &params),
        Err(DkgError::InitializationError(_))
    ));
}

#[test]
fn round5_rejects_mismatched_key() {
    let (_params, mut parts) = new_participants(2, 3);
    let n = 3;
    let ids: Vec<usize> = (1..=n).collect();
    let (r1b, r1p) = run_round1(&mut parts);
    let mut echoes = IdMap::new();
    let mut collected = Vec::new();
    for k in 0..n {
        let (bdata, p2p) = round2_inputs(ids[k], &ids, &r1b, &r1p);
        collected.push((ids[k], parts[k].round2(bdata, p2p).unwrap()));
    }
    for (id, e) in collected {
        echoes.insert(id, e);
    }
    let mut r3 = IdMap::new();
    for k in 0..n {
        r3.insert(ids[k], parts[k].round3(&echoes).unwrap());
    }
    let mut r4 = IdMap::new();
    for k in 0..n {
        r4.insert(ids[k], parts[k].round4(&r3).unwrap());
    }
    // Tamper with peer 2's echoed key.
    let mut bad = IdMap::new();
    bad.insert(1, r4.get(1).unwrap().clone());
    bad.insert(2, Round4EchoBroadcastData { public_key: point_identity() });
    bad.insert(3, r4.get(3).unwrap().clone());
    let r = parts[0].round5(&bad);
    assert!(matches!(r, Err(DkgError::RoundError(5, _))));
    // With the honest echoes it still completes.
    assert!(parts[0].round5(&r4).is_ok());
    // And never twice.
    assert!(parts[0].round5(&r4).is_err());
}
