//! The participant state machine and its five protocol rounds.

use vstd::prelude::*;
use crate::{DkgError, Round};
use crate::group::{
    FieldScalar, GroupElement, bytes_views, clone_bytes, is_identity_bytes, identity_bytes,
    point_identity, point_generator, point_add, point_mul, points_views, push_all,
    decode_points, point_diff, point_smul, point_sum, scalar_diff, scalar_sum, scalar_bytes_valid, scalar_from_repr, scalar_from_u64,
    scalar_of_u64, scalar_random, scalar_sub, derive_blinder, sub_bytes, zero_scalar_bytes,
    all_zero,
};
use crate::idmap::{IdMap, IdSet, entries_sorted, map_has, map_val, prefix_has};
use crate::vss::{SplitParts, pedersen_split, share_bytes_wf};

verus! {

/// The agreed, immutable parameters of one protocol run: the threshold `t`,
/// the participant limit `n`, and the two generators. Every participant of a
/// run must hold identical parameters; divergence is caught in round 2.
pub struct Parameters {
    threshold: usize,
    limit: usize,
    message_generator: GroupElement,
    blinder_generator: GroupElement,
}

/// The mathematical content of [`Parameters`].
pub struct ParametersView {
    pub threshold: usize,
    pub limit: usize,
    pub message_generator: Seq<u8>,
    pub blinder_generator: Seq<u8>,
}

impl View for Parameters {
    type V = ParametersView;

    closed spec fn view(&self) -> ParametersView {
        ParametersView {
            threshold: self.threshold,
            limit: self.limit,
            message_generator: self.message_generator@,
            blinder_generator: self.blinder_generator@,
        }
    }
}

impl Parameters {
    /// Parameters with the conventional base point as message generator and
    /// a blinder generator drawn from a CSPRNG seeded with its encoding, so
    /// that the discrete log of one with respect to the other stays unknown.
    /// Every field is a function of the arguments, so two calls with equal
    /// arguments yield equal parameters, as peers of one run require.
    pub fn new(threshold: usize, limit: usize) -> (r: Parameters)
        requires
            1 <= threshold <= limit,
        ensures
            r@.threshold == threshold,
            r@.limit == limit,
            r@.message_generator == crate::group::generator_bytes(),
            !is_identity_bytes(r@.message_generator),
            r@.blinder_generator == crate::group::blinder_for(r@.message_generator),
    {
        let message_generator = point_generator();
        let blinder_generator = derive_blinder(&message_generator);
        proof {
            assert(crate::group::generator_bytes()[0] == 2u8);
            assert(identity_bytes()[0] == 0u8);
        }
        Parameters { threshold, limit, message_generator, blinder_generator }
    }

    /// Parameters with caller-supplied generators.
    pub fn with_generators(
        threshold: usize,
        limit: usize,
        message_generator: GroupElement,
        blinder_generator: GroupElement,
    ) -> (r: Parameters)
        requires
            1 <= threshold <= limit,
        ensures
            r@.threshold == threshold,
            r@.limit == limit,
            r@.message_generator == message_generator@,
            r@.blinder_generator == blinder_generator@,
    {
        Parameters { threshold, limit, message_generator, blinder_generator }
    }

    /// The reconstruction threshold `t`.
    pub fn threshold(&self) -> (r: usize)
        ensures
            r == self@.threshold,
    {
        self.threshold
    }

    /// The enrolled participant count `n`.
    pub fn limit(&self) -> (r: usize)
        ensures
            r == self@.limit,
    {
        self.limit
    }

    /// The message generator `M`.
    pub fn message_generator(&self) -> (r: GroupElement)
        ensures
            r@ == self@.message_generator,
    {
        self.message_generator.clone()
    }

    /// The blinder generator `H`.
    pub fn blinder_generator(&self) -> (r: GroupElement)
        ensures
            r@ == self@.blinder_generator,
    {
        self.blinder_generator.clone()
    }
}

impl Default for Parameters {
    /// Empty parameters: zero counts and identity generators. They are
    /// unusable for a run; construction of a participant refuses them.
    fn default() -> (r: Parameters)
        ensures
            r@.threshold == 0,
            r@.limit == 0,
            r@.message_generator == identity_bytes(),
            r@.blinder_generator == identity_bytes(),
    {
        Parameters {
            threshold: 0,
            limit: 0,
            message_generator: point_identity(),
            blinder_generator: point_identity(),
        }
    }
}

impl Clone for Parameters {
    fn clone(&self) -> (r: Self)
        ensures
            r@ == self@,
    {
        Parameters {
            threshold: self.threshold,
            limit: self.limit,
            message_generator: self.message_generator.clone(),
            blinder_generator: self.blinder_generator.clone(),
        }
    }
}

/// Broadcast data of round 1, sent to every other participant: the sender's
/// claimed generators and its Pedersen commitments.
pub struct Round1BroadcastData {
    /// The sender's message generator; must match the receiver's.
    pub message_generator: GroupElement,
    /// The sender's blinder generator; must match the receiver's.
    pub blinder_generator: GroupElement,
    /// The sender's Pedersen commitments `C_k`, one per coefficient.
    pub pedersen_commitments: Vec<GroupElement>,
}

/// The mathematical content of [`Round1BroadcastData`].
pub struct Round1BroadcastView {
    pub message_generator: Seq<u8>,
    pub blinder_generator: Seq<u8>,
    pub pedersen_commitments: Seq<Seq<u8>>,
}

impl View for Round1BroadcastData {
    type V = Round1BroadcastView;

    open spec fn view(&self) -> Round1BroadcastView {
        Round1BroadcastView {
            message_generator: self.message_generator@,
            blinder_generator: self.blinder_generator@,
            pedersen_commitments: points_views(self.pedersen_commitments@),
        }
    }
}

impl Clone for Round1BroadcastData {
    fn clone(&self) -> (r: Self)
        ensures
            r@ == self@,
    {
        let r = Round1BroadcastData {
            message_generator: self.message_generator.clone(),
            blinder_generator: self.blinder_generator.clone(),
            pedersen_commitments: clone_points(&self.pedersen_commitments),
        };
        r
    }
}

/// Peer-to-peer data of round 1, sent to one specific participant: that
/// participant's share of the sender's secret and blinding polynomials.
pub struct Round1P2PData {
    /// The recipient's share of the sender's secret polynomial.
    pub secret_share: Vec<u8>,
    /// The recipient's share of the sender's blinding polynomial.
    pub blind_share: Vec<u8>,
}

/// The mathematical content of [`Round1P2PData`].
pub struct Round1P2PView {
    pub secret_share: Seq<u8>,
    pub blind_share: Seq<u8>,
}

impl View for Round1P2PData {
    type V = Round1P2PView;

    open spec fn view(&self) -> Round1P2PView {
        Round1P2PView { secret_share: self.secret_share@, blind_share: self.blind_share@ }
    }
}

impl Clone for Round1P2PData {
    fn clone(&self) -> (r: Self)
        ensures
            r@ == self@,
    {
        Round1P2PData {
            secret_share: clone_bytes(&self.secret_share),
            blind_share: clone_bytes(&self.blind_share),
        }
    }
}

/// Echo broadcast data of round 2: the sender's view of who passed the
/// round-1 checks.
pub struct Round2EchoBroadcastData {
    /// The identifiers the sender still considers valid.
    pub valid_participant_ids: IdSet,
}

impl View for Round2EchoBroadcastData {
    type V = Seq<usize>;

    open spec fn view(&self) -> Seq<usize> {
        self.valid_participant_ids@
    }
}

impl Clone for Round2EchoBroadcastData {
    fn clone(&self) -> (r: Self)
        ensures
            r@ == self@,
    {
        Round2EchoBroadcastData { valid_participant_ids: self.valid_participant_ids.clone() }
    }
}

/// Broadcast data of round 3: the sender's Feldman commitments, safe to
/// publish once membership has been reconciled.
pub struct Round3BroadcastData {
    /// The sender's message generator; must match the receiver's.
    pub message_generator: GroupElement,
    /// The sender's Feldman commitments `A_k`, one per coefficient.
    pub commitments: Vec<GroupElement>,
}

/// The mathematical content of [`Round3BroadcastData`].
pub struct Round3BroadcastView {
    pub message_generator: Seq<u8>,
    pub commitments: Seq<Seq<u8>>,
}

impl View for Round3BroadcastData {
    type V = Round3BroadcastView;

    open spec fn view(&self) -> Round3BroadcastView {
        Round3BroadcastView {
            message_generator: self.message_generator@,
            commitments: points_views(self.commitments@),
        }
    }
}

impl Clone for Round3BroadcastData {
    fn clone(&self) -> (r: Self)
        ensures
            r@ == self@,
    {
        Round3BroadcastData {
            message_generator: self.message_generator.clone(),
            commitments: clone_points(&self.commitments),
        }
    }
}

/// Echo broadcast data of round 4: the sender's computed joint public key.
pub struct Round4EchoBroadcastData {
    /// The joint public key as the sender computed it.
    pub public_key: GroupElement,
}

impl View for Round4EchoBroadcastData {
    type V = Seq<u8>;

    open spec fn view(&self) -> Seq<u8> {
        self.public_key@
    }
}

impl Clone for Round4EchoBroadcastData {
    fn clone(&self) -> (r: Self)
        ensures
            r@ == self@,
    {
        Round4EchoBroadcastData { public_key: self.public_key.clone() }
    }
}

/// A copy of a commitment vector.
pub fn clone_points(v: &Vec<GroupElement>) -> (r: Vec<GroupElement>)
    ensures
        points_views(r@) == points_views(v@),
        r@.len() == v@.len(),
{
    let mut out: Vec<GroupElement> = Vec::new();
    let mut i: usize = 0;
    while i < v.len()
        invariant
            i <= v@.len(),
            out@.len() == i,
            forall|j: int| 0 <= j < i ==> (#[trigger] out@[j])@ == v@[j]@,
        decreases v@.len() - i,
    {
        out.push(v[i].clone());
        i += 1;
    }
    proof {
        assert(points_views(out@) =~= points_views(v@));
    }
    out
}

/// A participant of one protocol run. It advances linearly through the five
/// rounds; each round function refuses re-entry and out-of-order calls.
pub struct Participant {
    id: usize,
    threshold: usize,
    limit: usize,
    message_generator: GroupElement,
    blinder_generator: GroupElement,
    components: SplitParts,
    round: Round,
    secret_share: FieldScalar,
    public_key: GroupElement,
    round1_broadcast_data: IdMap<Round1BroadcastData>,
    round1_p2p_data: IdMap<Round1P2PData>,
    valid_participant_ids: IdSet,
}

/// The mathematical content of a [`Participant`]: identifiers and counts,
/// the byte encodings of all held group values, and the stashed round data.
pub struct ParticipantState {
    pub id: usize,
    pub threshold: usize,
    pub limit: usize,
    pub message_generator: Seq<u8>,
    pub blinder_generator: Seq<u8>,
    pub secret_shares: Seq<Seq<u8>>,
    pub blind_shares: Seq<Seq<u8>>,
    pub pedersen_commitments: Seq<Seq<u8>>,
    pub feldman_commitments: Seq<Seq<u8>>,
    pub round: Round,
    pub secret_share: Seq<u8>,
    pub public_key: Seq<u8>,
    pub round1_broadcast_data: Seq<(usize, Round1BroadcastData)>,
    pub round1_p2p_data: Seq<(usize, Round1P2PData)>,
    pub valid_participant_ids: Seq<usize>,
}

impl View for Participant {
    type V = ParticipantState;

    closed spec fn view(&self) -> ParticipantState {
        ParticipantState {
            id: self.id,
            threshold: self.threshold,
            limit: self.limit,
            message_generator: self.message_generator@,
            blinder_generator: self.blinder_generator@,
            secret_shares: bytes_views(self.components.secret_shares@),
            blind_shares: bytes_views(self.components.blind_shares@),
            pedersen_commitments: points_views(self.components.pedersen_commitments@),
            feldman_commitments: points_views(self.components.feldman_commitments@),
            round: self.round,
            secret_share: self.secret_share@,
            public_key: self.public_key@,
            round1_broadcast_data: self.round1_broadcast_data@,
            round1_p2p_data: self.round1_p2p_data@,
            valid_participant_ids: self.valid_participant_ids@,
        }
    }
}

/// Whether a stashed peer-to-peer entry is decodable: both shares carry an
/// identifier byte followed by a canonical scalar encoding.
pub open spec fn stash_entry_wf(e: Round1P2PData) -> bool {
    &&& e.secret_share@.len() == 33
    &&& scalar_bytes_valid(e.secret_share@.subrange(1, 33))
    &&& e.blind_share@.len() == 33
    &&& scalar_bytes_valid(e.blind_share@.subrange(1, 33))
}

impl Participant {
    #[verifier::type_invariant]
    spec fn wf(self) -> bool {
        &&& 2 <= self.threshold
        &&& self.threshold <= self.limit
        &&& self.limit <= 255
        &&& 1 <= self.id
        &&& self.id <= self.limit
        &&& self.components.secret_shares@.len() == self.limit
        &&& self.components.blind_shares@.len() == self.limit
        &&& self.components.pedersen_commitments@.len() == self.threshold
        &&& self.components.feldman_commitments@.len() == self.threshold
        &&& forall|i: int| 0 <= i < self.limit ==> share_bytes_wf((#[trigger] self.components.secret_shares@[i])@, (i + 1) as usize)
        &&& forall|i: int| 0 <= i < self.limit ==> share_bytes_wf((#[trigger] self.components.blind_shares@[i])@, (i + 1) as usize)
        &&& forall|j: usize| #[trigger] map_has(self.round1_p2p_data@, j) ==> stash_entry_wf(map_val(self.round1_p2p_data@, j))
    }

    /// The identifier this participant goes by.
    pub fn get_id(&self) -> (r: usize)
        ensures
            r == self@.id,
    {
        self.id
    }

    /// The computed secret share; meaningful only after round 4 has run.
    pub fn get_secret_share(&self) -> (r: FieldScalar)
        ensures
            r@ == self@.secret_share,
    {
        self.secret_share.clone()
    }

    /// The computed joint public key; meaningful only after round 4 has run.
    pub fn get_public_key(&self) -> (r: GroupElement)
        ensures
            r@ == self@.public_key,
    {
        self.public_key.clone()
    }

    /// A participant contributing a fresh random secret.
    pub fn new(id: usize, parameters: &Parameters) -> (r: Result<Participant, DkgError>)
        requires
            1 <= id <= parameters@.limit,
        ensures
            r matches Ok(p) ==> fresh_participant(p@, id, parameters@) && all_commitments_nonzero(p@, 0),
            bad_parameters(parameters@) ==> r is Err,
            r is Ok ==> !bad_parameters(parameters@),
    {
        let secret = scalar_random();
        let blinder = scalar_random();
        Self::initialize(id, parameters, secret, blinder, false)
    }

    /// A participant contributing the zero secret, for proactive refresh:
    /// summing the resulting shares into an existing run's shares re-shares
    /// the same joint secret under a fresh polynomial.
    pub fn refresh(id: usize, parameters: &Parameters) -> (r: Result<Participant, DkgError>)
        requires
            1 <= id <= parameters@.limit,
        ensures
            r matches Ok(p) ==> fresh_participant(p@, id, parameters@) && all_commitments_nonzero(p@, 1),
            r matches Ok(p) ==> p@.feldman_commitments[0] == identity_bytes(),
            bad_parameters(parameters@) ==> r is Err,
            r is Ok ==> !bad_parameters(parameters@),
    {
        let secret = scalar_random();
        let blinder = scalar_random();
        Self::initialize(id, parameters, secret, blinder, true)
    }

    /// Split the contribution and reject degenerate output: identity
    /// generators or commitments, or a share that encodes zero. In refresh
    /// mode the split of a random secret is shifted down by that secret, so
    /// the dealt polynomial has constant term zero and the zero-coefficient
    /// Feldman commitment is necessarily the identity, which is exempt from
    /// the identity check.
    fn initialize(
        id: usize,
        parameters: &Parameters,
        secret: FieldScalar,
        blinder: FieldScalar,
        refresh: bool,
    ) -> (r: Result<Participant, DkgError>)
        requires
            1 <= id <= parameters@.limit,
        ensures
            r matches Ok(p) ==> fresh_participant(p@, id, parameters@)
                && all_commitments_nonzero(p@, if refresh { 1int } else { 0int }),
            r matches Ok(p) ==> (refresh ==> p@.feldman_commitments[0] == identity_bytes()),
            bad_parameters(parameters@) ==> r is Err,
            r is Ok ==> !bad_parameters(parameters@),
    {
        if parameters.message_generator.is_identity() || parameters.blinder_generator.is_identity() {
            return Err(DkgError::InitializationError("invalid generators"));
        }
        secret.encoding_lemma();
        blinder.encoding_lemma();
        parameters.message_generator.encoding_lemma();
        parameters.blinder_generator.encoding_lemma();
        let split = pedersen_split(
            secret.raw_bytes(),
            blinder.raw_bytes(),
            parameters.threshold,
            parameters.limit,
            parameters.message_generator.raw_bytes(),
            parameters.blinder_generator.raw_bytes(),
        );
        let (secret_shares, blind_shares, pedersen_bytes, feldman_bytes) = match split {
            Some(split) => split,
            None => {
                return Err(DkgError::InitializationError("secret sharing failed"));
            },
        };
        let pedersen_commitments = match decode_points(&pedersen_bytes) {
            Some(v) => v,
            None => {
                return Err(DkgError::InitializationError("invalid commitment encoding"));
            },
        };
        let feldman_commitments = match decode_points(&feldman_bytes) {
            Some(v) => v,
            None => {
                return Err(DkgError::InitializationError("invalid commitment encoding"));
            },
        };
        let parts = SplitParts {
            secret_shares,
            blind_shares,
            pedersen_commitments,
            feldman_commitments,
        };
        let parts = if refresh {
            shift_to_zero_secret(parts, &secret, &parameters.message_generator)
        } else {
            parts
        };
        let check_from: usize = if refresh { 1 } else { 0 };
        if !points_no_identity(&parts.pedersen_commitments, 0)
            || !points_no_identity(&parts.feldman_commitments, check_from) {
            return Err(DkgError::InitializationError("commitment at identity"));
        }
        if !shares_nonzero(&parts.secret_shares) || !shares_nonzero(&parts.blind_shares) {
            return Err(DkgError::InitializationError("zero share"));
        }
        let p = Participant {
            id,
            threshold: parameters.threshold,
            limit: parameters.limit,
            message_generator: parameters.message_generator.clone(),
            blinder_generator: parameters.blinder_generator.clone(),
            components: parts,
            round: Round::One,
            secret_share: scalar_from_u64(0),
            public_key: point_identity(),
            round1_broadcast_data: IdMap::new(),
            round1_p2p_data: IdMap::new(),
            valid_participant_ids: IdSet::new(),
        };
        Ok(p)
    }
}

/// Whether the parameters are refused outright at construction: a threshold
/// under 2, a limit under the threshold or over 255, or a generator at the
/// identity.
pub open spec fn bad_parameters(params: ParametersView) -> bool {
    ||| params.threshold < 2
    ||| params.limit < params.threshold
    ||| params.limit > 255
    ||| is_identity_bytes(params.message_generator)
    ||| is_identity_bytes(params.blinder_generator)
}

/// Whether `st` is the state of a freshly constructed participant of `id`
/// under `params`: round 1 pending, zero accumulators, empty stashes, a full
/// complement of well-formed nonzero shares, and `t` commitments of each
/// kind.
pub open spec fn fresh_participant(st: ParticipantState, id: usize, params: ParametersView) -> bool {
    &&& st.id == id
    &&& st.threshold == params.threshold
    &&& st.limit == params.limit
    &&& st.message_generator == params.message_generator
    &&& st.blinder_generator == params.blinder_generator
    &&& st.round == Round::One
    &&& st.secret_share == zero_scalar_bytes()
    &&& st.public_key == identity_bytes()
    &&& st.round1_broadcast_data.len() == 0
    &&& st.round1_p2p_data.len() == 0
    &&& st.valid_participant_ids.len() == 0
    &&& st.secret_shares.len() == params.limit
    &&& st.blind_shares.len() == params.limit
    &&& st.pedersen_commitments.len() == params.threshold
    &&& st.feldman_commitments.len() == params.threshold
    &&& forall|i: int| 0 <= i < st.limit ==> share_bytes_wf(#[trigger] st.secret_shares[i], (i + 1) as usize)
    &&& forall|i: int| 0 <= i < st.limit ==> share_bytes_wf(#[trigger] st.blind_shares[i], (i + 1) as usize)
    &&& forall|i: int| 0 <= i < st.limit ==> (#[trigger] st.secret_shares[i]).subrange(1, 33) != zero_scalar_bytes()
    &&& forall|i: int| 0 <= i < st.limit ==> (#[trigger] st.blind_shares[i]).subrange(1, 33) != zero_scalar_bytes()
    &&& forall|k: int| 0 <= k < st.threshold ==> !is_identity_bytes(#[trigger] st.pedersen_commitments[k])
    &&& 2 <= st.threshold
}

/// Whether every Feldman commitment from `from` upward avoids the identity.
pub open spec fn all_commitments_nonzero(st: ParticipantState, from: int) -> bool {
    forall|k: int| from <= k < st.threshold ==> !is_identity_bytes(#[trigger] st.feldman_commitments[k])
}

/// Rebase a split of `secret` to a split of zero: subtract `secret` from
/// every secret share and `secret * M` from the zero-coefficient
/// commitments. The blinding polynomial and all higher coefficients are
/// untouched; when the first Feldman commitment was `secret * M`, as the
/// splitter guarantees, it becomes the identity.
fn shift_to_zero_secret(parts: SplitParts, secret: &FieldScalar, m: &GroupElement) -> (r: SplitParts)
    requires
        parts.pedersen_commitments@.len() >= 1,
        parts.feldman_commitments@.len() >= 1,
        forall|i: int| 0 <= i < parts.secret_shares@.len() ==> share_bytes_wf((#[trigger] parts.secret_shares@[i])@, (i + 1) as usize),
    ensures
        r.secret_shares@.len() == parts.secret_shares@.len(),
        r.blind_shares == parts.blind_shares,
        r.pedersen_commitments@.len() == parts.pedersen_commitments@.len(),
        r.feldman_commitments@.len() == parts.feldman_commitments@.len(),
        r.pedersen_commitments@[0]@ == point_diff(parts.pedersen_commitments@[0]@, point_smul(secret@, m@)),
        r.feldman_commitments@[0]@ == point_diff(parts.feldman_commitments@[0]@, point_smul(secret@, m@)),
        parts.feldman_commitments@[0]@ == point_smul(secret@, m@) ==> r.feldman_commitments@[0]@ == identity_bytes(),
        forall|k: int| 1 <= k < parts.pedersen_commitments@.len() ==> (#[trigger] r.pedersen_commitments@[k])@ == parts.pedersen_commitments@[k]@,
        forall|k: int| 1 <= k < parts.feldman_commitments@.len() ==> (#[trigger] r.feldman_commitments@[k])@ == parts.feldman_commitments@[k]@,
        forall|i: int| 0 <= i < r.secret_shares@.len() ==> share_bytes_wf((#[trigger] r.secret_shares@[i])@, (i + 1) as usize),
        forall|i: int| 0 <= i < parts.secret_shares@.len() ==> ((#[trigger] r.secret_shares@[i])@[0] == parts.secret_shares@[i]@[0]
            && r.secret_shares@[i]@.subrange(1, 33) == scalar_diff(parts.secret_shares@[i]@.subrange(1, 33), secret@)),
{
    let ghost orig_p = parts.pedersen_commitments@;
    let ghost orig_f = parts.feldman_commitments@;
    let ghost orig_s = parts.secret_shares@;
    let mut parts = parts;
    let sm = point_mul(secret, m);
    let c0 = parts.pedersen_commitments.remove(0);
    parts.pedersen_commitments.insert(0, crate::group::point_sub(&c0, &sm));
    proof {
        assert(forall|k: int| 1 <= k < orig_p.len() ==> parts.pedersen_commitments@[k] == orig_p[k]);
    }
    let a0 = parts.feldman_commitments.remove(0);
    parts.feldman_commitments.insert(0, crate::group::point_sub(&a0, &sm));
    proof {
        assert(forall|k: int| 1 <= k < orig_f.len() ==> parts.feldman_commitments@[k] == orig_f[k]);
        assert(parts.pedersen_commitments@[0]@ == point_diff(orig_p[0]@, point_smul(secret@, m@)));
        assert(parts.feldman_commitments@[0]@ == point_diff(orig_f[0]@, point_smul(secret@, m@)));
        if orig_f[0]@ == point_smul(secret@, m@) {
            assert(a0@ == sm@);
        }
    }
    let mut shifted: Vec<Vec<u8>> = Vec::new();
    let mut i: usize = 0;
    while i < parts.secret_shares.len()
        invariant
            i <= parts.secret_shares@.len(),
            parts.secret_shares@ == orig_s,
            shifted@.len() == i,
            forall|j: int| 0 <= j < orig_s.len() ==> share_bytes_wf((#[trigger] orig_s[j])@, (j + 1) as usize),
            forall|j: int| 0 <= j < i ==> share_bytes_wf((#[trigger] shifted@[j])@, (j + 1) as usize),
            forall|j: int| 0 <= j < i ==> ((#[trigger] shifted@[j])@[0] == orig_s[j]@[0]
                && shifted@[j]@.subrange(1, 33) == scalar_diff(orig_s[j]@.subrange(1, 33), secret@)),
        decreases parts.secret_shares@.len() - i,
    {
        let share = &parts.secret_shares[i];
        let part = sub_bytes(share, 1, 33);
        let sc = match scalar_from_repr(&part) {
            Some(sc) => sc,
            None => {
                proof {
                    assert(share_bytes_wf(share@, (i + 1) as usize));
                    assert(false);
                }
                return parts;
            },
        };
        let lowered = scalar_sub(&sc, secret);
        let mut ns: Vec<u8> = Vec::new();
        ns.push(share[0]);
        lowered.encoding_lemma();
        let lb = lowered.to_bytes();
        push_all(&mut ns, &lb);
        proof {
            assert(ns@.subrange(1, 33) =~= lb@);
            assert(ns@[0] == share@[0]);
            assert(lb@ == scalar_diff(orig_s[i as int]@.subrange(1, 33), secret@));
        }
        shifted.push(ns);
        i += 1;
    }
    parts.secret_shares = shifted;
    parts
}

/// Whether no commitment from position `from` upward is the identity.
fn points_no_identity(v: &Vec<GroupElement>, from: usize) -> (r: bool)
    requires
        from <= v@.len(),
    ensures
        r == (forall|k: int| from <= k < v@.len() ==> !is_identity_bytes((#[trigger] v@[k])@)),
{
    let mut i: usize = from;
    let mut ok = true;
    while i < v.len()
        invariant
            from <= i <= v@.len(),
            ok == (forall|k: int| from <= k < i ==> !is_identity_bytes((#[trigger] v@[k])@)),
        decreases v@.len() - i,
    {
        ok = ok && !v[i].is_identity();
        i += 1;
    }
    ok
}

/// Whether every share is 33 bytes whose scalar part is not the zero
/// encoding.
fn shares_nonzero(v: &Vec<Vec<u8>>) -> (r: bool)
    ensures
        r == (forall|i: int| 0 <= i < v@.len() ==> {
            let s = (#[trigger] v@[i])@;
            s.len() == 33 && s.subrange(1, 33) != zero_scalar_bytes()
        }),
{
    let mut i: usize = 0;
    let mut ok = true;
    while i < v.len()
        invariant
            i <= v@.len(),
            ok == (forall|j: int| 0 <= j < i ==> {
                let s = (#[trigger] v@[j])@;
                s.len() == 33 && s.subrange(1, 33) != zero_scalar_bytes()
            }),
        decreases v@.len() - i,
    {
        let this_ok = if v[i].len() != 33 {
            false
        } else {
            let part = sub_bytes(&v[i], 1, 33);
            let z = all_zero(&part);
            proof {
                if z {
                    assert(part@ =~= zero_scalar_bytes());
                } else {
                    assert(part@ != zero_scalar_bytes()) by {
                        let w = choose|w: int| 0 <= w < part@.len() && part@[w] != 0u8;
                        assert(part@[w] != zero_scalar_bytes()[w]);
                    }
                }
            }
            !z
        };
        ok = ok && this_ok;
        i += 1;
    }
    ok
}


/// The commitment polynomial evaluated at `x` by Horner's rule:
/// `sum of x^k * comms[k]` over the commitment points.
pub open spec fn eval_spec(comms: Seq<Seq<u8>>, x: Seq<u8>) -> Seq<u8>
    decreases comms.len(),
{
    if comms.len() == 0 {
        identity_bytes()
    } else if comms.len() == 1 {
        comms[0]
    } else {
        point_sum(point_smul(x, eval_spec(comms.subrange(1, comms.len() as int), x)), comms[0])
    }
}

/// Evaluate a commitment vector at the scalar `x` by Horner's rule.
fn eval_commitments(comms: &Vec<GroupElement>, x: &FieldScalar) -> (r: GroupElement)
    requires
        comms@.len() >= 1,
    ensures
        r@ == eval_spec(points_views(comms@), x@),
{
    let mut i: usize = comms.len() - 1;
    let mut acc = comms[i].clone();
    proof {
        assert(points_views(comms@).subrange(i as int, comms@.len() as int) =~= seq![comms@[i as int]@]);
    }
    while i > 0
        invariant
            0 <= i < comms@.len(),
            acc@ == eval_spec(points_views(comms@).subrange(i as int, comms@.len() as int), x@),
        decreases i,
    {
        i = i - 1;
        let next = point_add(&point_mul(x, &acc), &comms[i]);
        proof {
            let pv = points_views(comms@);
            let whole = pv.subrange(i as int, comms@.len() as int);
            assert(whole.len() >= 2);
            assert(whole.subrange(1, whole.len() as int) =~= pv.subrange(i + 1, comms@.len() as int));
            assert(whole[0] == pv[i as int]);
        }
        acc = next;
    }
    proof {
        assert(points_views(comms@).subrange(0, comms@.len() as int) =~= points_views(comms@));
    }
    acc
}

/// Whether a received share is acceptable for `recipient`: well-formed,
/// canonical, and not a share of zero.
pub open spec fn p2p_share_ok(s: Seq<u8>, recipient: usize) -> bool {
    &&& share_bytes_wf(s, recipient)
    &&& s.subrange(1, 33) != zero_scalar_bytes()
}

/// Whether a round-1 broadcast passes the receiver's structural checks:
/// agreed generators, exactly `t` Pedersen commitments, none at the
/// identity.
pub open spec fn round2_bcast_ok(st: ParticipantState, b: Round1BroadcastView) -> bool {
    &&& b.message_generator == st.message_generator
    &&& b.blinder_generator == st.blinder_generator
    &&& b.pedersen_commitments.len() == st.threshold
    &&& forall|k: int| 0 <= k < b.pedersen_commitments.len() ==> !is_identity_bytes(#[trigger] b.pedersen_commitments[k])
}

/// The Pedersen share verification: `s*M + b*H` must equal the commitment
/// polynomial evaluated at the receiver's identifier.
pub open spec fn pedersen_verify(st: ParticipantState, s: Seq<u8>, bl: Seq<u8>, comms: Seq<Seq<u8>>) -> bool {
    point_sum(point_smul(s, st.message_generator), point_smul(bl, st.blinder_generator))
        == eval_spec(comms, scalar_of_u64(st.id as u64))
}

/// Whether one peer's round-1 broadcast and peer-to-peer data pass all of
/// the receiver's round-2 checks.
pub open spec fn round2_entry_ok(st: ParticipantState, b: Round1BroadcastView, pd: Round1P2PView) -> bool {
    &&& round2_bcast_ok(st, b)
    &&& p2p_share_ok(pd.secret_share, st.id)
    &&& p2p_share_ok(pd.blind_share, st.id)
    &&& pedersen_verify(st, pd.secret_share.subrange(1, 33), pd.blind_share.subrange(1, 33), b.pedersen_commitments)
}

/// Whether the receiver in state `st` accepts peer `j` in round 2 on inputs
/// `bmap` and `pmap`.
pub open spec fn round2_accepts(
    st: ParticipantState,
    bmap: Seq<(usize, Round1BroadcastData)>,
    pmap: Seq<(usize, Round1P2PData)>,
    j: usize,
) -> bool {
    &&& j != st.id
    &&& map_has(bmap, j)
    &&& map_has(pmap, j)
    &&& round2_entry_ok(st, map_val(bmap, j)@, map_val(pmap, j)@)
}

/// How many of the first `n` broadcast entries' senders the receiver
/// accepts in round 2.
pub open spec fn round2_accept_count(
    st: ParticipantState,
    bmap: Seq<(usize, Round1BroadcastData)>,
    pmap: Seq<(usize, Round1P2PData)>,
    n: int,
) -> int
    decreases n,
{
    if n <= 0 {
        0
    } else {
        round2_accept_count(st, bmap, pmap, n - 1)
            + if round2_accepts(st, bmap, pmap, bmap[n - 1].0) { 1int } else { 0int }
    }
}

/// Whether the fields a round function never touches agree between two
/// states: identity, parameters, and the split components.
pub open spec fn same_core(a: ParticipantState, b: ParticipantState) -> bool {
    &&& b.id == a.id
    &&& b.threshold == a.threshold
    &&& b.limit == a.limit
    &&& b.message_generator == a.message_generator
    &&& b.blinder_generator == a.blinder_generator
    &&& b.secret_shares == a.secret_shares
    &&& b.blind_shares == a.blind_shares
    &&& b.pedersen_commitments == a.pedersen_commitments
    &&& b.feldman_commitments == a.feldman_commitments
}

/// Decode a received share addressed to `recipient`: all checks of
/// `p2p_share_ok`, returning the scalar on success.
fn decode_share(s: &Vec<u8>, recipient: usize) -> (r: Option<FieldScalar>)
    ensures
        match r {
            Some(sc) => p2p_share_ok(s@, recipient) && sc@ == s@.subrange(1, 33),
            None => !p2p_share_ok(s@, recipient),
        },
{
    if s.len() != 33 {
        return None;
    }
    if s[0] as usize != recipient {
        return None;
    }
    let part = sub_bytes(s, 1, 33);
    match scalar_from_repr(&part) {
        None => None,
        Some(sc) => {
            if sc.is_zero() {
                None
            } else {
                Some(sc)
            }
        },
    }
}

impl Participant {
    /// Round 1: commit and deal. Record the own broadcast and own share in
    /// the stashes, hand out the broadcast and one peer-to-peer share per
    /// other participant, and advance to round 2. Errs exactly when the
    /// participant is not in round 1, leaving it unchanged.
    pub fn round1(&mut self) -> (r: Result<(Round1BroadcastData, IdMap<Round1P2PData>), DkgError>)
        ensures
            r is Ok <==> old(self)@.round == Round::One,
            r is Err ==> final(self)@ == old(self)@,
            r matches Ok((bcast, p2p)) ==> {
                let st = old(self)@;
                let fin = final(self)@;
                &&& bcast@.message_generator == st.message_generator
                &&& bcast@.blinder_generator == st.blinder_generator
                &&& bcast@.pedersen_commitments == st.pedersen_commitments
                &&& p2p@.len() == st.limit - 1
                &&& (forall|j: usize| #[trigger] map_has(p2p@, j) <==> (1 <= j <= st.limit && j != st.id))
                &&& (forall|j: usize| #[trigger] map_has(p2p@, j) ==> map_val(p2p@, j)@.secret_share == st.secret_shares[j - 1]
                        && map_val(p2p@, j)@.blind_share == st.blind_shares[j - 1])
                &&& same_core(st, fin)
                &&& fin.round == Round::Two
                &&& fin.secret_share == st.secret_share
                &&& fin.public_key == st.public_key
                &&& fin.valid_participant_ids == st.valid_participant_ids
                &&& (forall|j: usize| #[trigger] map_has(fin.round1_broadcast_data, j) <==> (map_has(st.round1_broadcast_data, j) || j == st.id))
                &&& map_val(fin.round1_broadcast_data, st.id)@ == bcast@
                &&& (forall|j: usize| j != st.id && #[trigger] map_has(st.round1_broadcast_data, j) ==> map_val(fin.round1_broadcast_data, j) == map_val(st.round1_broadcast_data, j))
                &&& (forall|j: usize| #[trigger] map_has(fin.round1_p2p_data, j) <==> (map_has(st.round1_p2p_data, j) || j == st.id))
                &&& map_val(fin.round1_p2p_data, st.id)@.secret_share == st.secret_shares[st.id - 1]
                &&& map_val(fin.round1_p2p_data, st.id)@.blind_share == st.blind_shares[st.id - 1]
                &&& (forall|j: usize| j != st.id && #[trigger] map_has(st.round1_p2p_data, j) ==> map_val(fin.round1_p2p_data, j) == map_val(st.round1_p2p_data, j))
            },
    {
        proof {
            use_type_invariant(&*self);
        }
        if !matches!(self.round, Round::One) {
            return Err(DkgError::RoundError(1, "round already run or out of order"));
        }
        let bcast = Round1BroadcastData {
            message_generator: self.message_generator.clone(),
            blinder_generator: self.blinder_generator.clone(),
            pedersen_commitments: clone_points(&self.components.pedersen_commitments),
        };
        let mut p2p: IdMap<Round1P2PData> = IdMap::new();
        let mut j: usize = 1;
        while j <= self.limit
            invariant
                1 <= j <= self.limit + 1,
                self.id <= self.limit <= 255,
                1 <= self.id,
                self.components.secret_shares@.len() == self.limit,
                self.components.blind_shares@.len() == self.limit,
                p2p@.len() == if self.id < j { j - 2 } else { j - 1 },
                forall|jj: usize| #[trigger] map_has(p2p@, jj) <==> (1 <= jj < j && jj != self.id),
                forall|jj: usize| #[trigger] map_has(p2p@, jj) ==> map_val(p2p@, jj)@.secret_share == self@.secret_shares[jj - 1]
                    && map_val(p2p@, jj)@.blind_share == self@.blind_shares[jj - 1],
            decreases self.limit + 1 - j,
        {
            if j != self.id {
                let entry = Round1P2PData {
                    secret_share: clone_bytes(&self.components.secret_shares[j - 1]),
                    blind_share: clone_bytes(&self.components.blind_shares[j - 1]),
                };
                p2p.insert(j, entry);
            }
            j += 1;
        }
        let own = Round1P2PData {
            secret_share: clone_bytes(&self.components.secret_shares[self.id - 1]),
            blind_share: clone_bytes(&self.components.blind_shares[self.id - 1]),
        };
        proof {
            assert(share_bytes_wf(self.components.secret_shares@[self.id - 1]@, ((self.id - 1) + 1) as usize));
            assert(stash_entry_wf(own));
        }
        let mut stash_b: IdMap<Round1BroadcastData> = IdMap::new();
        std::mem::swap(&mut stash_b, &mut self.round1_broadcast_data);
        stash_b.insert(self.id, bcast.clone());
        std::mem::swap(&mut stash_b, &mut self.round1_broadcast_data);
        let mut stash_p: IdMap<Round1P2PData> = IdMap::new();
        std::mem::swap(&mut stash_p, &mut self.round1_p2p_data);
        stash_p.insert(self.id, own);
        std::mem::swap(&mut stash_p, &mut self.round1_p2p_data);
        self.round = Round::Two;
        Ok((bcast, p2p))
    }
}


impl Participant {
    /// Round 2: verify peer commitments and shares. Each broadcast sender is
    /// checked for agreed generators, `t` non-identity Pedersen commitments,
    /// a well-formed nonzero pair of shares addressed to this participant,
    /// and the Pedersen equation; senders that fail any check are dropped
    /// rather than aborting. The accepted peers' data is stashed, the valid
    /// set (always including this participant) is recorded and echoed, and
    /// the round advances. Errs, leaving the state unchanged, exactly when
    /// the round is not 2, either map is self-addressed, or fewer than `t`
    /// participants survive.
    #[verifier::rlimit(60)]
    pub fn round2(
        &mut self,
        bdata: IdMap<Round1BroadcastData>,
        p2p: IdMap<Round1P2PData>,
    ) -> (r: Result<Round2EchoBroadcastData, DkgError>)
        ensures
            r is Ok <==> (old(self)@.round == Round::Two
                && !map_has(bdata@, old(self)@.id)
                && !map_has(p2p@, old(self)@.id)
                && 1 + round2_accept_count(old(self)@, bdata@, p2p@, bdata@.len() as int) >= old(self)@.threshold),
            r is Err ==> final(self)@ == old(self)@,
            r matches Ok(echo) ==> {
                let st = old(self)@;
                let fin = final(self)@;
                &&& same_core(st, fin)
                &&& fin.round == Round::Three
                &&& fin.secret_share == st.secret_share
                &&& fin.public_key == st.public_key
                &&& (forall|j: usize| #[trigger] fin.valid_participant_ids.contains(j) <==> (j == st.id || round2_accepts(st, bdata@, p2p@, j)))
                &&& fin.valid_participant_ids.len() >= st.threshold
                &&& fin.valid_participant_ids.len() == 1 + round2_accept_count(st, bdata@, p2p@, bdata@.len() as int)
                &&& echo@ == fin.valid_participant_ids
                &&& (forall|j: usize| #[trigger] map_has(fin.round1_broadcast_data, j) <==> (map_has(st.round1_broadcast_data, j) || round2_accepts(st, bdata@, p2p@, j)))
                &&& (forall|j: usize| #[trigger] round2_accepts(st, bdata@, p2p@, j) ==> map_val(fin.round1_broadcast_data, j)@ == map_val(bdata@, j)@
                        && map_val(fin.round1_p2p_data, j)@ == map_val(p2p@, j)@)
                &&& (forall|j: usize| #[trigger] map_has(st.round1_broadcast_data, j) && !round2_accepts(st, bdata@, p2p@, j) ==> map_val(fin.round1_broadcast_data, j) == map_val(st.round1_broadcast_data, j))
                &&& (forall|j: usize| #[trigger] map_has(fin.round1_p2p_data, j) <==> (map_has(st.round1_p2p_data, j) || round2_accepts(st, bdata@, p2p@, j)))
                &&& (forall|j: usize| #[trigger] map_has(st.round1_p2p_data, j) && !round2_accepts(st, bdata@, p2p@, j) ==> map_val(fin.round1_p2p_data, j) == map_val(st.round1_p2p_data, j))
            },
    {
        proof {
            use_type_invariant(&*self);
        }
        bdata.sorted_lemma();
        p2p.sorted_lemma();
        if !matches!(self.round, Round::Two) {
            return Err(DkgError::RoundError(2, "round already run or out of order"));
        }
        if bdata.contains_key(self.id) {
            return Err(DkgError::RoundError(2, "broadcast map contains self"));
        }
        if p2p.contains_key(self.id) {
            return Err(DkgError::RoundError(2, "peer map contains self"));
        }
        let ghost st = self@;
        let mut valid = IdSet::new();
        valid.insert(self.id);
        let mut acc_b: Vec<(usize, Round1BroadcastData)> = Vec::new();
        let mut acc_p: Vec<(usize, Round1P2PData)> = Vec::new();
        let mut x: usize = 0;
        while x < bdata.len()
            invariant
                self@ == st,
                2 <= self.threshold,
                x <= bdata@.len(),
                entries_sorted(bdata@),
                entries_sorted(p2p@),
                !map_has(bdata@, st.id),
                forall|jj: usize| #[trigger] valid@.contains(jj) <==> (jj == st.id || (prefix_has(bdata@, x as int, jj) && round2_accepts(st, bdata@, p2p@, jj))),
                valid@.len() == 1 + round2_accept_count(st, bdata@, p2p@, x as int),
                acc_b@.len() == acc_p@.len(),
                forall|w: int| 0 <= w < acc_b@.len() ==> {
                    let jj = (#[trigger] acc_b@[w]).0;
                    &&& round2_accepts(st, bdata@, p2p@, jj)
                    &&& acc_b@[w].1@ == map_val(bdata@, jj)@
                    &&& acc_p@[w].0 == jj
                    &&& acc_p@[w].1@ == map_val(p2p@, jj)@
                },
                forall|jj: usize| #[trigger] prefix_has(acc_b@, acc_b@.len() as int, jj) <==> (prefix_has(bdata@, x as int, jj) && round2_accepts(st, bdata@, p2p@, jj)),
            decreases bdata@.len() - x,
        {
            let j = bdata.key_at(x);
            proof {
                assert(bdata@[x as int].0 == j);
                assert(map_has(bdata@, j));
                assert(j != st.id);
            }
            let b = bdata.val_at(x);
            let g1 = b.message_generator.equals(&self.message_generator);
            let g2 = b.blinder_generator.equals(&self.blinder_generator);
            let g3 = b.pedersen_commitments.len() == self.threshold;
            let g4 = points_no_identity(&b.pedersen_commitments, 0);
            let bcast_ok = g1 && g2 && g3 && g4;
            proof {
                let pv = points_views(b.pedersen_commitments@);
                assert(pv.len() == b.pedersen_commitments@.len());
                assert(forall|k: int| 0 <= k < pv.len() ==> #[trigger] pv[k] == b.pedersen_commitments@[k]@);
                assert(g1 == (b@.message_generator == st.message_generator));
                assert(g2 == (b@.blinder_generator == st.blinder_generator));
                assert(g3 == (b@.pedersen_commitments.len() == st.threshold));
                assert(g4 == (forall|k: int| 0 <= k < b@.pedersen_commitments.len() ==> !is_identity_bytes(#[trigger] b@.pedersen_commitments[k]))) by {
                    if g4 {
                        assert forall|k: int| 0 <= k < b@.pedersen_commitments.len() implies !is_identity_bytes(#[trigger] b@.pedersen_commitments[k]) by {
                            assert(b@.pedersen_commitments[k] == b.pedersen_commitments@[k]@);
                        }
                    } else {
                        let k = choose|k: int| 0 <= k < b.pedersen_commitments@.len() && is_identity_bytes((#[trigger] b.pedersen_commitments@[k])@);
                        assert(b@.pedersen_commitments[k] == b.pedersen_commitments@[k]@);
                    }
                }
                assert(bcast_ok == round2_bcast_ok(st, b@));
            }
            let mut accepted = false;
            let mut chosen_p: Option<Round1P2PData> = None;
            match p2p.get(j) {
                None => {
                },
                Some(pd) => {
                    if bcast_ok {
                        let ss = decode_share(&pd.secret_share, self.id);
                        let bs = decode_share(&pd.blind_share, self.id);
                        match (ss, bs) {
                            (Some(ssc), Some(bsc)) => {
                                let xsc = scalar_from_u64(self.id as u64);
                                let lhs = point_add(
                                    &point_mul(&ssc, &self.message_generator),
                                    &point_mul(&bsc, &self.blinder_generator),
                                );
                                let rhs = eval_commitments(&b.pedersen_commitments, &xsc);
                                if lhs.equals(&rhs) {
                                    accepted = true;
                                    chosen_p = Some(pd.clone());
                                }
                            },
                            _ => {
                            },
                        }
                    }
                },
            }
            proof {
                assert(accepted == round2_accepts(st, bdata@, p2p@, j));
            }
            let ghost prev_acc = acc_b@;
            if accepted {
                proof {
                    assert(!prefix_has(bdata@, x as int, j)) by {
                        assert(forall|y: int| 0 <= y < x ==> (#[trigger] bdata@[y]).0 < bdata@[x as int].0);
                    }
                    assert(!valid@.contains(j));
                }
                valid.insert(j);
                acc_b.push((j, b.clone()));
                match chosen_p {
                    Some(pdv) => {
                        acc_p.push((j, pdv));
                    },
                    None => {
                        proof {
                            assert(false);
                        }
                    },
                }
            }
            proof {
                assert(round2_accept_count(st, bdata@, p2p@, x + 1) == round2_accept_count(st, bdata@, p2p@, x as int) + if round2_accepts(st, bdata@, p2p@, j) { 1int } else { 0int });
                assert forall|jj: usize| #[trigger] prefix_has(bdata@, x + 1, jj) implies (prefix_has(bdata@, x as int, jj) || jj == j) by {
                    let y = choose|y: int| 0 <= y < x + 1 && y < bdata@.len() && (#[trigger] bdata@[y]).0 == jj;
                    if y < x {
                        assert(prefix_has(bdata@, x as int, jj));
                    }
                }
                assert(prefix_has(bdata@, x + 1, j));
                if accepted {
                    assert forall|jj: usize| #[trigger] prefix_has(acc_b@, acc_b@.len() as int, jj) implies (prefix_has(bdata@, x + 1, jj) && round2_accepts(st, bdata@, p2p@, jj)) by {
                        let w = choose|w: int| 0 <= w < acc_b@.len() && (#[trigger] acc_b@[w]).0 == jj;
                        if w < prev_acc.len() {
                            assert(prefix_has(prev_acc, prev_acc.len() as int, jj));
                        } else {
                            assert(acc_b@[w].0 == j);
                        }
                    }
                    assert forall|jj: usize| prefix_has(bdata@, x + 1, jj) && round2_accepts(st, bdata@, p2p@, jj) implies #[trigger] prefix_has(acc_b@, acc_b@.len() as int, jj) by {
                        if jj == j {
                            assert(acc_b@[acc_b@.len() - 1].0 == j);
                        } else {
                            assert(prefix_has(bdata@, x as int, jj));
                            assert(prefix_has(prev_acc, prev_acc.len() as int, jj));
                            let w = choose|w: int| 0 <= w < prev_acc.len() && (#[trigger] prev_acc[w]).0 == jj;
                            assert(acc_b@[w].0 == jj);
                        }
                    }
                } else {
                    assert forall|jj: usize| prefix_has(bdata@, x + 1, jj) && round2_accepts(st, bdata@, p2p@, jj) implies #[trigger] prefix_has(acc_b@, acc_b@.len() as int, jj) by {
                        if jj != j {
                            assert(prefix_has(bdata@, x as int, jj));
                        }
                    }
                }
            }
            x += 1;
        }
        proof {
            assert forall|jj: usize| #[trigger] round2_accepts(st, bdata@, p2p@, jj) implies prefix_has(bdata@, bdata@.len() as int, jj) by {
                assert(map_has(bdata@, jj));
                let y = choose|y: int| 0 <= y < bdata@.len() && (#[trigger] bdata@[y]).0 == jj;
                assert(prefix_has(bdata@, bdata@.len() as int, jj));
            }
        }
        if valid.len() < self.threshold {
            return Err(DkgError::RoundError(2, "too few valid participants"));
        }
        let echo_set = valid.clone();
        let ghost all_b = acc_b@;
        let ghost all_p = acc_p@;
        let mut stash_b: IdMap<Round1BroadcastData> = IdMap::new();
        std::mem::swap(&mut stash_b, &mut self.round1_broadcast_data);
        let ghost base_b = stash_b@;
        let mut y: usize = 0;
        while y < acc_b.len()
            invariant
                y <= acc_b@.len(),
                acc_b@ == all_b,
                self.round1_p2p_data@ == st.round1_p2p_data,
                forall|w: int| 0 <= w < all_b.len() ==> {
                    let jj = (#[trigger] all_b[w]).0;
                    &&& round2_accepts(st, bdata@, p2p@, jj)
                    &&& all_b[w].1@ == map_val(bdata@, jj)@
                },
                forall|jj: usize| #[trigger] map_has(stash_b@, jj) <==> (map_has(base_b, jj) || prefix_has(all_b, y as int, jj)),
                forall|jj: usize| #[trigger] prefix_has(all_b, y as int, jj) ==> map_val(stash_b@, jj)@ == map_val(bdata@, jj)@,
                forall|jj: usize| #[trigger] map_has(base_b, jj) && !prefix_has(all_b, y as int, jj) ==> map_val(stash_b@, jj) == map_val(base_b, jj),
            decreases acc_b@.len() - y,
        {
            let j = acc_b[y].0;
            let v = acc_b[y].1.clone();
            let ghost pre = stash_b@;
            proof {
                assert(v@ == all_b[y as int].1@);
            }
            stash_b.insert(j, v);
            proof {
                assert forall|jj: usize| #[trigger] prefix_has(all_b, y + 1, jj) implies (prefix_has(all_b, y as int, jj) || jj == j) by {
                    let w = choose|w: int| 0 <= w < y + 1 && w < all_b.len() && (#[trigger] all_b[w]).0 == jj;
                    if w < y {
                        assert(prefix_has(all_b, y as int, jj));
                    }
                }
                assert(prefix_has(all_b, y + 1, j));
                assert forall|jj: usize| #[trigger] prefix_has(all_b, y + 1, jj) implies map_val(stash_b@, jj)@ == map_val(bdata@, jj)@ by {
                    if jj == j {
                        assert(map_val(stash_b@, j)@ == all_b[y as int].1@);
                        assert(all_b[y as int].1@ == map_val(bdata@, j)@);
                    } else {
                        assert(prefix_has(all_b, y as int, jj));
                        assert(map_has(pre, jj));
                        assert(map_val(stash_b@, jj) == map_val(pre, jj));
                    }
                }
                assert forall|jj: usize| #[trigger] map_has(base_b, jj) && !prefix_has(all_b, y + 1, jj) implies map_val(stash_b@, jj) == map_val(base_b, jj) by {
                    assert(jj != j);
                    assert(!prefix_has(all_b, y as int, jj)) by {
                        if prefix_has(all_b, y as int, jj) {
                            let w = choose|w: int| 0 <= w < y && w < all_b.len() && (#[trigger] all_b[w]).0 == jj;
                            assert(prefix_has(all_b, y + 1, jj));
                        }
                    }
                    assert(map_has(pre, jj));
                    assert(map_val(stash_b@, jj) == map_val(pre, jj));
                }
            }
            y += 1;
        }
        proof {
            assert forall|jj: usize| #[trigger] round2_accepts(st, bdata@, p2p@, jj) implies prefix_has(all_b, all_b.len() as int, jj) by {
                assert(prefix_has(bdata@, bdata@.len() as int, jj));
            }
            assert forall|jj: usize| #[trigger] prefix_has(all_b, all_b.len() as int, jj) implies round2_accepts(st, bdata@, p2p@, jj) by {
                let w = choose|w: int| 0 <= w < all_b.len() && (#[trigger] all_b[w]).0 == jj;
            }
        }
        std::mem::swap(&mut stash_b, &mut self.round1_broadcast_data);
        proof {
            assert forall|w: int| 0 <= w < all_p.len() implies {
                let jj = (#[trigger] all_p[w]).0;
                &&& round2_accepts(st, bdata@, p2p@, jj)
                &&& all_p[w].1@ == map_val(p2p@, jj)@
                &&& stash_entry_wf(all_p[w].1)
            } by {
                let jj = all_b[w].0;
                assert(all_p[w].0 == jj);
                assert(round2_accepts(st, bdata@, p2p@, jj));
                assert(p2p_share_ok(map_val(p2p@, jj)@.secret_share, st.id));
                assert(p2p_share_ok(map_val(p2p@, jj)@.blind_share, st.id));
                assert(all_p[w].1@ == map_val(p2p@, jj)@);
            }
        }
        let mut stash_p: IdMap<Round1P2PData> = IdMap::new();
        std::mem::swap(&mut stash_p, &mut self.round1_p2p_data);
        let ghost base_p = stash_p@;
        proof {
            assert(base_p == st.round1_p2p_data);
            assert forall|jj: usize| #[trigger] map_has(base_p, jj) implies stash_entry_wf(map_val(base_p, jj)) by {}
        }
        let mut z: usize = 0;
        while z < acc_p.len()
            invariant
                z <= acc_p@.len(),
                acc_p@ == all_p,
                forall|w: int| 0 <= w < all_p.len() ==> {
                    let jj = (#[trigger] all_p[w]).0;
                    &&& round2_accepts(st, bdata@, p2p@, jj)
                    &&& all_p[w].1@ == map_val(p2p@, jj)@
                    &&& stash_entry_wf(all_p[w].1)
                },
                forall|jj: usize| #[trigger] map_has(stash_p@, jj) <==> (map_has(base_p, jj) || prefix_has(all_p, z as int, jj)),
                forall|jj: usize| #[trigger] prefix_has(all_p, z as int, jj) ==> map_val(stash_p@, jj)@ == map_val(p2p@, jj)@ && stash_entry_wf(map_val(stash_p@, jj)),
                forall|jj: usize| #[trigger] map_has(base_p, jj) && !prefix_has(all_p, z as int, jj) ==> map_val(stash_p@, jj) == map_val(base_p, jj),
                forall|jj: usize| #[trigger] map_has(base_p, jj) ==> stash_entry_wf(map_val(base_p, jj)),
            decreases acc_p@.len() - z,
        {
            let j = acc_p[z].0;
            let v = acc_p[z].1.clone();
            let ghost pre = stash_p@;
            proof {
                assert(stash_entry_wf(all_p[z as int].1));
                assert(v@ == all_p[z as int].1@);
                assert(stash_entry_wf(v));
            }
            stash_p.insert(j, v);
            proof {
                assert forall|jj: usize| #[trigger] prefix_has(all_p, z + 1, jj) implies (prefix_has(all_p, z as int, jj) || jj == j) by {
                    let w = choose|w: int| 0 <= w < z + 1 && w < all_p.len() && (#[trigger] all_p[w]).0 == jj;
                    if w < z {
                        assert(prefix_has(all_p, z as int, jj));
                    }
                }
                assert(prefix_has(all_p, z + 1, j));
                assert forall|jj: usize| #[trigger] prefix_has(all_p, z + 1, jj) implies map_val(stash_p@, jj)@ == map_val(p2p@, jj)@ && stash_entry_wf(map_val(stash_p@, jj)) by {
                    if jj == j {
                        assert(map_val(stash_p@, j) == v);
                        assert(all_p[z as int].1@ == map_val(p2p@, j)@);
                    } else {
                        assert(prefix_has(all_p, z as int, jj));
                        assert(map_has(pre, jj));
                        assert(map_val(stash_p@, jj) == map_val(pre, jj));
                    }
                }
                assert forall|jj: usize| #[trigger] map_has(base_p, jj) && !prefix_has(all_p, z + 1, jj) implies map_val(stash_p@, jj) == map_val(base_p, jj) by {
                    assert(jj != j);
                    assert(!prefix_has(all_p, z as int, jj)) by {
                        if prefix_has(all_p, z as int, jj) {
                            let w = choose|w: int| 0 <= w < z && w < all_p.len() && (#[trigger] all_p[w]).0 == jj;
                            assert(prefix_has(all_p, z + 1, jj));
                        }
                    }
                    assert(map_has(pre, jj));
                    assert(map_val(stash_p@, jj) == map_val(pre, jj));
                }
            }
            z += 1;
        }
        proof {
            assert forall|jj: usize| #[trigger] round2_accepts(st, bdata@, p2p@, jj) implies prefix_has(all_p, all_p.len() as int, jj) by {
                assert(prefix_has(bdata@, bdata@.len() as int, jj));
                let w = choose|w: int| 0 <= w < all_b.len() && (#[trigger] all_b[w]).0 == jj;
                assert(all_p[w].0 == jj);
            }
            assert forall|jj: usize| #[trigger] prefix_has(all_p, all_p.len() as int, jj) implies round2_accepts(st, bdata@, p2p@, jj) by {
                let w = choose|w: int| 0 <= w < all_p.len() && (#[trigger] all_p[w]).0 == jj;
            }
            assert forall|jj: usize| #[trigger] map_has(stash_p@, jj) implies stash_entry_wf(map_val(stash_p@, jj)) by {
                if prefix_has(all_p, all_p.len() as int, jj) {
                } else {
                    assert(map_has(base_p, jj));
                    assert(map_val(stash_p@, jj) == map_val(base_p, jj));
                }
            }
        }
        std::mem::swap(&mut stash_p, &mut self.round1_p2p_data);
        self.valid_participant_ids = valid;
        self.round = Round::Three;
        Ok(Round2EchoBroadcastData { valid_participant_ids: echo_set })
    }
}


/// Whether round 3 retains participant `j`: oneself always, a peer only
/// when it echoed exactly the same valid set.
pub open spec fn round3_keeps(
    st: ParticipantState,
    emap: Seq<(usize, Round2EchoBroadcastData)>,
    j: usize,
) -> bool {
    ||| j == st.id
    ||| (map_has(emap, j) && map_val(emap, j)@ == st.valid_participant_ids)
}

/// How many of the first `n` currently-valid participants round 3 retains.
pub open spec fn round3_keep_count(
    st: ParticipantState,
    emap: Seq<(usize, Round2EchoBroadcastData)>,
    n: int,
) -> int
    decreases n,
{
    if n <= 0 {
        0
    } else {
        round3_keep_count(st, emap, n - 1)
            + if round3_keeps(st, emap, st.valid_participant_ids[n - 1]) { 1int } else { 0int }
    }
}

/// Whether round 4 accepts peer `j`: a broadcast with the agreed generator
/// and `t` Feldman commitments is present, a stashed share from `j` exists,
/// and the share passes Feldman verification at this participant's
/// identifier.
pub open spec fn round4_peer_ok(
    st: ParticipantState,
    bmap: Seq<(usize, Round3BroadcastData)>,
    j: usize,
) -> bool {
    &&& map_has(bmap, j)
    &&& map_val(bmap, j)@.message_generator == st.message_generator
    &&& map_val(bmap, j)@.commitments.len() == st.threshold
    &&& map_has(st.round1_p2p_data, j)
    &&& point_smul(
            map_val(st.round1_p2p_data, j)@.secret_share.subrange(1, 33),
            st.message_generator,
        ) == eval_spec(map_val(bmap, j)@.commitments, scalar_of_u64(st.id as u64))
}

/// Whether every currently-valid participant passes the round-4 checks.
pub open spec fn round4_all_ok(st: ParticipantState, bmap: Seq<(usize, Round3BroadcastData)>) -> bool {
    forall|x: int| 0 <= x < st.valid_participant_ids.len()
        ==> round4_peer_ok(st, bmap, #[trigger] st.valid_participant_ids[x])
}

/// The secret-share accumulator after summing the stashed shares of the
/// first `n` valid participants onto the stored accumulator.
pub open spec fn round4_share_sum(st: ParticipantState, n: int) -> Seq<u8>
    decreases n,
{
    if n <= 0 {
        st.secret_share
    } else {
        scalar_sum(
            round4_share_sum(st, n - 1),
            map_val(st.round1_p2p_data, st.valid_participant_ids[n - 1])@.secret_share.subrange(1, 33),
        )
    }
}

/// The public-key accumulator after summing the zero-coefficient Feldman
/// commitments of the first `n` valid participants onto the stored
/// accumulator.
pub open spec fn round4_key_sum(
    st: ParticipantState,
    bmap: Seq<(usize, Round3BroadcastData)>,
    n: int,
) -> Seq<u8>
    decreases n,
{
    if n <= 0 {
        st.public_key
    } else {
        point_sum(
            round4_key_sum(st, bmap, n - 1),
            map_val(bmap, st.valid_participant_ids[n - 1])@.commitments[0],
        )
    }
}

/// Whether round 5 succeeds: every other valid participant echoed exactly
/// this participant's computed public key.
pub open spec fn round5_ok(st: ParticipantState, emap: Seq<(usize, Round4EchoBroadcastData)>) -> bool {
    forall|x: int| 0 <= x < st.valid_participant_ids.len() ==> {
        let j = #[trigger] st.valid_participant_ids[x];
        j == st.id || (map_has(emap, j) && map_val(emap, j)@ == st.public_key)
    }
}

impl Participant {
    /// Round 3: reconcile the valid set. A peer stays valid only if it sent
    /// an echo reporting exactly this participant's valid set; the surviving
    /// set must still reach the threshold. Publishes the Feldman commitments
    /// and advances. Errs, leaving the state unchanged, exactly when the
    /// round is not 3 or fewer than `t` participants survive.
    pub fn round3(&mut self, echoes: &IdMap<Round2EchoBroadcastData>) -> (r: Result<Round3BroadcastData, DkgError>)
        ensures
            r is Ok <==> (old(self)@.round == Round::Three
                && round3_keep_count(old(self)@, echoes@, old(self)@.valid_participant_ids.len() as int) >= old(self)@.threshold),
            r is Err ==> final(self)@ == old(self)@,
            r matches Ok(b) ==> {
                let st = old(self)@;
                let fin = final(self)@;
                &&& same_core(st, fin)
                &&& fin.round == Round::Four
                &&& fin.secret_share == st.secret_share
                &&& fin.public_key == st.public_key
                &&& fin.round1_broadcast_data == st.round1_broadcast_data
                &&& fin.round1_p2p_data == st.round1_p2p_data
                &&& (forall|j: usize| #[trigger] fin.valid_participant_ids.contains(j) <==> (st.valid_participant_ids.contains(j) && round3_keeps(st, echoes@, j)))
                &&& fin.valid_participant_ids.len() >= st.threshold
                &&& b@.message_generator == st.message_generator
                &&& b@.commitments == st.feldman_commitments
            },
    {
        proof {
            use_type_invariant(&*self);
        }
        self.valid_participant_ids.sorted_lemma();
        if !matches!(self.round, Round::Three) {
            return Err(DkgError::RoundError(3, "round already run or out of order"));
        }
        let ghost st = self@;
        let mut new_valid = IdSet::new();
        let mut x: usize = 0;
        while x < self.valid_participant_ids.len()
            invariant
                self@ == st,
                x <= st.valid_participant_ids.len(),
                crate::idmap::ids_sorted(st.valid_participant_ids),
                forall|jj: usize| #[trigger] new_valid@.contains(jj) <==> (st.valid_participant_ids.subrange(0, x as int).contains(jj) && round3_keeps(st, echoes@, jj)),
                new_valid@.len() == round3_keep_count(st, echoes@, x as int),
            decreases st.valid_participant_ids.len() - x,
        {
            let j = self.valid_participant_ids.elem_at(x);
            let keep = if j == self.id {
                true
            } else {
                match echoes.get(j) {
                    None => false,
                    Some(e) => e.valid_participant_ids.equals(&self.valid_participant_ids),
                }
            };
            proof {
                assert(keep == round3_keeps(st, echoes@, j));
            }
            let ghost pre = new_valid@;
            if keep {
                proof {
                    assert(!new_valid@.contains(j)) by {
                        if st.valid_participant_ids.subrange(0, x as int).contains(j) {
                            let y = choose|y: int| 0 <= y < x && #[trigger] st.valid_participant_ids.subrange(0, x as int)[y] == j;
                            assert(st.valid_participant_ids[y] == j);
                            assert(st.valid_participant_ids[y] < st.valid_participant_ids[x as int]);
                        }
                    }
                }
                new_valid.insert(j);
            }
            proof {
                assert(st.valid_participant_ids.subrange(0, x + 1) =~= st.valid_participant_ids.subrange(0, x as int).push(st.valid_participant_ids[x as int]));
                assert forall|jj: usize| st.valid_participant_ids.subrange(0, x + 1).contains(jj) implies (st.valid_participant_ids.subrange(0, x as int).contains(jj) || jj == j) by {
                    let y = choose|y: int| 0 <= y < x + 1 && #[trigger] st.valid_participant_ids.subrange(0, x + 1)[y] == jj;
                    if y < x {
                        assert(st.valid_participant_ids.subrange(0, x as int)[y] == jj);
                    }
                }
                assert(st.valid_participant_ids.subrange(0, x + 1).contains(j)) by {
                    assert(st.valid_participant_ids.subrange(0, x + 1)[x as int] == j);
                }
                assert forall|jj: usize| st.valid_participant_ids.subrange(0, x as int).contains(jj) implies st.valid_participant_ids.subrange(0, x + 1).contains(jj) by {
                    let y = choose|y: int| 0 <= y < x && #[trigger] st.valid_participant_ids.subrange(0, x as int)[y] == jj;
                    assert(st.valid_participant_ids.subrange(0, x + 1)[y] == jj);
                }
            }
            x += 1;
        }
        proof {
            assert(st.valid_participant_ids.subrange(0, st.valid_participant_ids.len() as int) =~= st.valid_participant_ids);
        }
        if new_valid.len() < self.threshold {
            return Err(DkgError::RoundError(3, "too few agreeing participants"));
        }
        let bcast = Round3BroadcastData {
            message_generator: self.message_generator.clone(),
            commitments: clone_points(&self.components.feldman_commitments),
        };
        self.valid_participant_ids = new_valid;
        self.round = Round::Four;
        Ok(bcast)
    }

    /// Round 4: aggregate the secret share and the joint public key. Each
    /// valid participant's stashed share is Feldman-verified against its
    /// round-3 commitments; any failure is fatal. On success the share
    /// accumulator holds the sum of all verified shares, the key
    /// accumulator the sum of all zero-coefficient Feldman commitments, and
    /// the key is echoed. Errs, leaving the state unchanged, exactly when
    /// the round is not 4 or some valid participant fails a check.
    pub fn round4(&mut self, broadcasts: &IdMap<Round3BroadcastData>) -> (r: Result<Round4EchoBroadcastData, DkgError>)
        ensures
            r is Ok <==> (old(self)@.round == Round::Four && round4_all_ok(old(self)@, broadcasts@)),
            r is Err ==> final(self)@ == old(self)@,
            r matches Ok(echo) ==> {
                let st = old(self)@;
                let fin = final(self)@;
                &&& same_core(st, fin)
                &&& fin.round == Round::Five
                &&& fin.round1_broadcast_data == st.round1_broadcast_data
                &&& fin.round1_p2p_data == st.round1_p2p_data
                &&& fin.valid_participant_ids == st.valid_participant_ids
                &&& fin.secret_share == round4_share_sum(st, st.valid_participant_ids.len() as int)
                &&& fin.public_key == round4_key_sum(st, broadcasts@, st.valid_participant_ids.len() as int)
                &&& echo@ == fin.public_key
            },
    {
        proof {
            use_type_invariant(&*self);
        }
        if !matches!(self.round, Round::Four) {
            return Err(DkgError::RoundError(4, "round already run or out of order"));
        }
        let ghost st = self@;
        let mut acc_s = self.secret_share.clone();
        let mut acc_k = self.public_key.clone();
        let mut x: usize = 0;
        while x < self.valid_participant_ids.len()
            invariant
                self@ == st,
                2 <= self.threshold,
                x <= st.valid_participant_ids.len(),
                forall|y: int| 0 <= y < x ==> round4_peer_ok(st, broadcasts@, #[trigger] st.valid_participant_ids[y]),
                acc_s@ == round4_share_sum(st, x as int),
                acc_k@ == round4_key_sum(st, broadcasts@, x as int),
            decreases st.valid_participant_ids.len() - x,
        {
            proof {
                use_type_invariant(&*self);
            }
            let j = self.valid_participant_ids.elem_at(x);
            let b = match broadcasts.get(j) {
                Some(b) => b,
                None => {
                    return Err(DkgError::RoundError(4, "missing broadcast"));
                },
            };
            if !b.message_generator.equals(&self.message_generator) {
                return Err(DkgError::RoundError(4, "wrong generator"));
            }
            if b.commitments.len() != self.threshold {
                return Err(DkgError::RoundError(4, "wrong commitment count"));
            }
            let share = match self.round1_p2p_data.get(j) {
                Some(e) => e,
                None => {
                    return Err(DkgError::RoundError(4, "missing stashed share"));
                },
            };
            let part = sub_bytes(&share.secret_share, 1, 33);
            let sc = match scalar_from_repr(&part) {
                Some(sc) => sc,
                None => {
                    proof {
                        assert(map_has(self.round1_p2p_data@, j));
                        assert(stash_entry_wf(map_val(self.round1_p2p_data@, j)));
                        assert(false);
                    }
                    return Err(DkgError::RoundError(4, "undecodable stashed share"));
                },
            };
            let xsc = scalar_from_u64(self.id as u64);
            let lhs = point_mul(&sc, &self.message_generator);
            let rhs = eval_commitments(&b.commitments, &xsc);
            proof {
                let pv = points_views(b.commitments@);
                assert(pv.len() == b.commitments@.len());
                assert(forall|k: int| 0 <= k < pv.len() ==> #[trigger] pv[k] == b.commitments@[k]@);
            }
            if !lhs.equals(&rhs) {
                proof {
                    assert(!round4_peer_ok(st, broadcasts@, j));
                }
                return Err(DkgError::RoundError(4, "share fails Feldman verification"));
            }
            proof {
                assert(round4_peer_ok(st, broadcasts@, j));
            }
            acc_s = crate::group::scalar_add(&acc_s, &sc);
            acc_k = point_add(&acc_k, &b.commitments[0]);
            proof {
                assert(b@.commitments[0] == b.commitments@[0]@);
            }
            x += 1;
        }
        let echo = Round4EchoBroadcastData { public_key: acc_k.clone() };
        self.secret_share = acc_s;
        self.public_key = acc_k;
        self.round = Round::Five;
        Ok(echo)
    }

    /// Round 5: echo-verify the joint public key. Every other valid
    /// participant must have echoed exactly this participant's computed
    /// key; any mismatch or absence is fatal. On success the state machine
    /// terminates. Errs, leaving the state unchanged, exactly when the
    /// round is not 5 or some echo is missing or different.
    pub fn round5(&mut self, echoes: &IdMap<Round4EchoBroadcastData>) -> (r: Result<(), DkgError>)
        ensures
            r is Ok <==> (old(self)@.round == Round::Five && round5_ok(old(self)@, echoes@)),
            r is Err ==> final(self)@ == old(self)@,
            r is Ok ==> final(self)@ == (ParticipantState { round: Round::Done, ..old(self)@ }),
    {
        proof {
            use_type_invariant(&*self);
        }
        if !matches!(self.round, Round::Five) {
            return Err(DkgError::RoundError(5, "round already run or out of order"));
        }
        let ghost st = self@;
        let mut x: usize = 0;
        while x < self.valid_participant_ids.len()
            invariant
                self@ == st,
                x <= st.valid_participant_ids.len(),
                forall|y: int| 0 <= y < x ==> {
                    let j = #[trigger] st.valid_participant_ids[y];
                    j == st.id || (map_has(echoes@, j) && map_val(echoes@, j)@ == st.public_key)
                },
            decreases st.valid_participant_ids.len() - x,
        {
            let j = self.valid_participant_ids.elem_at(x);
            if j != self.id {
                match echoes.get(j) {
                    None => {
                        return Err(DkgError::RoundError(5, "missing echo"));
                    },
                    Some(e) => {
                        if !e.public_key.equals(&self.public_key) {
                            return Err(DkgError::RoundError(5, "public key mismatch"));
                        }
                    },
                }
            }
            x += 1;
        }
        self.round = Round::Done;
        Ok(())
    }
}

} // verus!
