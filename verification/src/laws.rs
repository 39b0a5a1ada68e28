//! Protocol-level laws, proved from the round contracts.

use vstd::prelude::*;
use crate::idmap::{map_has, map_val};
use crate::participant::{
    ParticipantState, Round1BroadcastData, Round1P2PData, Round2EchoBroadcastData,
    Round3BroadcastData, Round4EchoBroadcastData, round2_accepts, round3_keeps, round4_all_ok,
    round4_peer_ok, round5_ok,
};

verus! {

/// Key agreement: when a participant finishes round 5 on an echo map whose
/// entry for some other valid participant carries that participant's
/// computed public key, the two computed keys are equal. Every pair of
/// participants that complete round 5 against each other's round-4 echoes
/// therefore agrees on the joint public key.
pub proof fn lemma_key_agreement(
    a: ParticipantState,
    b: ParticipantState,
    ea: Seq<(usize, Round4EchoBroadcastData)>,
)
    requires
        round5_ok(a, ea),
        a.valid_participant_ids.contains(b.id),
        b.id != a.id,
        map_has(ea, b.id) && map_val(ea, b.id)@ == b.public_key,
    ensures
        a.public_key == b.public_key,
{
    let x = choose|x: int| 0 <= x < a.valid_participant_ids.len()
        && a.valid_participant_ids[x] == b.id;
    assert(a.valid_participant_ids[x] == b.id);
}

/// Parameter agreement: a peer whose round-1 broadcast carries a message or
/// blinder generator different from the receiver's parameters is not
/// accepted in round 2, so it cannot enter the receiver's valid set.
pub proof fn lemma_parameter_disagreement_excludes(
    st: ParticipantState,
    fin: ParticipantState,
    bmap: Seq<(usize, Round1BroadcastData)>,
    pmap: Seq<(usize, Round1P2PData)>,
    j: usize,
)
    requires
        forall|jj: usize| #[trigger] fin.valid_participant_ids.contains(jj)
            <==> (jj == st.id || round2_accepts(st, bmap, pmap, jj)),
        j != st.id,
        map_has(bmap, j),
        map_val(bmap, j)@.message_generator != st.message_generator
            || map_val(bmap, j)@.blinder_generator != st.blinder_generator,
    ensures
        !fin.valid_participant_ids.contains(j),
{
    assert(!round2_accepts(st, bmap, pmap, j));
}

/// Echo reconciliation: a peer whose round-2 echo is absent or reports a
/// valid set different from the receiver's own is dropped from the valid
/// set in round 3.
pub proof fn lemma_echo_disagreement_drops(
    st: ParticipantState,
    fin: ParticipantState,
    emap: Seq<(usize, Round2EchoBroadcastData)>,
    j: usize,
)
    requires
        forall|jj: usize| #[trigger] fin.valid_participant_ids.contains(jj)
            <==> (st.valid_participant_ids.contains(jj) && round3_keeps(st, emap, jj)),
        j != st.id,
        map_has(emap, j) ==> map_val(emap, j)@ != st.valid_participant_ids,
    ensures
        !fin.valid_participant_ids.contains(j),
{
    assert(!round3_keeps(st, emap, j));
}

/// Feldman soundness: if any valid participant's round-3 broadcast fails
/// the Feldman verification of its stashed share, or is missing or
/// malformed, round 4 cannot succeed: its success condition demands every
/// valid participant pass.
pub proof fn lemma_feldman_failure_aborts(
    st: ParticipantState,
    bmap: Seq<(usize, Round3BroadcastData)>,
    x: int,
)
    requires
        0 <= x < st.valid_participant_ids.len(),
        !round4_peer_ok(st, bmap, st.valid_participant_ids[x]),
    ensures
        !round4_all_ok(st, bmap),
{
}

} // verus!
