//! How candidates leave the pallet without being vouched for: what becomes of each para.
use crate::laws::lemma_disputed_paras;
use crate::laws::lemma_evicted_cleans_up;
use crate::laws::lemma_picked_members;
use crate::laws::lemma_timed_out_cleans_up;
use crate::laws::lemma_walk_has_no_repeats;
use crate::laws::para_cleaned_up;
use crate::pallet::enactment;
use crate::pallet::pending_picks;
use crate::pallet::picked;
use crate::pallet::EffectView;
use crate::pallet::EventView;
use crate::pallet::PalletView;
use crate::primitives::BlockNumber;
use crate::primitives::CandidateHash;
use crate::primitives::CandidateReceipt;
use crate::primitives::CoreIndex;
use crate::primitives::ParaId;
use vstd::prelude::*;

verus! {

/// What collecting pending candidates makes of a para, whatever the votes of its candidate. The
/// predicate answers for the core of the candidate and the block it was backed in. If it answers
/// yes, candidate and commitments are gone, and the core is among those returned; if it answers
/// no, both are as they were.
pub proof fn the_predicate_decides_on_each_para<P: Fn(CoreIndex, BlockNumber) -> bool>(
    pred: P,
    state: PalletView,
    picks: Seq<bool>,
    para: u32,
) -> (answer: bool)
    requires
        state.is_walked(),
        pending_picks(pred, state, picks),
        state.pending_availability.contains_key(para),
    ensures
        ({
            let pending = state.pending_availability[para];
            let paras = picked(state.pending_walk(), picks);
            let after = state.timed_out(paras);
            &&& call_ensures(pred, (pending.core, pending.backed_in_number), answer)
            &&& answer ==> {
                &&& !after.pending_availability.contains_key(para)
                &&& !after.pending_availability_commitments.contains_key(para)
                &&& state.cores_of(paras).contains(pending.core)
            }
            &&& !answer ==> {
                &&& after.pending_availability.contains_key(para)
                &&& after.pending_availability[para] == pending
                &&& after.pending_availability_commitments.contains_key(para)
                    == state.pending_availability_commitments.contains_key(para)
                &&& state.pending_availability_commitments.contains_key(para)
                    ==> after.pending_availability_commitments[para]
                    == state.pending_availability_commitments[para]
            }
        }),
{
    let keys = state.pending_walk();
    let paras = picked(keys, picks);
    lemma_walk_has_no_repeats(keys, state.pending_availability.dom());
    lemma_picked_members(keys, picks);
    lemma_timed_out_cleans_up(state, paras);
    assert(state.pending_availability.dom().contains(para));
    assert(keys.contains(para));
    let i = choose|i: int| 0 <= i < keys.len() && keys[i] == para;
    assert(paras.contains(ParaId(keys[i])) == picks[i]);
    assert(para_cleaned_up(state, state.timed_out(paras), paras, para));
    if picks[i] {
        let j = choose|j: int| 0 <= j < paras.len() && paras[j] == ParaId(para);
        assert(state.cores_of(paras)[j] == state.pending_availability[para].core);
    }
    picks[i]
}

/// If the predicate can only answer yes for the candidate of a para, collecting frees the para and
/// returns its core; if it can only answer no, the para is left alone.
pub proof fn a_certain_answer_decides<P: Fn(CoreIndex, BlockNumber) -> bool>(
    pred: P,
    state: PalletView,
    picks: Seq<bool>,
    para: u32,
    sure: bool,
)
    requires
        state.is_walked(),
        pending_picks(pred, state, picks),
        state.pending_availability.contains_key(para),
        forall|answer: bool| #[trigger]
            call_ensures(
                pred,
                (
                    state.pending_availability[para].core,
                    state.pending_availability[para].backed_in_number,
                ),
                answer,
            ) ==> answer == sure,
    ensures
        ({
            let paras = picked(state.pending_walk(), picks);
            let after = state.timed_out(paras);
            &&& sure ==> {
                &&& !after.pending_availability.contains_key(para)
                &&& !after.pending_availability_commitments.contains_key(para)
                &&& state.cores_of(paras).contains(state.pending_availability[para].core)
            }
            &&& !sure ==> {
                &&& after.pending_availability.contains_key(para)
                &&& after.pending_availability[para] == state.pending_availability[para]
            }
        }),
{
    let answer = the_predicate_decides_on_each_para(pred, state, picks, para);
}

/// Timing out paras removes their candidates and commitments, leaves those of other paras, and
/// leaves the bitfields.
pub proof fn time_out_removes_just_the_paras(state: PalletView, paras: Seq<ParaId>, para: u32)
    ensures
        ({
            let after = state.timed_out(paras);
            &&& after.availability_bitfields == state.availability_bitfields
            &&& after.pending_availability.contains_key(para) == (
            state.pending_availability.contains_key(para) && !paras.contains(ParaId(para)))
            &&& after.pending_availability_commitments.contains_key(para) == (
            state.pending_availability_commitments.contains_key(para) && !paras.contains(
                ParaId(para),
            ))
            &&& after.pending_availability.contains_key(para) ==> after.pending_availability[para]
                == state.pending_availability[para]
            &&& after.pending_availability_commitments.contains_key(para)
                ==> after.pending_availability_commitments[para]
                == state.pending_availability_commitments[para]
        }),
{
    lemma_timed_out_cleans_up(state, paras);
    assert(para_cleaned_up(state, state.timed_out(paras), paras, para));
}

/// A single para that times out is told of with its own descriptor, the digest of its commitments,
/// its head and its core, after what waited before; a para without candidate or commitments is not
/// told of.
pub proof fn a_time_out_is_told_as_it_is(state: PalletView, para: ParaId)
    ensures
        ({
            let pending = state.pending_availability[para.0];
            let commitments = state.pending_availability_commitments[para.0];
            let after = state.timed_out(seq![para]);
            &&& state.pending_availability.contains_key(para.0)
                && state.pending_availability_commitments.contains_key(para.0) ==> after.effects
                == state.effects.push(
                EffectView::DepositEvent(
                    EventView::CandidateTimedOut(
                        CandidateReceipt {
                            descriptor: pending.descriptor,
                            commitments_hash: commitments.digest,
                        },
                        commitments.head_data,
                        pending.core,
                    ),
                ),
            )
            &&& !(state.pending_availability.contains_key(para.0)
                && state.pending_availability_commitments.contains_key(para.0)) ==> after.effects
                == state.effects
        }),
{
    reveal_with_fuel(PalletView::timed_out, 2);
    assert(seq![para].drop_last() =~= Seq::<ParaId>::empty());
    assert(seq![para].last() == para);
}

/// The cores that are returned are those of the paras that are cleaned up, one for each, in their
/// order.
pub proof fn cores_are_those_of_the_paras(state: PalletView, paras: Seq<ParaId>, i: int)
    ensures
        state.cores_of(paras).len() == paras.len(),
        0 <= i < paras.len() ==> state.cores_of(paras)[i]
            == state.pending_availability[paras[i].0].core,
{
}

/// The paras that are picked are those with a yes, each once, in the order of the walk.
pub proof fn picked_paras_are_those_with_a_yes(keys: Seq<u32>, picks: Seq<bool>)
    requires
        keys.no_duplicates(),
    ensures
        forall|i: int|
            0 <= i < keys.len() ==> picked(keys, picks).contains(ParaId(#[trigger] keys[i]))
                == picks[i],
        forall|para: ParaId| #[trigger]
            picked(keys, picks).contains(para) ==> keys.contains(para.0),
        picked(keys, picks).no_duplicates(),
        forall|i: int, j: int|
            0 <= i < j < picked(keys, picks).len() ==> keys.index_of(
                (#[trigger] picked(keys, picks)[i]).0,
            ) < keys.index_of((#[trigger] picked(keys, picks)[j]).0),
    decreases keys.len(),
{
    lemma_picked_members(keys, picks);
    if keys.len() > 0 {
        let rest = keys.drop_last();
        let had = picked(rest, picks);
        let all = picked(keys, picks);
        picked_paras_are_those_with_a_yes(rest, picks);
        assert forall|para: ParaId| #[trigger] had.contains(para) implies keys.index_of(para.0)
            == rest.index_of(para.0) && rest.index_of(para.0) < rest.len() by {
            let m = rest.index_of(para.0);
            assert(rest.contains(para.0));
            assert(0 <= m < rest.len() && rest[m] == para.0);
            assert(keys[m] == para.0);
            let n = keys.index_of(para.0);
            assert(0 <= n < keys.len() && keys[n] == para.0);
        }
        assert forall|i: int, j: int| 0 <= i < j < all.len() implies keys.index_of(
            (#[trigger] all[i]).0,
        ) < keys.index_of((#[trigger] all[j]).0) by {
            assert(all[i] == had[i]);
            assert(had.contains(had[i]));
            if j < had.len() {
                assert(all[j] == had[j]);
                assert(had.contains(had[j]));
            } else {
                let n = keys.index_of(keys.last());
                assert(keys[keys.len() - 1] == keys.last());
                assert(0 <= n < keys.len() && keys[n] == keys.last());
            }
        }
    }
}

/// What collecting disputed candidates makes of a para: if the hash of its candidate is on the
/// list, candidate and commitments are gone and the core is among those returned; else both are as
/// they were. Bitfields and effects are left alone.
pub proof fn the_list_decides_on_each_para(
    state: PalletView,
    disputed: Seq<CandidateHash>,
    para: u32,
)
    requires
        state.is_walked(),
        state.pending_availability.contains_key(para),
    ensures
        ({
            let pending = state.pending_availability[para];
            let paras = state.disputed_paras(disputed);
            let after = state.evicted(paras);
            &&& after.availability_bitfields == state.availability_bitfields
            &&& after.effects == state.effects
            &&& disputed.contains(pending.hash) ==> {
                &&& !after.pending_availability.contains_key(para)
                &&& !after.pending_availability_commitments.contains_key(para)
                &&& state.cores_of(paras).contains(pending.core)
            }
            &&& !disputed.contains(pending.hash) ==> {
                &&& after.pending_availability.contains_key(para)
                &&& after.pending_availability[para] == pending
                &&& after.pending_availability_commitments.contains_key(para)
                    == state.pending_availability_commitments.contains_key(para)
                &&& state.pending_availability_commitments.contains_key(para)
                    ==> after.pending_availability_commitments[para]
                    == state.pending_availability_commitments[para]
            }
        }),
{
    let paras = state.disputed_paras(disputed);
    lemma_disputed_paras(state, disputed, para);
    lemma_evicted_cleans_up(state, paras);
    assert(para_cleaned_up(state, state.evicted(paras), paras, para));
    if paras.contains(ParaId(para)) {
        let j = choose|j: int| 0 <= j < paras.len() && paras[j] == ParaId(para);
        assert(state.cores_of(paras)[j] == state.pending_availability[para].core);
    }
}

/// Every core that collecting disputed candidates returns is that of a candidate on the list, and
/// no para is counted twice.
pub proof fn only_disputed_cores_are_returned(
    state: PalletView,
    disputed: Seq<CandidateHash>,
    i: int,
)
    requires
        state.is_walked(),
        0 <= i < state.disputed_paras(disputed).len(),
    ensures
        ({
            let paras = state.disputed_paras(disputed);
            &&& paras.no_duplicates()
            &&& state.pending_availability.contains_key(paras[i].0)
            &&& disputed.contains(state.pending_availability[paras[i].0].hash)
            &&& state.cores_of(paras)[i] == state.pending_availability[paras[i].0].core
        }),
{
    let keys = state.pending_walk();
    let paras = state.disputed_paras(disputed);
    lemma_walk_has_no_repeats(keys, state.pending_availability.dom());
    lemma_picked_members(keys, state.disputed_picks(disputed));
    assert(paras.contains(paras[i]));
    assert(ParaId(paras[i].0) == paras[i]);
    lemma_disputed_paras(state, disputed, paras[i].0);
}

/// Every core that collecting pending candidates returns is that of a candidate for which the
/// predicate answered yes, and no para is counted twice.
pub proof fn only_picked_cores_are_returned<P: Fn(CoreIndex, BlockNumber) -> bool>(
    pred: P,
    state: PalletView,
    picks: Seq<bool>,
    i: int,
)
    requires
        state.is_walked(),
        pending_picks(pred, state, picks),
        0 <= i < picked(state.pending_walk(), picks).len(),
    ensures
        ({
            let paras = picked(state.pending_walk(), picks);
            let pending = state.pending_availability[paras[i].0];
            &&& paras.no_duplicates()
            &&& state.pending_availability.contains_key(paras[i].0)
            &&& call_ensures(pred, (pending.core, pending.backed_in_number), true)
            &&& state.cores_of(paras)[i] == pending.core
        }),
{
    let keys = state.pending_walk();
    let paras = picked(keys, picks);
    lemma_walk_has_no_repeats(keys, state.pending_availability.dom());
    lemma_picked_members(keys, picks);
    assert(paras.contains(paras[i]));
    assert(keys.contains(paras[i].0));
    assert(state.pending_availability.dom().contains(paras[i].0));
    let k = choose|k: int| 0 <= k < keys.len() && keys[k] == paras[i].0;
    assert(ParaId(keys[k]) == paras[i]);
    assert(picks[k]);
}

/// What forced enactment does, entry by entry. Without a candidate it does nothing. With one, the
/// candidate and its commitments leave, and the candidate is included as it was stored, with its
/// own votes, if its commitments were there. All else stays.
pub proof fn forced_enactment_includes_what_is_stored(state: PalletView, para: ParaId)
    ensures
        ({
            let after = state.force_enacted(para);
            let pending = state.pending_availability[para.0];
            let commitments = state.pending_availability_commitments[para.0];
            let has_pending = state.pending_availability.contains_key(para.0);
            let has_commitments = state.pending_availability_commitments.contains_key(para.0);
            &&& after.availability_bitfields == state.availability_bitfields
            &&& !has_pending ==> after == state
            &&& has_pending ==> after.pending_availability == state.pending_availability.remove(
                para.0,
            ) && after.pending_availability_commitments
                == state.pending_availability_commitments.remove(para.0)
            &&& has_pending && !has_commitments ==> after.effects == state.effects
            &&& has_pending && has_commitments ==> after.effects == state.effects + enactment(
                pending.relay_parent_number,
                pending.descriptor,
                commitments,
                pending.backers,
                pending.availability_votes,
                pending.core,
                pending.backing_group,
            )
        }),
{
    let has_pending = state.pending_availability.contains_key(para.0);
    let has_commitments = state.pending_availability_commitments.contains_key(para.0);
    if has_pending && !has_commitments {
        assert(state.pending_availability_commitments
            =~= state.pending_availability_commitments.remove(para.0));
    }
}

} // verus!
