//! What including a candidate comes to, and when it happens.
use crate::availability::counted;
use crate::availability::looked_up;
use crate::availability::marks_within;
use crate::availability::record_of;
use crate::availability::records_of;
use crate::availability::settled;
use crate::availability::threshold;
use crate::availability::vouched;
use crate::bitfields::bitfield_fault;
use crate::bitfields::first_fault;
use crate::bitfields::lemma_first_fault_stays;
use crate::bitfields::lemma_no_fault_before;
use crate::bitfields::may_verify;
use crate::bitfields::no_fault_among;
use crate::bitfields::overlap;
use crate::bitfields::refusal;
use crate::bitfields::signatures_checked;
use crate::bits::ones;
use crate::laws::available_candidates_are_included_once;
use crate::laws::available_cores;
use crate::laws::available_cores_become_available;
use crate::laws::becomes_available;
use crate::laws::bitfields_are_taken_when_in_good_order;
use crate::laws::bitfields_decide_on_each_candidate;
use crate::laws::has_core;
use crate::laws::inclusions;
use crate::laws::inclusions_split;
use crate::laws::inherent_creation_only_drops_effects;
use crate::laws::lemma_recorded_leaves_rest;
use crate::laws::lemma_settled_para;
use crate::laws::one_core_at_most;
use crate::laws::one_core_each;
use crate::laws::same_para;
use crate::pallet::enactment;
use crate::pallet::enactment_of;
use crate::pallet::EffectView;
use crate::pallet::Error;
use crate::pallet::EventView;
use crate::pallet::PalletView;
use crate::pallet::PendingView;
use crate::primitives::signed_view;
use crate::primitives::BlockNumber;
use crate::primitives::CandidateDescriptor;
use crate::primitives::CandidateReceipt;
use crate::primitives::CommitmentsView;
use crate::primitives::CoreIndex;
use crate::primitives::GroupIndex;
use crate::primitives::ParaId;
use crate::primitives::SignedBitfieldView;
use crate::primitives::SigningContext;
use crate::primitives::UncheckedSignedAvailabilityBitfield;
use crate::primitives::ValidatorId;
use crate::primitives::H256;
use vstd::prelude::*;

verus! {

/// An included candidate puts down what it committed to, under its own para: both rewards go to the
/// validators whose bit is one, all upward and all horizontal messages are handed on, the queues
/// are pruned as far as it processed them, and the code, the head and the event are its own. The
/// effects come in this order, and there are no others.
pub proof fn an_inclusion_is_what_the_candidate_committed_to(
    relay_parent_number: BlockNumber,
    descriptor: CandidateDescriptor<H256>,
    commitments: CommitmentsView,
    backers: Seq<bool>,
    availability_votes: Seq<bool>,
    core_index: CoreIndex,
    backing_group: GroupIndex,
)
    ensures
        ({
            let effects = enactment(
                relay_parent_number,
                descriptor,
                commitments,
                backers,
                availability_votes,
                core_index,
                backing_group,
            );
            let para = descriptor.para_id;
            let upgrade: int = if commitments.new_validation_code is Some {
                1
            } else {
                0
            };
            &&& effects.len() == 8 + upgrade
            &&& effects[0] matches EffectView::RewardBacking(rewarded) && rewarded.len() == ones(
                backers,
            ).len() && forall|i: int|
                0 <= i < rewarded.len() ==> (#[trigger] rewarded[i]).0 == ones(backers)[i] as u32
            &&& effects[1] matches EffectView::RewardBitfields(rewarded) && rewarded.len() == ones(
                availability_votes,
            ).len() && forall|i: int|
                0 <= i < rewarded.len() ==> (#[trigger] rewarded[i]).0 == ones(
                    availability_votes,
                )[i] as u32
            &&& commitments.new_validation_code matches Some(code) ==> effects[2]
                == EffectView::ScheduleCodeUpgrade(para, code, relay_parent_number)
            &&& effects[2 + upgrade] == EffectView::PruneDmq(
                para,
                commitments.processed_downward_messages,
            )
            &&& effects[3 + upgrade] == EffectView::ReceiveUpwardMessages(
                para,
                commitments.upward_messages,
            )
            &&& effects[4 + upgrade] == EffectView::PruneHrmp(para, commitments.hrmp_watermark)
            &&& effects[5 + upgrade] == EffectView::QueueOutboundHrmp(
                para,
                commitments.horizontal_messages,
            )
            &&& effects[6 + upgrade] == EffectView::DepositEvent(
                EventView::CandidateIncluded(
                    CandidateReceipt { descriptor, commitments_hash: commitments.digest },
                    commitments.head_data,
                    core_index,
                    backing_group,
                ),
            )
            &&& effects[7 + upgrade] == EffectView::NoteNewHead(
                para,
                commitments.head_data,
                relay_parent_number,
            )
        }),
{
}

/// A pending candidate is included as what it is: with its own relay-parent, descriptor, backers,
/// votes, core and group.
pub proof fn a_pending_candidate_is_included_as_it_is(
    pending: PendingView<H256, BlockNumber>,
    commitments: CommitmentsView,
)
    ensures
        enactment_of(pending, commitments) == enactment(
            pending.relay_parent_number,
            pending.descriptor,
            commitments,
            pending.backers,
            pending.availability_votes,
            pending.core,
            pending.backing_group,
        ),
{
}

/// The para of every core, the last one too, is what the lookup answers for it.
pub proof fn every_core_is_looked_up<F: Fn(CoreIndex) -> Option<ParaId>>(
    core_lookup: F,
    expected_bits: int,
    assigned: Seq<Option<ParaId>>,
    i: int,
)
    requires
        looked_up(core_lookup, expected_bits, assigned),
        0 <= i < expected_bits,
    ensures
        assigned.len() == expected_bits,
        call_ensures(core_lookup, (CoreIndex(i as u32),), assigned[i]),
{
}

/// A core whose candidate has enough votes is freed.
proof fn lemma_freed_when_available(
    start: PalletView,
    state: PalletView,
    assigned: Seq<Option<ParaId>>,
    signed: Seq<SignedBitfieldView>,
    n: int,
    needed: int,
    is_create_inherent: bool,
    core: int,
    para: ParaId,
)
    requires
        one_core_at_most(assigned, para.0),
        0 <= core < n <= assigned.len(),
        assigned[core] == Some(para),
        start.pending_availability == state.pending_availability,
        start.pending_availability_commitments == state.pending_availability_commitments,
        state.pending_availability.contains_key(para.0),
        state.pending_availability_commitments.contains_key(para.0),
        ones(
            counted(state.pending_availability[para.0], core, signed).availability_votes,
        ).len() >= needed,
    ensures
        settled(
            start,
            assigned,
            records_of(state, assigned, signed).take(n),
            needed,
            is_create_inherent,
        ).freed.contains(
            (
                state.pending_availability[para.0].core,
                state.pending_availability[para.0].hash,
            ),
        ),
    decreases n,
{
    let records = records_of(state, assigned, signed);
    let before = settled(start, assigned, records.take(n - 1), needed, is_create_inherent);
    let after = settled(start, assigned, records.take(n), needed, is_create_inherent);
    let pair = (
        state.pending_availability[para.0].core,
        state.pending_availability[para.0].hash,
    );
    assert(records.take(n).drop_last() =~= records.take(n - 1));
    assert(records.take(n).last() == record_of(state, assigned[n - 1], n - 1, signed));
    if core < n - 1 {
        lemma_freed_when_available(
            start,
            state,
            assigned,
            signed,
            n - 1,
            needed,
            is_create_inherent,
            core,
            para,
        );
        let i = choose|i: int| 0 <= i < before.freed.len() && before.freed[i] == pair;
        assert(after.freed[i] == pair);
    } else {
        lemma_settled_para(
            start,
            state,
            assigned,
            signed,
            n - 1,
            needed,
            is_create_inherent,
            para.0,
        );
        assert(para == ParaId(para.0));
        assert forall|c: int| !#[trigger] has_core(assigned, n - 1, para.0, c) by {
            if has_core(assigned, n - 1, para.0, c) {
                assert(assigned[c] == assigned[core]);
            }
        }
        assert(same_para(start, before.state, para.0));
        assert(after.freed[after.freed.len() - 1] == pair);
    }
}

/// The candidate of the para of a core is decided by the votes for the core. A validator counts if
/// its vote was there before, or if a bitfield with its index has a one at the core. With enough
/// votes the candidate and its commitments leave, and its core and hash are among those freed if
/// its commitments were stored; else it stays, with just these votes, and so do its commitments.
pub proof fn votes_for_a_core_decide_on_its_candidate(
    state: PalletView,
    now: BlockNumber,
    assigned: Seq<Option<ParaId>>,
    n_validators: nat,
    signed: Seq<SignedBitfieldView>,
    is_create_inherent: bool,
    core: int,
    para: ParaId,
)
    requires
        0 <= core < assigned.len(),
        assigned[core] == Some(para),
        forall|k: int|
            0 <= k < assigned.len() && k != core ==> #[trigger] assigned[k] != Some(para),
        state.pending_availability.contains_key(para.0),
    ensures
        ({
            let pending = state.pending_availability[para.0];
            let votes = Seq::new(
                pending.availability_votes.len(),
                |v: int|
                    pending.availability_votes[v] || exists|j: int|
                        0 <= j < signed.len() && (#[trigger] signed[j]).validator_index.0 == v
                            && core < signed[j].bits.len() && signed[j].bits[core],
            );
            let done = state.with_bitfields(
                now,
                assigned,
                n_validators as int,
                signed,
                is_create_inherent,
            );
            if ones(votes).len() >= threshold(n_validators as int) {
                &&& !done.state.pending_availability.contains_key(para.0)
                &&& !done.state.pending_availability_commitments.contains_key(para.0)
                &&& state.pending_availability_commitments.contains_key(para.0)
                    ==> done.freed.contains((pending.core, pending.hash))
            } else {
                &&& done.state.pending_availability.contains_key(para.0)
                &&& done.state.pending_availability[para.0] == (PendingView {
                    availability_votes: votes,
                    ..pending
                })
                &&& done.state.pending_availability_commitments.contains_key(para.0)
                    == state.pending_availability_commitments.contains_key(para.0)
                &&& state.pending_availability_commitments.contains_key(para.0)
                    ==> done.state.pending_availability_commitments[para.0]
                    == state.pending_availability_commitments[para.0]
            }
        }),
{
    let pending = state.pending_availability[para.0];
    let votes = Seq::new(
        pending.availability_votes.len(),
        |v: int|
            pending.availability_votes[v] || exists|j: int|
                0 <= j < signed.len() && (#[trigger] signed[j]).validator_index.0 == v
                    && core < signed[j].bits.len() && signed[j].bits[core],
    );
    let record = counted(pending, core, signed);
    let needed = threshold(n_validators as int);
    let done = state.with_bitfields(
        now,
        assigned,
        n_validators as int,
        signed,
        is_create_inherent,
    );
    assert forall|v: int| 0 <= v < votes.len() implies votes[v]
        == record.availability_votes[v] by {
        assert(vouched(signed, core, v) == exists|j: int|
            0 <= j < signed.len() && (#[trigger] signed[j]).validator_index.0 == v && core
                < signed[j].bits.len() && signed[j].bits[core]);
    }
    assert(record.availability_votes =~= votes);
    assert(record =~= (PendingView { availability_votes: votes, ..pending }));
    assert(para == ParaId(para.0));
    assert(one_core_at_most(assigned, para.0)) by {
        assert forall|i: int, j: int|
            0 <= i < j < assigned.len() && #[trigger] assigned[i] == Some(
                ParaId(para.0),
            ) implies assigned[i] != #[trigger] assigned[j] by {
            assert(i == core || assigned[i] != Some(para));
            assert(j == core || assigned[j] != Some(para));
        }
    }
    assert(has_core(assigned, assigned.len() as int, para.0, core));
    bitfields_decide_on_each_candidate(
        state,
        now,
        assigned,
        n_validators,
        signed,
        is_create_inherent,
        para.0,
    );
    if ones(votes).len() >= needed && state.pending_availability_commitments.contains_key(para.0) {
        let records = records_of(state, assigned, signed);
        assert(records.take(records.len() as int) =~= records);
        lemma_recorded_leaves_rest(state, signed, now);
        lemma_freed_when_available(
            state.recorded(signed, now),
            state,
            assigned,
            signed,
            assigned.len() as int,
            needed,
            is_create_inherent,
            core,
            para,
        );
    }
}

/// A para without a candidate, or that no core is looked up to, is left alone by the bitfields.
pub proof fn bitfields_leave_paras_without_a_core(
    state: PalletView,
    now: BlockNumber,
    assigned: Seq<Option<ParaId>>,
    n_validators: nat,
    signed: Seq<SignedBitfieldView>,
    is_create_inherent: bool,
    para: ParaId,
)
    requires
        forall|k: int| 0 <= k < assigned.len() ==> #[trigger] assigned[k] != Some(para),
    ensures
        ({
            let after = state.with_bitfields(
                now,
                assigned,
                n_validators as int,
                signed,
                is_create_inherent,
            ).state;
            &&& after.pending_availability.contains_key(para.0)
                == state.pending_availability.contains_key(para.0)
            &&& state.pending_availability.contains_key(para.0)
                ==> after.pending_availability[para.0] == state.pending_availability[para.0]
            &&& after.pending_availability_commitments.contains_key(para.0)
                == state.pending_availability_commitments.contains_key(para.0)
            &&& state.pending_availability_commitments.contains_key(para.0)
                ==> after.pending_availability_commitments[para.0]
                == state.pending_availability_commitments[para.0]
        }),
{
    assert(para == ParaId(para.0));
    assert forall|c: int| !#[trigger] has_core(assigned, assigned.len() as int, para.0, c) by {
        if has_core(assigned, assigned.len() as int, para.0, c) {
            assert(assigned[c] == Some(para));
        }
    }
    bitfields_decide_on_each_candidate(
        state,
        now,
        assigned,
        n_validators,
        signed,
        is_create_inherent,
        para.0,
    );
}

/// All votes for a core: those given before, and those of the bitfields that have a one at it.
pub open spec fn votes_for_core(
    given: Seq<bool>,
    signed: Seq<SignedBitfieldView>,
    core: int,
) -> Seq<bool> {
    Seq::new(
        given.len(),
        |v: int|
            given[v] || exists|j: int|
                0 <= j < signed.len() && (#[trigger] signed[j]).validator_index.0 == v && core
                    < signed[j].bits.len() && signed[j].bits[core],
    )
}

/// Counting gives all votes for the core, and changes nothing else of the candidate.
proof fn lemma_counted_is_all_votes(
    pending: PendingView<H256, BlockNumber>,
    signed: Seq<SignedBitfieldView>,
    core: int,
)
    ensures
        counted(pending, core, signed) == (PendingView {
            availability_votes: votes_for_core(pending.availability_votes, signed, core),
            ..pending
        }),
{
    let votes = votes_for_core(pending.availability_votes, signed, core);
    let record = counted(pending, core, signed);
    assert forall|v: int| 0 <= v < votes.len() implies votes[v]
        == record.availability_votes[v] by {
        assert(vouched(signed, core, v) == exists|j: int|
            0 <= j < signed.len() && (#[trigger] signed[j]).validator_index.0 == v && core
                < signed[j].bits.len() && signed[j].bits[core]);
    }
    assert(record.availability_votes =~= votes);
}

/// The cores that are freed are those with a candidate that is stored with its commitments and has
/// enough votes, each once, in ascending order, and each is given with the core and the hash that
/// the candidate was stored with. This holds of the creation of an inherent too.
pub proof fn freed_cores_are_those_with_enough_votes(
    state: PalletView,
    now: BlockNumber,
    assigned: Seq<Option<ParaId>>,
    n_validators: nat,
    signed: Seq<SignedBitfieldView>,
    is_create_inherent: bool,
) -> (cores: Seq<int>)
    requires
        one_core_each(assigned),
    ensures
        ({
            let done = state.with_bitfields(
                now,
                assigned,
                n_validators as int,
                signed,
                is_create_inherent,
            );
            &&& done.freed.len() == cores.len()
            &&& forall|i: int, j: int|
                0 <= i < j < cores.len() ==> #[trigger] cores[i] < #[trigger] cores[j]
            &&& forall|i: int|
                0 <= i < cores.len() ==> {
                    let core = #[trigger] cores[i];
                    let para = assigned[core].unwrap().0;
                    let pending = state.pending_availability[para];
                    &&& 0 <= core < assigned.len()
                    &&& assigned[core] is Some
                    &&& state.pending_availability.contains_key(para)
                    &&& state.pending_availability_commitments.contains_key(para)
                    &&& ones(votes_for_core(pending.availability_votes, signed, core)).len()
                        >= threshold(n_validators as int)
                    &&& done.freed[i] == (pending.core, pending.hash)
                }
            &&& forall|core: int|
                0 <= core < assigned.len() && (#[trigger] assigned[core]) is Some && ({
                    let para = assigned[core].unwrap().0;
                    let pending = state.pending_availability[para];
                    &&& state.pending_availability.contains_key(para)
                    &&& state.pending_availability_commitments.contains_key(para)
                    &&& ones(votes_for_core(pending.availability_votes, signed, core)).len()
                        >= threshold(n_validators as int)
                }) ==> cores.contains(core)
        }),
{
    let needed = threshold(n_validators as int);
    let cores = available_cores(state, assigned, signed, needed, assigned.len() as int);
    available_candidates_are_included_once(state, now, assigned, n_validators, signed);
    inherent_creation_only_drops_effects(state, now, assigned, n_validators, signed);
    lemma_available_cores_ascend(state, assigned, signed, needed, assigned.len() as int);
    assert forall|i: int| 0 <= i < cores.len() implies {
        let core = #[trigger] cores[i];
        let para = assigned[core].unwrap().0;
        let pending = state.pending_availability[para];
        &&& 0 <= core < assigned.len()
        &&& assigned[core] is Some
        &&& state.pending_availability.contains_key(para)
        &&& state.pending_availability_commitments.contains_key(para)
        &&& ones(votes_for_core(pending.availability_votes, signed, core)).len() >= needed
    } by {
        let core = cores[i];
        assert(cores.contains(core));
        available_cores_become_available(
            state,
            assigned,
            signed,
            needed,
            assigned.len() as int,
            core,
        );
        lemma_counted_is_all_votes(
            state.pending_availability[assigned[core].unwrap().0],
            signed,
            core,
        );
    }
    assert forall|core: int|
        0 <= core < assigned.len() && (#[trigger] assigned[core]) is Some && ({
            let para = assigned[core].unwrap().0;
            let pending = state.pending_availability[para];
            &&& state.pending_availability.contains_key(para)
            &&& state.pending_availability_commitments.contains_key(para)
            &&& ones(votes_for_core(pending.availability_votes, signed, core)).len() >= needed
        }) implies cores.contains(core) by {
        available_cores_become_available(
            state,
            assigned,
            signed,
            needed,
            assigned.len() as int,
            core,
        );
        lemma_counted_is_all_votes(
            state.pending_availability[assigned[core].unwrap().0],
            signed,
            core,
        );
    }
    cores
}

/// The available cores ascend.
proof fn lemma_available_cores_ascend(
    state: PalletView,
    assigned: Seq<Option<ParaId>>,
    signed: Seq<SignedBitfieldView>,
    needed: int,
    n: int,
)
    ensures
        ({
            let cores = available_cores(state, assigned, signed, needed, n);
            &&& forall|i: int, j: int|
                0 <= i < j < cores.len() ==> #[trigger] cores[i] < #[trigger] cores[j]
            &&& forall|i: int| 0 <= i < cores.len() ==> 0 <= #[trigger] cores[i] < n
        }),
    decreases n,
{
    if n > 0 {
        lemma_available_cores_ascend(state, assigned, signed, needed, n - 1);
        let had = available_cores(state, assigned, signed, needed, n - 1);
        let cores = available_cores(state, assigned, signed, needed, n);
        assert forall|i: int| 0 <= i < cores.len() implies 0 <= #[trigger] cores[i] < n by {
            if i < had.len() {
                assert(cores[i] == had[i]);
            }
        }
        assert forall|i: int, j: int| 0 <= i < j < cores.len() implies #[trigger] cores[i]
            < #[trigger] cores[j] by {
            assert(cores[i] == had[i]);
            if j < had.len() {
                assert(cores[j] == had[j]);
            }
        }
    }
}

/// A candidate with enough votes is included with all of them: after what waited before, and
/// whatever other candidates put down, its effects stand in one piece, for its own relay-parent,
/// descriptor, commitments, backers, core and group. Returns what stands before and after them.
pub proof fn an_available_candidate_is_included_with_all_votes(
    state: PalletView,
    now: BlockNumber,
    assigned: Seq<Option<ParaId>>,
    n_validators: nat,
    signed: Seq<SignedBitfieldView>,
    core: int,
    para: ParaId,
) -> (parts: (Seq<EffectView>, Seq<EffectView>))
    requires
        one_core_each(assigned),
        0 <= core < assigned.len(),
        assigned[core] == Some(para),
        state.pending_availability.contains_key(para.0),
        state.pending_availability_commitments.contains_key(para.0),
        ones(
            votes_for_core(
                state.pending_availability[para.0].availability_votes,
                signed,
                core,
            ),
        ).len() >= threshold(n_validators as int),
    ensures
        ({
            let pending = state.pending_availability[para.0];
            state.with_bitfields(now, assigned, n_validators as int, signed, false).state.effects
                == state.effects + parts.0 + enactment(
                pending.relay_parent_number,
                pending.descriptor,
                state.pending_availability_commitments[para.0],
                pending.backers,
                votes_for_core(pending.availability_votes, signed, core),
                pending.core,
                pending.backing_group,
            ) + parts.1
        }),
{
    let needed = threshold(n_validators as int);
    let pending = state.pending_availability[para.0];
    let cores = available_cores(state, assigned, signed, needed, assigned.len() as int);
    lemma_counted_is_all_votes(pending, signed, core);
    available_candidates_are_included_once(state, now, assigned, n_validators, signed);
    available_cores_become_available(
        state,
        assigned,
        signed,
        needed,
        assigned.len() as int,
        core,
    );
    assert(becomes_available(state, assigned, signed, needed, core));
    let i = choose|i: int| 0 <= i < cores.len() && cores[i] == core;
    let (earlier, later) = inclusions_split(state, assigned, signed, cores, i);
    let own = enactment(
        pending.relay_parent_number,
        pending.descriptor,
        state.pending_availability_commitments[para.0],
        pending.backers,
        votes_for_core(pending.availability_votes, signed, core),
        pending.core,
        pending.backing_group,
    );
    assert(inclusions(state, assigned, signed, cores) =~= earlier + own + later);
    assert(state.effects + (earlier + own + later) =~= state.effects + earlier + own + later);
    (earlier, later)
}

/// Where no candidate is stored with its commitments and has enough votes, nothing is put down.
pub proof fn nothing_is_put_down_where_nothing_is_available(
    state: PalletView,
    now: BlockNumber,
    assigned: Seq<Option<ParaId>>,
    n_validators: nat,
    signed: Seq<SignedBitfieldView>,
)
    requires
        one_core_each(assigned),
        forall|core: int|
            0 <= core < assigned.len() && (#[trigger] assigned[core]) is Some ==> {
                let para = assigned[core].unwrap().0;
                ||| !state.pending_availability.contains_key(para)
                ||| !state.pending_availability_commitments.contains_key(para)
                ||| ones(
                    votes_for_core(
                        state.pending_availability[para].availability_votes,
                        signed,
                        core,
                    ),
                ).len() < threshold(n_validators as int)
            },
    ensures
        ({
            let done = state.with_bitfields(now, assigned, n_validators as int, signed, false);
            &&& done.freed.len() == 0
            &&& done.state.effects == state.effects
        }),
{
    let needed = threshold(n_validators as int);
    let cores = available_cores(state, assigned, signed, needed, assigned.len() as int);
    let found = freed_cores_are_those_with_enough_votes(
        state,
        now,
        assigned,
        n_validators,
        signed,
        false,
    );
    if found.len() > 0 {
        assert(assigned[found[0]] is Some);
    }
    available_candidates_are_included_once(state, now, assigned, n_validators, signed);
    assert(cores.len() == 0);
    assert(state.effects + inclusions(state, assigned, signed, cores) =~= state.effects);
}

/// Bitfields are taken if and only if there is one bit of dispute per expected core, and each
/// bitfield has the expected size, has a one at no disputed core, comes from a validator of the
/// set that comes after the one before it, and bears a valid signature.
pub proof fn bitfields_are_taken_without_a_fault(
    signed: Seq<SignedBitfieldView>,
    disputed: Seq<bool>,
    expected_bits: int,
    n_validators: int,
    signatures: Seq<bool>,
)
    ensures
        refusal(signed, disputed, expected_bits, n_validators, signatures) is None <==> {
            &&& disputed.len() == expected_bits
            &&& forall|j: int|
                0 <= j < signed.len() ==> {
                    &&& (#[trigger] signed[j]).bits.len() == expected_bits
                    &&& forall|i: int|
                        0 <= i < expected_bits && #[trigger] disputed[i] ==> !signed[j].bits[i]
                    &&& signed[j].validator_index.0 < n_validators
                    &&& signatures[j]
                }
            &&& forall|i: int, j: int|
                0 <= i < j < signed.len() ==> (#[trigger] signed[i]).validator_index.0 < (
                #[trigger] signed[j]).validator_index.0
        },
{
    bitfields_are_taken_when_in_good_order(
        signed,
        disputed,
        expected_bits,
        n_validators,
        signatures,
    );
    if disputed.len() == expected_bits {
        assert forall|j: int|
            0 <= j < signed.len() && (#[trigger] signed[j]).bits.len()
                == expected_bits implies overlap(signed[j].bits, disputed) == exists|i: int|
            0 <= i < expected_bits && #[trigger] disputed[i] && signed[j].bits[i] by {
            lemma_overlap(signed[j].bits, disputed);
        }
    }
}

/// Bitfields of the same length overlap where both have a one.
proof fn lemma_overlap(a: Seq<bool>, b: Seq<bool>)
    requires
        a.len() == b.len(),
    ensures
        overlap(a, b) == exists|i: int| 0 <= i < b.len() && #[trigger] b[i] && a[i],
{
    if overlap(a, b) {
        let i = choose|i: int| 0 <= i < a.len() && i < b.len() && #[trigger] a[i] && b[i];
        assert(b[i] && a[i]);
    }
    if exists|i: int| 0 <= i < b.len() && #[trigger] b[i] && a[i] {
        let i = choose|i: int| 0 <= i < b.len() && #[trigger] b[i] && a[i];
        assert(a[i] && b[i]);
    }
}

/// Where bitfields are refused, the error is that of the first faulty one, and of the first fault
/// that it has: the size, a disputed core, the order of validators, a validator that is not in the
/// set, the signature.
pub proof fn the_first_fault_of_bitfields_is_answered(
    signed: Seq<SignedBitfieldView>,
    disputed: Seq<bool>,
    expected_bits: int,
    n_validators: int,
    signatures: Seq<bool>,
    j: int,
)
    requires
        disputed.len() == expected_bits,
        0 <= j < signed.len(),
        forall|i: int|
            0 <= i < j ==> {
                &&& (#[trigger] signed[i]).bits.len() == expected_bits
                &&& forall|c: int|
                    0 <= c < expected_bits && #[trigger] disputed[c] ==> !signed[i].bits[c]
                &&& signed[i].validator_index.0 < n_validators
                &&& signatures[i]
            },
        forall|i: int, k: int|
            0 <= i < k < j ==> (#[trigger] signed[i]).validator_index.0 < (
            #[trigger] signed[k]).validator_index.0,
    ensures
        ({
            let answer = refusal(signed, disputed, expected_bits, n_validators, signatures);
            let field = signed[j];
            let sized = field.bits.len() == expected_bits;
            let clear = forall|c: int|
                0 <= c < expected_bits && #[trigger] disputed[c] ==> !field.bits[c];
            let ordered = j > 0 ==> signed[j - 1].validator_index.0 < field.validator_index.0;
            let known = field.validator_index.0 < n_validators;
            &&& !sized ==> answer == Some(Error::WrongBitfieldSize)
            &&& sized && !clear ==> answer == Some(Error::BitfieldReferencesFreedCore)
            &&& sized && clear && !ordered ==> answer == Some(Error::BitfieldDuplicateOrUnordered)
            &&& sized && clear && ordered && !known ==> answer == Some(
                Error::ValidatorIndexOutOfBounds,
            )
            &&& sized && clear && ordered && known && !signatures[j] ==> answer == Some(
                Error::InvalidBitfieldSignature,
            )
        }),
{
    let earlier = signed.take(j);
    bitfields_are_taken_without_a_fault(earlier, disputed, expected_bits, n_validators, signatures);
    assert forall|i: int| 0 <= i < earlier.len() implies (#[trigger] earlier[i])
        == signed[i] by {}
    assert(refusal(earlier, disputed, expected_bits, n_validators, signatures) is None);
    lemma_first_fault_of_more(
        earlier,
        signed,
        j,
        disputed,
        expected_bits,
        n_validators,
        signatures,
    );
    if signed[j].bits.len() == expected_bits {
        lemma_overlap(signed[j].bits, disputed);
    }
    if bitfield_fault(
        signed,
        j,
        disputed,
        expected_bits,
        n_validators,
        signatures[j],
    ) is Some {
        lemma_first_fault_stays(
            signed,
            j + 1,
            signed.len() as int,
            disputed,
            expected_bits,
            n_validators,
            signatures,
        );
    }
}

/// A wrong number of dispute bits is answered before any bitfield is looked at.
pub proof fn dispute_bits_must_be_as_many_as_cores(
    signed: Seq<SignedBitfieldView>,
    disputed: Seq<bool>,
    expected_bits: int,
    n_validators: int,
    signatures: Seq<bool>,
)
    requires
        disputed.len() != expected_bits,
    ensures
        refusal(signed, disputed, expected_bits, n_validators, signatures) == Some(
            Error::WrongBitfieldSize,
        ),
{
}

/// The faults among the first bitfields do not depend on those after them.
proof fn lemma_first_fault_of_more(
    a: Seq<SignedBitfieldView>,
    b: Seq<SignedBitfieldView>,
    n: int,
    disputed: Seq<bool>,
    expected_bits: int,
    n_validators: int,
    signatures: Seq<bool>,
)
    requires
        n <= a.len(),
        n <= b.len(),
        forall|i: int| 0 <= i < n ==> #[trigger] a[i] == b[i],
    ensures
        first_fault(a, n, disputed, expected_bits, n_validators, signatures) == first_fault(
            b,
            n,
            disputed,
            expected_bits,
            n_validators,
            signatures,
        ),
    decreases n,
{
    if n > 0 {
        lemma_first_fault_of_more(
            a,
            b,
            n - 1,
            disputed,
            expected_bits,
            n_validators,
            signatures,
        );
        assert(a[n - 1] == b[n - 1]);
        if n > 1 {
            assert(a[n - 2] == b[n - 2]);
        }
    }
}

/// Where bitfields are taken, the signature check found each of them signed, in the given context,
/// by the validator with its index.
pub proof fn taken_bitfields_are_signed<
    G: Fn(&UncheckedSignedAvailabilityBitfield, &SigningContext, &ValidatorId) -> bool,
>(
    verify: G,
    bitfields: Seq<UncheckedSignedAvailabilityBitfield>,
    disputed: Seq<bool>,
    expected_bits: int,
    context: SigningContext,
    validators: Seq<ValidatorId>,
    signatures: Seq<bool>,
    j: int,
)
    requires
        signatures_checked(
            verify,
            bitfields,
            disputed,
            expected_bits,
            context,
            validators,
            signatures,
        ),
        refusal(
            signed_view(bitfields),
            disputed,
            expected_bits,
            validators.len() as int,
            signatures,
        ) is None,
        0 <= j < bitfields.len(),
    ensures
        bitfields[j].validator_index.0 < validators.len(),
        call_ensures(
            verify,
            (&bitfields[j], &context, &validators[bitfields[j].validator_index.0 as int]),
            true,
        ),
{
    let signed = signed_view(bitfields);
    let n = validators.len() as int;
    lemma_no_fault_before(
        signed,
        j,
        signed.len() as int,
        disputed,
        expected_bits,
        n,
        signatures,
    );
    no_fault_among(signed, signed.len() as int, disputed, expected_bits, n, signatures);
    assert(bitfield_fault(signed, j, disputed, expected_bits, n, signatures[j]) is None);
    assert(signatures[j]);
}

/// Bitfields without another fault are taken, if the signature check can only find them signed.
pub proof fn well_signed_bitfields_are_taken<
    G: Fn(&UncheckedSignedAvailabilityBitfield, &SigningContext, &ValidatorId) -> bool,
>(
    verify: G,
    bitfields: Seq<UncheckedSignedAvailabilityBitfield>,
    disputed: Seq<bool>,
    expected_bits: int,
    context: SigningContext,
    validators: Seq<ValidatorId>,
    signatures: Seq<bool>,
)
    requires
        signatures_checked(
            verify,
            bitfields,
            disputed,
            expected_bits,
            context,
            validators,
            signatures,
        ),
        disputed.len() == expected_bits,
        forall|j: int|
            0 <= j < bitfields.len() ==> {
                &&& (#[trigger] bitfields[j]).payload.0@.len() == expected_bits
                &&& forall|i: int|
                    0 <= i < expected_bits && #[trigger] disputed[i]
                        ==> !bitfields[j].payload.0@[i]
                &&& bitfields[j].validator_index.0 < validators.len()
                &&& forall|answer: bool| #[trigger]
                    call_ensures(
                        verify,
                        (
                            &bitfields[j],
                            &context,
                            &validators[bitfields[j].validator_index.0 as int],
                        ),
                        answer,
                    ) ==> answer
            },
        forall|i: int, j: int|
            0 <= i < j < bitfields.len() ==> (#[trigger] bitfields[i]).validator_index.0 < (
            #[trigger] bitfields[j]).validator_index.0,
    ensures
        refusal(
            signed_view(bitfields),
            disputed,
            expected_bits,
            validators.len() as int,
            signatures,
        ) is None,
{
    lemma_well_signed_no_fault(
        verify,
        bitfields,
        disputed,
        expected_bits,
        context,
        validators,
        signatures,
        bitfields.len() as int,
    );
}

/// The same, of the first `n` bitfields.
proof fn lemma_well_signed_no_fault<
    G: Fn(&UncheckedSignedAvailabilityBitfield, &SigningContext, &ValidatorId) -> bool,
>(
    verify: G,
    bitfields: Seq<UncheckedSignedAvailabilityBitfield>,
    disputed: Seq<bool>,
    expected_bits: int,
    context: SigningContext,
    validators: Seq<ValidatorId>,
    signatures: Seq<bool>,
    n: int,
)
    requires
        0 <= n <= bitfields.len(),
        signatures_checked(
            verify,
            bitfields,
            disputed,
            expected_bits,
            context,
            validators,
            signatures,
        ),
        disputed.len() == expected_bits,
        forall|j: int|
            0 <= j < bitfields.len() ==> {
                &&& (#[trigger] bitfields[j]).payload.0@.len() == expected_bits
                &&& forall|i: int|
                    0 <= i < expected_bits && #[trigger] disputed[i]
                        ==> !bitfields[j].payload.0@[i]
                &&& bitfields[j].validator_index.0 < validators.len()
                &&& forall|answer: bool| #[trigger]
                    call_ensures(
                        verify,
                        (
                            &bitfields[j],
                            &context,
                            &validators[bitfields[j].validator_index.0 as int],
                        ),
                        answer,
                    ) ==> answer
            },
        forall|i: int, j: int|
            0 <= i < j < bitfields.len() ==> (#[trigger] bitfields[i]).validator_index.0 < (
            #[trigger] bitfields[j]).validator_index.0,
    ensures
        first_fault(
            signed_view(bitfields),
            n,
            disputed,
            expected_bits,
            validators.len() as int,
            signatures,
        ) is None,
    decreases n,
{
    if n > 0 {
        let signed = signed_view(bitfields);
        let j = n - 1;
        lemma_well_signed_no_fault(
            verify,
            bitfields,
            disputed,
            expected_bits,
            context,
            validators,
            signatures,
            j,
        );
        assert(signed[j] == bitfields[j]@);
        assert(bitfields[j].payload.0@.len() == expected_bits);
        lemma_overlap(signed[j].bits, disputed);
        if j > 0 {
            assert(signed[j - 1] == bitfields[j - 1]@);
            assert(bitfields[j - 1].validator_index.0 < bitfields[j].validator_index.0);
        }
        assert(bitfield_fault(
            signed,
            j,
            disputed,
            expected_bits,
            validators.len() as int,
            true,
        ) is None);
        assert(call_ensures(
            verify,
            (&bitfields[j], &context, &validators[bitfields[j].validator_index.0 as int]),
            signatures[j],
        ));
    }
}

/// A core that the lookup can only answer with a para, and no other core with the same para, is
/// freed if the candidate of the para is stored with its commitments and has enough votes for the
/// core. The para is then free.
pub proof fn a_core_with_enough_votes_is_freed<F: Fn(CoreIndex) -> Option<ParaId>>(
    state: PalletView,
    now: BlockNumber,
    core_lookup: F,
    expected_bits: int,
    assigned: Seq<Option<ParaId>>,
    n_validators: nat,
    signed: Seq<SignedBitfieldView>,
    is_create_inherent: bool,
    core: CoreIndex,
    para: ParaId,
)
    requires
        looked_up(core_lookup, expected_bits, assigned),
        core.0 < expected_bits <= 0x1_0000_0000,
        forall|answer: Option<ParaId>| #[trigger]
            call_ensures(core_lookup, (core,), answer) ==> answer == Some(para),
        forall|other: CoreIndex, answer: Option<ParaId>|
            other.0 < expected_bits && other != core && #[trigger] call_ensures(
                core_lookup,
                (other,),
                answer,
            ) ==> answer != Some(para),
        state.pending_availability.contains_key(para.0),
        state.pending_availability_commitments.contains_key(para.0),
        ones(
            votes_for_core(
                state.pending_availability[para.0].availability_votes,
                signed,
                core.0 as int,
            ),
        ).len() >= threshold(n_validators as int),
    ensures
        ({
            let done = state.with_bitfields(
                now,
                assigned,
                n_validators as int,
                signed,
                is_create_inherent,
            );
            &&& !done.state.pending_availability.contains_key(para.0)
            &&& !done.state.pending_availability_commitments.contains_key(para.0)
            &&& done.freed.contains(
                (
                    state.pending_availability[para.0].core,
                    state.pending_availability[para.0].hash,
                ),
            )
        }),
{
    let c = core.0 as int;
    let pending = state.pending_availability[para.0];
    every_core_is_looked_up(core_lookup, expected_bits, assigned, c);
    assert(CoreIndex(c as u32) == core);
    assert(assigned[c] == Some(para));
    assert forall|k: int| 0 <= k < assigned.len() && k != c implies #[trigger] assigned[k] != Some(
        para,
    ) by {
        every_core_is_looked_up(core_lookup, expected_bits, assigned, k);
        assert((k as u32) as int == k);
        assert(CoreIndex(k as u32) != core);
        assert(call_ensures(core_lookup, (CoreIndex(k as u32),), assigned[k]));
    }
    lemma_counted_is_all_votes(pending, signed, c);
    votes_for_a_core_decide_on_its_candidate(
        state,
        now,
        assigned,
        n_validators,
        signed,
        is_create_inherent,
        c,
        para,
    );
    assert(Seq::new(
        pending.availability_votes.len(),
        |v: int|
            pending.availability_votes[v] || exists|j: int|
                0 <= j < signed.len() && (#[trigger] signed[j]).validator_index.0 == v && c
                    < signed[j].bits.len() && signed[j].bits[c],
    ) =~= votes_for_core(pending.availability_votes, signed, c));
}

/// A signature check that can be asked anything can be asked about all bitfields.
pub proof fn a_ready_signature_check_can_be_asked<
    G: Fn(&UncheckedSignedAvailabilityBitfield, &SigningContext, &ValidatorId) -> bool,
>(
    verify: G,
    bitfields: Seq<UncheckedSignedAvailabilityBitfield>,
    disputed: Seq<bool>,
    expected_bits: int,
    context: SigningContext,
    validators: Seq<ValidatorId>,
)
    requires
        forall|
            bitfield: UncheckedSignedAvailabilityBitfield,
            bound_to: SigningContext,
            key: ValidatorId,
        | #[trigger]
            call_requires(verify, (&bitfield, &bound_to, &key)),
    ensures
        may_verify(verify, bitfields, disputed, expected_bits, context, validators),
{
}

/// Bitfields with no more bits than there are cores mark no core beyond them.
pub proof fn bitfields_that_are_not_too_long_mark_no_core_beyond(
    signed: Seq<SignedBitfieldView>,
    expected_bits: int,
)
    requires
        forall|j: int|
            0 <= j < signed.len() ==> (#[trigger] signed[j]).bits.len() <= expected_bits,
    ensures
        marks_within(signed, expected_bits),
{
}

} // verus!
