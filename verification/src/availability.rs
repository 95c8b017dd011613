//! Availability: validators say of which cores they hold their piece, and a candidate that enough
//! validators vouch for is included.
use crate::bits::ones;
use crate::inclusion_laws::a_core_with_enough_votes_is_freed;
use crate::inclusion_laws::votes_for_core;
use crate::pallet::enactment_of;
use crate::pallet::AvailabilityBitfieldRecord;
use crate::pallet::BitfieldRecordView;
use crate::pallet::Pallet;
use crate::pallet::PalletView;
use crate::pallet::Pending;
use crate::pallet::PendingView;
use crate::primitives::signed_view;
use crate::primitives::BlockNumber;
use crate::primitives::CandidateHash;
use crate::primitives::CommittedCandidateReceipt;
use crate::primitives::CoreIndex;
use crate::primitives::ParaId;
use crate::primitives::SignedBitfieldView;
use crate::primitives::UncheckedSignedAvailabilityBitfield;
use crate::primitives::ValidatorId;
use crate::primitives::H256;
use vstd::prelude::*;

verus! {

/// How many of `n` validators must vouch for a candidate.
pub open spec fn threshold(n: int) -> int {
    (n * 2) / 3 + (n * 2) % 3
}

/// How many of `n_validators` validators must vouch for a candidate.
pub fn availability_threshold(n_validators: usize) -> (count: usize)
    ensures
        count == threshold(n_validators as int),
{
    let double: u128 = (n_validators as u128) * 2;
    let count: u128 = double / 3 + double % 3;
    count as usize
}

/// Whether some bitfield of the list bears the index of the validator and marks the core.
pub open spec fn vouched(signed: Seq<SignedBitfieldView>, core: int, validator: int) -> bool {
    exists|j: int|
        0 <= j < signed.len() && (#[trigger] signed[j]).validator_index.0 == validator && core
            < signed[j].bits.len() && signed[j].bits[core]
}

/// A candidate with the votes of the bitfields for its core counted in.
pub open spec fn counted(
    pending: PendingView<H256, BlockNumber>,
    core: int,
    signed: Seq<SignedBitfieldView>,
) -> PendingView<H256, BlockNumber> {
    PendingView {
        availability_votes: Seq::new(
            pending.availability_votes.len(),
            |v: int| pending.availability_votes[v] || vouched(signed, core, v),
        ),
        ..pending
    }
}

/// The candidate of the para of a core, with the votes for the core counted in.
pub open spec fn record_of(
    state: PalletView,
    assigned: Option<ParaId>,
    core: int,
    signed: Seq<SignedBitfieldView>,
) -> Option<PendingView<H256, BlockNumber>> {
    match assigned {
        Some(para) => if state.pending_availability.contains_key(para.0) {
            Some(counted(state.pending_availability[para.0], core, signed))
        } else {
            None
        },
        None => None,
    }
}

/// The candidates of all cores, each with the votes for its core counted in.
pub open spec fn records_of(
    state: PalletView,
    assigned: Seq<Option<ParaId>>,
    signed: Seq<SignedBitfieldView>,
) -> Seq<Option<PendingView<H256, BlockNumber>>> {
    Seq::new(assigned.len(), |i: int| record_of(state, assigned[i], i, signed))
}

/// A state, and the cores that were freed on the way to it.
#[verifier::ext_equal]
pub struct Settlement {
    pub state: PalletView,
    pub freed: Seq<(CoreIndex, CandidateHash)>,
}

impl Settlement {
    /// The candidate of a para is settled: it is included if enough validators vouch for it, and
    /// else stored with its votes.
    pub open spec fn settle_one(
        self,
        para: ParaId,
        pending: PendingView<H256, BlockNumber>,
        needed: int,
        is_create_inherent: bool,
    ) -> Settlement {
        if ones(pending.availability_votes).len() < needed {
            Settlement { state: self.state.insert_pending(para, pending), ..self }
        } else if !self.state.pending_availability_commitments.contains_key(para.0) {
            Settlement { state: self.state.remove_pending(para), ..self }
        } else {
            let commitments = self.state.pending_availability_commitments[para.0];
            let cleared = self.state.remove_pending(para).remove_commitments(para);
            Settlement {
                state: if is_create_inherent {
                    cleared
                } else {
                    cleared.put_down(enactment_of(pending, commitments))
                },
                freed: self.freed.push((pending.core, pending.hash)),
            }
        }
    }
}

/// The candidates of the cores are settled, one core after the other.
pub open spec fn settled(
    state: PalletView,
    assigned: Seq<Option<ParaId>>,
    records: Seq<Option<PendingView<H256, BlockNumber>>>,
    needed: int,
    is_create_inherent: bool,
) -> Settlement
    decreases records.len(),
{
    if records.len() == 0 {
        Settlement { state, freed: Seq::empty() }
    } else {
        let done = settled(state, assigned, records.drop_last(), needed, is_create_inherent);
        match records.last() {
            Some(pending) => done.settle_one(
                assigned[records.len() - 1].unwrap(),
                pending,
                needed,
                is_create_inherent,
            ),
            None => done,
        }
    }
}

impl PalletView {
    /// The state with the bitfields recorded as submitted at block `now`, one after the other.
    pub open spec fn recorded(self, signed: Seq<SignedBitfieldView>, now: BlockNumber) -> PalletView
        decreases signed.len(),
    {
        if signed.len() == 0 {
            self
        } else {
            self.recorded(signed.drop_last(), now).insert_bitfield(
                signed.last().validator_index,
                BitfieldRecordView { bitfield: signed.last().bits, submitted_at: now },
            )
        }
    }

    /// What the bitfields do: they are recorded, their votes are counted for the candidates of the
    /// cores, and the candidates are settled.
    pub open spec fn with_bitfields(
        self,
        now: BlockNumber,
        assigned: Seq<Option<ParaId>>,
        n_validators: int,
        signed: Seq<SignedBitfieldView>,
        is_create_inherent: bool,
    ) -> Settlement {
        settled(
            self.recorded(signed, now),
            assigned,
            records_of(self, assigned, signed),
            threshold(n_validators),
            is_create_inherent,
        )
    }
}

/// No bitfield marks a core beyond the expected ones.
pub open spec fn marks_within(signed: Seq<SignedBitfieldView>, expected_bits: int) -> bool {
    forall|j: int, i: int|
        0 <= j < signed.len() && expected_bits <= i < signed[j].bits.len()
            ==> !#[trigger] signed[j].bits[i]
}

/// What the records of the candidates hold.
spec fn slots_view(slots: Seq<Option<Pending>>) -> Seq<Option<PendingView<H256, BlockNumber>>> {
    slots.map_values(
        |slot: Option<Pending>|
            match slot {
                Some(pending) => Some(pending@),
                None => None,
            },
    )
}

/// Loads the candidate of each core.
fn load_slots(pallet: &Pallet, assigned: &Vec<Option<ParaId>>) -> (slots: Vec<Option<Pending>>)
    requires
        pallet.wf(),
    ensures
        slots_view(slots@) == records_of(pallet@, assigned@, Seq::empty()),
{
    let ghost all = records_of(pallet@, assigned@, Seq::empty());
    let mut slots: Vec<Option<Pending>> = Vec::new();
    for i in 0..assigned.len()
        invariant
            pallet.wf(),
            all == records_of(pallet@, assigned@, Seq::empty()),
            slots@.len() == i,
            slots_view(slots@) == all.take(i as int),
    {
        let ghost had = slots@;
        let slot = match assigned[i] {
            Some(para) => pallet.pending_availability(para),
            None => None,
        };
        proof {
            if slot is Some {
                assert(counted(slot->0@, i as int, Seq::empty()) =~= slot->0@);
            }
        }
        slots.push(slot);
        assert(slots_view(slots@) =~= slots_view(had).push(all[i as int]));
        assert(all.take(i + 1) =~= all.take(i as int).push(all[i as int]));
    }
    assert(slots_view(slots@) =~= all);
    slots
}

/// The candidates of the cores when the first `j` bitfields are counted, and the first `b` bits of
/// the next one.
spec fn records_up_to(
    state: PalletView,
    assigned: Seq<Option<ParaId>>,
    signed: Seq<SignedBitfieldView>,
    j: int,
    b: int,
) -> Seq<Option<PendingView<H256, BlockNumber>>> {
    Seq::new(
        assigned.len(),
        |i: int|
            record_of(
                state,
                assigned[i],
                i,
                if i < b {
                    signed.take(j + 1)
                } else {
                    signed.take(j)
                },
            ),
    )
}

/// Counting one bit of a bitfield: the vote goes to the candidate of the core.
proof fn lemma_count_bit(
    pending: PendingView<H256, BlockNumber>,
    core: int,
    signed: Seq<SignedBitfieldView>,
    j: int,
)
    requires
        0 <= j < signed.len(),
        0 <= core,
    ensures
        ({
            let had = counted(pending, core, signed.take(j));
            let votes = had.availability_votes;
            let v = signed[j].validator_index.0 as int;
            let marked = core < signed[j].bits.len() && signed[j].bits[core];
            counted(pending, core, signed.take(j + 1)) == PendingView {
                availability_votes: if marked && v < votes.len() {
                    votes.update(v, true)
                } else {
                    votes
                },
                ..had
            }
        }),
{
    let had = counted(pending, core, signed.take(j));
    let votes = had.availability_votes;
    let v = signed[j].validator_index.0 as int;
    let marked = core < signed[j].bits.len() && signed[j].bits[core];
    let more = counted(pending, core, signed.take(j + 1));
    assert forall|w: int| vouched(signed.take(j + 1), core, w) == (vouched(
        signed.take(j),
        core,
        w,
    ) || (marked && w == v)) by {
        if vouched(signed.take(j), core, w) {
            let k = choose|k: int|
                0 <= k < signed.take(j).len() && (#[trigger] signed.take(j)[k]).validator_index.0
                    == w && core < signed.take(j)[k].bits.len() && signed.take(j)[k].bits[core];
            assert(signed.take(j + 1)[k] == signed.take(j)[k]);
        }
        if vouched(signed.take(j + 1), core, w) {
            let k = choose|k: int|
                0 <= k < signed.take(j + 1).len() && (#[trigger] signed.take(
                    j + 1,
                )[k]).validator_index.0 == w && core < signed.take(j + 1)[k].bits.len()
                    && signed.take(j + 1)[k].bits[core];
            if k < j {
                assert(signed.take(j)[k] == signed.take(j + 1)[k]);
            }
        }
        if marked && w == v {
            assert(signed.take(j + 1)[j] == signed[j]);
        }
    }
    let expected = PendingView {
        availability_votes: if marked && v < votes.len() {
            votes.update(v, true)
        } else {
            votes
        },
        ..had
    };
    assert(more.availability_votes =~= expected.availability_votes);
}

/// Counts the votes of one bitfield for the candidates of the cores.
fn count_bitfield(
    slots: &mut Vec<Option<Pending>>,
    bitfield: &UncheckedSignedAvailabilityBitfield,
    Ghost(state): Ghost<PalletView>,
    Ghost(assigned): Ghost<Seq<Option<ParaId>>>,
    Ghost(signed): Ghost<Seq<SignedBitfieldView>>,
    Ghost(j): Ghost<int>,
)
    requires
        0 <= j < signed.len(),
        signed[j] == bitfield@,
        slots_view(old(slots)@) == records_of(state, assigned, signed.take(j)),
    ensures
        slots_view(final(slots)@) == records_of(state, assigned, signed.take(j + 1)),
{
    let len = bitfield.payload.0.len();
    let validator_index = bitfield.validator_index.0 as usize;
    assert(records_of(state, assigned, signed.take(j)) =~= records_up_to(
        state,
        assigned,
        signed,
        j,
        0,
    ));
    assert(slots@.len() == assigned.len()) by {
        assert(slots_view(slots@).len() == slots@.len());
    }
    let mut b: usize = 0;
    while b < len && b < slots.len()
        invariant
            b <= len,
            b <= slots@.len(),
            len == bitfield@.bits.len(),
            0 <= j < signed.len(),
            signed[j] == bitfield@,
            validator_index == bitfield@.validator_index.0,
            slots@.len() == assigned.len(),
            slots_view(slots@) == records_up_to(state, assigned, signed, j, b as int),
        decreases len - b,
    {
        let ghost had = slots@;
        let marked = bitfield.payload.0.get(b).unwrap();
        assert(slots_view(had)[b as int] == record_of(
            state,
            assigned[b as int],
            b as int,
            signed.take(j),
        ));
        if marked {
            if let Some(pending) = &mut slots[b] {
                let _ = pending.availability_votes.put(validator_index, true);
            }
        }
        proof {
            if assigned[b as int] is Some && state.pending_availability.contains_key(
                assigned[b as int].unwrap().0,
            ) {
                lemma_count_bit(
                    state.pending_availability[assigned[b as int].unwrap().0],
                    b as int,
                    signed,
                    j,
                );
            }
            let next = records_up_to(state, assigned, signed, j, b + 1);
            assert forall|i: int| 0 <= i < assigned.len() implies slots_view(slots@)[i]
                == next[i] by {
                if i != b {
                    assert(slots@[i] == had[i]);
                    assert(slots_view(had)[i] == records_up_to(
                        state,
                        assigned,
                        signed,
                        j,
                        b as int,
                    )[i]);
                }
            }
            assert(slots_view(slots@) =~= next);
        }
        b = b + 1;
    }
    proof {
        let next = records_of(state, assigned, signed.take(j + 1));
        assert forall|i: int| 0 <= i < assigned.len() implies slots_view(slots@)[i] == next[i] by {
            assert(slots_view(slots@)[i] == records_up_to(
                state,
                assigned,
                signed,
                j,
                b as int,
            )[i]);
            if i >= b {
                if assigned[i] is Some && state.pending_availability.contains_key(
                    assigned[i].unwrap().0,
                ) {
                    lemma_count_bit(
                        state.pending_availability[assigned[i].unwrap().0],
                        i,
                        signed,
                        j,
                    );
                }
            }
        }
        assert(slots_view(slots@) =~= next);
    }
}

/// The answers of a core lookup: the para of each expected core, if it has one.
pub open spec fn looked_up<F: Fn(CoreIndex) -> Option<ParaId>>(
    core_lookup: F,
    expected_bits: int,
    assigned: Seq<Option<ParaId>>,
) -> bool {
    &&& assigned.len() == expected_bits
    &&& forall|i: int|
        0 <= i < expected_bits ==> call_ensures(
            core_lookup,
            (CoreIndex(i as u32),),
            #[trigger] assigned[i],
        )
}

impl Pallet {
    /// Records the bitfields, counts their votes for the candidates of the cores, and includes the
    /// candidates that enough validators vouch for.
    ///
    /// `assigned` holds the para of each core. Returns the cores that were freed, each with the
    /// candidate that left it.
    pub fn apply_bitfields<const IS_CREATE_INHERENT: bool>(
        &mut self,
        now: BlockNumber,
        assigned: &Vec<Option<ParaId>>,
        n_validators: usize,
        signed_bitfields: Vec<UncheckedSignedAvailabilityBitfield>,
    ) -> (freed_cores: Vec<(CoreIndex, CandidateHash)>)
        requires
            old(self).wf(),
            marks_within(signed_view(signed_bitfields@), assigned@.len() as int),
        ensures
            final(self).wf(),
            ({
                let done = old(self)@.with_bitfields(
                    now,
                    assigned@,
                    n_validators as int,
                    signed_view(signed_bitfields@),
                    IS_CREATE_INHERENT,
                );
                &&& final(self)@ == done.state
                &&& freed_cores@ == done.freed
            }),
    {
        let ghost state = self@;
        let ghost signed = signed_view(signed_bitfields@);
        let mut slots = load_slots(self, assigned);
        assert(signed.take(0) =~= Seq::<SignedBitfieldView>::empty());
        for bitfield in it: signed_bitfields
            invariant
                self.wf(),
                it.seq() == signed_bitfields@,
                signed == signed_view(signed_bitfields@),
                slots_view(slots@) == records_of(state, assigned@, signed.take(it.index() as int)),
                self@ == state.recorded(signed.take(it.index() as int), now),
        {
            let ghost j = it.index() as int;
            assert(signed[j] == bitfield@);
            count_bitfield(
                &mut slots,
                &bitfield,
                Ghost(state),
                Ghost(assigned@),
                Ghost(signed),
                Ghost(j),
            );
            let validator_index = bitfield.validator_index;
            self.insert_bitfield(
                validator_index,
                AvailabilityBitfieldRecord { bitfield: bitfield.payload, submitted_at: now },
            );
            assert(signed.take(j + 1).drop_last() =~= signed.take(j));
        }
        assert(signed.take(signed.len() as int) =~= signed);
        proof {
            let records = records_of(state, assigned@, signed);
            assert(slots_view(slots@).len() == slots@.len());
            assert forall|i: int| 0 <= i < slots@.len() && #[trigger] slots@[i] is Some implies
                assigned@[i] is Some by {
                assert(slots_view(slots@)[i] == records[i]);
            }
        }
        let needed = availability_threshold(n_validators);
        self.settle_slots::<IS_CREATE_INHERENT>(assigned, slots, needed)
    }

    /// Settles the candidates of the cores, one core after the other.
    fn settle_slots<const IS_CREATE_INHERENT: bool>(
        &mut self,
        assigned: &Vec<Option<ParaId>>,
        slots: Vec<Option<Pending>>,
        needed: usize,
    ) -> (freed_cores: Vec<(CoreIndex, CandidateHash)>)
        requires
            old(self).wf(),
            slots@.len() == assigned@.len(),
            forall|i: int|
                0 <= i < slots@.len() && #[trigger] slots@[i] is Some ==> assigned@[i] is Some,
        ensures
            final(self).wf(),
            ({
                let done = settled(
                    old(self)@,
                    assigned@,
                    slots_view(slots@),
                    needed as int,
                    IS_CREATE_INHERENT,
                );
                &&& final(self)@ == done.state
                &&& freed_cores@ == done.freed
            }),
    {
        let ghost state = self@;
        let ghost records = slots_view(slots@);
        let mut freed_cores: Vec<(CoreIndex, CandidateHash)> = Vec::new();
        let mut i: usize = 0;
        assert(records.take(0) =~= Seq::<Option<PendingView<H256, BlockNumber>>>::empty());
        for slot in it: slots
            invariant
                self.wf(),
                it.seq() == slots@,
                records == slots_view(slots@),
                i == it.index(),
                slots@.len() == assigned@.len(),
                forall|i: int|
                    0 <= i < slots@.len() && #[trigger] slots@[i] is Some ==> assigned@[i] is Some,
                self@ == settled(
                    state,
                    assigned@,
                    records.take(i as int),
                    needed as int,
                    IS_CREATE_INHERENT,
                ).state,
                freed_cores@ == settled(
                    state,
                    assigned@,
                    records.take(i as int),
                    needed as int,
                    IS_CREATE_INHERENT,
                ).freed,
        {
            let ghost done = settled(
                state,
                assigned@,
                records.take(i as int),
                needed as int,
                IS_CREATE_INHERENT,
            );
            assert(slots@[i as int] == slot);
            assert(i < assigned.len());
            assert(records.take(i + 1).drop_last() =~= records.take(i as int));
            assert(records.take(i + 1).last() == records[i as int]);
            if let Some(pending_availability) = slot {
                let para_id = assigned[i].unwrap();
                if pending_availability.availability_votes.count_ones() >= needed {
                    let _ = self.take_pending(para_id);
                    if let Some(commitments) = self.take_commitments(para_id) {
                        if !IS_CREATE_INHERENT {
                            let receipt = CommittedCandidateReceipt {
                                descriptor: pending_availability.descriptor,
                                commitments,
                            };
                            self.enact_candidate(
                                pending_availability.relay_parent_number,
                                receipt,
                                &pending_availability.backers,
                                &pending_availability.availability_votes,
                                pending_availability.core,
                                pending_availability.backing_group,
                            );
                        }
                        freed_cores.push((pending_availability.core, pending_availability.hash));
                    } else {
                        assert(self@ =~= done.state.remove_pending(para_id));
                    }
                } else {
                    self.insert_pending(para_id, pending_availability);
                }
            }
            i = i + 1;
        }
        assert(records.take(records.len() as int) =~= records);
        freed_cores
    }

    /// Extract the freed cores based on cores that became available.
    ///
    /// Updates storage items `PendingAvailability` and `AvailabilityBitfields`.
    pub fn update_pending_availability_and_get_freed_cores<
        F: Fn(CoreIndex) -> Option<ParaId>,
        const IS_CREATE_INHERENT: bool,
    >(
        &mut self,
        now: BlockNumber,
        expected_bits: usize,
        validators: &[ValidatorId],
        signed_bitfields: Vec<UncheckedSignedAvailabilityBitfield>,
        core_lookup: F,
    ) -> (freed_cores: Vec<(CoreIndex, CandidateHash)>)
        requires
            old(self).wf(),
            marks_within(signed_view(signed_bitfields@), expected_bits as int),
            forall|core: CoreIndex|
                core.0 < expected_bits ==> #[trigger] call_requires(core_lookup, (core,)),
        ensures
            final(self).wf(),
            exists|assigned: Seq<Option<ParaId>>| #[trigger]
                looked_up(core_lookup, expected_bits as int, assigned) && {
                    let done = old(self)@.with_bitfields(
                        now,
                        assigned,
                        validators@.len() as int,
                        signed_view(signed_bitfields@),
                        IS_CREATE_INHERENT,
                    );
                    &&& final(self)@ == done.state
                    &&& freed_cores@ == done.freed
                },
            forall|core: CoreIndex, para: ParaId|
                core.0 < expected_bits <= 0x1_0000_0000 && #[trigger] call_ensures(
                    core_lookup,
                    (core,),
                    Some(para),
                ) && (forall|answer: Option<ParaId>| #[trigger]
                    call_ensures(core_lookup, (core,), answer) ==> answer == Some(para)) && (forall|
                    other: CoreIndex,
                    answer: Option<ParaId>,
                |
                    other.0 < expected_bits && other != core && #[trigger] call_ensures(
                        core_lookup,
                        (other,),
                        answer,
                    ) ==> answer != Some(para)) && old(self)@.pending_availability.contains_key(
                    para.0,
                ) && old(self)@.pending_availability_commitments.contains_key(para.0) && ones(
                    votes_for_core(
                        old(self)@.pending_availability[para.0].availability_votes,
                        signed_view(signed_bitfields@),
                        core.0 as int,
                    ),
                ).len() >= threshold(validators@.len() as int) ==> {
                    &&& !final(self)@.pending_availability.contains_key(para.0)
                    &&& !final(self)@.pending_availability_commitments.contains_key(para.0)
                    &&& freed_cores@.contains(
                        (
                            old(self)@.pending_availability[para.0].core,
                            old(self)@.pending_availability[para.0].hash,
                        ),
                    )
                },
    {
        let ghost state = self@;
        let ghost signed = signed_view(signed_bitfields@);
        let mut assigned: Vec<Option<ParaId>> = Vec::new();
        for i in 0..expected_bits
            invariant
                assigned@.len() == i,
                forall|core: CoreIndex|
                    core.0 < expected_bits ==> #[trigger] call_requires(core_lookup, (core,)),
                forall|k: int|
                    0 <= k < i ==> call_ensures(
                        core_lookup,
                        (CoreIndex(k as u32),),
                        #[trigger] assigned@[k],
                    ),
        {
            let core = CoreIndex(i as u32);
            assigned.push(core_lookup(core));
        }
        assert(looked_up(core_lookup, expected_bits as int, assigned@));
        let freed_cores = self.apply_bitfields::<IS_CREATE_INHERENT>(
            now,
            &assigned,
            validators.len(),
            signed_bitfields,
        );
        proof {
            assert forall|core: CoreIndex, para: ParaId|
                core.0 < expected_bits <= 0x1_0000_0000 && #[trigger] call_ensures(
                    core_lookup,
                    (core,),
                    Some(para),
                ) && (forall|answer: Option<ParaId>| #[trigger]
                    call_ensures(core_lookup, (core,), answer) ==> answer == Some(para)) && (forall|
                    other: CoreIndex,
                    answer: Option<ParaId>,
                |
                    other.0 < expected_bits && other != core && #[trigger] call_ensures(
                        core_lookup,
                        (other,),
                        answer,
                    ) ==> answer != Some(para)) && state.pending_availability.contains_key(para.0)
                    && state.pending_availability_commitments.contains_key(para.0) && ones(
                    votes_for_core(
                        state.pending_availability[para.0].availability_votes,
                        signed,
                        core.0 as int,
                    ),
                ).len() >= threshold(validators@.len() as int) implies {
                &&& !self@.pending_availability.contains_key(para.0)
                &&& !self@.pending_availability_commitments.contains_key(para.0)
                &&& freed_cores@.contains(
                    (
                        state.pending_availability[para.0].core,
                        state.pending_availability[para.0].hash,
                    ),
                )
            } by {
                a_core_with_enough_votes_is_freed(
                    state,
                    now,
                    core_lookup,
                    expected_bits as int,
                    assigned@,
                    validators@.len(),
                    signed,
                    IS_CREATE_INHERENT,
                    core,
                    para,
                );
            }
        }
        freed_cores
    }
}

} // verus!
