//! What the views and the small functions of the model mean, part by part.
use crate::bits::zeros;
use crate::pallet::bitfields_view;
use crate::pallet::commitments_view;
use crate::pallet::effects_view;
use crate::pallet::none_processed;
use crate::pallet::pending_view;
use crate::pallet::AvailabilityBitfieldRecord;
use crate::pallet::BitfieldRecordView;
use crate::pallet::Effect;
use crate::pallet::EffectView;
use crate::pallet::Event;
use crate::pallet::EventView;
use crate::pallet::PalletView;
use crate::pallet::Pending;
use crate::pallet::PendingView;
use crate::pallet::ProcessedCandidates;
use crate::primitives::signed_view;
use crate::primitives::AssignmentKind;
use crate::primitives::BackedCandidate;
use crate::primitives::BlockNumber;
use crate::primitives::CandidateCommitments;
use crate::primitives::ChainContext;
use crate::primitives::CommitmentsView;
use crate::primitives::CoreAssignment;
use crate::primitives::HeadData;
use crate::primitives::ParaId;
use crate::primitives::UncheckedSignedAvailabilityBitfield;
use crate::primitives::ValidatorIndex;
use crate::primitives::H256;
use crate::storage::before;
use crate::storage::differ_first_at;
use crate::storage::encode;
use crate::storage::is_walk;
use crate::storage::location;
use crate::weights::cap;
use vstd::prelude::*;

verus! {

/// The view of commitments holds all messages, the code and the head, each with all its bytes, and
/// the digest.
pub proof fn commitments_are_seen_whole(commitments: CandidateCommitments)
    ensures
        commitments@.upward_messages.len() == commitments.upward_messages@.len(),
        forall|i: int|
            0 <= i < commitments.upward_messages@.len() ==> (
            #[trigger] commitments@.upward_messages[i]) == commitments.upward_messages@[i]@,
        commitments@.horizontal_messages.len() == commitments.horizontal_messages@.len(),
        forall|i: int|
            0 <= i < commitments.horizontal_messages@.len() ==> {
                let message = #[trigger] commitments@.horizontal_messages[i];
                &&& message.recipient == commitments.horizontal_messages@[i].recipient
                &&& message.data == commitments.horizontal_messages@[i].data@
            },
        commitments@.new_validation_code is Some == commitments.new_validation_code is Some,
        commitments.new_validation_code matches Some(code) ==> commitments@.new_validation_code
            == Some(code.0@),
        commitments@.head_data.bytes == commitments.head_data.bytes@,
        commitments@.head_data.digest == commitments.head_data.digest,
        commitments@.processed_downward_messages == commitments.processed_downward_messages,
        commitments@.hrmp_watermark == commitments.hrmp_watermark,
        commitments@.digest == commitments.digest,
{
}

/// The view of a head holds its bytes and its digest.
pub proof fn heads_are_seen_whole(head: HeadData)
    ensures
        head@.bytes == head.bytes@,
        head@.digest == head.digest,
{
}

/// The view of a backed candidate holds all its parts.
pub proof fn backed_candidates_are_seen_whole(backed: BackedCandidate<H256>)
    ensures
        backed@.descriptor == backed.candidate.descriptor,
        backed@.commitments == backed.candidate.commitments@,
        backed@.hash == backed.hash,
        backed@.collator_signed == backed.collator_signed,
        backed@.validity_votes == backed.validity_votes@,
        backed@.validator_indices == backed.validator_indices@,
{
}

/// The view of a pending candidate holds all its parts.
pub proof fn pending_candidates_are_seen_whole(pending: Pending)
    ensures
        pending@.core == pending.core,
        pending@.hash == pending.hash,
        pending@.descriptor == pending.descriptor,
        pending@.availability_votes == pending.availability_votes@,
        pending@.backers == pending.backers@,
        pending@.relay_parent_number == pending.relay_parent_number,
        pending@.backed_in_number == pending.backed_in_number,
        pending@.backing_group == pending.backing_group,
{
}

/// The view of a bitfield record holds the bits and the block.
pub proof fn bitfield_records_are_seen_whole(record: AvailabilityBitfieldRecord<BlockNumber>)
    ensures
        record@.bitfield == record.bitfield.0@,
        record@.submitted_at == record.submitted_at,
{
}

/// The view of signed bitfields holds the bits and the validator of each.
pub proof fn signed_bitfields_are_seen_whole(
    fields: Seq<UncheckedSignedAvailabilityBitfield>,
    j: int,
)
    requires
        0 <= j < fields.len(),
    ensures
        signed_view(fields).len() == fields.len(),
        signed_view(fields)[j].bits == fields[j].payload.0@,
        signed_view(fields)[j].validator_index == fields[j].validator_index,
{
}

/// The maps of the state hold the view of each entry, and no other entries.
pub proof fn stored_maps_are_seen_whole(
    pending: Map<u32, Pending>,
    commitments: Map<u32, CandidateCommitments>,
    records: Map<u32, AvailabilityBitfieldRecord<BlockNumber>>,
    key: u32,
)
    ensures
        pending_view(pending).contains_key(key) == pending.contains_key(key),
        pending.contains_key(key) ==> pending_view(pending)[key] == pending[key]@,
        commitments_view(commitments).contains_key(key) == commitments.contains_key(key),
        commitments.contains_key(key) ==> commitments_view(commitments)[key] == commitments[key]@,
        bitfields_view(records).contains_key(key) == records.contains_key(key),
        records.contains_key(key) ==> bitfields_view(records)[key] == records[key]@,
{
}

/// The view of a list of effects holds each effect, in its place.
pub proof fn effects_are_seen_whole(effects: Seq<Effect>, i: int)
    requires
        0 <= i < effects.len(),
    ensures
        effects_view(effects).len() == effects.len(),
        effects_view(effects)[i] == effects[i]@,
        match effects[i] {
            Effect::RewardBacking(validators) => effects[i]@ == EffectView::RewardBacking(
                validators@,
            ),
            Effect::RewardBitfields(validators) => effects[i]@ == EffectView::RewardBitfields(
                validators@,
            ),
            Effect::ScheduleCodeUpgrade(para, code, at) => effects[i]@
                == EffectView::ScheduleCodeUpgrade(para, code.0@, at),
            Effect::PruneDmq(para, count) => effects[i]@ == EffectView::PruneDmq(para, count),
            Effect::ReceiveUpwardMessages(para, messages) => effects[i]@ matches
                EffectView::ReceiveUpwardMessages(p, seen) && p == para && seen.len()
                == messages@.len() && forall|m: int|
                0 <= m < messages@.len() ==> (#[trigger] seen[m]) == messages@[m]@,
            Effect::PruneHrmp(para, watermark) => effects[i]@ == EffectView::PruneHrmp(
                para,
                watermark,
            ),
            Effect::QueueOutboundHrmp(para, messages) => effects[i]@ matches
                EffectView::QueueOutboundHrmp(p, seen) && p == para && seen.len()
                == messages@.len() && forall|m: int|
                0 <= m < messages@.len() ==> (#[trigger] seen[m]).recipient
                    == messages@[m].recipient && seen[m].data == messages@[m].data@,
            Effect::NoteNewHead(para, head, at) => effects[i]@ == EffectView::NoteNewHead(
                para,
                head@,
                at,
            ),
            Effect::DepositEvent(event) => effects[i]@ == EffectView::DepositEvent(event@),
        },
{
}

/// The view of an event is the event of the same kind, with the same parts.
pub proof fn events_are_seen_whole(event: Event)
    ensures
        match event {
            Event::CandidateBacked(receipt, head, core, group) => event@
                == EventView::CandidateBacked(receipt, head@, core, group),
            Event::CandidateIncluded(receipt, head, core, group) => event@
                == EventView::CandidateIncluded(receipt, head@, core, group),
            Event::CandidateTimedOut(receipt, head, core) => event@
                == EventView::CandidateTimedOut(receipt, head@, core),
        },
{
}

/// The view of processed candidates holds all cores, and all receipts with all their votes.
pub proof fn processed_candidates_are_seen_whole(processed: ProcessedCandidates<H256>, i: int)
    ensures
        processed@.core_indices == processed.core_indices@,
        processed@.receipts.len()
            == processed.candidate_receipt_with_backing_validator_indices@.len(),
        0 <= i < processed@.receipts.len() ==> processed@.receipts[i].0
            == processed.candidate_receipt_with_backing_validator_indices@[i].0
            && processed@.receipts[i].1
            == processed.candidate_receipt_with_backing_validator_indices@[i].1@,
        none_processed::<H256>().core_indices.len() == 0,
        none_processed::<H256>().receipts.len() == 0,
{
}

/// Writing one entry of the state writes that entry, and leaves all else.
pub proof fn writes_touch_one_entry(
    state: PalletView,
    para: ParaId,
    pending: PendingView<H256, BlockNumber>,
    commitments: CommitmentsView,
    validator: ValidatorIndex,
    record: BitfieldRecordView<BlockNumber>,
    effects: Seq<EffectView>,
)
    ensures
        state.insert_pending(para, pending) == (PalletView {
            availability_bitfields: state.availability_bitfields,
            pending_availability: state.pending_availability.insert(para.0, pending),
            pending_availability_commitments: state.pending_availability_commitments,
            effects: state.effects,
        }),
        state.remove_pending(para) == (PalletView {
            availability_bitfields: state.availability_bitfields,
            pending_availability: state.pending_availability.remove(para.0),
            pending_availability_commitments: state.pending_availability_commitments,
            effects: state.effects,
        }),
        state.insert_commitments(para, commitments) == (PalletView {
            availability_bitfields: state.availability_bitfields,
            pending_availability: state.pending_availability,
            pending_availability_commitments: state.pending_availability_commitments.insert(
                para.0,
                commitments,
            ),
            effects: state.effects,
        }),
        state.remove_commitments(para) == (PalletView {
            availability_bitfields: state.availability_bitfields,
            pending_availability: state.pending_availability,
            pending_availability_commitments: state.pending_availability_commitments.remove(
                para.0,
            ),
            effects: state.effects,
        }),
        state.insert_bitfield(validator, record) == (PalletView {
            availability_bitfields: state.availability_bitfields.insert(validator.0, record),
            pending_availability: state.pending_availability,
            pending_availability_commitments: state.pending_availability_commitments,
            effects: state.effects,
        }),
        state.put_down(effects) == (PalletView {
            availability_bitfields: state.availability_bitfields,
            pending_availability: state.pending_availability,
            pending_availability_commitments: state.pending_availability_commitments,
            effects: state.effects + effects,
        }),
        state.is_free(para) == (!state.pending_availability.contains_key(para.0)
            && !state.pending_availability_commitments.contains_key(para.0)),
{
}

/// The signing context is that of the session and of the parent of the current block.
pub proof fn signatures_are_bound_to_session_and_parent(chain: ChainContext)
    ensures
        chain.signing_context_spec().session_index == chain.session_index,
        chain.signing_context_spec().parent_hash == chain.parent_hash,
{
}

/// A parachain demands no collator, and a parathread the one that claimed the core.
pub proof fn only_parathreads_demand_a_collator(assignment: CoreAssignment)
    ensures
        assignment.kind is Parachain ==> assignment.demanded_collator() is None,
        assignment.kind matches AssignmentKind::Parathread(collator, _)
            ==> assignment.demanded_collator() == Some(collator),
{
}

/// Zeros are as many as asked for, and all zero.
pub proof fn zeros_are_zero(n: nat, i: int)
    ensures
        zeros(n).len() == n,
        0 <= i < n ==> !zeros(n)[i],
{
}

/// A capped weight is the smaller one of the weight and the largest weight.
pub proof fn cap_is_the_smaller(weight: int)
    requires
        0 <= weight,
    ensures
        weight <= u64::MAX ==> cap(weight) == weight,
        weight >= u64::MAX ==> cap(weight) == u64::MAX,
{
}

/// The encoding of a key gives its value back, the least significant byte first.
pub proof fn encoding_is_little_endian(key: u32)
    ensures
        encode(key).len() == 4,
        encode(key)[0] + 256 * encode(key)[1] + 65536 * encode(key)[2] + 16777216 * encode(key)[3]
            == key,
{
}

/// Locations with a common start go by the first byte in which they differ.
pub proof fn locations_go_by_the_first_difference(
    start: Seq<u8>,
    x: u8,
    y: u8,
    a: Seq<u8>,
    b: Seq<u8>,
)
    requires
        x < y,
    ensures
        before(start + seq![x] + a, start + seq![y] + b),
        !before(start + seq![y] + b, start + seq![x] + a),
{
    let left = start + seq![x] + a;
    let right = start + seq![y] + b;
    let n = start.len() as int;
    assert(left[n] == x && right[n] == y);
    assert forall|j: int| 0 <= j < n implies left[j] == right[j] by {
        assert(left[j] == start[j]);
        assert(right[j] == start[j]);
    }
    assert(differ_first_at(left, right, n));
    if before(right, left) {
        let i = choose|i: int| differ_first_at(right, left, i) && right[i] < left[i];
        assert(i == n) by {
            if i < n {
                assert(left[i] == right[i]);
            } else if n < i {
                assert(right[n] == left[n]);
            }
        }
    }
}

/// A walk comes by every key that is stored and by no other, and by each of them once, in the order
/// of their locations.
pub proof fn walks_come_by_every_key_once(keys: Seq<u32>, dom: Set<u32>)
    requires
        is_walk(keys, dom),
    ensures
        forall|key: u32| #[trigger] dom.contains(key) == keys.contains(key),
        forall|i: int, j: int|
            0 <= i < j < keys.len() ==> #[trigger] keys[i] != #[trigger] keys[j] && before(
                location(keys[i]),
                location(keys[j]),
            ),
{
    assert forall|i: int, j: int| 0 <= i < j < keys.len() implies #[trigger] keys[i]
        != #[trigger] keys[j] && before(
        location(keys[i]),
        location(keys[j]),
    ) by {
        assert(before(location(keys[i]), location(keys[j])));
    }
}

} // verus!
