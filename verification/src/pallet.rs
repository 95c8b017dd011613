//! The state of the pallet, and what becomes of the candidates that are pending availability.
use crate::bits::ones;
use crate::bits::Bitfield;
use crate::cleanup_laws::the_list_decides_on_each_para;
use crate::cleanup_laws::the_predicate_decides_on_each_para;
use crate::primitives::horizontal_view;
use crate::primitives::upward_view;
use crate::primitives::AvailabilityBitfield;
use crate::primitives::BlockNumber;
use crate::primitives::CandidateCommitments;
use crate::primitives::CandidateDescriptor;
use crate::primitives::CandidateHash;
use crate::primitives::CandidateReceipt;
use crate::primitives::CommitmentsView;
use crate::primitives::CommittedCandidateReceipt;
use crate::primitives::CoreIndex;
use crate::primitives::GroupIndex;
use crate::primitives::H256;
use crate::primitives::HeadData;
use crate::primitives::HeadDataView;
use crate::primitives::OutboundHrmpMessage;
use crate::primitives::OutboundHrmpMessageView;
use crate::primitives::ParaId;
use crate::primitives::ValidationCode;
use crate::primitives::ValidatorIndex;
use crate::primitives::ValidityAttestation;
use crate::storage::is_walk;
use crate::storage::walk;
use crate::storage::StorageMap;
use crate::weights::Weight;
use vstd::prelude::*;

verus! {

/// A bitfield signed by a validator indicating that it is keeping its piece of the erasure-coding
/// for any backed candidates referred to by a `1` bit available.
///
/// The bitfield's signature should be checked at the point of submission. Afterwards it can be
/// dropped.
#[derive(PartialEq, Eq, Debug)]
pub struct AvailabilityBitfieldRecord<N> {
    /// One bit per core.
    pub bitfield: AvailabilityBitfield,
    /// For accounting, as the meaning of the bits may change over time.
    pub submitted_at: N,
}

/// What an `AvailabilityBitfieldRecord` holds.
#[verifier::ext_equal]
pub struct BitfieldRecordView<N> {
    pub bitfield: Seq<bool>,
    pub submitted_at: N,
}

impl<N> View for AvailabilityBitfieldRecord<N> {
    type V = BitfieldRecordView<N>;

    open spec fn view(&self) -> BitfieldRecordView<N> {
        BitfieldRecordView { bitfield: self.bitfield@, submitted_at: self.submitted_at }
    }
}

/// A backed candidate pending availability.
#[derive(PartialEq, Eq, Debug)]
pub struct CandidatePendingAvailability<H, N> {
    /// The availability core this is assigned to.
    pub core: CoreIndex,
    /// The candidate hash.
    pub hash: CandidateHash,
    /// The candidate descriptor.
    pub descriptor: CandidateDescriptor<H>,
    /// The received availability votes. One bit per validator.
    pub availability_votes: Bitfield,
    /// The backers of the candidate pending availability.
    pub backers: Bitfield,
    /// The block number of the relay-parent of the receipt.
    pub relay_parent_number: N,
    /// The block number of the relay-chain block this was backed in.
    pub backed_in_number: N,
    /// The group index backing this block.
    pub backing_group: GroupIndex,
}

/// What a `CandidatePendingAvailability` holds.
#[verifier::ext_equal]
pub struct PendingView<H, N> {
    pub core: CoreIndex,
    pub hash: CandidateHash,
    pub descriptor: CandidateDescriptor<H>,
    pub availability_votes: Seq<bool>,
    pub backers: Seq<bool>,
    pub relay_parent_number: N,
    pub backed_in_number: N,
    pub backing_group: GroupIndex,
}

impl<H, N> View for CandidatePendingAvailability<H, N> {
    type V = PendingView<H, N>;

    open spec fn view(&self) -> PendingView<H, N> {
        PendingView {
            core: self.core,
            hash: self.hash,
            descriptor: self.descriptor,
            availability_votes: self.availability_votes@,
            backers: self.backers@,
            relay_parent_number: self.relay_parent_number,
            backed_in_number: self.backed_in_number,
            backing_group: self.backing_group,
        }
    }
}

impl<H: Copy, N: Copy> Clone for CandidatePendingAvailability<H, N> {
    fn clone(&self) -> (copy: Self)
        ensures
            copy@ == self@,
    {
        CandidatePendingAvailability {
            core: self.core,
            hash: self.hash,
            descriptor: self.descriptor,
            availability_votes: self.availability_votes.clone(),
            backers: self.backers.clone(),
            relay_parent_number: self.relay_parent_number,
            backed_in_number: self.backed_in_number,
            backing_group: self.backing_group,
        }
    }
}

impl<H, N> CandidatePendingAvailability<H, N> {
    /// Get the availability votes on the candidate.
    pub fn availability_votes(&self) -> (votes: &Bitfield)
        ensures
            *votes == self.availability_votes,
    {
        &self.availability_votes
    }

    /// Get the relay-chain block number this was backed in.
    pub fn backed_in_number(&self) -> (number: &N)
        ensures
            *number == self.backed_in_number,
    {
        &self.backed_in_number
    }

    /// Get the core index.
    pub fn core_occupied(&self) -> (core: CoreIndex)
        ensures
            core == self.core,
    {
        self.core
    }

    /// Get the candidate hash.
    pub fn candidate_hash(&self) -> (hash: CandidateHash)
        ensures
            hash == self.hash,
    {
        self.hash
    }

    /// Get the candidate descriptor.
    pub fn candidate_descriptor(&self) -> (descriptor: &CandidateDescriptor<H>)
        ensures
            *descriptor == self.descriptor,
    {
        &self.descriptor
    }

    /// A candidate pending availability, from its parts.
    pub fn new(
        core: CoreIndex,
        hash: CandidateHash,
        descriptor: CandidateDescriptor<H>,
        availability_votes: Bitfield,
        backers: Bitfield,
        relay_parent_number: N,
        backed_in_number: N,
        backing_group: GroupIndex,
    ) -> (candidate: Self)
        ensures
            candidate@ == (PendingView {
                core,
                hash,
                descriptor,
                availability_votes: availability_votes@,
                backers: backers@,
                relay_parent_number,
                backed_in_number,
                backing_group,
            }),
    {
        CandidatePendingAvailability {
            core,
            hash,
            descriptor,
            availability_votes,
            backers,
            relay_parent_number,
            backed_in_number,
            backing_group,
        }
    }
}

/// Helper return type for `process_candidates`.
#[derive(PartialEq, Eq, Debug)]
pub struct ProcessedCandidates<H> {
    pub core_indices: Vec<CoreIndex>,
    pub candidate_receipt_with_backing_validator_indices: Vec<
        (CandidateReceipt<H>, Vec<(ValidatorIndex, ValidityAttestation)>),
    >,
}

/// What a `ProcessedCandidates` holds.
#[verifier::ext_equal]
pub struct ProcessedView<H> {
    pub core_indices: Seq<CoreIndex>,
    pub receipts: Seq<(CandidateReceipt<H>, Seq<(ValidatorIndex, ValidityAttestation)>)>,
}

/// The receipts that a list of receipts with backers holds.
pub open spec fn receipts_view<H>(
    receipts: Seq<(CandidateReceipt<H>, Vec<(ValidatorIndex, ValidityAttestation)>)>,
) -> Seq<(CandidateReceipt<H>, Seq<(ValidatorIndex, ValidityAttestation)>)> {
    receipts.map_values(
        |r: (CandidateReceipt<H>, Vec<(ValidatorIndex, ValidityAttestation)>)| (r.0, r.1@),
    )
}

impl<H> View for ProcessedCandidates<H> {
    type V = ProcessedView<H>;

    open spec fn view(&self) -> ProcessedView<H> {
        ProcessedView {
            core_indices: self.core_indices@,
            receipts: receipts_view(self.candidate_receipt_with_backing_validator_indices@),
        }
    }
}

/// No candidates.
pub open spec fn none_processed<H>() -> ProcessedView<H> {
    ProcessedView { core_indices: Seq::empty(), receipts: Seq::empty() }
}

impl<H> Default for ProcessedCandidates<H> {
    fn default() -> (processed: Self)
        ensures
            processed@ == none_processed::<H>(),
    {
        let processed = ProcessedCandidates {
            core_indices: Vec::new(),
            candidate_receipt_with_backing_validator_indices: Vec::new(),
        };
        assert(processed@ =~= none_processed::<H>());
        processed
    }
}

/// What happened to a candidate.
#[derive(PartialEq, Eq, Debug)]
pub enum Event {
    /// A candidate was backed. `[candidate, head_data]`
    CandidateBacked(CandidateReceipt<H256>, HeadData, CoreIndex, GroupIndex),
    /// A candidate was included. `[candidate, head_data]`
    CandidateIncluded(CandidateReceipt<H256>, HeadData, CoreIndex, GroupIndex),
    /// A candidate timed out. `[candidate, head_data]`
    CandidateTimedOut(CandidateReceipt<H256>, HeadData, CoreIndex),
}

/// What an `Event` holds.
pub enum EventView {
    CandidateBacked(CandidateReceipt<H256>, HeadDataView, CoreIndex, GroupIndex),
    CandidateIncluded(CandidateReceipt<H256>, HeadDataView, CoreIndex, GroupIndex),
    CandidateTimedOut(CandidateReceipt<H256>, HeadDataView, CoreIndex),
}

impl View for Event {
    type V = EventView;

    open spec fn view(&self) -> EventView {
        match *self {
            Event::CandidateBacked(receipt, head, core, group) => EventView::CandidateBacked(
                receipt,
                head@,
                core,
                group,
            ),
            Event::CandidateIncluded(receipt, head, core, group) => EventView::CandidateIncluded(
                receipt,
                head@,
                core,
                group,
            ),
            Event::CandidateTimedOut(receipt, head, core) => EventView::CandidateTimedOut(
                receipt,
                head@,
                core,
            ),
        }
    }
}

/// Why bitfields or candidates were refused.
#[derive(Clone, Copy, PartialEq, Eq, Structural, Debug)]
pub enum Error {
    /// Availability bitfield has unexpected size.
    WrongBitfieldSize,
    /// Multiple bitfields submitted by same validator or validators out of order by index.
    BitfieldDuplicateOrUnordered,
    /// Validator index out of bounds.
    ValidatorIndexOutOfBounds,
    /// Invalid signature
    InvalidBitfieldSignature,
    /// Candidate submitted but para not scheduled.
    UnscheduledCandidate,
    /// Candidate scheduled despite pending candidate already existing for the para.
    CandidateScheduledBeforeParaFree,
    /// Candidate included with the wrong collator.
    WrongCollator,
    /// Scheduled cores out of order.
    ScheduledOutOfOrder,
    /// Head data exceeds the configured maximum.
    HeadDataTooLarge,
    /// Code upgrade prematurely.
    PrematureCodeUpgrade,
    /// Output code is too large
    NewCodeTooLarge,
    /// Candidate not in parent context.
    CandidateNotInParentContext,
    /// Invalid group index in core assignment.
    InvalidGroupIndex,
    /// Insufficient (non-majority) backing.
    InsufficientBacking,
    /// Invalid (bad signature, unknown validator, etc.) backing.
    InvalidBacking,
    /// Collator did not sign PoV.
    NotCollatorSigned,
    /// The validation data hash does not match expected.
    ValidationDataHashMismatch,
    /// The downward message queue is not processed correctly.
    IncorrectDownwardMessageHandling,
    /// At least one upward message sent does not pass the acceptance criteria.
    InvalidUpwardMessages,
    /// The candidate didn't follow the rules of HRMP watermark advancement.
    HrmpWatermarkMishandling,
    /// The HRMP messages sent by the candidate is not valid.
    InvalidOutboundHrmp,
    /// The validation code hash of the candidate is not valid.
    InvalidValidationCodeHash,
    /// The `para_head` hash in the candidate descriptor doesn't match the hash of the actual para head in the
    /// commitments.
    ParaHeadMismatch,
    /// A bitfield that references a freed core,
    /// either intentionally or as part of a concluded
    /// invalid dispute.
    BitfieldReferencesFreedCore,
}

/// What the pallet asks of its siblings and of the runtime. The effects are carried out in the
/// order in which they were put down.
#[derive(PartialEq, Eq, Debug)]
pub enum Effect {
    /// Reward the validators for issuing backing statements.
    RewardBacking(Vec<ValidatorIndex>),
    /// Reward the validators for issuing availability bitfields.
    RewardBitfields(Vec<ValidatorIndex>),
    /// Schedule the code upgrade of a para, relative to a relay-parent.
    ScheduleCodeUpgrade(ParaId, ValidationCode, BlockNumber),
    /// Drop that many processed messages of the downward queue of a para.
    PruneDmq(ParaId, u32),
    /// Take in the upward messages of a para.
    ReceiveUpwardMessages(ParaId, Vec<Vec<u8>>),
    /// Drop the horizontal messages to a para up to a watermark.
    PruneHrmp(ParaId, BlockNumber),
    /// Queue the horizontal messages of a para.
    QueueOutboundHrmp(ParaId, Vec<OutboundHrmpMessage>),
    /// Note the new head of a para, in the context of a relay-parent.
    NoteNewHead(ParaId, HeadData, BlockNumber),
    /// Deposit an event.
    DepositEvent(Event),
}

/// What an `Effect` holds.
pub enum EffectView {
    RewardBacking(Seq<ValidatorIndex>),
    RewardBitfields(Seq<ValidatorIndex>),
    ScheduleCodeUpgrade(ParaId, Seq<u8>, BlockNumber),
    PruneDmq(ParaId, u32),
    ReceiveUpwardMessages(ParaId, Seq<Seq<u8>>),
    PruneHrmp(ParaId, BlockNumber),
    QueueOutboundHrmp(ParaId, Seq<OutboundHrmpMessageView>),
    NoteNewHead(ParaId, HeadDataView, BlockNumber),
    DepositEvent(EventView),
}

impl View for Effect {
    type V = EffectView;

    open spec fn view(&self) -> EffectView {
        match *self {
            Effect::RewardBacking(validators) => EffectView::RewardBacking(validators@),
            Effect::RewardBitfields(validators) => EffectView::RewardBitfields(validators@),
            Effect::ScheduleCodeUpgrade(para, code, at) => EffectView::ScheduleCodeUpgrade(
                para,
                code@,
                at,
            ),
            Effect::PruneDmq(para, count) => EffectView::PruneDmq(para, count),
            Effect::ReceiveUpwardMessages(para, messages) => EffectView::ReceiveUpwardMessages(
                para,
                upward_view(messages@),
            ),
            Effect::PruneHrmp(para, watermark) => EffectView::PruneHrmp(para, watermark),
            Effect::QueueOutboundHrmp(para, messages) => EffectView::QueueOutboundHrmp(
                para,
                horizontal_view(messages@),
            ),
            Effect::NoteNewHead(para, head, at) => EffectView::NoteNewHead(para, head@, at),
            Effect::DepositEvent(event) => EffectView::DepositEvent(event@),
        }
    }
}

/// A candidate pending availability, as the pallet stores it.
pub type Pending = CandidatePendingAvailability<H256, BlockNumber>;

/// The records that a map of bitfield records holds.
pub open spec fn bitfields_view(
    records: Map<u32, AvailabilityBitfieldRecord<BlockNumber>>,
) -> Map<u32, BitfieldRecordView<BlockNumber>> {
    records.map_values(|r: AvailabilityBitfieldRecord<BlockNumber>| r@)
}

/// The candidates that a map of pending candidates holds.
pub open spec fn pending_view(pending: Map<u32, Pending>) -> Map<
    u32,
    PendingView<H256, BlockNumber>,
> {
    pending.map_values(|p: Pending| p@)
}

/// The commitments that a map of commitments holds.
pub open spec fn commitments_view(commitments: Map<u32, CandidateCommitments>) -> Map<
    u32,
    CommitmentsView,
> {
    commitments.map_values(|c: CandidateCommitments| c@)
}

/// What a list of effects holds.
pub open spec fn effects_view(effects: Seq<Effect>) -> Seq<EffectView> {
    effects.map_values(|e: Effect| e@)
}

/// The storage of the pallet, and the effects that wait to be carried out.
pub struct Pallet {
    /// The latest bitfield for each validator, referred to by their index in the validator set.
    availability_bitfields: StorageMap<AvailabilityBitfieldRecord<BlockNumber>>,
    /// Candidates pending availability by `ParaId`.
    pending_availability: StorageMap<Pending>,
    /// The commitments of candidates pending availability, by `ParaId`.
    pending_availability_commitments: StorageMap<CandidateCommitments>,
    /// What is still to be carried out.
    effects: Vec<Effect>,
}

/// What a `Pallet` holds.
#[verifier::ext_equal]
pub struct PalletView {
    pub availability_bitfields: Map<u32, BitfieldRecordView<BlockNumber>>,
    pub pending_availability: Map<u32, PendingView<H256, BlockNumber>>,
    pub pending_availability_commitments: Map<u32, CommitmentsView>,
    pub effects: Seq<EffectView>,
}

impl View for Pallet {
    type V = PalletView;

    closed spec fn view(&self) -> PalletView {
        PalletView {
            availability_bitfields: bitfields_view(self.availability_bitfields@),
            pending_availability: pending_view(self.pending_availability@),
            pending_availability_commitments: commitments_view(
                self.pending_availability_commitments@,
            ),
            effects: effects_view(self.effects@),
        }
    }
}

impl PalletView {
    /// The state with the candidate of `para` set to `candidate`.
    pub open spec fn insert_pending(
        self,
        para: ParaId,
        candidate: PendingView<H256, BlockNumber>,
    ) -> PalletView {
        PalletView {
            pending_availability: self.pending_availability.insert(para.0, candidate),
            ..self
        }
    }

    /// The state without a candidate of `para`.
    pub open spec fn remove_pending(self, para: ParaId) -> PalletView {
        PalletView { pending_availability: self.pending_availability.remove(para.0), ..self }
    }

    /// The state with the commitments of `para` set to `commitments`.
    pub open spec fn insert_commitments(
        self,
        para: ParaId,
        commitments: CommitmentsView,
    ) -> PalletView {
        PalletView {
            pending_availability_commitments: self.pending_availability_commitments.insert(
                para.0,
                commitments,
            ),
            ..self
        }
    }

    /// The state without commitments of `para`.
    pub open spec fn remove_commitments(self, para: ParaId) -> PalletView {
        PalletView {
            pending_availability_commitments: self.pending_availability_commitments.remove(para.0),
            ..self
        }
    }

    /// The state with the record of `validator` set to `record`.
    pub open spec fn insert_bitfield(
        self,
        validator: ValidatorIndex,
        record: BitfieldRecordView<BlockNumber>,
    ) -> PalletView {
        PalletView {
            availability_bitfields: self.availability_bitfields.insert(validator.0, record),
            ..self
        }
    }

    /// The state with more effects put down.
    pub open spec fn put_down(self, effects: Seq<EffectView>) -> PalletView {
        PalletView { effects: self.effects + effects, ..self }
    }
}

impl Pallet {
    /// The storage maps are in order.
    pub closed spec fn wf(&self) -> bool {
        &&& self.availability_bitfields.wf()
        &&& self.pending_availability.wf()
        &&& self.pending_availability_commitments.wf()
    }

    /// A pallet with empty storage.
    pub fn new() -> (pallet: Self)
        ensures
            pallet.wf(),
            pallet@ == (PalletView {
                availability_bitfields: Map::empty(),
                pending_availability: Map::empty(),
                pending_availability_commitments: Map::empty(),
                effects: Seq::empty(),
            }),
    {
        let pallet = Pallet {
            availability_bitfields: StorageMap::new(),
            pending_availability: StorageMap::new(),
            pending_availability_commitments: StorageMap::new(),
            effects: Vec::new(),
        };
        assert(pallet@ =~= (PalletView {
            availability_bitfields: Map::empty(),
            pending_availability: Map::empty(),
            pending_availability_commitments: Map::empty(),
            effects: Seq::empty(),
        }));
        pallet
    }

    /// Stores the candidate of a para.
    pub fn insert_pending(&mut self, para: ParaId, candidate: Pending)
        requires
            old(self).wf(),
        ensures
            final(self).wf(),
            final(self)@ == old(self)@.insert_pending(para, candidate@),
    {
        self.pending_availability.insert(para.0, candidate);
        assert(self@ =~= old(self)@.insert_pending(para, candidate@));
    }

    /// Removes the candidate of a para, and hands it out.
    pub fn take_pending(&mut self, para: ParaId) -> (candidate: Option<Pending>)
        requires
            old(self).wf(),
        ensures
            final(self).wf(),
            final(self)@ == old(self)@.remove_pending(para),
            match candidate {
                Some(c) => old(self)@.pending_availability.contains_key(para.0) && c@ == old(
                    self,
                )@.pending_availability[para.0],
                None => !old(self)@.pending_availability.contains_key(para.0),
            },
    {
        let candidate = self.pending_availability.take(para.0);
        assert(self@ =~= old(self)@.remove_pending(para));
        candidate
    }

    /// Stores the commitments of the candidate of a para.
    pub fn insert_commitments(&mut self, para: ParaId, commitments: CandidateCommitments)
        requires
            old(self).wf(),
        ensures
            final(self).wf(),
            final(self)@ == old(self)@.insert_commitments(para, commitments@),
    {
        self.pending_availability_commitments.insert(para.0, commitments);
        assert(self@ =~= old(self)@.insert_commitments(para, commitments@));
    }

    /// Removes the commitments of the candidate of a para, and hands them out.
    pub fn take_commitments(&mut self, para: ParaId) -> (commitments: Option<CandidateCommitments>)
        requires
            old(self).wf(),
        ensures
            final(self).wf(),
            final(self)@ == old(self)@.remove_commitments(para),
            match commitments {
                Some(c) => old(self)@.pending_availability_commitments.contains_key(para.0) && c@
                    == old(self)@.pending_availability_commitments[para.0],
                None => !old(self)@.pending_availability_commitments.contains_key(para.0),
            },
    {
        let commitments = self.pending_availability_commitments.take(para.0);
        assert(self@ =~= old(self)@.remove_commitments(para));
        commitments
    }

    /// Stores the bitfield record of a validator.
    pub fn insert_bitfield(
        &mut self,
        validator: ValidatorIndex,
        record: AvailabilityBitfieldRecord<BlockNumber>,
    )
        requires
            old(self).wf(),
        ensures
            final(self).wf(),
            final(self)@ == old(self)@.insert_bitfield(validator, record@),
    {
        self.availability_bitfields.insert(validator.0, record);
        assert(self@ =~= old(self)@.insert_bitfield(validator, record@));
    }

    /// The bitfield record of a validator, if there is one.
    pub fn availability_bitfield(&self, validator: ValidatorIndex) -> (record: Option<
        &AvailabilityBitfieldRecord<BlockNumber>,
    >)
        requires
            self.wf(),
        ensures
            match record {
                Some(r) => self@.availability_bitfields.contains_key(validator.0) && r@
                    == self@.availability_bitfields[validator.0],
                None => !self@.availability_bitfields.contains_key(validator.0),
            },
    {
        self.availability_bitfields.get(validator.0)
    }

    /// Puts down an effect.
    fn put_down(&mut self, effect: Effect)
        ensures
            old(self).wf() ==> final(self).wf(),
            final(self)@ == old(self)@.put_down(seq![effect@]),
    {
        self.effects.push(effect);
        assert(self@ =~= old(self)@.put_down(seq![effect@]));
    }

    /// Puts down that an event is to be deposited.
    pub fn deposit_event(&mut self, event: Event)
        ensures
            old(self).wf() ==> final(self).wf(),
            final(self)@ == old(self)@.put_down(seq![EffectView::DepositEvent(event@)]),
    {
        self.put_down(Effect::DepositEvent(event));
    }

    /// Hands out the effects that wait to be carried out.
    pub fn take_effects(&mut self) -> (effects: Vec<Effect>)
        ensures
            old(self).wf() ==> final(self).wf(),
            effects_view(effects@) == old(self)@.effects,
            final(self)@ == (PalletView { effects: Seq::empty(), ..old(self)@ }),
    {
        let mut effects: Vec<Effect> = Vec::new();
        effects.append(&mut self.effects);
        assert(effects_view(effects@) =~= old(self)@.effects);
        assert(self@ =~= (PalletView { effects: Seq::empty(), ..old(self)@ }));
        effects
    }
}

/// The validators whose bit is one, ascending.
pub open spec fn marked_validators(field: Seq<bool>) -> Seq<ValidatorIndex> {
    ones(field).map_values(|p: int| ValidatorIndex(p as u32))
}

/// The effects of including a candidate, in order.
pub open spec fn enactment(
    relay_parent_number: BlockNumber,
    descriptor: CandidateDescriptor<H256>,
    commitments: CommitmentsView,
    backers: Seq<bool>,
    availability_votes: Seq<bool>,
    core_index: CoreIndex,
    backing_group: GroupIndex,
) -> Seq<EffectView> {
    let para = descriptor.para_id;
    let plain = CandidateReceipt { descriptor, commitments_hash: commitments.digest };
    seq![
        EffectView::RewardBacking(marked_validators(backers)),
        EffectView::RewardBitfields(marked_validators(availability_votes)),
    ] + (match commitments.new_validation_code {
        Some(code) => seq![EffectView::ScheduleCodeUpgrade(para, code, relay_parent_number)],
        None => Seq::empty(),
    }) + seq![
        EffectView::PruneDmq(para, commitments.processed_downward_messages),
        EffectView::ReceiveUpwardMessages(para, commitments.upward_messages),
        EffectView::PruneHrmp(para, commitments.hrmp_watermark),
        EffectView::QueueOutboundHrmp(para, commitments.horizontal_messages),
        EffectView::DepositEvent(
            EventView::CandidateIncluded(plain, commitments.head_data, core_index, backing_group),
        ),
        EffectView::NoteNewHead(para, commitments.head_data, relay_parent_number),
    ]
}

/// The effects of including the candidate that was pending, with its commitments.
pub open spec fn enactment_of(
    pending: PendingView<H256, BlockNumber>,
    commitments: CommitmentsView,
) -> Seq<EffectView> {
    enactment(
        pending.relay_parent_number,
        pending.descriptor,
        commitments,
        pending.backers,
        pending.availability_votes,
        pending.core,
        pending.backing_group,
    )
}

/// The validators whose bit is one, ascending.
fn list_marked(field: &Bitfield) -> (validators: Vec<ValidatorIndex>)
    ensures
        validators@ == marked_validators(field@),
{
    let positions = field.one_positions();
    let mut validators: Vec<ValidatorIndex> = Vec::new();
    for i in 0..positions.len()
        invariant
            positions@.map_values(|p: usize| p as int) == ones(field@),
            validators@ == marked_validators(field@).take(i as int),
    {
        let ghost listed = validators@;
        assert(ones(field@)[i as int] == positions@[i as int]);
        assert(marked_validators(field@)[i as int] == ValidatorIndex(positions@[i as int] as u32));
        validators.push(ValidatorIndex(positions[i] as u32));
        assert(marked_validators(field@).take(i + 1) =~= marked_validators(field@).take(
            i as int,
        ).push(marked_validators(field@)[i as int]));
    }
    assert(positions@.len() == ones(field@).len());
    assert(validators@ =~= marked_validators(field@));
    validators
}

impl Pallet {
    /// Puts down everything that including a candidate does.
    pub fn enact_candidate(
        &mut self,
        relay_parent_number: BlockNumber,
        receipt: CommittedCandidateReceipt<H256>,
        backers: &Bitfield,
        availability_votes: &Bitfield,
        core_index: CoreIndex,
        backing_group: GroupIndex,
    )
        requires
            old(self).wf(),
        ensures
            final(self).wf(),
            final(self)@ == old(self)@.put_down(
                enactment(
                    relay_parent_number,
                    receipt.descriptor,
                    receipt.commitments@,
                    backers@,
                    availability_votes@,
                    core_index,
                    backing_group,
                ),
            ),
    {
        let plain = receipt.to_plain();
        let para = receipt.descriptor.para_id;
        let commitments = receipt.commitments;
        self.put_down(Effect::RewardBacking(list_marked(backers)));
        self.put_down(Effect::RewardBitfields(list_marked(availability_votes)));
        if let Some(new_code) = commitments.new_validation_code {
            self.put_down(Effect::ScheduleCodeUpgrade(para, new_code, relay_parent_number));
        }
        self.put_down(Effect::PruneDmq(para, commitments.processed_downward_messages));
        self.put_down(Effect::ReceiveUpwardMessages(para, commitments.upward_messages));
        self.put_down(Effect::PruneHrmp(para, commitments.hrmp_watermark));
        self.put_down(Effect::QueueOutboundHrmp(para, commitments.horizontal_messages));
        self.deposit_event(
            Event::CandidateIncluded(
                plain,
                commitments.head_data.clone(),
                core_index,
                backing_group,
            ),
        );
        self.put_down(Effect::NoteNewHead(para, commitments.head_data, relay_parent_number));
        assert(self@ =~= old(self)@.put_down(
            enactment(
                relay_parent_number,
                receipt.descriptor,
                receipt.commitments@,
                backers@,
                availability_votes@,
                core_index,
                backing_group,
            ),
        ));
    }
}

/// The paras of the keys that were picked, in the order of the keys.
pub open spec fn picked(keys: Seq<u32>, picks: Seq<bool>) -> Seq<ParaId>
    decreases keys.len(),
{
    if keys.len() == 0 {
        Seq::empty()
    } else if picks[keys.len() - 1] {
        picked(keys.drop_last(), picks).push(ParaId(keys.last()))
    } else {
        picked(keys.drop_last(), picks)
    }
}

impl PalletView {
    /// The paras with a candidate pending availability, as the storage walks them.
    pub open spec fn pending_walk(self) -> Seq<u32> {
        walk(self.pending_availability.dom())
    }

    /// The cores that the candidates of the paras occupy.
    pub open spec fn cores_of(self, paras: Seq<ParaId>) -> Seq<CoreIndex> {
        paras.map_values(|para: ParaId| self.pending_availability[para.0].core)
    }

    /// The state after the candidates of the paras timed out, one para after the other.
    pub open spec fn timed_out(self, paras: Seq<ParaId>) -> PalletView
        decreases paras.len(),
    {
        if paras.len() == 0 {
            self
        } else {
            self.timed_out(paras.drop_last()).timed_out_one(paras.last())
        }
    }

    /// The state after the candidate of one para timed out.
    pub open spec fn timed_out_one(self, para: ParaId) -> PalletView {
        let cleaned = self.remove_pending(para).remove_commitments(para);
        if self.pending_availability.contains_key(para.0)
            && self.pending_availability_commitments.contains_key(para.0) {
            let pending = self.pending_availability[para.0];
            let commitments = self.pending_availability_commitments[para.0];
            let candidate = CandidateReceipt {
                descriptor: pending.descriptor,
                commitments_hash: commitments.digest,
            };
            cleaned.put_down(
                seq![
                    EffectView::DepositEvent(
                        EventView::CandidateTimedOut(
                            candidate,
                            commitments.head_data,
                            pending.core,
                        ),
                    ),
                ],
            )
        } else {
            cleaned
        }
    }

    /// The state without the candidates of the paras.
    pub open spec fn evicted(self, paras: Seq<ParaId>) -> PalletView {
        let keys = paras.map_values(|para: ParaId| para.0).to_set();
        PalletView {
            pending_availability: self.pending_availability.remove_keys(keys),
            pending_availability_commitments: self.pending_availability_commitments.remove_keys(
                keys,
            ),
            ..self
        }
    }

    /// For each key of the walk, whether its candidate is among the disputed.
    pub open spec fn disputed_picks(self, disputed: Seq<CandidateHash>) -> Seq<bool> {
        Seq::new(
            self.pending_walk().len(),
            |i: int| disputed.contains(self.pending_availability[self.pending_walk()[i]].hash),
        )
    }

    /// The paras whose candidates are among the disputed, as the storage walks them.
    pub open spec fn disputed_paras(self, disputed: Seq<CandidateHash>) -> Seq<ParaId> {
        picked(self.pending_walk(), self.disputed_picks(disputed))
    }
}

impl PalletView {
    /// The walk over the paras with a candidate pending availability comes by each of them once.
    pub open spec fn is_walked(self) -> bool {
        is_walk(self.pending_walk(), self.pending_availability.dom())
    }
}

impl Pallet {
    /// The storage of a pallet is walked.
    pub proof fn storage_is_walked(&self)
        requires
            self.wf(),
        ensures
            self@.is_walked(),
            forall|para: u32| #[trigger]
                self@.pending_availability.contains_key(para) == self@.pending_walk().contains(para),
    {
        self.pending_availability.keys_are_the_walk();
        assert(self.pending_availability@.dom() =~= self@.pending_availability.dom());
        assert forall|para: u32| #[trigger]
            self@.pending_availability.contains_key(para) == self@.pending_walk().contains(para) by {
            assert(self@.pending_availability.dom().contains(para) <==> self@.pending_walk().contains(
                para,
            ));
        }
    }
}

/// The answers of a predicate on the candidates pending availability, in storage order.
pub open spec fn pending_picks<P: Fn(CoreIndex, BlockNumber) -> bool>(
    pred: P,
    state: PalletView,
    picks: Seq<bool>,
) -> bool {
    &&& picks.len() == state.pending_walk().len()
    &&& forall|i: int|
        0 <= i < picks.len() ==> {
            let candidate = state.pending_availability[state.pending_walk()[i]];
            call_ensures(
                pred,
                (candidate.core, candidate.backed_in_number),
                #[trigger] picks[i],
            )
        }
}

/// Whether `hash` is in the list.
fn is_among(hash: &CandidateHash, list: &[CandidateHash]) -> (r: bool)
    ensures
        r == list@.contains(*hash),
{
    for i in 0..list.len()
        invariant
            forall|j: int| 0 <= j < i ==> list@[j] != *hash,
    {
        if list[i].same(hash) {
            return true;
        }
    }
    false
}

impl Pallet {
    /// Block initialization logic, called by initializer: there is nothing to do.
    pub fn initializer_initialize(&self, _now: BlockNumber) -> (weight: Weight)
        ensures
            weight == 0,
    {
        0
    }

    /// Block finalization logic, called by initializer: there is nothing to do.
    pub fn initializer_finalize(&mut self)
        ensures
            *final(self) == *old(self),
    {
    }

    /// Handle an incoming session change: nothing is pending any more, and no bitfield counts.
    pub fn initializer_on_new_session(&mut self)
        requires
            old(self).wf(),
        ensures
            final(self).wf(),
            final(self)@ == (PalletView {
                availability_bitfields: Map::empty(),
                pending_availability: Map::empty(),
                pending_availability_commitments: Map::empty(),
                effects: old(self)@.effects,
            }),
    {
        self.pending_availability_commitments.drain();
        self.pending_availability.drain();
        self.availability_bitfields.drain();
        assert(self@ =~= (PalletView {
            availability_bitfields: Map::empty(),
            pending_availability: Map::empty(),
            pending_availability_commitments: Map::empty(),
            effects: old(self)@.effects,
        }));
    }

    /// Cleans up all paras pending availability that the predicate returns true for.
    ///
    /// The predicate accepts the index of the core and the block number the core has been occupied
    /// since (i.e. the block number the candidate was backed at in this fork of the relay chain).
    ///
    /// Returns a vector of cleaned-up core IDs.
    pub fn collect_pending<P: Fn(CoreIndex, BlockNumber) -> bool>(&mut self, pred: P) -> (cores:
        Vec<CoreIndex>)
        requires
            old(self).wf(),
            forall|para: u32| #[trigger]
                old(self)@.pending_availability.contains_key(para) ==> call_requires(
                    pred,
                    (
                        old(self)@.pending_availability[para].core,
                        old(self)@.pending_availability[para].backed_in_number,
                    ),
                ),
        ensures
            final(self).wf(),
            exists|picks: Seq<bool>| #[trigger]
                pending_picks(pred, old(self)@, picks) && {
                    let paras = picked(old(self)@.pending_walk(), picks);
                    &&& final(self)@ == old(self)@.timed_out(paras)
                    &&& cores@ == old(self)@.cores_of(paras)
                },
            forall|para: u32| #[trigger]
                old(self)@.pending_availability.contains_key(para) ==> {
                    let pending = old(self)@.pending_availability[para];
                    exists|answer: bool| #[trigger]
                        call_ensures(pred, (pending.core, pending.backed_in_number), answer)
                            && if answer {
                            &&& !final(self)@.pending_availability.contains_key(para)
                            &&& !final(self)@.pending_availability_commitments.contains_key(para)
                            &&& cores@.contains(pending.core)
                        } else {
                            &&& final(self)@.pending_availability.contains_key(para)
                            &&& final(self)@.pending_availability[para] == pending
                        }
                },
    {
        let mut cleaned_up_ids: Vec<ParaId> = Vec::new();
        let mut cleaned_up_cores: Vec<CoreIndex> = Vec::new();
        let ghost mut picks: Seq<bool> = Seq::empty();
        let ghost state = self@;
        let ghost keys = state.pending_walk();
        proof {
            self.pending_availability.keys_are_the_walk();
            assert(self.pending_availability@.dom() =~= state.pending_availability.dom());
            assert(keys.take(0) =~= Seq::<u32>::empty());
            assert(state.cores_of(picked(keys.take(0), picks)) =~= Seq::<CoreIndex>::empty());
        }
        let count = self.pending_availability.len();
        for i in 0..count
            invariant
                self.wf(),
                *self == *old(self),
                self@ == state,
                keys == state.pending_walk(),
                keys == self.pending_availability.keys(),
                count == keys.len(),
                picks.len() == i,
                forall|para: u32| #[trigger]
                    state.pending_availability.contains_key(para) ==> call_requires(
                        pred,
                        (
                            state.pending_availability[para].core,
                            state.pending_availability[para].backed_in_number,
                        ),
                    ),
                forall|j: int|
                    0 <= j < i ==> {
                        let candidate = state.pending_availability[keys[j]];
                        call_ensures(
                            pred,
                            (candidate.core, candidate.backed_in_number),
                            #[trigger] picks[j],
                        )
                    },
                cleaned_up_ids@ == picked(keys.take(i as int), picks),
                cleaned_up_cores@ == state.cores_of(cleaned_up_ids@),
        {
            let (para_id, pending_record) = self.pending_availability.entry(i);
            assert(state.pending_availability.contains_key(para_id));
            assert(pending_record@ == state.pending_availability[keys[i as int]]);
            let pick = pred(pending_record.core, pending_record.backed_in_number);
            let ghost ids = cleaned_up_ids@;
            proof {
                lemma_picked_extends(keys.take(i as int), picks, picks.push(pick));
                picks = picks.push(pick);
                assert(keys.take(i + 1).drop_last() =~= keys.take(i as int));
            }
            if pick {
                cleaned_up_ids.push(ParaId(para_id));
                cleaned_up_cores.push(pending_record.core);
                assert(state.cores_of(cleaned_up_ids@) =~= state.cores_of(ids).push(
                    pending_record.core,
                ));
            }
        }
        assert(keys.take(count as int) =~= keys);
        assert(pending_picks(pred, old(self)@, picks));
        proof {
            self.storage_is_walked();
        }
        self.time_out(&cleaned_up_ids);
        proof {
            assert forall|para: u32| #[trigger] state.pending_availability.contains_key(para) implies {
                let pending = state.pending_availability[para];
                exists|answer: bool| #[trigger]
                    call_ensures(pred, (pending.core, pending.backed_in_number), answer)
                        && if answer {
                        &&& !self@.pending_availability.contains_key(para)
                        &&& !self@.pending_availability_commitments.contains_key(para)
                        &&& cleaned_up_cores@.contains(pending.core)
                    } else {
                        &&& self@.pending_availability.contains_key(para)
                        &&& self@.pending_availability[para] == pending
                    }
            } by {
                let answer = the_predicate_decides_on_each_para(pred, state, picks, para);
                assert(call_ensures(
                    pred,
                    (
                        state.pending_availability[para].core,
                        state.pending_availability[para].backed_in_number,
                    ),
                    answer,
                ));
            }
        }
        cleaned_up_cores
    }

    /// Removes the candidates of the paras and their commitments, and tells of each that was
    /// complete that it timed out.
    pub fn time_out(&mut self, paras: &Vec<ParaId>)
        requires
            old(self).wf(),
        ensures
            final(self).wf(),
            final(self)@ == old(self)@.timed_out(paras@),
    {
        assert(paras@.take(0) =~= Seq::<ParaId>::empty());
        for i in 0..paras.len()
            invariant
                self.wf(),
                self@ == old(self)@.timed_out(paras@.take(i as int)),
        {
            let ghost before = self@;
            let para_id = paras[i];
            let pending = self.take_pending(para_id);
            let commitments = self.take_commitments(para_id);
            if let Some(pending) = pending {
                if let Some(commitments) = commitments {
                    let candidate = CandidateReceipt {
                        descriptor: pending.descriptor,
                        commitments_hash: commitments.hash(),
                    };
                    self.deposit_event(
                        Event::CandidateTimedOut(candidate, commitments.head_data, pending.core),
                    );
                }
            }
            assert(self@ =~= before.timed_out_one(para_id));
            assert(paras@.take(i + 1).drop_last() =~= paras@.take(i as int));
        }
        assert(paras@.take(paras@.len() as int) =~= paras@);
    }

    /// Cleans up all paras pending availability that are in the given list of disputed candidates.
    ///
    /// Returns a vector of cleaned-up core IDs.
    pub fn collect_disputed(&mut self, disputed: &[CandidateHash]) -> (cores: Vec<CoreIndex>)
        requires
            old(self).wf(),
        ensures
            final(self).wf(),
            final(self)@ == old(self)@.evicted(old(self)@.disputed_paras(disputed@)),
            cores@ == old(self)@.cores_of(old(self)@.disputed_paras(disputed@)),
            forall|para: u32| #[trigger]
                old(self)@.pending_availability.contains_key(para) ==> {
                    let pending = old(self)@.pending_availability[para];
                    if disputed@.contains(pending.hash) {
                        &&& !final(self)@.pending_availability.contains_key(para)
                        &&& !final(self)@.pending_availability_commitments.contains_key(para)
                        &&& cores@.contains(pending.core)
                    } else {
                        &&& final(self)@.pending_availability.contains_key(para)
                        &&& final(self)@.pending_availability[para] == pending
                    }
                },
    {
        let mut cleaned_up_ids: Vec<ParaId> = Vec::new();
        let mut cleaned_up_cores: Vec<CoreIndex> = Vec::new();
        let ghost state = self@;
        let ghost keys = state.pending_walk();
        let ghost picks = state.disputed_picks(disputed@);
        proof {
            self.pending_availability.keys_are_the_walk();
            assert(self.pending_availability@.dom() =~= state.pending_availability.dom());
            assert(keys.take(0) =~= Seq::<u32>::empty());
            assert(state.cores_of(picked(keys.take(0), picks)) =~= Seq::<CoreIndex>::empty());
            self.storage_is_walked();
            assert forall|para: u32| #[trigger] state.pending_availability.contains_key(para) implies {
                let pending = state.pending_availability[para];
                let after = state.evicted(state.disputed_paras(disputed@));
                let cores = state.cores_of(state.disputed_paras(disputed@));
                if disputed@.contains(pending.hash) {
                    &&& !after.pending_availability.contains_key(para)
                    &&& !after.pending_availability_commitments.contains_key(para)
                    &&& cores.contains(pending.core)
                } else {
                    &&& after.pending_availability.contains_key(para)
                    &&& after.pending_availability[para] == pending
                }
            } by {
                the_list_decides_on_each_para(state, disputed@, para);
            }
        }
        let count = self.pending_availability.len();
        for i in 0..count
            invariant
                self.wf(),
                *self == *old(self),
                self@ == state,
                keys == state.pending_walk(),
                keys == self.pending_availability.keys(),
                count == keys.len(),
                picks == state.disputed_picks(disputed@),
                cleaned_up_ids@ == picked(keys.take(i as int), picks),
                cleaned_up_cores@ == state.cores_of(cleaned_up_ids@),
        {
            let (para_id, pending_record) = self.pending_availability.entry(i);
            assert(pending_record@ == state.pending_availability[keys[i as int]]);
            let ghost ids = cleaned_up_ids@;
            assert(keys.take(i + 1).drop_last() =~= keys.take(i as int));
            if is_among(&pending_record.hash, disputed) {
                cleaned_up_ids.push(ParaId(para_id));
                cleaned_up_cores.push(pending_record.core);
                assert(state.cores_of(cleaned_up_ids@) =~= state.cores_of(ids).push(
                    pending_record.core,
                ));
            }
        }
        assert(keys.take(count as int) =~= keys);
        let ghost ids = cleaned_up_ids@;
        assert(self@ =~= state.evicted(ids.take(0)));
        for i in 0..cleaned_up_ids.len()
            invariant
                self.wf(),
                ids == cleaned_up_ids@,
                self@ == state.evicted(ids.take(i as int)),
        {
            let _ = self.take_pending(cleaned_up_ids[i]);
            let _ = self.take_commitments(cleaned_up_ids[i]);
            proof {
                lemma_evict_one_more(state, ids, i as int);
            }
        }
        assert(ids.take(ids.len() as int) =~= ids);
        cleaned_up_cores
    }

    /// Forcibly enact the candidate with the given ID as though it had been deemed available
    /// by bitfields.
    ///
    /// Is a no-op if there is no candidate pending availability for this para-id.
    /// This should generally not be used but it is useful during execution of Runtime APIs,
    /// where the changes to the state are expected to be discarded directly after.
    pub fn force_enact(&mut self, para: ParaId)
        requires
            old(self).wf(),
        ensures
            final(self).wf(),
            final(self)@ == old(self)@.force_enacted(para),
    {
        if let Some(pending) = self.take_pending(para) {
            if let Some(commitments) = self.take_commitments(para) {
                let candidate = CommittedCandidateReceipt {
                    descriptor: pending.descriptor,
                    commitments,
                };
                self.enact_candidate(
                    pending.relay_parent_number,
                    candidate,
                    &pending.backers,
                    &pending.availability_votes,
                    pending.core,
                    pending.backing_group,
                );
            } else {
                assert(self@ =~= old(self)@.remove_pending(para));
            }
        } else {
            assert(self@ =~= old(self)@);
        }
    }

    /// Returns the `CommittedCandidateReceipt` pending availability for the para provided, if any.
    pub fn candidate_pending_availability(&self, para: ParaId) -> (receipt: Option<
        CommittedCandidateReceipt<H256>,
    >)
        requires
            self.wf(),
        ensures
            match receipt {
                Some(r) => {
                    &&& self@.pending_availability.contains_key(para.0)
                    &&& self@.pending_availability_commitments.contains_key(para.0)
                    &&& r.descriptor == self@.pending_availability[para.0].descriptor
                    &&& r.commitments@ == self@.pending_availability_commitments[para.0]
                },
                None => !self@.pending_availability.contains_key(para.0)
                    || !self@.pending_availability_commitments.contains_key(para.0),
            },
    {
        match self.pending_availability.get(para.0) {
            Some(pending) => match self.pending_availability_commitments.get(para.0) {
                Some(commitments) => Some(
                    CommittedCandidateReceipt {
                        descriptor: pending.descriptor,
                        commitments: commitments.clone(),
                    },
                ),
                None => None,
            },
            None => None,
        }
    }

    /// Returns the metadata around the candidate pending availability for the
    /// para provided, if any.
    pub fn pending_availability(&self, para: ParaId) -> (pending: Option<Pending>)
        requires
            self.wf(),
        ensures
            match pending {
                Some(p) => self@.pending_availability.contains_key(para.0) && p@
                    == self@.pending_availability[para.0],
                None => !self@.pending_availability.contains_key(para.0),
            },
    {
        match self.pending_availability.get(para.0) {
            Some(pending) => Some(pending.clone()),
            None => None,
        }
    }

    /// The paras with a candidate pending availability, as the storage walks them.
    pub fn pending_paras(&self) -> (paras: Vec<u32>)
        requires
            self.wf(),
        ensures
            paras@ == walk(self@.pending_availability.dom()),
    {
        proof {
            self.pending_availability.keys_are_the_walk();
            assert(self.pending_availability@.dom() =~= self@.pending_availability.dom());
        }
        self.pending_availability.list_keys()
    }

    /// The paras with commitments, as the storage walks them.
    pub fn committed_paras(&self) -> (paras: Vec<u32>)
        requires
            self.wf(),
        ensures
            paras@ == walk(self@.pending_availability_commitments.dom()),
    {
        proof {
            self.pending_availability_commitments.keys_are_the_walk();
            assert(self.pending_availability_commitments@.dom()
                =~= self@.pending_availability_commitments.dom());
        }
        self.pending_availability_commitments.list_keys()
    }

    /// The validators with a bitfield on record, as the storage walks them.
    pub fn recorded_validators(&self) -> (validators: Vec<u32>)
        requires
            self.wf(),
        ensures
            validators@ == walk(self@.availability_bitfields.dom()),
    {
        proof {
            self.availability_bitfields.keys_are_the_walk();
            assert(self.availability_bitfields@.dom() =~= self@.availability_bitfields.dom());
        }
        self.availability_bitfields.list_keys()
    }

    /// Whether a candidate is pending availability for the para.
    pub fn has_pending(&self, para: ParaId) -> (r: bool)
        requires
            self.wf(),
        ensures
            r == self@.pending_availability.contains_key(para.0),
    {
        self.pending_availability.contains_key(para.0)
    }

    /// Whether commitments are stored for the para.
    pub fn has_commitments(&self, para: ParaId) -> (r: bool)
        requires
            self.wf(),
        ensures
            r == self@.pending_availability_commitments.contains_key(para.0),
    {
        self.pending_availability_commitments.contains_key(para.0)
    }
}

impl PalletView {
    /// The state after the candidate of `para` was enacted without regard to its votes.
    pub open spec fn force_enacted(self, para: ParaId) -> PalletView {
        if !self.pending_availability.contains_key(para.0) {
            self
        } else if !self.pending_availability_commitments.contains_key(para.0) {
            self.remove_pending(para)
        } else {
            self.remove_pending(para).remove_commitments(para).put_down(
                enactment_of(
                    self.pending_availability[para.0],
                    self.pending_availability_commitments[para.0],
                ),
            )
        }
    }
}

/// Picks beyond the keys do not matter.
proof fn lemma_picked_extends(keys: Seq<u32>, a: Seq<bool>, b: Seq<bool>)
    requires
        keys.len() <= a.len(),
        keys.len() <= b.len(),
        forall|i: int| 0 <= i < keys.len() ==> a[i] == b[i],
    ensures
        picked(keys, a) == picked(keys, b),
    decreases keys.len(),
{
    if keys.len() > 0 {
        lemma_picked_extends(keys.drop_last(), a, b);
    }
}

/// Evicting one more para removes its candidate and its commitments.
proof fn lemma_evict_one_more(state: PalletView, ids: Seq<ParaId>, i: int)
    requires
        0 <= i < ids.len(),
    ensures
        state.evicted(ids.take(i)).remove_pending(ids[i]).remove_commitments(ids[i])
            == state.evicted(ids.take(i + 1)),
{
    let raw = |para: ParaId| para.0;
    let some = ids.take(i).map_values(raw);
    let more = ids.take(i + 1).map_values(raw);
    assert(more =~= some.push(ids[i].0));
    assert forall|k: u32| more.to_set().contains(k) <==> some.to_set().insert(ids[i].0).contains(
        k,
    ) by {
        if some.contains(k) {
            let j = choose|j: int| 0 <= j < some.len() && some[j] == k;
            assert(more[j] == k);
        }
        assert(more[i] == ids[i].0);
    }
    assert(state.evicted(ids.take(i)).remove_pending(ids[i]).remove_commitments(ids[i])
        =~= state.evicted(ids.take(i + 1)));
}

} // verus!
