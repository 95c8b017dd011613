//! The data that the pallet works on: candidates, what they commit to, and who vouches for them.
//!
//! Digests and signature checks are computed where these values are made: a value carries the
//! digest of its encoding beside its parts.
use crate::bits::max_bits;
use crate::bits::zeros;
use crate::bits::Bitfield;
use vstd::prelude::*;

verus! {

/// A block number of the relay chain.
pub type BlockNumber = u32;

/// The index of a session.
pub type SessionIndex = u32;

/// The identifier of a para.
#[derive(Clone, Copy, PartialEq, Eq, Structural, Debug)]
pub struct ParaId(pub u32);

/// The index of an availability core.
#[derive(Clone, Copy, PartialEq, Eq, Structural, Debug)]
pub struct CoreIndex(pub u32);

/// The index of a group of validators.
#[derive(Clone, Copy, PartialEq, Eq, Structural, Debug)]
pub struct GroupIndex(pub u32);

/// The index of a validator in the active set.
#[derive(Clone, Copy, PartialEq, Eq, Structural, Debug)]
pub struct ValidatorIndex(pub u32);

/// A digest.
#[derive(Clone, Copy, PartialEq, Eq, Debug)]
pub struct H256(pub [u8; 32]);

/// The digest of a candidate receipt.
#[derive(Clone, Copy, PartialEq, Eq, Debug)]
pub struct CandidateHash(pub H256);

/// The public key of a validator.
#[derive(Clone, Copy, PartialEq, Eq, Debug)]
pub struct ValidatorId(pub [u8; 32]);

/// The public key of a collator.
#[derive(Clone, Copy, PartialEq, Eq, Debug)]
pub struct CollatorId(pub [u8; 32]);

/// A signature.
#[derive(Clone, Copy, PartialEq, Eq, Debug)]
pub struct Signature(pub [u8; 64]);

/// Whether two strings of bytes are the same.
fn same_bytes<const N: usize>(a: &[u8; N], b: &[u8; N]) -> (r: bool)
    ensures
        r == (*a == *b),
{
    let mut i: usize = 0;
    while i < N
        invariant
            i <= N,
            forall|j: int| 0 <= j < i ==> a[j] == b[j],
        decreases N - i,
    {
        if a[i] != b[i] {
            return false;
        }
        i = i + 1;
    }
    assert(*a =~= *b);
    true
}

impl H256 {
    /// Whether two digests are the same.
    pub fn same(&self, other: &H256) -> (r: bool)
        ensures
            r == (*self == *other),
    {
        same_bytes(&self.0, &other.0)
    }
}

impl CandidateHash {
    /// Whether two candidate hashes are the same.
    pub fn same(&self, other: &CandidateHash) -> (r: bool)
        ensures
            r == (*self == *other),
    {
        self.0.same(&other.0)
    }
}

impl CollatorId {
    /// Whether two collators are the same.
    pub fn same(&self, other: &CollatorId) -> (r: bool)
        ensures
            r == (*self == *other),
    {
        same_bytes(&self.0, &other.0)
    }
}

/// Copies a string of bytes.
pub(crate) fn copy_bytes(bytes: &Vec<u8>) -> (copy: Vec<u8>)
    ensures
        copy@ == bytes@,
{
    let copy = bytes.clone();
    assert(copy@ =~= bytes@);
    copy
}

/// A validation function.
#[derive(PartialEq, Eq, Debug)]
pub struct ValidationCode(pub Vec<u8>);

impl View for ValidationCode {
    type V = Seq<u8>;

    open spec fn view(&self) -> Seq<u8> {
        self.0@
    }
}

/// The head of a para: the bytes, and the digest of the bytes.
#[derive(PartialEq, Eq, Debug)]
pub struct HeadData {
    pub bytes: Vec<u8>,
    pub digest: H256,
}

/// What a `HeadData` holds.
#[verifier::ext_equal]
pub struct HeadDataView {
    pub bytes: Seq<u8>,
    pub digest: H256,
}

impl View for HeadData {
    type V = HeadDataView;

    open spec fn view(&self) -> HeadDataView {
        HeadDataView { bytes: self.bytes@, digest: self.digest }
    }
}

impl Clone for HeadData {
    fn clone(&self) -> (copy: Self)
        ensures
            copy@ == self@,
    {
        HeadData { bytes: copy_bytes(&self.bytes), digest: self.digest }
    }
}

impl HeadData {
    /// The digest of the head.
    pub fn hash(&self) -> (digest: H256)
        ensures
            digest == self.digest,
    {
        self.digest
    }
}

/// A message from one para to another.
#[derive(PartialEq, Eq, Debug)]
pub struct OutboundHrmpMessage {
    pub recipient: ParaId,
    pub data: Vec<u8>,
}

/// What an `OutboundHrmpMessage` holds.
#[verifier::ext_equal]
pub struct OutboundHrmpMessageView {
    pub recipient: ParaId,
    pub data: Seq<u8>,
}

impl View for OutboundHrmpMessage {
    type V = OutboundHrmpMessageView;

    open spec fn view(&self) -> OutboundHrmpMessageView {
        OutboundHrmpMessageView { recipient: self.recipient, data: self.data@ }
    }
}

/// The outputs of a candidate, and the digest of them all.
#[derive(PartialEq, Eq, Debug)]
pub struct CandidateCommitments {
    /// Messages to the relay chain.
    pub upward_messages: Vec<Vec<u8>>,
    /// Messages to other paras.
    pub horizontal_messages: Vec<OutboundHrmpMessage>,
    /// The new validation function, if there is to be one.
    pub new_validation_code: Option<ValidationCode>,
    /// The head that results.
    pub head_data: HeadData,
    /// How many messages of the downward queue were processed.
    pub processed_downward_messages: u32,
    /// The block up to which horizontal messages were processed.
    pub hrmp_watermark: BlockNumber,
    /// The digest of the commitments.
    pub digest: H256,
}

/// What a `CandidateCommitments` holds.
#[verifier::ext_equal]
pub struct CommitmentsView {
    pub upward_messages: Seq<Seq<u8>>,
    pub horizontal_messages: Seq<OutboundHrmpMessageView>,
    pub new_validation_code: Option<Seq<u8>>,
    pub head_data: HeadDataView,
    pub processed_downward_messages: u32,
    pub hrmp_watermark: BlockNumber,
    pub digest: H256,
}

/// The messages that a list of upward messages holds.
pub open spec fn upward_view(messages: Seq<Vec<u8>>) -> Seq<Seq<u8>> {
    messages.map_values(|m: Vec<u8>| m@)
}

/// The messages that a list of horizontal messages holds.
pub open spec fn horizontal_view(messages: Seq<OutboundHrmpMessage>) -> Seq<
    OutboundHrmpMessageView,
> {
    messages.map_values(|m: OutboundHrmpMessage| m@)
}

/// The code that an optional validation function holds.
pub open spec fn code_view(code: Option<ValidationCode>) -> Option<Seq<u8>> {
    match code {
        Some(code) => Some(code@),
        None => None,
    }
}

impl View for CandidateCommitments {
    type V = CommitmentsView;

    open spec fn view(&self) -> CommitmentsView {
        CommitmentsView {
            upward_messages: upward_view(self.upward_messages@),
            horizontal_messages: horizontal_view(self.horizontal_messages@),
            new_validation_code: code_view(self.new_validation_code),
            head_data: self.head_data@,
            processed_downward_messages: self.processed_downward_messages,
            hrmp_watermark: self.hrmp_watermark,
            digest: self.digest,
        }
    }
}

impl CandidateCommitments {
    /// The digest of the commitments.
    pub fn hash(&self) -> (digest: H256)
        ensures
            digest == self.digest,
    {
        self.digest
    }
}

impl Clone for CandidateCommitments {
    fn clone(&self) -> (copy: Self)
        ensures
            copy@ == self@,
    {
        let mut upward_messages: Vec<Vec<u8>> = Vec::new();
        for i in 0..self.upward_messages.len()
            invariant
                upward_view(upward_messages@) == upward_view(self.upward_messages@).take(i as int),
        {
            let ghost copied = upward_messages@;
            let ghost all = upward_view(self.upward_messages@);
            upward_messages.push(copy_bytes(&self.upward_messages[i]));
            assert(upward_view(upward_messages@) =~= upward_view(copied).push(all[i as int]));
            assert(all.take(i + 1) =~= all.take(i as int).push(all[i as int]));
        }
        let mut horizontal_messages: Vec<OutboundHrmpMessage> = Vec::new();
        for i in 0..self.horizontal_messages.len()
            invariant
                horizontal_view(horizontal_messages@) == horizontal_view(
                    self.horizontal_messages@,
                ).take(i as int),
        {
            let ghost copied = horizontal_messages@;
            let ghost all = horizontal_view(self.horizontal_messages@);
            let message = &self.horizontal_messages[i];
            horizontal_messages.push(
                OutboundHrmpMessage {
                    recipient: message.recipient,
                    data: copy_bytes(&message.data),
                },
            );
            assert(horizontal_view(horizontal_messages@) =~= horizontal_view(copied).push(
                all[i as int],
            ));
            assert(all.take(i + 1) =~= all.take(i as int).push(all[i as int]));
        }
        let new_validation_code = match &self.new_validation_code {
            Some(code) => Some(ValidationCode(copy_bytes(&code.0))),
            None => None,
        };
        let copy = CandidateCommitments {
            upward_messages,
            horizontal_messages,
            new_validation_code,
            head_data: self.head_data.clone(),
            processed_downward_messages: self.processed_downward_messages,
            hrmp_watermark: self.hrmp_watermark,
            digest: self.digest,
        };
        assert(copy@ =~= self@);
        copy
    }
}

/// What identifies a candidate.
#[derive(Clone, Copy, PartialEq, Eq, Debug)]
pub struct CandidateDescriptor<H> {
    /// The para that the candidate is for.
    pub para_id: ParaId,
    /// The block of the relay chain in whose context the candidate was made.
    pub relay_parent: H,
    /// The collator that made it.
    pub collator: CollatorId,
    /// The digest of the persisted validation data.
    pub persisted_validation_data_hash: H256,
    /// The digest of the proof of validity.
    pub pov_hash: H256,
    /// The root of the erasure-coded chunks.
    pub erasure_root: H256,
    /// The signature of the collator.
    pub signature: Signature,
    /// The digest of the head that results.
    pub para_head: H256,
    /// The digest of the validation function.
    pub validation_code_hash: H256,
}

/// A candidate, with its commitments reduced to a digest.
#[derive(Clone, Copy, PartialEq, Eq, Debug)]
pub struct CandidateReceipt<H> {
    pub descriptor: CandidateDescriptor<H>,
    pub commitments_hash: H256,
}

/// A candidate with its commitments.
#[derive(PartialEq, Eq, Debug)]
pub struct CommittedCandidateReceipt<H> {
    pub descriptor: CandidateDescriptor<H>,
    pub commitments: CandidateCommitments,
}

impl<H: Copy> CommittedCandidateReceipt<H> {
    /// The receipt with the commitments reduced to their digest.
    pub fn to_plain(&self) -> (plain: CandidateReceipt<H>)
        ensures
            plain == (CandidateReceipt {
                descriptor: self.descriptor,
                commitments_hash: self.commitments.digest,
            }),
    {
        CandidateReceipt {
            descriptor: self.descriptor,
            commitments_hash: self.commitments.hash(),
        }
    }
}

/// The word of a validator for a candidate.
#[derive(Clone, Copy, PartialEq, Eq, Debug)]
pub enum ValidityAttestation {
    /// The signature of the statement that seconded the candidate.
    Implicit(Signature),
    /// The signature of the statement that the candidate is valid.
    Explicit(Signature),
}

/// A candidate with the votes that back it.
#[derive(PartialEq, Eq, Debug)]
pub struct BackedCandidate<H> {
    /// The candidate.
    pub candidate: CommittedCandidateReceipt<H>,
    /// The digest of the candidate receipt.
    pub hash: CandidateHash,
    /// Whether the signature in the descriptor is the collator's.
    pub collator_signed: bool,
    /// The votes, in the order of the members that cast them.
    pub validity_votes: Vec<ValidityAttestation>,
    /// The members of the backing group that cast a vote.
    pub validator_indices: Bitfield,
}

/// What a `BackedCandidate` holds.
#[verifier::ext_equal]
pub struct BackedCandidateView<H> {
    pub descriptor: CandidateDescriptor<H>,
    pub commitments: CommitmentsView,
    pub hash: CandidateHash,
    pub collator_signed: bool,
    pub validity_votes: Seq<ValidityAttestation>,
    pub validator_indices: Seq<bool>,
}

impl<H> View for BackedCandidate<H> {
    type V = BackedCandidateView<H>;

    open spec fn view(&self) -> BackedCandidateView<H> {
        BackedCandidateView {
            descriptor: self.candidate.descriptor,
            commitments: self.candidate.commitments@,
            hash: self.hash,
            collator_signed: self.collator_signed,
            validity_votes: self.validity_votes@,
            validator_indices: self.validator_indices@,
        }
    }
}

impl<H> BackedCandidate<H> {
    /// The descriptor of the candidate.
    pub fn descriptor(&self) -> (descriptor: &CandidateDescriptor<H>)
        ensures
            *descriptor == self.candidate.descriptor,
    {
        &self.candidate.descriptor
    }
}

/// A bitfield by which a validator says of which cores it holds its piece: one bit per core.
#[derive(PartialEq, Eq, Debug)]
pub struct AvailabilityBitfield(pub Bitfield);

impl View for AvailabilityBitfield {
    type V = Seq<bool>;

    open spec fn view(&self) -> Seq<bool> {
        self.0@
    }
}

/// The cores whose candidates were disputed: one bit per core.
#[derive(PartialEq, Eq, Debug)]
pub struct DisputedBitfield(pub Bitfield);

impl View for DisputedBitfield {
    type V = Seq<bool>;

    open spec fn view(&self) -> Seq<bool> {
        self.0@
    }
}

impl DisputedBitfield {
    /// No core of `n` is disputed.
    pub fn zeros(n: usize) -> (field: Self)
        requires
            n <= max_bits(),
        ensures
            field@ == zeros(n as nat),
    {
        DisputedBitfield(Bitfield::zeros(n))
    }
}

/// An availability bitfield with a signature that may not have been checked.
#[derive(PartialEq, Eq, Debug)]
pub struct UncheckedSignedAvailabilityBitfield {
    pub payload: AvailabilityBitfield,
    pub validator_index: ValidatorIndex,
    pub signature: Signature,
}

/// What an `UncheckedSignedAvailabilityBitfield` says, without the signature.
#[verifier::ext_equal]
pub struct SignedBitfieldView {
    pub validator_index: ValidatorIndex,
    pub bits: Seq<bool>,
}

impl View for UncheckedSignedAvailabilityBitfield {
    type V = SignedBitfieldView;

    open spec fn view(&self) -> SignedBitfieldView {
        SignedBitfieldView { validator_index: self.validator_index, bits: self.payload@ }
    }
}

/// What a list of signed bitfields says.
pub open spec fn signed_view(signed: Seq<UncheckedSignedAvailabilityBitfield>) -> Seq<
    SignedBitfieldView,
> {
    signed.map_values(|s: UncheckedSignedAvailabilityBitfield| s@)
}

/// The context that a signature is bound to.
#[derive(Clone, Copy, PartialEq, Eq, Debug)]
pub struct SigningContext {
    pub session_index: SessionIndex,
    pub parent_hash: H256,
}

/// What a core is assigned to.
#[derive(Clone, Copy, PartialEq, Eq, Debug)]
pub enum AssignmentKind {
    /// A parachain.
    Parachain,
    /// A parathread: the collator that may make the block, and how often it was retried.
    Parathread(CollatorId, u32),
}

/// The assignment of a core to a para, with the group that backs it.
#[derive(Clone, Copy, PartialEq, Eq, Debug)]
pub struct CoreAssignment {
    pub core: CoreIndex,
    pub para_id: ParaId,
    pub kind: AssignmentKind,
    pub group_idx: GroupIndex,
}

impl CoreAssignment {
    /// The collator that the assignment demands.
    pub open spec fn demanded_collator(&self) -> Option<CollatorId> {
        match self.kind {
            AssignmentKind::Parachain => None,
            AssignmentKind::Parathread(collator, _) => Some(collator),
        }
    }

    /// The collator that must have made the candidate, if the assignment names one.
    pub fn required_collator(&self) -> (collator: Option<CollatorId>)
        ensures
            collator == self.demanded_collator(),
    {
        match self.kind {
            AssignmentKind::Parachain => None,
            AssignmentKind::Parathread(collator, _) => Some(collator),
        }
    }
}

/// What the pallet reads of the chain: the block, its parent, the session and its validators.
pub struct ChainContext {
    /// The number of the current block.
    pub now: BlockNumber,
    /// The hash of the parent of the current block.
    pub parent_hash: H256,
    /// The index of the current session.
    pub session_index: SessionIndex,
    /// The keys of the active validators.
    pub validators: Vec<ValidatorId>,
}

impl ChainContext {
    /// The context that the signatures of validators are bound to.
    pub open spec fn signing_context_spec(&self) -> SigningContext {
        SigningContext { session_index: self.session_index, parent_hash: self.parent_hash }
    }

    /// The context that the signatures of validators are bound to.
    pub fn signing_context(&self) -> (context: SigningContext)
        ensures
            context == self.signing_context_spec(),
    {
        SigningContext { session_index: self.session_index, parent_hash: self.parent_hash }
    }
}

/// What the pallet reads of the configuration of the host.
#[derive(Clone, Copy, PartialEq, Eq, Debug)]
pub struct HostConfiguration {
    /// The largest head data, in bytes.
    pub max_head_data_size: u32,
    /// The largest validation code, in bytes.
    pub max_code_size: u32,
    /// How many blocks must lie between two code upgrades of a para.
    pub validation_upgrade_frequency: BlockNumber,
}

} // verus!
