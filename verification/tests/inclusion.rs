//! The pallet in a mock runtime: what its siblings know, and what they do when they are told to.
use std::cell::Cell;
use std::collections::HashMap;

use frame_support::Blake2_256;
use frame_support::StorageHasher;
use inclusion::availability::availability_threshold;
use inclusion::bits::Bitfield;
use inclusion::checks::CandidateCheckContext;
use inclusion::checks::OutputReplies;
use inclusion::pallet::AvailabilityBitfieldRecord;
use inclusion::pallet::CandidatePendingAvailability;
use inclusion::pallet::Effect;
use inclusion::pallet::Error;
use inclusion::pallet::Pallet;
use inclusion::pallet::Pending;
use inclusion::pallet::ProcessedCandidates;
use inclusion::primitives::AssignmentKind;
use inclusion::primitives::AvailabilityBitfield;
use inclusion::primitives::BackedCandidate;
use inclusion::primitives::BlockNumber;
use inclusion::primitives::CandidateCommitments;
use inclusion::primitives::CandidateDescriptor;
use inclusion::primitives::CandidateHash;
use inclusion::primitives::CandidateReceipt;
use inclusion::primitives::ChainContext;
use inclusion::primitives::CollatorId;
use inclusion::primitives::CommittedCandidateReceipt;
use inclusion::primitives::CoreAssignment;
use inclusion::primitives::CoreIndex;
use inclusion::primitives::DisputedBitfield;
use inclusion::primitives::GroupIndex;
use inclusion::primitives::HeadData;
use inclusion::primitives::HostConfiguration;
use inclusion::primitives::ParaId;
use inclusion::primitives::Signature;
use inclusion::primitives::SigningContext;
use inclusion::primitives::UncheckedSignedAvailabilityBitfield;
use inclusion::primitives::ValidationCode;
use inclusion::primitives::ValidatorId;
use inclusion::primitives::ValidatorIndex;
use inclusion::primitives::ValidityAttestation;
use inclusion::primitives::H256;
use inclusion::round::SiblingReplies;

const ALICE: [u8; 32] = [1; 32];
const BOB: [u8; 32] = [2; 32];
const CHARLIE: [u8; 32] = [3; 32];
const DAVE: [u8; 32] = [4; 32];
const FERDIE: [u8; 32] = [5; 32];
const ONE: [u8; 32] = [11; 32];
const TWO: [u8; 32] = [12; 32];

fn digest(bytes: &[u8]) -> H256 {
    H256(Blake2_256::hash(bytes))
}

/// A keyed digest stands for a signature.
fn sign(key: &[u8; 32], payload: &[u8]) -> Signature {
    let mut bytes = key.to_vec();
    bytes.extend_from_slice(payload);
    let half = Blake2_256::hash(&bytes);
    let mut signature = [0u8; 64];
    signature[..32].copy_from_slice(&half);
    signature[32..].copy_from_slice(&half);
    Signature(signature)
}

fn default_config() -> HostConfiguration {
    HostConfiguration { max_head_data_size: 0, max_code_size: 3, validation_upgrade_frequency: 0 }
}

fn head_data(bytes: Vec<u8>) -> HeadData {
    let digest = digest(&bytes);
    HeadData { bytes, digest }
}

fn commitments_digest(commitments: &CandidateCommitments) -> H256 {
    digest(format!("{:?}", commitments).as_bytes())
}

fn candidate_hash(candidate: &CommittedCandidateReceipt<H256>) -> CandidateHash {
    CandidateHash(digest(format!("{:?}", candidate.to_plain()).as_bytes()))
}

fn collator_signature_payload(descriptor: &CandidateDescriptor<H256>) -> Vec<u8> {
    let mut payload = descriptor.relay_parent.0.to_vec();
    payload.extend_from_slice(&descriptor.para_id.0.to_le_bytes());
    payload.extend_from_slice(&descriptor.persisted_validation_data_hash.0);
    payload.extend_from_slice(&descriptor.pov_hash.0);
    payload.extend_from_slice(&descriptor.validation_code_hash.0);
    payload
}

fn check_collator_signature(descriptor: &CandidateDescriptor<H256>) -> bool {
    sign(&descriptor.collator.0, &collator_signature_payload(descriptor)) == descriptor.signature
}

fn collator_sign_candidate(
    collator: &[u8; 32],
    candidate: &mut CommittedCandidateReceipt<H256>,
) {
    candidate.descriptor.collator = CollatorId(*collator);
    let payload = collator_signature_payload(&candidate.descriptor);
    candidate.descriptor.signature = sign(collator, &payload);
    assert!(check_collator_signature(&candidate.descriptor));
}

struct TestCandidateBuilder {
    para_id: ParaId,
    head_data: HeadData,
    para_head_hash: Option<H256>,
    pov_hash: H256,
    relay_parent: H256,
    persisted_validation_data_hash: H256,
    new_validation_code: Option<ValidationCode>,
    validation_code: Vec<u8>,
    hrmp_watermark: BlockNumber,
}

impl Default for TestCandidateBuilder {
    fn default() -> Self {
        TestCandidateBuilder {
            para_id: ParaId(0),
            head_data: head_data(Vec::new()),
            para_head_hash: None,
            pov_hash: H256([0; 32]),
            relay_parent: H256([0; 32]),
            persisted_validation_data_hash: H256([0; 32]),
            new_validation_code: None,
            validation_code: Vec::new(),
            hrmp_watermark: 0,
        }
    }
}

impl TestCandidateBuilder {
    fn build(self) -> CommittedCandidateReceipt<H256> {
        let para_head = self.para_head_hash.unwrap_or(self.head_data.digest);
        let mut commitments = CandidateCommitments {
            upward_messages: Vec::new(),
            horizontal_messages: Vec::new(),
            new_validation_code: self.new_validation_code,
            head_data: self.head_data,
            processed_downward_messages: 0,
            hrmp_watermark: self.hrmp_watermark,
            digest: H256([0; 32]),
        };
        commitments.digest = commitments_digest(&commitments);
        CommittedCandidateReceipt {
            descriptor: CandidateDescriptor {
                para_id: self.para_id,
                relay_parent: self.relay_parent,
                collator: CollatorId([0; 32]),
                persisted_validation_data_hash: self.persisted_validation_data_hash,
                pov_hash: self.pov_hash,
                erasure_root: H256([0; 32]),
                signature: Signature([0; 64]),
                para_head,
                validation_code_hash: digest(&self.validation_code),
            },
            commitments,
        }
    }
}

fn clone_receipt(candidate: &CommittedCandidateReceipt<H256>) -> CommittedCandidateReceipt<H256> {
    CommittedCandidateReceipt {
        descriptor: candidate.descriptor,
        commitments: candidate.commitments.clone(),
    }
}

#[derive(Debug, Clone, Copy, PartialEq)]
enum BackingKind {
    Threshold,
    Lacking,
}

fn statement_payload(hash: &CandidateHash, context: &SigningContext) -> Vec<u8> {
    let mut payload = hash.0 .0.to_vec();
    payload.extend_from_slice(&context.session_index.to_le_bytes());
    payload.extend_from_slice(&context.parent_hash.0);
    payload
}

/// How many votes are valid, if all are.
fn check_candidate_backing(
    backed: &BackedCandidate<H256>,
    context: &SigningContext,
    keys: &Vec<Option<ValidatorId>>,
) -> Result<usize, ()> {
    if backed.validator_indices.len() != keys.len() || backed.validity_votes.len() > keys.len() {
        return Err(());
    }
    let payload = statement_payload(&backed.hash, context);
    let mut signed = 0;
    for (place, vote) in
        backed.validator_indices.one_positions().into_iter().zip(backed.validity_votes.iter())
    {
        let key = keys[place].ok_or(())?;
        let signature = match vote {
            ValidityAttestation::Implicit(signature) => signature,
            ValidityAttestation::Explicit(signature) => signature,
        };
        if sign(&key.0, &payload) != *signature {
            return Err(());
        }
        signed += 1;
    }
    if signed != backed.validity_votes.len() {
        return Err(());
    }
    Ok(signed)
}

fn back_candidate(
    candidate: CommittedCandidateReceipt<H256>,
    validators: &[[u8; 32]],
    group: &[ValidatorIndex],
    signing_context: &SigningContext,
    kind: BackingKind,
) -> BackedCandidate<H256> {
    let mut validator_indices = Bitfield::zeros(group.len());
    let threshold = (group.len() / 2) + 1;
    let signing = match kind {
        BackingKind::Threshold => threshold,
        BackingKind::Lacking => threshold.saturating_sub(1),
    };
    let mut validity_votes = Vec::new();
    let hash = candidate_hash(&candidate);
    for (idx_in_group, val_idx) in group.iter().enumerate().take(signing) {
        let key = validators[val_idx.0 as usize];
        assert!(validator_indices.put(idx_in_group, true));
        let signature = sign(&key, &statement_payload(&hash, signing_context));
        validity_votes.push(ValidityAttestation::Explicit(signature));
    }
    let collator_signed = check_collator_signature(&candidate.descriptor);
    let backed =
        BackedCandidate { candidate, hash, collator_signed, validity_votes, validator_indices };
    let keys = group.iter().map(|v| Some(ValidatorId(validators[v.0 as usize]))).collect();
    let successfully_backed =
        check_candidate_backing(&backed, signing_context, &keys).ok().unwrap_or(0) * 2
            > group.len();
    match kind {
        BackingKind::Threshold => assert!(successfully_backed),
        BackingKind::Lacking => assert!(!successfully_backed),
    };
    backed
}

fn bitfield_payload(bitfield: &AvailabilityBitfield, context: &SigningContext) -> Vec<u8> {
    let mut payload = format!("{:?}", bitfield.0.one_positions()).into_bytes();
    payload.extend_from_slice(&context.session_index.to_le_bytes());
    payload.extend_from_slice(&context.parent_hash.0);
    payload
}

fn sign_bitfield(
    key: &[u8; 32],
    validator_index: ValidatorIndex,
    bitfield: AvailabilityBitfield,
    signing_context: &SigningContext,
) -> UncheckedSignedAvailabilityBitfield {
    let signature = sign(key, &bitfield_payload(&bitfield, signing_context));
    UncheckedSignedAvailabilityBitfield { payload: bitfield, validator_index, signature }
}

fn verify_bitfield(
    bitfield: &UncheckedSignedAvailabilityBitfield,
    context: &SigningContext,
    key: &ValidatorId,
) -> bool {
    sign(&key.0, &bitfield_payload(&bitfield.payload, context)) == bitfield.signature
}

fn bits(len: usize, marked: &[usize]) -> Bitfield {
    let mut field = Bitfield::zeros(len);
    for i in marked {
        assert!(field.put(*i, true));
    }
    field
}

fn parent_hash(now: BlockNumber) -> H256 {
    digest(&now.to_le_bytes())
}

/// The runtime around the pallet.
struct Mock {
    pallet: Pallet,
    chain: ChainContext,
    n_parachains: usize,
    last_code_upgrade: Cell<Option<(ParaId, BlockNumber)>>,
    heads: HashMap<u32, Vec<u8>>,
    availability_rewards: HashMap<u32, usize>,
    backing_rewards: HashMap<u32, usize>,
}

impl Mock {
    fn new(paras: &[(ParaId, bool)], validators: &[[u8; 32]], session_index: u32) -> Self {
        Mock {
            pallet: Pallet::new(),
            chain: ChainContext {
                now: 1,
                parent_hash: parent_hash(1),
                session_index,
                validators: validators.iter().map(|v| ValidatorId(*v)).collect(),
            },
            n_parachains: paras.iter().filter(|(_, is_chain)| *is_chain).count(),
            last_code_upgrade: Cell::new(None),
            heads: HashMap::new(),
            availability_rewards: HashMap::new(),
            backing_rewards: HashMap::new(),
        }
    }

    fn expected_bits(&self) -> usize {
        self.n_parachains + 1
    }

    fn default_bitfield(&self) -> AvailabilityBitfield {
        AvailabilityBitfield(bits(self.expected_bits(), &[]))
    }

    fn default_availability_votes(&self) -> Bitfield {
        bits(self.chain.validators.len(), &[])
    }

    fn backing_bitfield(&self, v: &[usize]) -> Bitfield {
        bits(self.chain.validators.len(), v)
    }

    fn run_to_block(
        &mut self,
        to: BlockNumber,
        new_session: impl Fn(BlockNumber) -> Option<(u32, Vec<ValidatorId>)>,
    ) {
        while self.chain.now < to {
            let b = self.chain.now;
            self.pallet.initializer_finalize();
            if let Some((session_index, validators)) = new_session(b + 1) {
                self.chain.session_index = session_index;
                self.chain.validators = validators;
                self.pallet.initializer_on_new_session();
            }
            self.chain.now = b + 1;
            self.chain.parent_hash = parent_hash(b + 1);
            assert_eq!(self.pallet.initializer_initialize(b + 1), 0);
        }
    }

    fn make_vdata_hash(&self, para_id: ParaId) -> H256 {
        vdata_hash(para_id, self.chain.now - 1, &H256([0; 32]))
    }

    fn insert_pending(
        &mut self,
        para: ParaId,
        core: u32,
        candidate: &CommittedCandidateReceipt<H256>,
        relay_parent_number: BlockNumber,
        backed_in_number: BlockNumber,
        backers: Bitfield,
        group: u32,
    ) {
        let votes = self.default_availability_votes();
        self.pallet.insert_pending(
            para,
            CandidatePendingAvailability::new(
                CoreIndex(core),
                candidate_hash(candidate),
                candidate.descriptor,
                votes,
                backers,
                relay_parent_number,
                backed_in_number,
                GroupIndex(group),
            ),
        );
    }

    fn process_bitfields(
        &mut self,
        expected_bits: usize,
        signed: Vec<UncheckedSignedAvailabilityBitfield>,
        disputed: DisputedBitfield,
        core_lookup: &dyn Fn(CoreIndex) -> Option<ParaId>,
    ) -> Result<Vec<(CoreIndex, CandidateHash)>, Error> {
        self.pallet.process_bitfields(
            &self.chain,
            expected_bits,
            signed,
            disputed,
            |core| core_lookup(core),
            verify_bitfield,
        )
    }

    fn process_candidates(
        &mut self,
        candidates: Vec<BackedCandidate<H256>>,
        scheduled: Vec<CoreAssignment>,
        group_validators: &dyn Fn(GroupIndex) -> Option<Vec<ValidatorIndex>>,
    ) -> Result<ProcessedCandidates<H256>, Error> {
        let upgrade = self.last_code_upgrade.get();
        self.pallet.process_candidates(
            &self.chain,
            default_config(),
            H256([0; 32]),
            candidates,
            scheduled,
            |group| group_validators(group),
            move |candidate: &BackedCandidate<H256>, cx: &CandidateCheckContext, root: &H256| {
                siblings_reply(upgrade, candidate, cx, root)
            },
            check_candidate_backing,
        )
    }

    /// What is in storage.
    fn storage(&self) -> (Vec<(u32, Pending)>, Vec<u32>, Vec<u32>) {
        (
            self.pallet
                .pending_paras()
                .into_iter()
                .map(|para| (para, self.pallet.pending_availability(ParaId(para)).unwrap()))
                .collect(),
            self.pallet.committed_paras(),
            self.pallet.recorded_validators(),
        )
    }

    /// The candidates are refused, and nothing is written or told.
    fn assert_candidates_noop(
        &mut self,
        candidates: Vec<BackedCandidate<H256>>,
        scheduled: Vec<CoreAssignment>,
        group_validators: &dyn Fn(GroupIndex) -> Option<Vec<ValidatorIndex>>,
        error: Error,
    ) {
        let before = self.storage();
        assert_eq!(self.process_candidates(candidates, scheduled, group_validators), Err(error));
        assert_eq!(self.storage(), before);
        assert!(self.pallet.take_effects().is_empty());
    }

    /// The bitfields are refused, and nothing is written or told.
    fn assert_bitfields_noop(
        &mut self,
        expected_bits: usize,
        signed: Vec<UncheckedSignedAvailabilityBitfield>,
        disputed: DisputedBitfield,
        core_lookup: &dyn Fn(CoreIndex) -> Option<ParaId>,
        error: Error,
    ) {
        let before = self.storage();
        assert_eq!(
            self.process_bitfields(expected_bits, signed, disputed, core_lookup),
            Err(error)
        );
        assert_eq!(self.storage(), before);
        assert!(self.pallet.take_effects().is_empty());
    }

    /// Carries out what the pallet put down.
    fn carry_out(&mut self) {
        for effect in self.pallet.take_effects() {
            match effect {
                Effect::RewardBacking(validators) => {
                    for v in validators {
                        *self.backing_rewards.entry(v.0).or_insert(0) += 1;
                    }
                }
                Effect::RewardBitfields(validators) => {
                    for v in validators {
                        *self.availability_rewards.entry(v.0).or_insert(0) += 1;
                    }
                }
                Effect::NoteNewHead(para, head, _) => {
                    self.heads.insert(para.0, head.bytes);
                }
                _ => {}
            }
        }
    }

    fn commitments(&self, para: ParaId) -> Option<CandidateCommitments> {
        self.pallet.candidate_pending_availability(para).map(|receipt| receipt.commitments)
    }
}

fn vdata_hash(para_id: ParaId, relay_parent_number: BlockNumber, root: &H256) -> H256 {
    let mut bytes = para_id.0.to_le_bytes().to_vec();
    bytes.extend_from_slice(&relay_parent_number.to_le_bytes());
    bytes.extend_from_slice(&root.0);
    digest(&bytes)
}

/// All paras run the empty code and exchange no messages.
fn siblings_reply(
    upgrade: Option<(ParaId, BlockNumber)>,
    candidate: &BackedCandidate<H256>,
    check_cx: &CandidateCheckContext,
    parent_storage_root: &H256,
) -> SiblingReplies<&'static str> {
    let para = candidate.descriptor().para_id;
    let commitments = &candidate.candidate.commitments;
    SiblingReplies {
        validation_code_hash: Some(digest(&[])),
        persisted_validation_data_hash: Some(vdata_hash(
            para,
            check_cx.relay_parent_number,
            parent_storage_root,
        )),
        outputs: OutputReplies {
            last_code_upgrade: upgrade.filter(|u| u.0 == para).map(|u| u.1),
            processed_downward_messages: if commitments.processed_downward_messages == 0 {
                Ok(())
            } else {
                Err("underflow")
            },
            upward_messages: Ok(()),
            hrmp_watermark: if commitments.hrmp_watermark == check_cx.relay_parent_number {
                Ok(())
            } else {
                Err("lands on no block with messages")
            },
            outbound_hrmp: Ok(()),
        },
    }
}

fn default_validators() -> Vec<[u8; 32]> {
    vec![ALICE, BOB, CHARLIE, DAVE, FERDIE]
}

#[test]
fn collect_pending_cleans_up_pending() {
    let chain_a = ParaId(1);
    let chain_b = ParaId(2);
    let thread_a = ParaId(3);

    let paras = vec![(chain_a, true), (chain_b, true), (thread_a, false)];
    let mut mock = Mock::new(&paras, &[], 0);

    let default_candidate = TestCandidateBuilder::default().build();
    let backers = mock.backing_bitfield(&[]);
    mock.insert_pending(chain_a, 0, &default_candidate, 0, 0, backers, 0);
    mock.pallet.insert_commitments(chain_a, default_candidate.commitments.clone());
    let backers = mock.backing_bitfield(&[]);
    mock.insert_pending(chain_b, 1, &default_candidate, 0, 0, backers, 1);
    mock.pallet.insert_commitments(chain_b, default_candidate.commitments);

    mock.run_to_block(5, |_| None);

    assert!(mock.pallet.pending_availability(chain_a).is_some());
    assert!(mock.pallet.pending_availability(chain_b).is_some());
    assert!(mock.pallet.has_commitments(chain_a));
    assert!(mock.pallet.has_commitments(chain_b));

    let cores = mock.pallet.collect_pending(|core, _since| core == CoreIndex(0));
    assert_eq!(cores, vec![CoreIndex(0)]);

    assert!(mock.pallet.pending_availability(chain_a).is_none());
    assert!(mock.pallet.pending_availability(chain_b).is_some());
    assert!(!mock.pallet.has_commitments(chain_a));
    assert!(mock.pallet.has_commitments(chain_b));
}

#[test]
fn bitfield_checks() {
    let chain_a = ParaId(1);
    let chain_b = ParaId(2);
    let thread_a = ParaId(3);

    let paras = vec![(chain_a, true), (chain_b, true), (thread_a, false)];
    let validators = default_validators();
    let mut mock = Mock::new(&paras, &validators, 5);
    let expected_bits = mock.expected_bits();
    let signing_context =
        SigningContext { parent_hash: mock.chain.parent_hash, session_index: 5 };

    let core_lookup = |core: CoreIndex| match core {
        core if core == CoreIndex(0) => Some(chain_a),
        core if core == CoreIndex(1) => Some(chain_b),
        core if core == CoreIndex(2) => Some(thread_a),
        core if core == CoreIndex(3) => None, // for the expected_cores() + 1 test below.
        _ => panic!("out of bounds for testing"),
    };

    // too many bits in bitfield
    {
        let bare_bitfield = AvailabilityBitfield(bits(expected_bits + 1, &[]));
        let signed =
            sign_bitfield(&validators[0], ValidatorIndex(0), bare_bitfield, &signing_context);
        mock.assert_bitfields_noop(
            expected_bits,
            vec![signed],
            DisputedBitfield::zeros(expected_bits),
            &core_lookup,
            Error::WrongBitfieldSize,
        );
    }

    // not enough bits
    {
        let signed = sign_bitfield(
            &validators[0],
            ValidatorIndex(0),
            mock.default_bitfield(),
            &signing_context,
        );
        mock.assert_bitfields_noop(
            expected_bits + 1,
            vec![signed],
            DisputedBitfield::zeros(expected_bits),
            &core_lookup,
            Error::WrongBitfieldSize,
        );
    }

    // duplicate.
    {
        let sign_one = |field| {
            sign_bitfield(&validators[0], ValidatorIndex(0), field, &signing_context)
        };
        let signed = vec![sign_one(mock.default_bitfield()), sign_one(mock.default_bitfield())];
        mock.assert_bitfields_noop(
            expected_bits,
            signed,
            DisputedBitfield::zeros(expected_bits),
            &core_lookup,
            Error::BitfieldDuplicateOrUnordered,
        );
    }

    // out of order.
    {
        let signed_0 = sign_bitfield(
            &validators[0],
            ValidatorIndex(0),
            mock.default_bitfield(),
            &signing_context,
        );
        let signed_1 = sign_bitfield(
            &validators[1],
            ValidatorIndex(1),
            mock.default_bitfield(),
            &signing_context,
        );
        mock.assert_bitfields_noop(
            expected_bits,
            vec![signed_1, signed_0],
            DisputedBitfield::zeros(expected_bits),
            &core_lookup,
            Error::BitfieldDuplicateOrUnordered,
        );
    }

    // non-pending bit set.
    {
        let bare_bitfield = AvailabilityBitfield(bits(expected_bits, &[0]));
        let signed =
            sign_bitfield(&validators[0], ValidatorIndex(0), bare_bitfield, &signing_context);
        assert!(matches!(
            mock.process_bitfields(
                expected_bits,
                vec![signed],
                DisputedBitfield::zeros(expected_bits),
                &core_lookup,
            ),
            Ok(_)
        ));
    }

    // empty bitfield signed: always OK, but kind of useless.
    {
        let signed = sign_bitfield(
            &validators[0],
            ValidatorIndex(0),
            mock.default_bitfield(),
            &signing_context,
        );
        assert!(matches!(
            mock.process_bitfields(
                expected_bits,
                vec![signed],
                DisputedBitfield::zeros(expected_bits),
                &core_lookup,
            ),
            Ok(_)
        ));
    }

    // bitfield signed with pending bit signed.
    {
        assert_eq!(core_lookup(CoreIndex(0)), Some(chain_a));

        let default_candidate = TestCandidateBuilder::default().build();
        let backers = mock.backing_bitfield(&[]);
        mock.insert_pending(chain_a, 0, &default_candidate, 0, 0, backers, 0);
        mock.pallet.insert_commitments(chain_a, default_candidate.commitments);

        let bare_bitfield = AvailabilityBitfield(bits(expected_bits, &[0]));
        let signed =
            sign_bitfield(&validators[0], ValidatorIndex(0), bare_bitfield, &signing_context);
        assert!(matches!(
            mock.process_bitfields(
                expected_bits,
                vec![signed],
                DisputedBitfield::zeros(expected_bits),
                &core_lookup,
            ),
            Ok(_)
        ));

        mock.pallet.take_pending(chain_a);
        mock.pallet.take_commitments(chain_a);
    }

    // bitfield signed with pending bit signed, but no commitments.
    {
        assert_eq!(core_lookup(CoreIndex(0)), Some(chain_a));

        let default_candidate = TestCandidateBuilder::default().build();
        let backers = mock.backing_bitfield(&[]);
        mock.insert_pending(chain_a, 0, &default_candidate, 0, 0, backers, 0);

        let bare_bitfield = AvailabilityBitfield(bits(expected_bits, &[0]));
        let signed =
            sign_bitfield(&validators[0], ValidatorIndex(0), bare_bitfield, &signing_context);

        // no core is freed
        assert_eq!(
            mock.process_bitfields(
                expected_bits,
                vec![signed],
                DisputedBitfield::zeros(expected_bits),
                &core_lookup,
            ),
            Ok(vec![])
        );
    }
}

#[test]
fn supermajority_bitfields_trigger_availability() {
    let chain_a = ParaId(1);
    let chain_b = ParaId(2);
    let thread_a = ParaId(3);

    let paras = vec![(chain_a, true), (chain_b, true), (thread_a, false)];
    let validators = default_validators();
    let mut mock = Mock::new(&paras, &validators, 5);
    let expected_bits = mock.expected_bits();
    let signing_context =
        SigningContext { parent_hash: mock.chain.parent_hash, session_index: 5 };

    let core_lookup = |core: CoreIndex| match core {
        core if core == CoreIndex(0) => Some(chain_a),
        core if core == CoreIndex(1) => Some(chain_b),
        core if core == CoreIndex(2) => Some(thread_a),
        _ => panic!("Core out of bounds for 2 parachains and 1 parathread core."),
    };

    let candidate_a = TestCandidateBuilder {
        para_id: chain_a,
        head_data: head_data(vec![1, 2, 3, 4]),
        ..Default::default()
    }
    .build();
    let backers = mock.backing_bitfield(&[3, 4]);
    mock.insert_pending(chain_a, 0, &candidate_a, 0, 0, backers, 0);
    mock.pallet.insert_commitments(chain_a, candidate_a.commitments);

    let candidate_b = TestCandidateBuilder {
        para_id: chain_b,
        head_data: head_data(vec![5, 6, 7, 8]),
        ..Default::default()
    }
    .build();
    let backers = mock.backing_bitfield(&[0, 2]);
    mock.insert_pending(chain_b, 1, &candidate_b, 0, 0, backers, 1);
    mock.pallet.insert_commitments(chain_b, candidate_b.commitments);

    // this bitfield signals that a and b are available.
    let a_and_b_available = || AvailabilityBitfield(bits(expected_bits, &[0, 1]));

    // this bitfield signals that only a is available.
    let a_available = || AvailabilityBitfield(bits(expected_bits, &[0]));

    let threshold = availability_threshold(validators.len());

    // 4 of 5 first value >= 2/3
    assert_eq!(threshold, 4);

    let signed_bitfields = validators
        .iter()
        .enumerate()
        .filter_map(|(i, key)| {
            let to_sign = if i < 3 {
                a_and_b_available()
            } else if i < 4 {
                a_available()
            } else {
                // sign nothing.
                return None;
            };
            Some(sign_bitfield(key, ValidatorIndex(i as u32), to_sign, &signing_context))
        })
        .collect();

    assert!(matches!(
        mock.process_bitfields(
            expected_bits,
            signed_bitfields,
            DisputedBitfield::zeros(expected_bits),
            &core_lookup,
        ),
        Ok(_)
    ));
    mock.carry_out();

    // chain A had 4 signing off, which is >= threshold.
    // chain B has 3 signing off, which is < threshold.
    assert!(mock.pallet.pending_availability(chain_a).is_none());
    assert!(!mock.pallet.has_commitments(chain_a));
    assert!(mock.pallet.has_commitments(chain_b));
    // check that votes from first 3 were tracked.
    assert_eq!(
        mock.pallet.pending_availability(chain_b).unwrap().availability_votes,
        bits(5, &[0, 1, 2])
    );

    // and check that chain head was enacted.
    assert_eq!(mock.heads.get(&chain_a.0), Some(&vec![1, 2, 3, 4]));

    // Check that rewards are applied.
    {
        let rewards = &mock.availability_rewards;

        assert_eq!(rewards.len(), 4);
        assert_eq!(rewards.get(&0).unwrap(), &1);
        assert_eq!(rewards.get(&1).unwrap(), &1);
        assert_eq!(rewards.get(&2).unwrap(), &1);
        assert_eq!(rewards.get(&3).unwrap(), &1);
    }

    {
        let rewards = &mock.backing_rewards;

        assert_eq!(rewards.len(), 2);
        assert_eq!(rewards.get(&3).unwrap(), &1);
        assert_eq!(rewards.get(&4).unwrap(), &1);
    }
}

fn three_groups(group_index: GroupIndex) -> Option<Vec<ValidatorIndex>> {
    match group_index {
        group_index if group_index == GroupIndex(0) => Some(vec![0, 1]),
        group_index if group_index == GroupIndex(1) => Some(vec![2, 3]),
        group_index if group_index == GroupIndex(2) => Some(vec![4]),
        _ => panic!("Group index out of bounds for 2 parachains and 1 parathread core"),
    }
    .map(|m| m.into_iter().map(ValidatorIndex).collect::<Vec<_>>())
}

#[test]
fn candidate_checks() {
    let chain_a = ParaId(1);
    let chain_b = ParaId(2);
    let thread_a = ParaId(3);

    // The block number of the relay-parent for testing.
    const RELAY_PARENT_NUM: BlockNumber = 4;

    let paras = vec![(chain_a, true), (chain_b, true), (thread_a, false)];
    let validators = default_validators();
    let mut mock = Mock::new(&paras, &validators, 5);
    mock.run_to_block(5, |_| None);

    let system_parent = mock.chain.parent_hash;
    let signing_context = SigningContext { parent_hash: system_parent, session_index: 5 };
    let group_validators = three_groups;
    let group = |i: u32| group_validators(GroupIndex(i)).unwrap();
    let thread_collator = CollatorId(TWO);

    let chain_a_assignment = CoreAssignment {
        core: CoreIndex(0),
        para_id: chain_a,
        kind: AssignmentKind::Parachain,
        group_idx: GroupIndex(0),
    };
    let chain_b_assignment = CoreAssignment {
        core: CoreIndex(1),
        para_id: chain_b,
        kind: AssignmentKind::Parachain,
        group_idx: GroupIndex(1),
    };
    let thread_a_assignment = CoreAssignment {
        core: CoreIndex(2),
        para_id: thread_a,
        kind: AssignmentKind::Parathread(thread_collator, 0),
        group_idx: GroupIndex(2),
    };

    // unscheduled candidate.
    {
        let mut candidate = TestCandidateBuilder {
            para_id: chain_a,
            relay_parent: system_parent,
            pov_hash: H256([1; 32]),
            persisted_validation_data_hash: mock.make_vdata_hash(chain_a),
            hrmp_watermark: RELAY_PARENT_NUM,
            ..Default::default()
        }
        .build();
        collator_sign_candidate(&ONE, &mut candidate);
        let backed = back_candidate(
            candidate,
            &validators,
            &group(0),
            &signing_context,
            BackingKind::Threshold,
        );
        mock.assert_candidates_noop(
            vec![backed],
            vec![chain_b_assignment],
            &group_validators,
            Error::UnscheduledCandidate,
        );
    }

    // candidates out of order.
    {
        let mut candidate_a = TestCandidateBuilder {
            para_id: chain_a,
            relay_parent: system_parent,
            pov_hash: H256([1; 32]),
            persisted_validation_data_hash: mock.make_vdata_hash(chain_a),
            hrmp_watermark: RELAY_PARENT_NUM,
            ..Default::default()
        }
        .build();
        let mut candidate_b = TestCandidateBuilder {
            para_id: chain_b,
            relay_parent: system_parent,
            pov_hash: H256([2; 32]),
            persisted_validation_data_hash: mock.make_vdata_hash(chain_b),
            hrmp_watermark: RELAY_PARENT_NUM,
            ..Default::default()
        }
        .build();
        collator_sign_candidate(&ONE, &mut candidate_a);
        collator_sign_candidate(&TWO, &mut candidate_b);
        let backed_a = back_candidate(
            candidate_a,
            &validators,
            &group(0),
            &signing_context,
            BackingKind::Threshold,
        );
        let backed_b = back_candidate(
            candidate_b,
            &validators,
            &group(1),
            &signing_context,
            BackingKind::Threshold,
        );
        // out-of-order manifests as unscheduled.
        mock.assert_candidates_noop(
            vec![backed_b, backed_a],
            vec![chain_a_assignment, chain_b_assignment],
            &group_validators,
            Error::UnscheduledCandidate,
        );
    }

    // candidate not backed.
    {
        let mut candidate = TestCandidateBuilder {
            para_id: chain_a,
            relay_parent: system_parent,
            pov_hash: H256([1; 32]),
            persisted_validation_data_hash: mock.make_vdata_hash(chain_a),
            hrmp_watermark: RELAY_PARENT_NUM,
            ..Default::default()
        }
        .build();
        collator_sign_candidate(&ONE, &mut candidate);
        let backed = back_candidate(
            candidate,
            &validators,
            &group(0),
            &signing_context,
            BackingKind::Lacking,
        );
        mock.assert_candidates_noop(
            vec![backed],
            vec![chain_a_assignment],
            &group_validators,
            Error::InsufficientBacking,
        );
    }

    // candidate not in parent context.
    {
        let wrong_parent_hash = H256([222; 32]);
        assert!(system_parent != wrong_parent_hash);

        let mut candidate = TestCandidateBuilder {
            para_id: chain_a,
            relay_parent: wrong_parent_hash,
            pov_hash: H256([1; 32]),
            persisted_validation_data_hash: mock.make_vdata_hash(chain_a),
            ..Default::default()
        }
        .build();
        collator_sign_candidate(&ONE, &mut candidate);
        let backed = back_candidate(
            candidate,
            &validators,
            &group(0),
            &signing_context,
            BackingKind::Threshold,
        );
        mock.assert_candidates_noop(
            vec![backed],
            vec![chain_a_assignment],
            &group_validators,
            Error::CandidateNotInParentContext,
        );
    }

    // candidate has wrong collator.
    {
        let mut candidate = TestCandidateBuilder {
            para_id: thread_a,
            relay_parent: system_parent,
            pov_hash: H256([1; 32]),
            persisted_validation_data_hash: mock.make_vdata_hash(thread_a),
            hrmp_watermark: RELAY_PARENT_NUM,
            ..Default::default()
        }
        .build();

        assert!(CollatorId(ONE) != thread_collator);
        collator_sign_candidate(&ONE, &mut candidate);
        let backed = back_candidate(
            candidate,
            &validators,
            &group(2),
            &signing_context,
            BackingKind::Threshold,
        );
        mock.assert_candidates_noop(
            vec![backed],
            vec![chain_a_assignment, chain_b_assignment, thread_a_assignment],
            &group_validators,
            Error::WrongCollator,
        );
    }

    // candidate not well-signed by collator.
    {
        let mut candidate = TestCandidateBuilder {
            para_id: thread_a,
            relay_parent: system_parent,
            pov_hash: H256([1; 32]),
            persisted_validation_data_hash: mock.make_vdata_hash(thread_a),
            hrmp_watermark: RELAY_PARENT_NUM,
            ..Default::default()
        }
        .build();

        assert_eq!(CollatorId(TWO), thread_collator);
        collator_sign_candidate(&TWO, &mut candidate);

        // change the candidate after signing.
        candidate.descriptor.pov_hash = H256([2; 32]);

        let backed = back_candidate(
            candidate,
            &validators,
            &group(2),
            &signing_context,
            BackingKind::Threshold,
        );
        mock.assert_candidates_noop(
            vec![backed],
            vec![thread_a_assignment],
            &group_validators,
            Error::NotCollatorSigned,
        );
    }

    // para occupied - reject.
    {
        let mut candidate = TestCandidateBuilder {
            para_id: chain_a,
            relay_parent: system_parent,
            pov_hash: H256([1; 32]),
            persisted_validation_data_hash: mock.make_vdata_hash(chain_a),
            hrmp_watermark: RELAY_PARENT_NUM,
            ..Default::default()
        }
        .build();
        collator_sign_candidate(&ONE, &mut candidate);
        let backed = back_candidate(
            candidate,
            &validators,
            &group(0),
            &signing_context,
            BackingKind::Threshold,
        );

        let candidate = TestCandidateBuilder::default().build();
        let backers = mock.backing_bitfield(&[]);
        mock.insert_pending(chain_a, 0, &candidate, 3, 4, backers, 0);
        mock.pallet.insert_commitments(chain_a, candidate.commitments);

        mock.assert_candidates_noop(
            vec![backed],
            vec![chain_a_assignment],
            &group_validators,
            Error::CandidateScheduledBeforeParaFree,
        );

        mock.pallet.take_pending(chain_a);
        mock.pallet.take_commitments(chain_a);
    }

    // messed up commitments storage - do not panic - reject.
    {
        let mut candidate = TestCandidateBuilder {
            para_id: chain_a,
            relay_parent: system_parent,
            pov_hash: H256([1; 32]),
            persisted_validation_data_hash: mock.make_vdata_hash(chain_a),
            hrmp_watermark: RELAY_PARENT_NUM,
            ..Default::default()
        }
        .build();
        collator_sign_candidate(&ONE, &mut candidate);

        // this is not supposed to happen
        mock.pallet.insert_commitments(chain_a, candidate.commitments.clone());

        let backed = back_candidate(
            candidate,
            &validators,
            &group(0),
            &signing_context,
            BackingKind::Threshold,
        );
        mock.assert_candidates_noop(
            vec![backed],
            vec![chain_a_assignment],
            &group_validators,
            Error::CandidateScheduledBeforeParaFree,
        );

        mock.pallet.take_commitments(chain_a);
    }

    // interfering code upgrade - reject
    {
        let mut candidate = TestCandidateBuilder {
            para_id: chain_a,
            relay_parent: system_parent,
            pov_hash: H256([1; 32]),
            new_validation_code: Some(ValidationCode(vec![5, 6, 7, 8])),
            persisted_validation_data_hash: mock.make_vdata_hash(chain_a),
            hrmp_watermark: RELAY_PARENT_NUM,
            ..Default::default()
        }
        .build();
        collator_sign_candidate(&ONE, &mut candidate);
        let backed = back_candidate(
            candidate,
            &validators,
            &group(0),
            &signing_context,
            BackingKind::Threshold,
        );

        let expected_at = 10;
        mock.last_code_upgrade.set(Some((chain_a, expected_at)));

        mock.assert_candidates_noop(
            vec![backed],
            vec![chain_a_assignment],
            &group_validators,
            Error::PrematureCodeUpgrade,
        );
    }

    // Bad validation data hash - reject
    {
        let mut candidate = TestCandidateBuilder {
            para_id: chain_a,
            relay_parent: system_parent,
            pov_hash: H256([1; 32]),
            persisted_validation_data_hash: H256([42; 32]),
            hrmp_watermark: RELAY_PARENT_NUM,
            ..Default::default()
        }
        .build();
        collator_sign_candidate(&ONE, &mut candidate);
        let backed = back_candidate(
            candidate,
            &validators,
            &group(0),
            &signing_context,
            BackingKind::Threshold,
        );
        assert_eq!(
            mock.process_candidates(vec![backed], vec![chain_a_assignment], &group_validators),
            Err(Error::ValidationDataHashMismatch),
        );
    }

    // bad validation code hash
    {
        let mut candidate = TestCandidateBuilder {
            para_id: chain_a,
            relay_parent: system_parent,
            pov_hash: H256([1; 32]),
            persisted_validation_data_hash: mock.make_vdata_hash(chain_a),
            hrmp_watermark: RELAY_PARENT_NUM,
            validation_code: vec![1],
            ..Default::default()
        }
        .build();
        collator_sign_candidate(&ONE, &mut candidate);
        let backed = back_candidate(
            candidate,
            &validators,
            &group(0),
            &signing_context,
            BackingKind::Threshold,
        );
        mock.assert_candidates_noop(
            vec![backed],
            vec![chain_a_assignment],
            &group_validators,
            Error::InvalidValidationCodeHash,
        );
    }

    // Para head hash in descriptor doesn't match head data
    {
        let mut candidate = TestCandidateBuilder {
            para_id: chain_a,
            relay_parent: system_parent,
            pov_hash: H256([1; 32]),
            persisted_validation_data_hash: mock.make_vdata_hash(chain_a),
            hrmp_watermark: RELAY_PARENT_NUM,
            para_head_hash: Some(digest(b"some other head")),
            ..Default::default()
        }
        .build();
        collator_sign_candidate(&ONE, &mut candidate);
        let backed = back_candidate(
            candidate,
            &validators,
            &group(0),
            &signing_context,
            BackingKind::Threshold,
        );
        mock.assert_candidates_noop(
            vec![backed],
            vec![chain_a_assignment],
            &group_validators,
            Error::ParaHeadMismatch,
        );
    }
}

#[test]
fn backing_works() {
    let chain_a = ParaId(1);
    let chain_b = ParaId(2);
    let thread_a = ParaId(3);

    // The block number of the relay-parent for testing.
    const RELAY_PARENT_NUM: BlockNumber = 4;

    let paras = vec![(chain_a, true), (chain_b, true), (thread_a, false)];
    let validators = default_validators();
    let mut mock = Mock::new(&paras, &validators, 5);
    mock.run_to_block(5, |_| None);

    let signing_context =
        SigningContext { parent_hash: mock.chain.parent_hash, session_index: 5 };
    let group_validators = three_groups;
    let thread_collator = CollatorId(TWO);

    let chain_a_assignment = CoreAssignment {
        core: CoreIndex(0),
        para_id: chain_a,
        kind: AssignmentKind::Parachain,
        group_idx: GroupIndex(0),
    };
    let chain_b_assignment = CoreAssignment {
        core: CoreIndex(1),
        para_id: chain_b,
        kind: AssignmentKind::Parachain,
        group_idx: GroupIndex(1),
    };
    let thread_a_assignment = CoreAssignment {
        core: CoreIndex(2),
        para_id: thread_a,
        kind: AssignmentKind::Parathread(thread_collator, 0),
        group_idx: GroupIndex(2),
    };

    let build = |mock: &Mock, para_id: ParaId, pov: u8, collator: &[u8; 32]| {
        let mut candidate = TestCandidateBuilder {
            para_id,
            relay_parent: mock.chain.parent_hash,
            pov_hash: H256([pov; 32]),
            persisted_validation_data_hash: mock.make_vdata_hash(para_id),
            hrmp_watermark: RELAY_PARENT_NUM,
            ..Default::default()
        }
        .build();
        collator_sign_candidate(collator, &mut candidate);
        candidate
    };
    let candidate_a = build(&mock, chain_a, 1, &ONE);
    let candidate_b = build(&mock, chain_b, 2, &ONE);
    let candidate_c = build(&mock, thread_a, 3, &TWO);

    let back = |candidate: &CommittedCandidateReceipt<H256>, group: u32| {
        back_candidate(
            clone_receipt(candidate),
            &validators,
            &group_validators(GroupIndex(group)).unwrap(),
            &signing_context,
            BackingKind::Threshold,
        )
    };
    // the order defines the group implicitly for this test case
    let backed_candidates =
        || vec![back(&candidate_a, 0), back(&candidate_b, 1), back(&candidate_c, 2)];

    let ProcessedCandidates {
        core_indices: occupied_cores,
        candidate_receipt_with_backing_validator_indices,
    } = mock
        .process_candidates(
            backed_candidates(),
            vec![chain_a_assignment, chain_b_assignment, thread_a_assignment],
            &group_validators,
        )
        .expect("candidates scheduled, in order, and backed");

    assert_eq!(occupied_cores, vec![CoreIndex(0), CoreIndex(1), CoreIndex(2)]);

    // Transform the votes into the setup we expect
    let expected: Vec<(CandidateReceipt<H256>, Vec<(ValidatorIndex, ValidityAttestation)>)> =
        backed_candidates()
            .into_iter()
            .enumerate()
            .map(|(group, backed_candidate)| {
                assert_eq!(
                    backed_candidate.validity_votes.len(),
                    backed_candidate.validator_indices.count_ones()
                );
                let members = group_validators(GroupIndex(group as u32)).unwrap();
                let votes = backed_candidate
                    .validator_indices
                    .one_positions()
                    .into_iter()
                    .zip(backed_candidate.validity_votes.iter())
                    .map(|(place, vote)| (members[place], *vote))
                    .collect();
                (backed_candidate.candidate.to_plain(), votes)
            })
            .collect();
    assert_eq!(expected, candidate_receipt_with_backing_validator_indices);

    let now = mock.chain.now;
    let pending = |mock: &Mock,
                   core: u32,
                   candidate: &CommittedCandidateReceipt<H256>,
                   backers: &[usize]| {
        Some(CandidatePendingAvailability {
            core: CoreIndex(core),
            hash: candidate_hash(candidate),
            descriptor: candidate.descriptor,
            availability_votes: mock.default_availability_votes(),
            relay_parent_number: now - 1,
            backed_in_number: now,
            backers: mock.backing_bitfield(backers),
            backing_group: GroupIndex(core),
        })
    };
    assert_eq!(
        mock.pallet.pending_availability(chain_a),
        pending(&mock, 0, &candidate_a, &[0, 1])
    );
    assert_eq!(mock.commitments(chain_a), Some(candidate_a.commitments));
    assert_eq!(
        mock.pallet.pending_availability(chain_b),
        pending(&mock, 1, &candidate_b, &[2, 3])
    );
    assert_eq!(mock.commitments(chain_b), Some(candidate_b.commitments));
    assert_eq!(
        mock.pallet.pending_availability(thread_a),
        pending(&mock, 2, &candidate_c, &[4])
    );
    assert_eq!(mock.commitments(thread_a), Some(candidate_c.commitments));
}

#[test]
fn can_include_candidate_with_ok_code_upgrade() {
    let chain_a = ParaId(1);

    // The block number of the relay-parent for testing.
    const RELAY_PARENT_NUM: BlockNumber = 4;

    let paras = vec![(chain_a, true)];
    let validators = default_validators();
    let mut mock = Mock::new(&paras, &validators, 5);
    mock.run_to_block(5, |_| None);

    let signing_context =
        SigningContext { parent_hash: mock.chain.parent_hash, session_index: 5 };

    let group_validators = |group_index: GroupIndex| {
        match group_index {
            group_index if group_index == GroupIndex(0) => Some(vec![0, 1, 2, 3, 4]),
            _ => panic!("Group index out of bounds for 1 parachain"),
        }
        .map(|vs| vs.into_iter().map(ValidatorIndex).collect::<Vec<_>>())
    };

    let chain_a_assignment = CoreAssignment {
        core: CoreIndex(0),
        para_id: chain_a,
        kind: AssignmentKind::Parachain,
        group_idx: GroupIndex(0),
    };

    let mut candidate_a = TestCandidateBuilder {
        para_id: chain_a,
        relay_parent: mock.chain.parent_hash,
        pov_hash: H256([1; 32]),
        persisted_validation_data_hash: mock.make_vdata_hash(chain_a),
        new_validation_code: Some(ValidationCode(vec![1, 2, 3])),
        hrmp_watermark: RELAY_PARENT_NUM,
        ..Default::default()
    }
    .build();
    collator_sign_candidate(&ONE, &mut candidate_a);

    let backed_a = back_candidate(
        clone_receipt(&candidate_a),
        &validators,
        &group_validators(GroupIndex(0)).unwrap(),
        &signing_context,
        BackingKind::Threshold,
    );

    let ProcessedCandidates { core_indices: occupied_cores, .. } = mock
        .process_candidates(vec![backed_a], vec![chain_a_assignment], &group_validators)
        .expect("candidates scheduled, in order, and backed");

    assert_eq!(occupied_cores, vec![CoreIndex(0)]);

    assert_eq!(
        mock.pallet.pending_availability(chain_a),
        Some(CandidatePendingAvailability {
            core: CoreIndex(0),
            hash: candidate_hash(&candidate_a),
            descriptor: candidate_a.descriptor,
            availability_votes: mock.default_availability_votes(),
            relay_parent_number: mock.chain.now - 1,
            backed_in_number: mock.chain.now,
            backers: mock.backing_bitfield(&[0, 1, 2]),
            backing_group: GroupIndex(0),
        })
    );
    assert_eq!(mock.commitments(chain_a), Some(candidate_a.commitments));
}

#[test]
fn session_change_wipes() {
    let chain_a = ParaId(1);
    let chain_b = ParaId(2);
    let thread_a = ParaId(3);

    let paras = vec![(chain_a, true), (chain_b, true), (thread_a, false)];
    let validators = default_validators();
    let mut mock = Mock::new(&paras, &validators, 5);

    let validator_public_new =
        || vec![ValidatorId(ALICE), ValidatorId(BOB), ValidatorId(CHARLIE)];

    mock.run_to_block(10, |_| None);

    for validator in [0, 1, 4] {
        let bitfield = mock.default_bitfield();
        mock.pallet.insert_bitfield(
            ValidatorIndex(validator),
            AvailabilityBitfieldRecord { bitfield, submitted_at: 9 },
        );
    }

    let candidate = TestCandidateBuilder::default().build();
    let backers = mock.backing_bitfield(&[]);
    mock.insert_pending(chain_a, 0, &candidate, 5, 6, backers, 0);
    mock.pallet.insert_commitments(chain_a, candidate.commitments.clone());
    let backers = mock.backing_bitfield(&[]);
    mock.insert_pending(chain_b, 1, &candidate, 6, 7, backers, 1);
    mock.pallet.insert_commitments(chain_b, candidate.commitments);

    mock.run_to_block(11, |_| None);

    assert_eq!(mock.chain.session_index, 5);

    assert!(mock.pallet.availability_bitfield(ValidatorIndex(0)).is_some());
    assert!(mock.pallet.availability_bitfield(ValidatorIndex(1)).is_some());
    assert!(mock.pallet.availability_bitfield(ValidatorIndex(4)).is_some());

    assert!(mock.pallet.pending_availability(chain_a).is_some());
    assert!(mock.pallet.pending_availability(chain_b).is_some());
    assert!(mock.pallet.has_commitments(chain_a));
    assert!(mock.pallet.has_commitments(chain_b));

    mock.run_to_block(12, |n| match n {
        12 => Some((6, validator_public_new())),
        _ => None,
    });

    assert_eq!(mock.chain.session_index, 6);

    assert!(mock.pallet.availability_bitfield(ValidatorIndex(0)).is_none());
    assert!(mock.pallet.availability_bitfield(ValidatorIndex(1)).is_none());
    assert!(mock.pallet.availability_bitfield(ValidatorIndex(4)).is_none());

    assert!(mock.pallet.pending_availability(chain_a).is_none());
    assert!(mock.pallet.pending_availability(chain_b).is_none());
    assert!(!mock.pallet.has_commitments(chain_a));
    assert!(!mock.pallet.has_commitments(chain_b));

    assert!(mock.pallet.recorded_validators().is_empty());
    assert!(mock.pallet.pending_paras().is_empty());
    assert!(mock.pallet.committed_paras().is_empty());
}
