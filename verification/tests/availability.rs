//! Availability: how bitfields are judged and counted, and how candidates leave the pallet.
use frame_support::StorageHasher;
use frame_support::Twox64Concat;
use inclusion::availability::availability_threshold;
use inclusion::bitfields::sanitize_bitfields;
use inclusion::bits::Bitfield;
use inclusion::pallet::AvailabilityBitfieldRecord;
use inclusion::pallet::CandidatePendingAvailability;
use inclusion::pallet::Effect;
use inclusion::pallet::Error;
use inclusion::pallet::Event;
use inclusion::pallet::Pallet;
use inclusion::pallet::Pending;
use inclusion::primitives::AvailabilityBitfield;
use inclusion::primitives::CandidateCommitments;
use inclusion::primitives::CandidateDescriptor;
use inclusion::primitives::CandidateHash;
use inclusion::primitives::CandidateReceipt;
use inclusion::primitives::ChainContext;
use inclusion::primitives::CollatorId;
use inclusion::primitives::CommittedCandidateReceipt;
use inclusion::primitives::CoreIndex;
use inclusion::primitives::DisputedBitfield;
use inclusion::primitives::GroupIndex;
use inclusion::primitives::HeadData;
use inclusion::primitives::OutboundHrmpMessage;
use inclusion::primitives::ParaId;
use inclusion::primitives::Signature;
use inclusion::primitives::SigningContext;
use inclusion::primitives::UncheckedSignedAvailabilityBitfield;
use inclusion::primitives::ValidationCode;
use inclusion::primitives::ValidatorId;
use inclusion::primitives::ValidatorIndex;
use inclusion::primitives::H256;
use inclusion::storage::StorageMap;

fn bits(len: usize, marked: &[usize]) -> Bitfield {
    let mut field = Bitfield::zeros(len);
    for i in marked {
        assert!(field.put(*i, true));
    }
    field
}

fn descriptor(para: u32) -> CandidateDescriptor<H256> {
    CandidateDescriptor {
        para_id: ParaId(para),
        relay_parent: H256([1; 32]),
        collator: CollatorId([2; 32]),
        persisted_validation_data_hash: H256([3; 32]),
        pov_hash: H256([4; 32]),
        erasure_root: H256([5; 32]),
        signature: Signature([6; 64]),
        para_head: H256([7; 32]),
        validation_code_hash: H256([8; 32]),
    }
}

fn commitments(code: Option<Vec<u8>>) -> CandidateCommitments {
    CandidateCommitments {
        upward_messages: vec![vec![1], vec![2, 3]],
        horizontal_messages: vec![OutboundHrmpMessage { recipient: ParaId(77), data: vec![4] }],
        new_validation_code: code.map(ValidationCode),
        head_data: HeadData { bytes: vec![5, 6], digest: H256([7; 32]) },
        processed_downward_messages: 9,
        hrmp_watermark: 3,
        digest: H256([10; 32]),
    }
}

fn pending(para: u32, core: u32, votes: &[usize]) -> Pending {
    CandidatePendingAvailability::new(
        CoreIndex(core),
        CandidateHash(H256([para as u8; 32])),
        descriptor(para),
        bits(5, votes),
        bits(5, &[1, 3]),
        4,
        5,
        GroupIndex(core + 100),
    )
}

/// A pallet with a candidate of each para pending, on the core with the same number.
fn pallet_with(paras: &[u32]) -> Pallet {
    let mut pallet = Pallet::new();
    for para in paras {
        pallet.insert_pending(ParaId(*para), pending(*para, *para, &[]));
        pallet.insert_commitments(ParaId(*para), commitments(None));
    }
    pallet
}

fn signed(validator: u32, len: usize, marked: &[usize]) -> UncheckedSignedAvailabilityBitfield {
    UncheckedSignedAvailabilityBitfield {
        payload: AvailabilityBitfield(bits(len, marked)),
        validator_index: ValidatorIndex(validator),
        signature: Signature([validator as u8; 64]),
    }
}

fn chain() -> ChainContext {
    ChainContext {
        now: 8,
        parent_hash: H256([1; 32]),
        session_index: 5,
        validators: (0..5u8).map(|i| ValidatorId([i; 32])).collect(),
    }
}

fn signature_matches(
    bitfield: &UncheckedSignedAvailabilityBitfield,
    context: &SigningContext,
    key: &ValidatorId,
) -> bool {
    assert_eq!(*context, SigningContext { session_index: 5, parent_hash: H256([1; 32]) });
    bitfield.signature.0[..32] == key.0
}

fn sanitize(
    bitfields: Vec<UncheckedSignedAvailabilityBitfield>,
    disputed: &[usize],
) -> Result<(), Error> {
    sanitize_bitfields(
        &bitfields,
        &DisputedBitfield(bits(3, disputed)),
        3,
        &chain().signing_context(),
        &chain().validators,
        signature_matches,
    )
}

fn inclusion_effects(para: u32, core: u32, votes: Vec<u32>) -> Vec<Effect> {
    let made = commitments(None);
    vec![
        Effect::RewardBacking(vec![ValidatorIndex(1), ValidatorIndex(3)]),
        Effect::RewardBitfields(votes.into_iter().map(ValidatorIndex).collect()),
        Effect::PruneDmq(ParaId(para), 9),
        Effect::ReceiveUpwardMessages(ParaId(para), made.upward_messages),
        Effect::PruneHrmp(ParaId(para), 3),
        Effect::QueueOutboundHrmp(ParaId(para), made.horizontal_messages),
        Effect::DepositEvent(Event::CandidateIncluded(
            CandidateReceipt { descriptor: descriptor(para), commitments_hash: H256([10; 32]) },
            commitments(None).head_data,
            CoreIndex(core),
            GroupIndex(core + 100),
        )),
        Effect::NoteNewHead(ParaId(para), made.head_data, 4),
    ]
}

#[test]
fn thresholds() {
    let expected = [0, 2, 2, 2, 4, 4, 4, 6, 6, 6, 8];
    for (n, threshold) in expected.into_iter().enumerate() {
        assert_eq!(availability_threshold(n), threshold);
        assert!(3 * threshold >= 2 * n);
        assert_eq!(3 * threshold < 2 * n + 3, n % 3 != 1);
    }
    assert_eq!(availability_threshold(100), 68);
    assert_eq!(availability_threshold(1000), 668);
    assert!(availability_threshold(usize::MAX) > usize::MAX / 2);
}

#[test]
fn bitfields_in_order_are_taken() {
    assert_eq!(sanitize(vec![], &[]), Ok(()));
    assert_eq!(sanitize(vec![signed(0, 3, &[0, 2]), signed(4, 3, &[])], &[1]), Ok(()));
}

#[test]
fn bitfields_out_of_order_are_refused() {
    assert_eq!(sanitize(vec![signed(0, 2, &[])], &[]), Err(Error::WrongBitfieldSize));
    assert_eq!(
        sanitize(vec![signed(0, 3, &[1])], &[1]),
        Err(Error::BitfieldReferencesFreedCore)
    );
    assert_eq!(
        sanitize(vec![signed(2, 3, &[]), signed(2, 3, &[])], &[]),
        Err(Error::BitfieldDuplicateOrUnordered)
    );
    assert_eq!(
        sanitize(vec![signed(0, 3, &[]), signed(5, 3, &[])], &[]),
        Err(Error::ValidatorIndexOutOfBounds)
    );
    let mut forged = signed(1, 3, &[]);
    forged.signature = Signature([2; 64]);
    assert_eq!(sanitize(vec![forged], &[]), Err(Error::InvalidBitfieldSignature));
    // The first fault counts.
    let mut forged = signed(1, 3, &[]);
    forged.signature = Signature([2; 64]);
    assert_eq!(
        sanitize(vec![forged, signed(0, 2, &[])], &[]),
        Err(Error::InvalidBitfieldSignature)
    );
    assert_eq!(
        sanitize_bitfields(
            &vec![],
            &DisputedBitfield::zeros(4),
            3,
            &chain().signing_context(),
            &chain().validators,
            signature_matches
        ),
        Err(Error::WrongBitfieldSize)
    );
}

#[test]
fn refused_bitfields_change_nothing() {
    let mut pallet = pallet_with(&[1]);
    let result = pallet.process_bitfields(
        &chain(),
        3,
        vec![signed(0, 3, &[1]), signed(9, 3, &[1])],
        DisputedBitfield::zeros(3),
        |core: CoreIndex| Some(ParaId(core.0)),
        signature_matches,
    );
    assert_eq!(result, Err(Error::ValidatorIndexOutOfBounds));
    assert_eq!(pallet.pending_availability(ParaId(1)), Some(pending(1, 1, &[])));
    assert!(pallet.recorded_validators().is_empty());
    assert!(pallet.take_effects().is_empty());
}

#[test]
fn candidates_become_available_each_by_itself() {
    let mut pallet = pallet_with(&[0, 1, 2]);
    let freed = pallet
        .process_bitfields(
            &chain(),
            3,
            vec![
                signed(0, 3, &[0, 1]),
                signed(1, 3, &[0, 1]),
                signed(2, 3, &[0, 1]),
                signed(4, 3, &[0, 2]),
            ],
            DisputedBitfield::zeros(3),
            |core: CoreIndex| if core.0 < 2 { Some(ParaId(core.0)) } else { None },
            signature_matches,
        )
        .unwrap();
    assert_eq!(freed, vec![(CoreIndex(0), CandidateHash(H256([0; 32])))]);
    assert!(pallet.is_free(ParaId(0)));
    assert_eq!(pallet.pending_availability(ParaId(1)), Some(pending(1, 1, &[0, 1, 2])));
    // The core of the last para is not assigned to it: the vote for the core is not its.
    assert_eq!(pallet.pending_availability(ParaId(2)), Some(pending(2, 2, &[])));
    assert!(pallet.has_commitments(ParaId(1)) && pallet.has_commitments(ParaId(2)));
    assert_eq!(pallet.take_effects(), inclusion_effects(0, 0, vec![0, 1, 2, 4]));

    // Votes only grow: one more is enough.
    let freed = pallet
        .process_bitfields(
            &chain(),
            3,
            vec![signed(3, 3, &[1])],
            DisputedBitfield::zeros(3),
            |core: CoreIndex| Some(ParaId(core.0)),
            signature_matches,
        )
        .unwrap();
    assert_eq!(freed, vec![(CoreIndex(1), CandidateHash(H256([1; 32])))]);
    assert_eq!(pallet.take_effects(), inclusion_effects(1, 1, vec![0, 1, 2, 3]));
}

/// Everything that is stored.
fn stored(pallet: &Pallet) -> (Vec<Pending>, Vec<u32>, Vec<(u32, Bitfield, u32)>) {
    (
        pallet
            .pending_paras()
            .into_iter()
            .map(|para| pallet.pending_availability(ParaId(para)).unwrap())
            .collect(),
        pallet.committed_paras(),
        pallet
            .recorded_validators()
            .into_iter()
            .map(|v| {
                let record = pallet.availability_bitfield(ValidatorIndex(v)).unwrap();
                (v, record.bitfield.0.clone(), record.submitted_at)
            })
            .collect(),
    )
}

#[test]
fn the_same_bitfields_twice_do_nothing_more() {
    let assigned = vec![Some(ParaId(0)), Some(ParaId(1))];
    let fields = || (0..4).map(|v| signed(v, 2, if v < 3 { &[0, 1] } else { &[0] })).collect();
    let mut pallet = pallet_with(&[0, 1]);
    assert_eq!(pallet.apply_bitfields::<false>(8, &assigned, 5, fields()).len(), 1);
    pallet.take_effects();
    let once = stored(&pallet);
    assert!(pallet.apply_bitfields::<false>(8, &assigned, 5, fields()).is_empty());
    assert_eq!(stored(&pallet), once);
    assert!(pallet.take_effects().is_empty());
    // In a later block only the time of submission changes.
    assert!(pallet.apply_bitfields::<false>(9, &assigned, 5, fields()).is_empty());
    let (pending, committed, records) = stored(&pallet);
    assert_eq!((pending, committed), (once.0, once.1));
    assert!(records.iter().all(|record| record.2 == 9));
}

#[test]
fn the_order_of_bitfields_is_of_no_matter() {
    let assigned = vec![Some(ParaId(0)), Some(ParaId(1))];
    let field = |v: u32| signed(v, 2, if v < 3 { &[0, 1] } else { &[0] });
    let mut up = pallet_with(&[0, 1]);
    let mut down = pallet_with(&[0, 1]);
    let freed = up.apply_bitfields::<false>(8, &assigned, 5, (0..4).map(field).collect());
    assert_eq!(
        down.apply_bitfields::<false>(8, &assigned, 5, (0..4).rev().map(field).collect()),
        freed
    );
    assert_eq!(stored(&up), stored(&down));
    assert_eq!(up.take_effects(), down.take_effects());
}

#[test]
fn creating_an_inherent_puts_nothing_down() {
    let assigned = vec![Some(ParaId(0)), None, Some(ParaId(2))];
    let fields = || (0..4).map(|v| signed(v, 3, &[0])).collect();
    let mut applied = pallet_with(&[0, 2]);
    let mut created = pallet_with(&[0, 2]);
    let freed = applied.apply_bitfields::<false>(8, &assigned, 5, fields());
    assert_eq!(freed, vec![(CoreIndex(0), CandidateHash(H256([0; 32])))]);
    assert_eq!(created.apply_bitfields::<true>(8, &assigned, 5, fields()), freed);
    assert_eq!(applied.pending_paras(), created.pending_paras());
    assert_eq!(applied.committed_paras(), created.committed_paras());
    assert_eq!(applied.recorded_validators(), created.recorded_validators());
    assert_eq!(applied.take_effects(), inclusion_effects(0, 0, vec![0, 1, 2, 3]));
    assert!(created.take_effects().is_empty());
}

#[test]
fn votes_of_unknown_validators_are_dropped() {
    let mut pallet = pallet_with(&[0]);
    let freed =
        pallet.apply_bitfields::<false>(8, &vec![Some(ParaId(0))], 5, vec![signed(7, 1, &[0])]);
    assert!(freed.is_empty());
    assert_eq!(pallet.pending_availability(ParaId(0)), Some(pending(0, 0, &[])));
    assert!(pallet.availability_bitfield(ValidatorIndex(7)).is_some());
}

#[test]
fn an_available_candidate_without_commitments_is_dropped() {
    let mut pallet = Pallet::new();
    pallet.insert_pending(ParaId(0), pending(0, 0, &[0, 1, 2, 3]));
    let freed = pallet.apply_bitfields::<false>(8, &vec![Some(ParaId(0))], 5, vec![]);
    assert!(freed.is_empty());
    assert!(pallet.is_free(ParaId(0)));
    assert!(pallet.take_effects().is_empty());
}

#[test]
fn the_latest_bitfield_is_on_record() {
    let mut pallet = Pallet::new();
    pallet.insert_bitfield(
        ValidatorIndex(1),
        AvailabilityBitfieldRecord { bitfield: AvailabilityBitfield(bits(2, &[])), submitted_at: 3 },
    );
    pallet.insert_bitfield(
        ValidatorIndex(2),
        AvailabilityBitfieldRecord { bitfield: AvailabilityBitfield(bits(2, &[])), submitted_at: 3 },
    );
    pallet.apply_bitfields::<false>(
        8,
        &vec![None, None],
        5,
        vec![signed(1, 2, &[0]), signed(1, 2, &[1])],
    );
    let record = pallet.availability_bitfield(ValidatorIndex(1)).unwrap();
    assert_eq!(record.bitfield.0, bits(2, &[1]));
    assert_eq!(record.submitted_at, 8);
    let record = pallet.availability_bitfield(ValidatorIndex(2)).unwrap();
    assert_eq!(record.bitfield.0, bits(2, &[]));
    assert_eq!(record.submitted_at, 3);
}

#[test]
fn a_para_with_two_cores_is_settled_twice() {
    // The first core takes the candidate with its commitments; the second puts it back alone.
    let mut pallet = pallet_with(&[0]);
    let assigned = vec![Some(ParaId(0)), Some(ParaId(0))];
    let fields = (0..4).map(|v| signed(v, 2, &[0])).collect();
    let freed = pallet.apply_bitfields::<false>(8, &assigned, 5, fields);
    assert_eq!(freed.len(), 1);
    assert_eq!(pallet.pending_availability(ParaId(0)), Some(pending(0, 0, &[])));
    assert!(!pallet.has_commitments(ParaId(0)));
}

#[test]
fn enactment_puts_down_the_code_upgrade_after_the_rewards() {
    let mut pallet = Pallet::new();
    pallet.insert_pending(ParaId(6), pending(6, 2, &[4]));
    pallet.insert_commitments(ParaId(6), commitments(Some(vec![42])));
    pallet.force_enact(ParaId(6));
    let mut expected = inclusion_effects(6, 2, vec![4]);
    expected
        .insert(2, Effect::ScheduleCodeUpgrade(ParaId(6), ValidationCode(vec![42]), 4));
    assert_eq!(pallet.take_effects(), expected);
    assert!(pallet.is_free(ParaId(6)));
}

#[test]
fn force_enact_is_a_noop_without_a_candidate() {
    let mut pallet = pallet_with(&[1]);
    pallet.insert_commitments(ParaId(2), commitments(None));
    pallet.force_enact(ParaId(2));
    pallet.force_enact(ParaId(3));
    assert!(pallet.has_pending(ParaId(1)));
    assert!(pallet.has_commitments(ParaId(2)));
    assert!(pallet.take_effects().is_empty());
}

#[test]
fn force_enact_is_as_if_available() {
    let mut forced = pallet_with(&[]);
    let mut vouched = pallet_with(&[]);
    for pallet in [&mut forced, &mut vouched] {
        pallet.insert_pending(ParaId(0), pending(0, 0, &[0, 1, 2, 3]));
        pallet.insert_commitments(ParaId(0), commitments(None));
    }
    forced.force_enact(ParaId(0));
    vouched.apply_bitfields::<false>(8, &vec![Some(ParaId(0))], 5, vec![]);
    assert_eq!(forced.take_effects(), vouched.take_effects());
    assert!(forced.is_free(ParaId(0)) && vouched.is_free(ParaId(0)));
}

#[test]
fn enact_candidate_only_puts_down() {
    let mut pallet = pallet_with(&[0]);
    pallet.enact_candidate(
        4,
        CommittedCandidateReceipt { descriptor: descriptor(5), commitments: commitments(None) },
        &bits(5, &[1, 3]),
        &bits(5, &[0]),
        CoreIndex(3),
        GroupIndex(103),
    );
    assert!(pallet.has_pending(ParaId(0)));
    assert_eq!(pallet.take_effects(), inclusion_effects(5, 3, vec![0]));
}

#[test]
fn timed_out_candidates_are_told_of_once() {
    let mut pallet = pallet_with(&[1, 2, 3]);
    pallet.insert_pending(ParaId(4), pending(4, 4, &[]));
    let order = pallet.pending_paras();
    let cores = pallet.collect_pending(|core, since| {
        assert_eq!(since, 5);
        core != CoreIndex(2)
    });
    let gone: Vec<u32> = order.into_iter().filter(|para| *para != 2).collect();
    assert_eq!(cores, gone.iter().map(|para| CoreIndex(*para)).collect::<Vec<_>>());
    assert_eq!(pallet.pending_paras(), vec![2]);
    assert_eq!(pallet.committed_paras(), vec![2]);
    // The candidate without commitments goes without a word.
    let told: Vec<Effect> = gone
        .into_iter()
        .filter(|para| *para != 4)
        .map(|para| {
            Effect::DepositEvent(Event::CandidateTimedOut(
                CandidateReceipt {
                    descriptor: descriptor(para),
                    commitments_hash: H256([10; 32]),
                },
                commitments(None).head_data,
                CoreIndex(para),
            ))
        })
        .collect();
    assert_eq!(pallet.take_effects(), told);
}

#[test]
fn time_out_of_a_para_twice_is_time_out_once() {
    let mut pallet = pallet_with(&[1]);
    pallet.time_out(&vec![ParaId(1), ParaId(1), ParaId(9)]);
    assert!(pallet.is_free(ParaId(1)));
    assert_eq!(pallet.take_effects().len(), 1);
}

#[test]
fn disputed_candidates_leave_without_a_word() {
    let mut pallet = pallet_with(&[1, 2, 3]);
    let cores = pallet.collect_disputed(&[
        CandidateHash(H256([2; 32])),
        CandidateHash(H256([9; 32])),
    ]);
    assert_eq!(cores, vec![CoreIndex(2)]);
    assert!(pallet.is_free(ParaId(2)));
    assert_eq!(pallet.pending_availability(ParaId(1)), Some(pending(1, 1, &[])));
    assert!(pallet.has_commitments(ParaId(1)) && pallet.has_commitments(ParaId(3)));
    assert!(pallet.take_effects().is_empty());
    assert!(pallet.collect_disputed(&[]).is_empty());
}

#[test]
fn collecting_disputed_is_collecting_pending_in_silence() {
    let mut disputed = pallet_with(&[1, 2, 3, 4]);
    let mut pending = pallet_with(&[1, 2, 3, 4]);
    let cores = disputed.collect_disputed(&[
        CandidateHash(H256([4; 32])),
        CandidateHash(H256([2; 32])),
    ]);
    assert_eq!(pending.collect_pending(|core, _| core.0 == 2 || core.0 == 4), cores);
    assert_eq!(stored(&disputed), stored(&pending));
    assert!(disputed.take_effects().is_empty());
    assert_eq!(pending.take_effects().len(), 2);
}

#[test]
fn disputed_lists_in_turn_are_their_union() {
    let hash = |para: u8| CandidateHash(H256([para; 32]));
    let mut in_turn = pallet_with(&[1, 2, 3, 4]);
    let mut at_once = pallet_with(&[1, 2, 3, 4]);
    let mut cores = in_turn.collect_disputed(&[hash(1), hash(3)]);
    cores.extend(in_turn.collect_disputed(&[hash(3), hash(4)]));
    let all = at_once.collect_disputed(&[hash(1), hash(3), hash(3), hash(4)]);
    assert_eq!(stored(&in_turn), stored(&at_once));
    cores.sort_by_key(|core| core.0);
    let mut all_sorted = all;
    all_sorted.sort_by_key(|core| core.0);
    assert_eq!(cores, all_sorted);
}

#[test]
fn candidate_is_read_back_only_with_its_commitments() {
    let mut pallet = Pallet::new();
    assert_eq!(pallet.candidate_pending_availability(ParaId(1)), None);
    pallet.insert_pending(ParaId(1), pending(1, 1, &[]));
    assert_eq!(pallet.candidate_pending_availability(ParaId(1)), None);
    pallet.insert_commitments(ParaId(1), commitments(Some(vec![1])));
    assert_eq!(
        pallet.candidate_pending_availability(ParaId(1)),
        Some(CommittedCandidateReceipt {
            descriptor: descriptor(1),
            commitments: commitments(Some(vec![1]))
        })
    );
}

#[test]
fn storage_is_walked_by_hashed_key() {
    let mut map: StorageMap<u32> = StorageMap::new();
    let mut keys: Vec<u32> = (0..40u32).map(|i| i * 2_654_435 + i % 7).collect();
    for key in &keys {
        map.insert(*key, key + 1);
    }
    keys.sort_by_key(|key| Twox64Concat::hash(&key.to_le_bytes()));
    assert_eq!(map.list_keys(), keys);
    assert_eq!(map.len(), 40);
    for (i, key) in keys.iter().enumerate() {
        assert_eq!(map.get(*key), Some(&(key + 1)));
        assert_eq!(map.entry(i), (*key, &(key + 1)));
    }
    map.insert(keys[3], 7);
    assert_eq!(map.get(keys[3]), Some(&7));
    assert_eq!(map.len(), 40);
    assert_eq!(map.take(keys[3]), Some(7));
    assert_eq!(map.take(keys[3]), None);
    assert!(!map.contains_key(keys[3]));
    keys.remove(3);
    assert_eq!(map.list_keys(), keys);
    map.drain();
    assert_eq!(map.len(), 0);
}

#[test]
fn bitfields_hold_bits() {
    let mut field = Bitfield::zeros(11);
    assert_eq!(field.len(), 11);
    assert_eq!(field.count_ones(), 0);
    assert!(field.put(10, true));
    assert!(field.put(3, true));
    assert!(!field.put(11, true));
    assert_eq!(field.get(10), Some(true));
    assert_eq!(field.get(9), Some(false));
    assert_eq!(field.get(11), None);
    assert_eq!(field.one_positions(), vec![3, 10]);
    assert_eq!(field.count_ones(), 2);
    let copy = field.clone();
    assert_eq!(copy, field);
    assert!(field.put(3, false));
    assert_eq!(field.one_positions(), vec![10]);
    assert_eq!(copy.one_positions(), vec![3, 10]);
}
