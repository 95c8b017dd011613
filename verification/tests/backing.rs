//! Rounds of backing: every way a round can end, and what it leaves behind.
use inclusion::backing::check_origin;
use inclusion::backing::check_replies;
use inclusion::backing::find_assignment;
use inclusion::backing::list_member_keys;
use inclusion::backing::tally;
use inclusion::backing::weigh_backing;
use inclusion::bits::Bitfield;
use inclusion::checks::AcceptanceCheckErr;
use inclusion::checks::CandidateCheckContext;
use inclusion::checks::OutputReplies;
use inclusion::pallet::Effect;
use inclusion::pallet::Error;
use inclusion::pallet::Event;
use inclusion::pallet::Pallet;
use inclusion::pallet::ProcessedCandidates;
use inclusion::primitives::AssignmentKind;
use inclusion::primitives::AvailabilityBitfield;
use inclusion::primitives::BackedCandidate;
use inclusion::primitives::CandidateCommitments;
use inclusion::primitives::CandidateDescriptor;
use inclusion::primitives::CandidateHash;
use inclusion::primitives::ChainContext;
use inclusion::primitives::CollatorId;
use inclusion::primitives::CommittedCandidateReceipt;
use inclusion::primitives::CoreAssignment;
use inclusion::primitives::CoreIndex;
use inclusion::primitives::GroupIndex;
use inclusion::primitives::HeadData;
use inclusion::primitives::HostConfiguration;
use inclusion::primitives::OutboundHrmpMessage;
use inclusion::primitives::ParaId;
use inclusion::primitives::Signature;
use inclusion::primitives::SigningContext;
use inclusion::primitives::UncheckedSignedAvailabilityBitfield;
use inclusion::primitives::ValidationCode;
use inclusion::primitives::ValidatorId;
use inclusion::primitives::ValidatorIndex;
use inclusion::primitives::ValidityAttestation;
use inclusion::primitives::H256;
use inclusion::round::SiblingReplies;

const PARENT: H256 = H256([7; 32]);
const ROOT: H256 = H256([8; 32]);
const CODE: H256 = H256([9; 32]);
const DATA: H256 = H256([10; 32]);
const HEAD: H256 = H256([11; 32]);

fn config() -> HostConfiguration {
    HostConfiguration { max_head_data_size: 4, max_code_size: 3, validation_upgrade_frequency: 2 }
}

fn chain() -> ChainContext {
    ChainContext {
        now: 20,
        parent_hash: PARENT,
        session_index: 5,
        validators: (0..5u8).map(|i| ValidatorId([i; 32])).collect(),
    }
}

fn check_cx() -> CandidateCheckContext {
    CandidateCheckContext::new(config(), 20, 19)
}

fn vote(i: u8) -> ValidityAttestation {
    ValidityAttestation::Explicit(Signature([i; 64]))
}

/// A candidate that has nothing wrong with it, backed by the first two of three members.
fn candidate(para: u32) -> BackedCandidate<H256> {
    let mut validator_indices = Bitfield::zeros(3);
    assert!(validator_indices.put(0, true));
    assert!(validator_indices.put(2, true));
    BackedCandidate {
        candidate: CommittedCandidateReceipt {
            descriptor: CandidateDescriptor {
                para_id: ParaId(para),
                relay_parent: PARENT,
                collator: CollatorId([3; 32]),
                persisted_validation_data_hash: DATA,
                pov_hash: H256([0; 32]),
                erasure_root: H256([0; 32]),
                signature: Signature([0; 64]),
                para_head: HEAD,
                validation_code_hash: CODE,
            },
            commitments: CandidateCommitments {
                upward_messages: vec![vec![1], vec![2, 3]],
                horizontal_messages: vec![OutboundHrmpMessage {
                    recipient: ParaId(77),
                    data: vec![4, 5],
                }],
                new_validation_code: None,
                head_data: HeadData { bytes: vec![1, 2, 3, 4], digest: HEAD },
                processed_downward_messages: 6,
                hrmp_watermark: 19,
                digest: H256([12; 32]),
            },
        },
        hash: CandidateHash(H256([para as u8; 32])),
        collator_signed: true,
        validity_votes: vec![vote(1), vote(2)],
        validator_indices,
    }
}

fn assignment(core: u32, para: u32) -> CoreAssignment {
    CoreAssignment {
        core: CoreIndex(core),
        para_id: ParaId(para),
        kind: AssignmentKind::Parachain,
        group_idx: GroupIndex(core + 100),
    }
}

fn outputs() -> OutputReplies<u8> {
    OutputReplies {
        last_code_upgrade: None,
        processed_downward_messages: Ok(()),
        upward_messages: Ok(()),
        hrmp_watermark: Ok(()),
        outbound_hrmp: Ok(()),
    }
}

fn replies() -> SiblingReplies<u8> {
    SiblingReplies {
        validation_code_hash: Some(CODE),
        persisted_validation_data_hash: Some(DATA),
        outputs: outputs(),
    }
}

fn members() -> Vec<ValidatorIndex> {
    vec![ValidatorIndex(4), ValidatorIndex(1), ValidatorIndex(0)]
}

fn run(
    pallet: &mut Pallet,
    candidates: Vec<BackedCandidate<H256>>,
    scheduled: Vec<CoreAssignment>,
) -> Result<ProcessedCandidates<H256>, Error> {
    run_with(pallet, candidates, scheduled, replies, Some(members()), Ok(2))
}

fn run_with(
    pallet: &mut Pallet,
    candidates: Vec<BackedCandidate<H256>>,
    scheduled: Vec<CoreAssignment>,
    reply: impl Fn() -> SiblingReplies<u8>,
    group: Option<Vec<ValidatorIndex>>,
    backing: Result<usize, ()>,
) -> Result<ProcessedCandidates<H256>, Error> {
    pallet.process_candidates(
        &chain(),
        config(),
        ROOT,
        candidates,
        scheduled,
        |_group: GroupIndex| group.clone(),
        |_candidate: &BackedCandidate<H256>, cx: &CandidateCheckContext, root: &H256| {
            assert_eq!(*cx, check_cx());
            assert_eq!(*root, ROOT);
            reply()
        },
        |_candidate: &BackedCandidate<H256>,
         context: &SigningContext,
         keys: &Vec<Option<ValidatorId>>| {
            assert_eq!(*context, SigningContext { session_index: 5, parent_hash: PARENT });
            assert_eq!(
                *keys,
                vec![
                    Some(ValidatorId([4; 32])),
                    Some(ValidatorId([1; 32])),
                    Some(ValidatorId([0; 32]))
                ]
            );
            backing
        },
    )
}

/// A round that is refused leaves the state as it was.
fn assert_refused(
    candidates: Vec<BackedCandidate<H256>>,
    scheduled: Vec<CoreAssignment>,
    reply: impl Fn() -> SiblingReplies<u8>,
    group: Option<Vec<ValidatorIndex>>,
    backing: Result<usize, ()>,
    error: Error,
) {
    let mut pallet = Pallet::new();
    assert_eq!(
        run_with(&mut pallet, candidates, scheduled, reply, group, backing),
        Err(error)
    );
    assert!(pallet.pending_paras().is_empty());
    assert!(pallet.committed_paras().is_empty());
    assert!(pallet.take_effects().is_empty());
}

fn assert_refused_for(reply: impl Fn() -> SiblingReplies<u8>, error: Error) {
    assert_refused(
        vec![candidate(1)],
        vec![assignment(0, 1)],
        reply,
        Some(members()),
        Ok(2),
        error,
    );
}

#[test]
fn a_sound_round_passes_and_can_be_read_back() {
    let mut pallet = Pallet::new();
    let processed = run(
        &mut pallet,
        vec![candidate(1), candidate(3)],
        vec![assignment(0, 1), assignment(4, 2), assignment(9, 3)],
    )
    .unwrap();
    assert_eq!(processed.core_indices, vec![CoreIndex(0), CoreIndex(9)]);
    let votes = vec![(ValidatorIndex(4), vote(1)), (ValidatorIndex(0), vote(2))];
    assert_eq!(
        processed.candidate_receipt_with_backing_validator_indices,
        vec![
            (candidate(1).candidate.to_plain(), votes.clone()),
            (candidate(3).candidate.to_plain(), votes)
        ]
    );

    let pending = pallet.pending_availability(ParaId(3)).unwrap();
    assert_eq!(pending.core_occupied(), CoreIndex(9));
    assert_eq!(pending.candidate_hash(), CandidateHash(H256([3; 32])));
    assert_eq!(*pending.candidate_descriptor(), candidate(3).candidate.descriptor);
    assert_eq!(pending.availability_votes().count_ones(), 0);
    assert_eq!(pending.availability_votes().len(), 5);
    assert_eq!(pending.backers.one_positions(), vec![0, 4]);
    assert_eq!(*pending.backed_in_number(), 20);
    assert_eq!(pending.relay_parent_number, 19);
    assert_eq!(pending.backing_group, GroupIndex(109));
    assert_eq!(
        pallet.candidate_pending_availability(ParaId(3)),
        Some(candidate(3).candidate)
    );
    assert!(pallet.pending_availability(ParaId(2)).is_none());

    let events = pallet.take_effects();
    assert_eq!(
        events,
        vec![
            Effect::DepositEvent(Event::CandidateBacked(
                candidate(1).candidate.to_plain(),
                candidate(1).candidate.commitments.head_data,
                CoreIndex(0),
                GroupIndex(100)
            )),
            Effect::DepositEvent(Event::CandidateBacked(
                candidate(3).candidate.to_plain(),
                candidate(3).candidate.commitments.head_data,
                CoreIndex(9),
                GroupIndex(109)
            )),
        ]
    );
}

#[test]
fn a_backed_candidate_is_included_when_enough_validators_vouch_for_it() {
    let vouch = |pallet: &mut Pallet, validators: &[u32]| {
        let fields = validators
            .iter()
            .map(|validator| {
                let mut field = Bitfield::zeros(1);
                assert!(field.put(0, true));
                UncheckedSignedAvailabilityBitfield {
                    payload: AvailabilityBitfield(field),
                    validator_index: ValidatorIndex(*validator),
                    signature: Signature([0; 64]),
                }
            })
            .collect();
        pallet.apply_bitfields::<false>(21, &vec![Some(ParaId(1))], 5, fields)
    };
    let mut pallet = Pallet::new();
    assert!(run(&mut pallet, vec![candidate(1)], vec![assignment(0, 1)]).is_ok());
    pallet.take_effects();
    assert!(vouch(&mut pallet, &[0, 2, 3]).is_empty());
    assert_eq!(
        pallet.pending_availability(ParaId(1)).unwrap().availability_votes.one_positions(),
        vec![0, 2, 3]
    );
    assert!(pallet.take_effects().is_empty());
    assert_eq!(
        vouch(&mut pallet, &[4]),
        vec![(CoreIndex(0), CandidateHash(H256([1; 32])))]
    );
    assert!(pallet.is_free(ParaId(1)));
    let effects = pallet.take_effects();
    assert_eq!(
        effects[0],
        Effect::RewardBacking(vec![ValidatorIndex(0), ValidatorIndex(4)])
    );
    assert_eq!(
        effects[effects.len() - 1],
        Effect::NoteNewHead(ParaId(1), candidate(1).candidate.commitments.head_data, 19)
    );
}

#[test]
fn a_backed_para_is_occupied_until_it_is_freed() {
    let mut pallet = Pallet::new();
    assert!(run(&mut pallet, vec![candidate(1)], vec![assignment(0, 1)]).is_ok());
    assert!(!pallet.is_free(ParaId(1)));
    assert_eq!(
        run(&mut pallet, vec![candidate(1)], vec![assignment(0, 1)]),
        Err(Error::CandidateScheduledBeforeParaFree)
    );
    pallet.force_enact(ParaId(1));
    assert!(pallet.is_free(ParaId(1)));
    assert!(run(&mut pallet, vec![candidate(1)], vec![assignment(0, 1)]).is_ok());
}

#[test]
fn of_two_candidates_for_a_para_the_last_is_stored() {
    let mut pallet = Pallet::new();
    let mut second = candidate(1);
    second.hash = CandidateHash(H256([99; 32]));
    let processed = run(
        &mut pallet,
        vec![candidate(1), second],
        vec![assignment(0, 1), assignment(1, 1)],
    )
    .unwrap();
    assert_eq!(processed.core_indices, vec![CoreIndex(0), CoreIndex(1)]);
    let pending = pallet.pending_availability(ParaId(1)).unwrap();
    assert_eq!(pending.hash, CandidateHash(H256([99; 32])));
    assert_eq!(pending.core, CoreIndex(1));
    assert_eq!(pallet.take_effects().len(), 2);
}

#[test]
fn more_candidates_than_assignments_are_unscheduled() {
    assert_refused(
        vec![candidate(1)],
        vec![],
        replies,
        Some(members()),
        Ok(2),
        Error::UnscheduledCandidate,
    );
}

#[test]
fn nothing_scheduled_is_nothing_done() {
    let mut pallet = Pallet::new();
    assert_eq!(run(&mut pallet, vec![], vec![]), Ok(ProcessedCandidates::default()));
    assert!(pallet.take_effects().is_empty());
}

#[test]
fn a_schedule_without_candidates_passes_if_it_is_in_order() {
    let mut pallet = Pallet::new();
    assert_eq!(
        run(&mut pallet, vec![], vec![assignment(0, 1), assignment(1, 2)]),
        Ok(ProcessedCandidates::default())
    );
    assert_eq!(
        run(&mut pallet, vec![], vec![assignment(1, 1), assignment(1, 2)]),
        Err(Error::ScheduledOutOfOrder)
    );
}

#[test]
fn a_schedule_out_of_order_is_refused_before_and_after_the_candidate() {
    for scheduled in [
        vec![assignment(5, 2), assignment(3, 1)],
        vec![assignment(5, 1), assignment(5, 2)],
    ] {
        assert_refused(
            vec![candidate(1)],
            scheduled,
            replies,
            Some(members()),
            Ok(2),
            Error::ScheduledOutOfOrder,
        );
    }
}

#[test]
fn missing_validation_data_stops_the_round_without_an_error() {
    let mut pallet = Pallet::new();
    let reply = || SiblingReplies { persisted_validation_data_hash: None, ..replies() };
    assert_eq!(
        run_with(
            &mut pallet,
            vec![candidate(1)],
            vec![assignment(0, 1)],
            reply,
            Some(members()),
            Ok(2)
        ),
        Ok(ProcessedCandidates::default())
    );
    assert!(pallet.pending_paras().is_empty());
    assert!(pallet.take_effects().is_empty());
}

#[test]
fn groups_and_votes_are_checked() {
    for (group, backing, error) in [
        (None, Ok(2), Error::InvalidGroupIndex),
        (Some(members()), Err(()), Error::InvalidBacking),
        (Some(members()), Ok(1), Error::InsufficientBacking),
    ] {
        assert_refused(
            vec![candidate(1)],
            vec![assignment(0, 1)],
            replies,
            group,
            backing,
            error,
        );
    }
}

#[test]
fn sibling_replies_are_checked() {
    assert_refused_for(
        || SiblingReplies { validation_code_hash: None, ..replies() },
        Error::UnscheduledCandidate,
    );
    assert_refused_for(
        || SiblingReplies { validation_code_hash: Some(DATA), ..replies() },
        Error::InvalidValidationCodeHash,
    );
    assert_refused_for(
        || SiblingReplies { persisted_validation_data_hash: Some(CODE), ..replies() },
        Error::ValidationDataHashMismatch,
    );
    assert_refused_for(
        || SiblingReplies {
            outputs: OutputReplies { processed_downward_messages: Err(1), ..outputs() },
            ..replies()
        },
        Error::IncorrectDownwardMessageHandling,
    );
    assert_refused_for(
        || SiblingReplies {
            outputs: OutputReplies { upward_messages: Err(1), ..outputs() },
            ..replies()
        },
        Error::InvalidUpwardMessages,
    );
    assert_refused_for(
        || SiblingReplies {
            outputs: OutputReplies { hrmp_watermark: Err(1), ..outputs() },
            ..replies()
        },
        Error::HrmpWatermarkMishandling,
    );
    assert_refused_for(
        || SiblingReplies {
            outputs: OutputReplies { outbound_hrmp: Err(1), ..outputs() },
            ..replies()
        },
        Error::InvalidOutboundHrmp,
    );
}

#[test]
fn large_outputs_are_refused() {
    let mut large_head = candidate(1);
    large_head.candidate.commitments.head_data.bytes = vec![0; 5];
    let mut large_code = candidate(1);
    large_code.candidate.commitments.new_validation_code = Some(ValidationCode(vec![0; 4]));
    for (backed, error) in
        [(large_head, Error::HeadDataTooLarge), (large_code, Error::NewCodeTooLarge)]
    {
        assert_refused(
            vec![backed],
            vec![assignment(0, 1)],
            replies,
            Some(members()),
            Ok(2),
            error,
        );
    }
}

#[test]
fn origin_is_checked_before_anything_else() {
    let mut elsewhere = candidate(1);
    elsewhere.candidate.descriptor.relay_parent = ROOT;
    elsewhere.collator_signed = false;
    assert_eq!(check_origin(&elsewhere, &PARENT), Err(Error::CandidateNotInParentContext));
    assert_eq!(check_origin(&elsewhere, &ROOT), Err(Error::NotCollatorSigned));
    assert_eq!(check_origin(&candidate(1), &PARENT), Ok(()));
    assert_refused(
        vec![elsewhere],
        vec![assignment(0, 1)],
        || SiblingReplies { validation_code_hash: None, ..replies() },
        Some(members()),
        Ok(2),
        Error::CandidateNotInParentContext,
    );
}

#[test]
fn a_head_that_does_not_match_is_refused() {
    let mut backed = candidate(1);
    backed.candidate.descriptor.para_head = DATA;
    assert_eq!(check_replies(&backed, &check_cx(), replies()), Err(Error::ParaHeadMismatch));
    assert_eq!(check_replies(&candidate(1), &check_cx(), replies()), Ok(()));
}

#[test]
fn code_upgrades_wait_for_their_time() {
    let code = Some(ValidationCode(vec![1, 2, 3]));
    let head = candidate(1).candidate.commitments.head_data;
    let check = |last_code_upgrade| {
        check_cx().check_validation_outputs(
            &head,
            &code,
            OutputReplies { last_code_upgrade, ..outputs() },
        )
    };
    assert_eq!(check(None), Ok(()));
    assert_eq!(check(Some(17)), Ok(()));
    assert_eq!(check(Some(18)), Err(AcceptanceCheckErr::PrematureCodeUpgrade));
    // An upgrade that is still to come is in the way too.
    assert_eq!(check(Some(25)), Err(AcceptanceCheckErr::PrematureCodeUpgrade));
    // Without new code the last upgrade is of no matter.
    assert_eq!(
        check_cx().check_validation_outputs(
            &head,
            &None,
            OutputReplies { last_code_upgrade: Some(25), ..outputs() }
        ),
        Ok(())
    );
}

#[test]
fn details_of_errors_are_stripped() {
    assert_eq!(
        AcceptanceCheckErr::<u8>::HeadDataTooLarge.strip_into_dispatch_err(),
        Error::HeadDataTooLarge
    );
    assert_eq!(
        AcceptanceCheckErr::<u8>::PrematureCodeUpgrade.strip_into_dispatch_err(),
        Error::PrematureCodeUpgrade
    );
    assert_eq!(
        AcceptanceCheckErr::<u8>::NewCodeTooLarge.strip_into_dispatch_err(),
        Error::NewCodeTooLarge
    );
    assert_eq!(
        AcceptanceCheckErr::ProcessedDownwardMessages(1u8).strip_into_dispatch_err(),
        Error::IncorrectDownwardMessageHandling
    );
    assert_eq!(
        AcceptanceCheckErr::UpwardMessages(1u8).strip_into_dispatch_err(),
        Error::InvalidUpwardMessages
    );
    assert_eq!(
        AcceptanceCheckErr::HrmpWatermark(1u8).strip_into_dispatch_err(),
        Error::HrmpWatermarkMishandling
    );
    assert_eq!(
        AcceptanceCheckErr::OutboundHrmp(1u8).strip_into_dispatch_err(),
        Error::InvalidOutboundHrmp
    );
}

#[test]
fn runtime_api_checks_outputs_at_the_current_block() {
    let acceptable = |last_code_upgrade| {
        let mut commitments = candidate(1).candidate.commitments;
        commitments.new_validation_code = Some(ValidationCode(vec![1]));
        Pallet::check_validation_outputs_for_runtime_api(
            &chain(),
            config(),
            ParaId(1),
            commitments,
            |para: ParaId, _commitments: &CandidateCommitments, cx: &CandidateCheckContext| {
                assert_eq!(para, ParaId(1));
                assert_eq!(*cx, CandidateCheckContext::new(config(), 20, 20));
                OutputReplies { last_code_upgrade, ..outputs() }
            },
        )
    };
    assert!(acceptable(None));
    // Two blocks lie between the upgrade and the current block, but not the relay-parent's.
    assert!(acceptable(Some(18)));
    assert!(!acceptable(Some(19)));
}

#[test]
fn the_first_assignment_from_a_place_on_is_found() {
    let scheduled = vec![assignment(0, 1), assignment(3, 2), assignment(5, 1), assignment(4, 7)];
    assert_eq!(find_assignment(&scheduled, 0, ParaId(1)), Ok(0));
    assert_eq!(find_assignment(&scheduled, 1, ParaId(1)), Ok(2));
    assert_eq!(find_assignment(&scheduled, 0, ParaId(7)), Err(Error::ScheduledOutOfOrder));
    assert_eq!(find_assignment(&scheduled, 4, ParaId(7)), Err(Error::UnscheduledCandidate));
}

#[test]
fn a_parathread_demands_its_collator() {
    let mut claimed = assignment(0, 1);
    claimed.kind = AssignmentKind::Parathread(CollatorId([3; 32]), 0);
    let pallet = Pallet::new();
    assert_eq!(pallet.check_assignment(&candidate(1), &claimed, Some(DATA)), Ok(true));
    assert_eq!(pallet.check_assignment(&candidate(1), &claimed, None), Ok(false));
    claimed.kind = AssignmentKind::Parathread(CollatorId([4; 32]), 0);
    assert_eq!(
        pallet.check_assignment(&candidate(1), &claimed, None),
        Err(Error::WrongCollator)
    );
}

#[test]
fn more_than_half_of_the_group_is_needed() {
    assert_eq!(weigh_backing(Ok(2), 3), Ok(()));
    assert_eq!(weigh_backing(Ok(2), 4), Err(Error::InsufficientBacking));
    assert_eq!(weigh_backing(Ok(3), 4), Ok(()));
    assert_eq!(weigh_backing(Ok(0), 0), Err(Error::InsufficientBacking));
    assert_eq!(weigh_backing(Err(()), 0), Err(Error::InvalidBacking));
}

#[test]
fn votes_go_with_the_members_that_cast_them() {
    let (backers, votes) = tally(&candidate(1), &members(), 5);
    assert_eq!(backers.one_positions(), vec![0, 4]);
    assert_eq!(backers.len(), 5);
    assert_eq!(votes, vec![(ValidatorIndex(4), vote(1)), (ValidatorIndex(0), vote(2))]);
    // A member without a vote does not count.
    let mut fewer = candidate(1);
    fewer.validity_votes.pop();
    let (backers, votes) = tally(&fewer, &members(), 5);
    assert_eq!(backers.one_positions(), vec![4]);
    assert_eq!(votes, vec![(ValidatorIndex(4), vote(1))]);
}

#[test]
fn keys_of_unknown_members_are_missing() {
    assert_eq!(
        list_member_keys(&vec![ValidatorIndex(1), ValidatorIndex(9)], &chain().validators),
        vec![Some(ValidatorId([1; 32])), None]
    );
}
