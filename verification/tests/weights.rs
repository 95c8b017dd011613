//! Weights on given values.
use inclusion::bits::Bitfield;
use inclusion::pallet::Effect;
use inclusion::pallet::Event;
use inclusion::pallet::Pallet;
use inclusion::primitives::CandidateCommitments;
use inclusion::primitives::CandidateDescriptor;
use inclusion::primitives::CandidateReceipt;
use inclusion::primitives::CollatorId;
use inclusion::primitives::CommittedCandidateReceipt;
use inclusion::primitives::CoreIndex;
use inclusion::primitives::GroupIndex;
use inclusion::primitives::HeadData;
use inclusion::primitives::ParaId;
use inclusion::primitives::Signature;
use inclusion::primitives::ValidationCode;
use inclusion::primitives::H256;
use inclusion::weights::enactment_weight;
use inclusion::weights::DbWeight;
use inclusion::weights::WeightInfo;

const DB: DbWeight = DbWeight { read: 25, write: 100 };

#[test]
fn database_operations() {
    assert_eq!(DB.reads(3), 75);
    assert_eq!(DB.writes(3), 300);
    assert_eq!(DB.reads_writes(2, 5), 550);
    let heavy = DbWeight { read: u64::MAX / 2, write: u64::MAX };
    assert_eq!(heavy.reads(3), u64::MAX);
    assert_eq!(heavy.writes(0), 0);
    assert_eq!(heavy.reads_writes(1, 1), u64::MAX);
}

#[test]
fn election_weights() {
    let info = WeightInfo(DB);
    assert_eq!(info.vote_equal(2), 21_240_000 + 380_000 + 125 + 200);
    assert_eq!(info.vote_more(2), 33_409_000 + 304_000 + 125 + 200);
    assert_eq!(info.vote_less(2), 32_961_000 + 360_000 + 125 + 200);
    assert_eq!(info.remove_voter(), 29_515_000 + 50 + 200);
    assert_eq!(info.submit_candidacy(3), 30_999_000 + 405_000 + 75 + 100);
    assert_eq!(info.renounce_candidacy_candidate(3), 25_741_000 + 210_000 + 25 + 100);
    assert_eq!(info.renounce_candidacy_members(), 39_440_000 + 100 + 400);
    assert_eq!(info.renounce_candidacy_runners_up(), 27_483_000 + 25 + 100);
    assert_eq!(info.remove_member_without_replacement(), 2_000_000_000_000);
    assert_eq!(info.remove_member_with_replacement(), 54_903_000 + 125 + 500);
    assert_eq!(info.remove_member_wrong_refund(), 5_203_000 + 25);
    assert_eq!(
        info.clean_defunct_voters(2, 3),
        94_732_000 + 720_000 + 100 + 150 + 600
    );
    assert_eq!(
        info.election_phragmen(2, 3, 4),
        270_856_000 + 310_386_000 + 28_464_000 + 100 + 75 + 200
    );
}

#[test]
fn weights_saturate() {
    let info = WeightInfo(DbWeight { read: u64::MAX, write: 1 });
    assert_eq!(info.vote_equal(0), u64::MAX);
    assert_eq!(info.clean_defunct_voters(u32::MAX, u32::MAX), u64::MAX);
    assert_eq!(info.election_phragmen(0, 0, 0), 0);
}

#[test]
fn enactment_weighs_the_read_and_the_sibling_calls() {
    let head = || HeadData { bytes: vec![], digest: H256([0; 32]) };
    let receipt = CandidateReceipt {
        descriptor: CandidateDescriptor {
            para_id: ParaId(1),
            relay_parent: H256([0; 32]),
            collator: CollatorId([0; 32]),
            persisted_validation_data_hash: H256([0; 32]),
            pov_hash: H256([0; 32]),
            erasure_root: H256([0; 32]),
            signature: Signature([0; 64]),
            para_head: H256([0; 32]),
            validation_code_hash: H256([0; 32]),
        },
        commitments_hash: H256([0; 32]),
    };
    let mut pallet = Pallet::new();
    pallet.enact_candidate(
        4,
        CommittedCandidateReceipt {
            descriptor: receipt.descriptor,
            commitments: CandidateCommitments {
                upward_messages: vec![],
                horizontal_messages: vec![],
                new_validation_code: Some(ValidationCode(vec![1])),
                head_data: head(),
                processed_downward_messages: 0,
                hrmp_watermark: 0,
                digest: H256([0; 32]),
            },
        },
        &Bitfield::zeros(2),
        &Bitfield::zeros(2),
        CoreIndex(0),
        GroupIndex(0),
    );
    let effects = pallet.take_effects();
    assert_eq!(
        effects.iter().map(|effect| effect.weighs()).collect::<Vec<_>>(),
        vec![false, false, true, true, true, true, true, false, true]
    );
    let took = vec![1_000_000, 1_000_000, 1, 20, 300, 4_000, 50_000, 1_000_000, 600_000];
    assert_eq!(enactment_weight(&DB, &effects, &took), 25 + 654_321);
    assert_eq!(enactment_weight(&DB, &vec![], &vec![]), 25);
    let event = Effect::DepositEvent(Event::CandidateTimedOut(receipt, head(), CoreIndex(0)));
    assert_eq!(enactment_weight(&DB, &vec![event], &vec![7]), 25);
}
