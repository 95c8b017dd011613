//! What a round of backing comes to, in terms of the candidates, the schedule and the answers.
use crate::bits::ones;
use crate::checks::CandidateCheckContext;
use crate::pallet::EffectView;
use crate::pallet::Error;
use crate::pallet::EventView;
use crate::pallet::PalletView;
use crate::pallet::ProcessedView;
use crate::primitives::AssignmentKind;
use crate::primitives::BackedCandidate;
use crate::primitives::CandidateReceipt;
use crate::primitives::ChainContext;
use crate::primitives::CoreAssignment;
use crate::primitives::GroupIndex;
use crate::primitives::HostConfiguration;
use crate::primitives::ParaId;
use crate::primitives::SigningContext;
use crate::primitives::ValidatorId;
use crate::primitives::ValidatorIndex;
use crate::primitives::H256;
use crate::round::backing_fault;
use crate::round::find;
use crate::round::find_is_first;
use crate::round::heard;
use crate::round::in_order;
use crate::round::member_keys;
use crate::round::vote_count;
use crate::round::voter;
use crate::round::votes_known;
use crate::round::Acceptance;
use crate::round::Answers;
use crate::round::Found;
use crate::round::Outcome;
use crate::round::Round;
use crate::round::SiblingReplies;
use crate::round::Stage;
use crate::round_laws::backed_events;
use crate::round_laws::backing_leaves_other_paras;
use crate::round_laws::last_for_para;
use crate::round_laws::lemma_some_is_last;
use crate::round_laws::lemma_stage_sound;
use crate::round_laws::lemma_stored;
use crate::round_laws::passed_candidates_are_sound;
use crate::round_laws::sound_rounds_pass;
use vstd::prelude::*;

verus! {

/// The backing of a candidate suffices if and only if all votes are valid and twice their number
/// exceeds the size of the group.
pub proof fn backing_suffices_with_more_than_half(backing: Result<usize, ()>, group_len: nat)
    ensures
        backing_fault(backing, group_len) is None <==> backing is Ok && 2 * backing->Ok_0
            > group_len,
        backing is Err ==> backing_fault(backing, group_len) == Some(Error::InvalidBacking),
        backing is Ok && 2 * backing->Ok_0 <= group_len ==> backing_fault(backing, group_len)
            == Some(Error::InsufficientBacking),
{
}

/// If a number of valid votes suffices for a group, so does every larger number, and the same
/// number for every smaller group.
pub proof fn more_votes_suffice_too(fewer: usize, more: usize, smaller: nat, larger: nat)
    requires
        fewer <= more,
        smaller <= larger,
        backing_fault(Ok(fewer), larger) is None,
    ensures
        backing_fault(Ok(more), smaller) is None,
{
}

/// What holds of each candidate of a round that passes, with its assignment, in terms of the
/// candidate, the assignment and the answers.
pub proof fn a_passed_candidate_meets_every_condition<E>(
    round: Round,
    answers: Seq<Answers<E>>,
    accepted: Seq<Acceptance>,
    k: int,
)
    requires
        round.outcome(answers) == Outcome::Passed(accepted),
        0 <= k < round.candidates.len(),
    ensures
        ({
            let candidate = round.candidates[k];
            let descriptor = candidate.candidate.descriptor;
            let commitments = candidate.candidate.commitments;
            let config = round.check_cx.config;
            let replies = answers[k].replies;
            let outputs = replies.outputs;
            let at = accepted[k].at;
            &&& accepted.len() == round.candidates.len()
            // The candidate itself.
            &&& descriptor.relay_parent == round.signing_context.parent_hash
            &&& candidate.collator_signed
            // The sibling pallets.
            &&& replies.validation_code_hash == Some(descriptor.validation_code_hash)
            &&& descriptor.para_head == commitments.head_data.digest
            &&& commitments.head_data.bytes@.len() <= config.max_head_data_size
            &&& commitments.new_validation_code matches Some(code) ==> {
                &&& code.0@.len() <= config.max_code_size
                &&& outputs.last_code_upgrade matches Some(last) ==> last
                    + config.validation_upgrade_frequency <= round.check_cx.relay_parent_number
            }
            &&& outputs.processed_downward_messages is Ok
            &&& outputs.upward_messages is Ok
            &&& outputs.hrmp_watermark is Ok
            &&& outputs.outbound_hrmp is Ok
            // The assignment: the first for the para after that of the candidate before.
            &&& 0 <= at < round.scheduled.len()
            &&& round.scheduled[at].para_id == descriptor.para_id
            &&& k > 0 ==> accepted[k - 1].at < at
            &&& forall|i: int|
                0 <= i < at && (k > 0 ==> accepted[k - 1].at < i) ==> (
                #[trigger] round.scheduled[i]).para_id != descriptor.para_id
            &&& round.scheduled[at].kind matches AssignmentKind::Parathread(collator, _)
                ==> collator == descriptor.collator
            &&& replies.persisted_validation_data_hash == Some(
                descriptor.persisted_validation_data_hash,
            )
            &&& !round.state.pending_availability.contains_key(descriptor.para_id.0)
            &&& !round.state.pending_availability_commitments.contains_key(descriptor.para_id.0)
            // The backing.
            &&& answers[k].group is Some
            &&& answers[k].backing is Ok
            &&& 2 * answers[k].backing->Ok_0 > answers[k].group->0@.len()
        }),
{
    passed_candidates_are_sound(round, answers, accepted);
    assert(round.sound_at(k, accepted[k].at, answers[k]));
    if k > 0 {
        assert(accepted[k - 1].at < accepted[k].at);
    }
    lemma_places_are_first(round, round.candidates.len() as int, answers, k);
}

/// Each candidate that passed stands at the first assignment for its para from where the search
/// began, which is right after the assignment of the candidate before it.
proof fn lemma_places_are_first<E>(round: Round, n: int, answers: Seq<Answers<E>>, k: int)
    requires
        0 <= k < n,
        round.stage(n, answers) is Going,
    ensures
        ({
            let accepted = round.stage(n, answers)->Going_1;
            let start = if k == 0 {
                0
            } else {
                accepted[k - 1].at + 1
            };
            &&& accepted.len() == n
            &&& round.stage(n, answers)->Going_0 == accepted[n - 1].at + 1
            &&& find(round.scheduled, start, round.candidates[k]@.descriptor.para_id)
                == Found::At(accepted[k].at)
            &&& forall|i: int|
                start <= i < accepted[k].at ==> (#[trigger] round.scheduled[i]).para_id
                    != round.candidates[k]@.descriptor.para_id
        }),
    decreases n,
{
    lemma_stage_sound(round, n, answers);
    lemma_stage_sound(round, n - 1, answers);
    let accepted = round.stage(n, answers)->Going_1;
    let skip = round.stage(n - 1, answers)->Going_0;
    let had = round.stage(n - 1, answers)->Going_1;
    assert(round.stage(n - 1, answers) is Going);
    if n > 1 {
        lemma_places_are_first(round, n - 1, answers, n - 2);
        assert(accepted[n - 2] == had[n - 2]);
    }
    if k < n - 1 {
        lemma_places_are_first(round, n - 1, answers, k);
        assert(accepted[k] == had[k]);
        if k > 0 {
            assert(accepted[k - 1] == had[k - 1]);
        }
    } else {
        find_is_first(round.scheduled, skip, round.candidates[k]@.descriptor.para_id);
    }
}

/// What is taken down of a candidate that passes: as many votes as have a member that cast them,
/// each with that member, and as backers just these members.
pub proof fn a_passed_candidate_keeps_its_votes<E>(
    round: Round,
    answers: Seq<Answers<E>>,
    accepted: Seq<Acceptance>,
    k: int,
)
    requires
        round.outcome(answers) == Outcome::Passed(accepted),
        0 <= k < round.candidates.len(),
    ensures
        ({
            let places = ones(round.candidates[k].validator_indices@);
            let votes = round.candidates[k].validity_votes@;
            let members = answers[k].group->0@;
            let taken = accepted[k].attestations;
            &&& taken.len() <= places.len() && taken.len() <= votes.len() && (taken.len()
                == places.len() || taken.len() == votes.len())
            &&& forall|j: int|
                0 <= j < taken.len() ==> (#[trigger] taken[j]) == (members[places[j]], votes[j])
            &&& accepted[k].backers.len() == round.validators.len()
            &&& forall|v: int|
                0 <= v < round.validators.len() ==> ((#[trigger] accepted[k].backers[v])
                    <==> exists|j: int|
                    0 <= j < taken.len() && (#[trigger] taken[j]).0.0 == v)
        }),
{
    passed_candidates_are_sound(round, answers, accepted);
    assert(round.sound_at(k, accepted[k].at, answers[k]));
    let candidate = round.candidates[k]@;
    let members = answers[k].group->0@;
    let taken = accepted[k].attestations;
    assert(accepted[k] == round.acceptance(k, accepted[k].at, answers[k]));
    assert forall|v: int| 0 <= v < round.validators.len() implies ((
    #[trigger] accepted[k].backers[v]) <==> exists|j: int|
        0 <= j < taken.len() && (#[trigger] taken[j]).0.0 == v) by {
        if accepted[k].backers[v] {
            let j = choose|j: int|
                0 <= j < vote_count(candidate) && (#[trigger] voter(candidate, members, j)).0 == v;
            assert(taken[j].0.0 == v);
        }
        if exists|j: int| 0 <= j < taken.len() && (#[trigger] taken[j]).0.0 == v {
            let j = choose|j: int| 0 <= j < taken.len() && (#[trigger] taken[j]).0.0 == v;
            assert(voter(candidate, members, j).0 == v);
        }
    }
}

/// A round passes if the cores of the schedule ascend, the candidates are scheduled in the order in
/// which they come, and every condition holds of each candidate, whichever assignment for its para
/// it is held against.
pub proof fn candidates_that_meet_every_condition_pass<E>(
    round: Round,
    answers: Seq<Answers<E>>,
    places: Seq<int>,
)
    requires
        0 < round.scheduled.len(),
        round.candidates.len() <= round.scheduled.len(),
        places.len() == round.candidates.len(),
        forall|i: int, j: int|
            0 <= i < j < round.scheduled.len() ==> (#[trigger] round.scheduled[i]).core.0 < (
            #[trigger] round.scheduled[j]).core.0,
        forall|j: int, k: int|
            0 <= j < k < places.len() ==> #[trigger] places[j] < #[trigger] places[k],
        forall|k: int|
            0 <= k < round.candidates.len() ==> {
                let candidate = #[trigger] round.candidates[k];
                let descriptor = candidate.candidate.descriptor;
                let commitments = candidate.candidate.commitments;
                let config = round.check_cx.config;
                let replies = answers[k].replies;
                let outputs = replies.outputs;
                &&& 0 <= places[k] < round.scheduled.len()
                &&& round.scheduled[places[k]].para_id == descriptor.para_id
                &&& descriptor.relay_parent == round.signing_context.parent_hash
                &&& candidate.collator_signed
                &&& replies.validation_code_hash == Some(descriptor.validation_code_hash)
                &&& descriptor.para_head == commitments.head_data.digest
                &&& commitments.head_data.bytes@.len() <= config.max_head_data_size
                &&& commitments.new_validation_code matches Some(code) ==> {
                    &&& code.0@.len() <= config.max_code_size
                    &&& outputs.last_code_upgrade matches Some(last) ==> last
                        + config.validation_upgrade_frequency
                        <= round.check_cx.relay_parent_number
                }
                &&& outputs.processed_downward_messages is Ok
                &&& outputs.upward_messages is Ok
                &&& outputs.hrmp_watermark is Ok
                &&& outputs.outbound_hrmp is Ok
                &&& forall|at: int|
                    0 <= at < round.scheduled.len() && (#[trigger] round.scheduled[at]).para_id
                        == descriptor.para_id ==> (
                    round.scheduled[at].kind matches AssignmentKind::Parathread(collator, _)
                        ==> collator == descriptor.collator)
                &&& replies.persisted_validation_data_hash == Some(
                    descriptor.persisted_validation_data_hash,
                )
                &&& !round.state.pending_availability.contains_key(descriptor.para_id.0)
                &&& !round.state.pending_availability_commitments.contains_key(
                    descriptor.para_id.0,
                )
                &&& answers[k].group is Some
                &&& answers[k].backing is Ok
                &&& 2 * answers[k].backing->Ok_0 > answers[k].group->0@.len()
            },
    ensures
        round.outcome(answers) is Passed,
{
    assert forall|i: int| 0 <= i < round.scheduled.len() implies #[trigger] in_order(
        round.scheduled,
        i,
    ) by {
        if i > 0 {
            assert(round.scheduled[i - 1].core.0 < round.scheduled[i].core.0);
        }
    }
    assert forall|k: int, at: int|
        0 <= k < round.candidates.len() && 0 <= at < round.scheduled.len()
            && round.scheduled[at].para_id
            == round.candidates[k]@.descriptor.para_id implies #[trigger] round.sound_at(
        k,
        at,
        answers[k],
    ) by {
        let candidate = round.candidates[k];
        assert(candidate@.descriptor == candidate.candidate.descriptor);
    }
    assert(round.scheduled_at(places)) by {
        assert forall|k: int| 0 <= k < places.len() implies 0 <= #[trigger] places[k]
            < round.scheduled.len() && round.scheduled[places[k]].para_id
            == round.candidates[k]@.descriptor.para_id by {
            let candidate = round.candidates[k];
            assert(candidate@.descriptor == candidate.candidate.descriptor);
        }
    }
    sound_rounds_pass(round, answers, places);
}

/// How the round answers a candidate that it comes to and that is wrong by itself or in the eyes of
/// the sibling pallets: the first thing that is wrong counts.
pub proof fn the_first_thing_wrong_with_a_candidate_is_answered<E>(
    round: Round,
    answers: Seq<Answers<E>>,
    k: int,
)
    requires
        0 <= k < round.candidates.len() <= round.scheduled.len(),
        round.stage(k, answers) is Going,
    ensures
        ({
            let candidate = round.candidates[k];
            let descriptor = candidate.candidate.descriptor;
            let commitments = candidate.candidate.commitments;
            let replies = answers[k].replies;
            let answer = round.outcome(answers);
            let here = descriptor.relay_parent == round.signing_context.parent_hash;
            let signed = candidate.collator_signed;
            let runs = replies.validation_code_hash is Some;
            let same_code = replies.validation_code_hash == Some(descriptor.validation_code_hash);
            let same_head = descriptor.para_head == commitments.head_data.digest;
            let outputs = round.check_cx.outputs_verdict(
                commitments.head_data.bytes@,
                commitments@.new_validation_code,
                replies.outputs,
            );
            &&& !here ==> answer == Outcome::Refused(Error::CandidateNotInParentContext)
            &&& here && !signed ==> answer == Outcome::Refused(Error::NotCollatorSigned)
            &&& here && signed && !runs ==> answer == Outcome::Refused(
                Error::UnscheduledCandidate,
            )
            &&& here && signed && runs && !same_code ==> answer == Outcome::Refused(
                Error::InvalidValidationCodeHash,
            )
            &&& here && signed && same_code && !same_head ==> answer == Outcome::Refused(
                Error::ParaHeadMismatch,
            )
            &&& here && signed && same_code && same_head && outputs is Err ==> answer
                == Outcome::Refused(outputs->Err_0.stripped())
        }),
{
    let n = round.candidates.len() as int;
    assert(round.candidates[k]@.descriptor == round.candidates[k].candidate.descriptor);
    if !(round.stage(k + 1, answers) is Going) {
        lemma_stopped(round, k + 1, n, answers);
    }
}

/// A round that has stopped ends as it stopped.
proof fn lemma_stopped<E>(round: Round, n: int, m: int, answers: Seq<Answers<E>>)
    requires
        0 <= n <= m,
        !(round.stage(n, answers) is Going),
    ensures
        round.stage(m, answers) == round.stage(n, answers),
    decreases m,
{
    if n < m {
        lemma_stopped(round, n, m - 1, answers);
    }
}

/// A candidate has nothing wrong by itself or in the eyes of the sibling pallets.
pub open spec fn faultless_so_far<E>(
    candidate: BackedCandidate<H256>,
    parent_hash: H256,
    check_cx: CandidateCheckContext,
    replies: SiblingReplies<E>,
) -> bool {
    let descriptor = candidate.candidate.descriptor;
    let commitments = candidate.candidate.commitments;
    &&& descriptor.relay_parent == parent_hash
    &&& candidate.collator_signed
    &&& replies.validation_code_hash == Some(descriptor.validation_code_hash)
    &&& descriptor.para_head == commitments.head_data.digest
    &&& check_cx.outputs_verdict(
        commitments.head_data.bytes@,
        commitments@.new_validation_code,
        replies.outputs,
    ) is Ok
}

/// The search for an assignment fails where the cores do not ascend before one is found, and where
/// there is none.
proof fn lemma_find_fails(
    scheduled: Seq<CoreAssignment>,
    from: int,
    para: ParaId,
    stop: int,
)
    requires
        0 <= from <= stop <= scheduled.len(),
        forall|i: int| from <= i < stop ==> (#[trigger] scheduled[i]).para_id != para,
        forall|i: int|
            from <= i < stop && i > 0 ==> scheduled[i - 1].core.0 < (
            #[trigger] scheduled[i]).core.0,
    ensures
        stop == scheduled.len() ==> find(scheduled, from, para) is Nowhere,
        0 < stop < scheduled.len() && scheduled[stop - 1].core.0 >= scheduled[stop].core.0 ==> find(
            scheduled,
            from,
            para,
        ) is OutOfOrder,
        stop < scheduled.len() && scheduled[stop].para_id == para && (stop > 0 ==> scheduled[stop
            - 1].core.0 < scheduled[stop].core.0) ==> find(scheduled, from, para) == Found::At(
            stop,
        ),
    decreases stop - from,
{
    if from < stop {
        assert(scheduled[from].para_id != para);
        assert(in_order(scheduled, from));
        lemma_find_fails(scheduled, from + 1, para, stop);
    }
}

/// How the round answers a candidate with nothing wrong so far when it looks for its assignment,
/// from `skip` on. If up to `stop` the cores ascend and no assignment is for the para: at the end
/// of the schedule the candidate is not scheduled; a core that does not ascend is out of order; and
/// an assignment for the para is then held against the candidate, with the collator, the
/// validation data, the state of the para, the group and the backing in turn.
pub proof fn the_first_thing_wrong_with_an_assignment_is_answered<E>(
    round: Round,
    answers: Seq<Answers<E>>,
    k: int,
    stop: int,
)
    requires
        0 <= k < round.candidates.len() <= round.scheduled.len(),
        round.stage(k, answers) is Going,
        faultless_so_far(
            round.candidates[k],
            round.signing_context.parent_hash,
            round.check_cx,
            answers[k].replies,
        ),
        round.stage(k, answers)->Going_0 <= stop <= round.scheduled.len(),
        forall|i: int|
            round.stage(k, answers)->Going_0 <= i < stop ==> (#[trigger] round.scheduled[i]).para_id
                != round.candidates[k].candidate.descriptor.para_id,
        forall|i: int|
            round.stage(k, answers)->Going_0 <= i < stop && i > 0 ==> round.scheduled[i
                - 1].core.0 < (#[trigger] round.scheduled[i]).core.0,
    ensures
        ({
            let scheduled = round.scheduled;
            let descriptor = round.candidates[k].candidate.descriptor;
            let para = descriptor.para_id.0;
            let data = answers[k].replies.persisted_validation_data_hash;
            let answer = round.outcome(answers);
            let ascends = stop > 0 ==> scheduled[stop - 1].core.0 < scheduled[stop].core.0;
            let found = stop < scheduled.len() && ascends && scheduled[stop].para_id
                == descriptor.para_id;
            let right_collator = scheduled[stop].kind matches AssignmentKind::Parathread(
                collator,
                _,
            ) ==> collator == descriptor.collator;
            let same_data = data == Some(descriptor.persisted_validation_data_hash);
            let free = !round.state.pending_availability.contains_key(para)
                && !round.state.pending_availability_commitments.contains_key(para);
            let group = answers[k].group;
            let backing = answers[k].backing;
            let sound = found && right_collator && same_data && free;
            &&& stop == scheduled.len() ==> answer == Outcome::Refused(
                Error::UnscheduledCandidate,
            )
            &&& stop < scheduled.len() && !ascends ==> answer == Outcome::Refused(
                Error::ScheduledOutOfOrder,
            )
            &&& found && !right_collator ==> answer == Outcome::Refused(Error::WrongCollator)
            &&& found && right_collator && data is None ==> answer is Ignored
            &&& found && right_collator && data is Some && !same_data ==> answer
                == Outcome::Refused(Error::ValidationDataHashMismatch)
            &&& found && right_collator && same_data && !free ==> answer == Outcome::Refused(
                Error::CandidateScheduledBeforeParaFree,
            )
            &&& sound && group is None ==> answer == Outcome::Refused(Error::InvalidGroupIndex)
            &&& sound && group is Some && backing is Err ==> answer == Outcome::Refused(
                Error::InvalidBacking,
            )
            &&& sound && group is Some && backing is Ok && 2 * backing->Ok_0 <= group->0@.len()
                ==> answer == Outcome::Refused(Error::InsufficientBacking)
            &&& sound && group is Some && backing is Ok && 2 * backing->Ok_0 > group->0@.len()
                ==> (round.stage(k + 1, answers) matches Stage::Going(next, accepted) && next
                == stop + 1 && accepted.len() == k + 1 && accepted[k].at == stop)
        }),
{
    let n = round.candidates.len() as int;
    let skip = round.stage(k, answers)->Going_0;
    let candidate = round.candidates[k];
    assert(candidate@.descriptor == candidate.candidate.descriptor);
    lemma_stage_sound(round, k, answers);
    lemma_find_fails(round.scheduled, skip, candidate.candidate.descriptor.para_id, stop);
    if !(round.stage(k + 1, answers) is Going) {
        lemma_stopped(round, k + 1, n, answers);
    }
}

/// How a round begins and ends. More candidates than assignments are unscheduled, and with nothing
/// scheduled nothing is done. When all candidates have passed, the cores after the last assignment
/// used must ascend too.
pub proof fn the_whole_schedule_must_ascend<E>(round: Round, answers: Seq<Answers<E>>)
    ensures
        round.candidates.len() > round.scheduled.len() ==> round.outcome(answers)
            == Outcome::Refused(Error::UnscheduledCandidate),
        round.candidates.len() == 0 && round.scheduled.len() == 0 ==> round.outcome(
            answers,
        ) is Ignored,
        round.candidates.len() <= round.scheduled.len() && 0 < round.scheduled.len() ==> (
        round.stage(round.candidates.len() as int, answers) matches Stage::Going(skip, accepted)
            ==> if forall|i: int|
            skip <= i < round.scheduled.len() && i > 0 ==> round.scheduled[i - 1].core.0 < (
            #[trigger] round.scheduled[i]).core.0 {
            round.outcome(answers) == Outcome::Passed(accepted)
        } else {
            round.outcome(answers) == Outcome::Refused(Error::ScheduledOutOfOrder)
        }),
        round.stage(0, answers) == Stage::Going(0, Seq::empty()),
{
    if round.candidates.len() <= round.scheduled.len() && 0 < round.scheduled.len() {
        if let Stage::Going(skip, accepted) = round.stage(
            round.candidates.len() as int,
            answers,
        ) {
            lemma_stage_sound(round, round.candidates.len() as int, answers);
            if forall|i: int|
                skip <= i < round.scheduled.len() && i > 0 ==> round.scheduled[i - 1].core.0 < (
                #[trigger] round.scheduled[i]).core.0 {
                assert forall|i: int| skip <= i < round.scheduled.len() implies #[trigger] in_order(
                    round.scheduled,
                    i,
                ) by {
                    assert(round.scheduled[i].core == round.scheduled[i].core);
                }
            } else {
                let i = choose|i: int|
                    skip <= i < round.scheduled.len() && i > 0 && round.scheduled[i - 1].core.0 >= (
                    #[trigger] round.scheduled[i]).core.0;
                assert(!in_order(round.scheduled, i));
            }
        }
    }
}

/// The round of the current block is held against what the chain says: its validators, its session
/// and parent, the current block, and the block before it as the relay-parent.
pub proof fn the_round_is_that_of_the_current_block(
    state: PalletView,
    chain: ChainContext,
    config: HostConfiguration,
    parent_storage_root: H256,
    scheduled: Seq<CoreAssignment>,
    candidates: Seq<BackedCandidate<H256>>,
)
    requires
        chain.now >= 1,
    ensures
        ({
            let round = Round::of(
                state,
                chain,
                config,
                parent_storage_root,
                scheduled,
                candidates,
            );
            &&& round.state == state
            &&& round.validators == chain.validators@
            &&& round.signing_context.session_index == chain.session_index
            &&& round.signing_context.parent_hash == chain.parent_hash
            &&& round.parent_storage_root == parent_storage_root
            &&& round.check_cx.config == config
            &&& round.check_cx.now == chain.now
            &&& round.check_cx.relay_parent_number + 1 == chain.now
            &&& round.scheduled == scheduled
            &&& round.candidates == candidates
        }),
{
}

/// Callbacks that can be asked anything can be asked whatever is asked in a round, if the backing
/// check finds votes valid only where each vote that counts was cast by a member with a known key.
pub proof fn ready_callbacks_can_be_asked<
    E,
    G: Fn(GroupIndex) -> Option<Vec<ValidatorIndex>>,
    C: Fn(&BackedCandidate<H256>, &CandidateCheckContext, &H256) -> SiblingReplies<E>,
    B: Fn(&BackedCandidate<H256>, &SigningContext, &Vec<Option<ValidatorId>>) -> Result<usize, ()>,
>(round: Round, group_validators: G, consult: C, check_backing: B)
    requires
        forall|candidate: BackedCandidate<H256>, check_cx: CandidateCheckContext, root: H256|
            #[trigger] call_requires(consult, (&candidate, &check_cx, &root)),
        forall|group: GroupIndex| #[trigger] call_requires(group_validators, (group,)),
        forall|
            candidate: BackedCandidate<H256>,
            context: SigningContext,
            keys: Vec<Option<ValidatorId>>,
        | #[trigger]
            call_requires(check_backing, (&candidate, &context, &keys)),
        forall|
            candidate: BackedCandidate<H256>,
            context: SigningContext,
            keys: Vec<Option<ValidatorId>>,
            amount_validated: usize,
            j: int,
        |
            #![trigger call_ensures(check_backing, (&candidate, &context, &keys), Ok(amount_validated)), ones(candidate.validator_indices@)[j]]
            call_ensures(check_backing, (&candidate, &context, &keys), Ok(amount_validated)) && 0
                <= j < ones(candidate.validator_indices@).len() && j
                < candidate.validity_votes@.len() ==> ones(candidate.validator_indices@)[j]
                < keys@.len() && keys@[ones(candidate.validator_indices@)[j]] is Some,
    ensures
        round.may_ask::<E, G, C, B>(group_validators, consult, check_backing),
{
    assert forall|k: int, answers: Seq<Answers<E>>|
        0 <= k < round.candidates.len() && round.answered(
            k,
            answers,
            group_validators,
            consult,
            check_backing,
        ) implies (#[trigger] round.stage(k, answers) matches Stage::Going(skip, _)
        ==> round.may_ask_about::<E, G, C, B>(
        k,
        skip,
        group_validators,
        consult,
        check_backing,
    )) by {
        assert forall|group: GroupIndex| #[trigger]
            round.may_ask_group(k, group, group_validators, check_backing) by {
            let candidate = round.candidates[k];
            assert forall|members: Vec<ValidatorIndex>, keys: Vec<Option<ValidatorId>>|
                #![trigger call_ensures(group_validators, (group,), Some(members)), keys@]
                call_ensures(group_validators, (group,), Some(members)) && keys@ == member_keys(
                    members@,
                    round.validators,
                ) implies {
                &&& call_requires(check_backing, (&candidate, &round.signing_context, &keys))
                &&& forall|amount_validated: usize| #[trigger]
                    call_ensures(
                        check_backing,
                        (&candidate, &round.signing_context, &keys),
                        Ok(amount_validated),
                    ) ==> votes_known(candidate@, keys@)
            } by {
                assert forall|amount_validated: usize| #[trigger]
                    call_ensures(
                        check_backing,
                        (&candidate, &round.signing_context, &keys),
                        Ok(amount_validated),
                    ) implies votes_known(candidate@, keys@) by {
                    assert(candidate@.validator_indices == candidate.validator_indices@);
                    assert(candidate@.validity_votes == candidate.validity_votes@);
                }
            }
        }
    }
}

/// The answers about a candidate that passed are those of the sibling pallets about this candidate,
/// of the group lookup about the group of its assignment, and of the backing check about this
/// candidate with the keys of the members of that group, as far as the members are in the set.
pub proof fn answers_about_passed_candidates_were_given<
    E,
    G: Fn(GroupIndex) -> Option<Vec<ValidatorIndex>>,
    C: Fn(&BackedCandidate<H256>, &CandidateCheckContext, &H256) -> SiblingReplies<E>,
    B: Fn(&BackedCandidate<H256>, &SigningContext, &Vec<Option<ValidatorId>>) -> Result<usize, ()>,
>(
    round: Round,
    answers: Seq<Answers<E>>,
    accepted: Seq<Acceptance>,
    group_validators: G,
    consult: C,
    check_backing: B,
    k: int,
)
    requires
        heard(round, answers, group_validators, consult, check_backing),
        round.outcome(answers) == Outcome::Passed(accepted),
        0 <= k < round.candidates.len(),
    ensures
        call_ensures(
            consult,
            (&round.candidates[k], &round.check_cx, &round.parent_storage_root),
            answers[k].replies,
        ),
        call_ensures(
            group_validators,
            (round.scheduled[accepted[k].at].group_idx,),
            answers[k].group,
        ),
        answers[k].group is Some,
        exists|keys: Vec<Option<ValidatorId>>|
            {
                &&& #[trigger] call_ensures(
                    check_backing,
                    (&round.candidates[k], &round.signing_context, &keys),
                    answers[k].backing,
                )
                &&& keys@.len() == answers[k].group->0@.len()
                &&& forall|m: int|
                    0 <= m < keys@.len() ==> (#[trigger] keys@[m])
                        == if answers[k].group->0@[m].0 < round.validators.len() {
                        Some(round.validators[answers[k].group->0@[m].0 as int])
                    } else {
                        None
                    }
            },
{
    let n = round.candidates.len() as int;
    passed_candidates_are_sound(round, answers, accepted);
    assert(round.sound_at(k, accepted[k].at, answers[k]));
    lemma_places_are_first(round, n, answers, k);
    lemma_goes_on_before(round, k, n, answers);
    lemma_goes_on_before(round, k + 1, n, answers);
    lemma_accepted_before(round, k, n, answers);
    if k > 0 {
        lemma_places_are_first(round, k, answers, k - 1);
    }
    let skip = round.stage(k, answers)->Going_0;
    assert(round.asked(k, skip, answers[k], group_validators, consult, check_backing));
    let members = answers[k].group->0@;
    let keys = choose|keys: Vec<Option<ValidatorId>>|
        keys@ == member_keys(members, round.validators) && #[trigger] call_ensures(
            check_backing,
            (&round.candidates[k], &round.signing_context, &keys),
            answers[k].backing,
        );
    assert(keys@.len() == members.len());
}

/// A round that goes on went on before.
proof fn lemma_goes_on_before<E>(round: Round, k: int, n: int, answers: Seq<Answers<E>>)
    requires
        0 <= k <= n,
        round.stage(n, answers) is Going,
    ensures
        round.stage(k, answers) is Going,
    decreases n,
{
    if k < n {
        lemma_goes_on_before(round, k, n - 1, answers);
    }
}

/// The candidates that had passed before are the first of those that have.
proof fn lemma_accepted_before<E>(round: Round, k: int, n: int, answers: Seq<Answers<E>>)
    requires
        0 <= k <= n,
        round.stage(n, answers) is Going,
    ensures
        round.stage(k, answers) is Going,
        round.stage(k, answers)->Going_1.len() == k,
        round.stage(n, answers)->Going_1.len() == n,
        forall|i: int|
            0 <= i < k ==> #[trigger] round.stage(k, answers)->Going_1[i] == round.stage(
                n,
                answers,
            )->Going_1[i],
    decreases n,
{
    lemma_stage_sound(round, n, answers);
    lemma_goes_on_before(round, k, n, answers);
    lemma_stage_sound(round, k, answers);
    if k < n {
        lemma_accepted_before(round, k, n - 1, answers);
        let had = round.stage(n - 1, answers)->Going_1;
        let all = round.stage(n, answers)->Going_1;
        assert forall|i: int| 0 <= i < k implies #[trigger] round.stage(k, answers)->Going_1[i]
            == all[i] by {
            assert(all[i] == had[i]);
        }
    }
}

/// Whatever comes of a candidate that the round comes to, if it is in the context of the parent and
/// signed by its collator, the answers of the sibling pallets about it were given about this very
/// candidate, in the context of the round.
pub proof fn replies_about_candidates_were_given<
    E,
    G: Fn(GroupIndex) -> Option<Vec<ValidatorIndex>>,
    C: Fn(&BackedCandidate<H256>, &CandidateCheckContext, &H256) -> SiblingReplies<E>,
    B: Fn(&BackedCandidate<H256>, &SigningContext, &Vec<Option<ValidatorId>>) -> Result<usize, ()>,
>(
    round: Round,
    answers: Seq<Answers<E>>,
    group_validators: G,
    consult: C,
    check_backing: B,
    k: int,
)
    requires
        heard(round, answers, group_validators, consult, check_backing),
        0 <= k < round.candidates.len() <= round.scheduled.len(),
        round.stage(k, answers) is Going,
        round.candidates[k].candidate.descriptor.relay_parent
            == round.signing_context.parent_hash,
        round.candidates[k].collator_signed,
    ensures
        call_ensures(
            consult,
            (&round.candidates[k], &round.check_cx, &round.parent_storage_root),
            answers[k].replies,
        ),
{
    assert(round.candidates[k]@.descriptor == round.candidates[k].candidate.descriptor);
}

/// Whatever comes of a candidate that the round comes to, if nothing is wrong with it up to its
/// assignment at `stop`, the group is that of this assignment, and what was found of the backing
/// was found of this very candidate, with the keys of the members of the group.
pub proof fn answers_about_groups_were_given<
    E,
    G: Fn(GroupIndex) -> Option<Vec<ValidatorIndex>>,
    C: Fn(&BackedCandidate<H256>, &CandidateCheckContext, &H256) -> SiblingReplies<E>,
    B: Fn(&BackedCandidate<H256>, &SigningContext, &Vec<Option<ValidatorId>>) -> Result<usize, ()>,
>(
    round: Round,
    answers: Seq<Answers<E>>,
    group_validators: G,
    consult: C,
    check_backing: B,
    k: int,
    stop: int,
)
    requires
        heard(round, answers, group_validators, consult, check_backing),
        0 <= k < round.candidates.len() <= round.scheduled.len(),
        round.stage(k, answers) is Going,
        faultless_so_far(
            round.candidates[k],
            round.signing_context.parent_hash,
            round.check_cx,
            answers[k].replies,
        ),
        round.stage(k, answers)->Going_0 <= stop < round.scheduled.len(),
        forall|i: int|
            round.stage(k, answers)->Going_0 <= i < stop ==> (#[trigger] round.scheduled[i]).para_id
                != round.candidates[k].candidate.descriptor.para_id,
        forall|i: int|
            round.stage(k, answers)->Going_0 <= i <= stop && i > 0 ==> round.scheduled[i
                - 1].core.0 < (#[trigger] round.scheduled[i]).core.0,
        ({
            let descriptor = round.candidates[k].candidate.descriptor;
            &&& round.scheduled[stop].para_id == descriptor.para_id
            &&& round.scheduled[stop].kind matches AssignmentKind::Parathread(collator, _)
                ==> collator == descriptor.collator
            &&& answers[k].replies.persisted_validation_data_hash == Some(
                descriptor.persisted_validation_data_hash,
            )
            &&& !round.state.pending_availability.contains_key(descriptor.para_id.0)
            &&& !round.state.pending_availability_commitments.contains_key(descriptor.para_id.0)
        }),
    ensures
        call_ensures(
            group_validators,
            (round.scheduled[stop].group_idx,),
            answers[k].group,
        ),
        answers[k].group is Some ==> exists|keys: Vec<Option<ValidatorId>>|
            {
                &&& #[trigger] call_ensures(
                    check_backing,
                    (&round.candidates[k], &round.signing_context, &keys),
                    answers[k].backing,
                )
                &&& keys@.len() == answers[k].group->0@.len()
                &&& forall|m: int|
                    0 <= m < keys@.len() ==> (#[trigger] keys@[m])
                        == if answers[k].group->0@[m].0 < round.validators.len() {
                        Some(round.validators[answers[k].group->0@[m].0 as int])
                    } else {
                        None
                    }
            },
{
    let skip = round.stage(k, answers)->Going_0;
    let candidate = round.candidates[k];
    assert(candidate@.descriptor == candidate.candidate.descriptor);
    lemma_stage_sound(round, k, answers);
    lemma_find_fails(round.scheduled, skip, candidate.candidate.descriptor.para_id, stop);
    assert(round.asked(k, skip, answers[k], group_validators, consult, check_backing));
    if answers[k].group is Some {
        let members = answers[k].group->0@;
        let keys = choose|keys: Vec<Option<ValidatorId>>|
            keys@ == member_keys(members, round.validators) && #[trigger] call_ensures(
                check_backing,
                (&round.candidates[k], &round.signing_context, &keys),
                answers[k].backing,
            );
        assert(keys@.len() == members.len());
    }
}

/// What a round that passes reports: for each candidate, in order, the core of its assignment, and
/// its receipt with the votes taken down.
pub proof fn a_passed_round_reports_every_candidate<E>(
    round: Round,
    answers: Seq<Answers<E>>,
    accepted: Seq<Acceptance>,
    k: int,
)
    requires
        round.outcome(answers) == Outcome::Passed(accepted),
        0 <= k < round.candidates.len(),
    ensures
        round.result_of(round.outcome(answers)).0 is Ok,
        ({
            let report = round.result_of(round.outcome(answers)).0->Ok_0;
            let candidate = round.candidates[k].candidate;
            &&& report.core_indices.len() == round.candidates.len()
            &&& report.core_indices[k] == round.scheduled[accepted[k].at].core
            &&& report.receipts.len() == round.candidates.len()
            &&& report.receipts[k].0 == (CandidateReceipt {
                descriptor: candidate.descriptor,
                commitments_hash: candidate.commitments.digest,
            })
            &&& report.receipts[k].1 == accepted[k].attestations
        }),
{
    passed_candidates_are_sound(round, answers, accepted);
}

/// A round that is refused answers with its error, and one in which nothing is done with an empty
/// report. Both leave the state as it was.
pub proof fn a_round_that_does_not_pass_reports_nothing<E>(round: Round, answers: Seq<Answers<E>>)
    ensures
        round.outcome(answers) matches Outcome::Refused(error) ==> round.result_of(
            round.outcome(answers),
        ).0 == Err::<ProcessedView<H256>, Error>(error),
        round.outcome(answers) is Ignored ==> round.result_of(round.outcome(answers)).0 is Ok
            && round.result_of(round.outcome(answers)).0->Ok_0.core_indices.len() == 0
            && round.result_of(round.outcome(answers)).0->Ok_0.receipts.len() == 0,
        !(round.outcome(answers) is Passed) ==> round.result_of(round.outcome(answers)).1
            == round.state,
{
}

/// What a round that passes stores of a candidate, if none after it is for the same para: the
/// candidate as it came, on the core and with the group of its assignment, with the backers taken
/// down, with one zero per validator as availability votes, as backed in the current block for the
/// relay-parent of the round; and its commitments. The event tells the same.
pub proof fn a_passed_round_stores_every_candidate<E>(
    round: Round,
    answers: Seq<Answers<E>>,
    accepted: Seq<Acceptance>,
    k: int,
)
    requires
        round.outcome(answers) == Outcome::Passed(accepted),
        0 <= k < round.candidates.len(),
    ensures
        ({
            let after = round.result_of(round.outcome(answers)).1;
            let candidate = round.candidates[k].candidate;
            let para = candidate.descriptor.para_id.0;
            let pending = after.pending_availability[para];
            let assignment = round.scheduled[accepted[k].at];
            let waited = round.state.effects.len() as int;
            &&& after.availability_bitfields == round.state.availability_bitfields
            &&& after.effects.len() == waited + round.candidates.len()
            &&& after.effects.take(waited) == round.state.effects
            &&& after.effects[waited + k] == EffectView::DepositEvent(
                EventView::CandidateBacked(
                    CandidateReceipt {
                        descriptor: candidate.descriptor,
                        commitments_hash: candidate.commitments.digest,
                    },
                    candidate.commitments.head_data@,
                    assignment.core,
                    assignment.group_idx,
                ),
            )
            &&& after.pending_availability.contains_key(para)
            &&& after.pending_availability_commitments.contains_key(para)
            &&& (forall|j: int|
                k < j < round.candidates.len() ==> (
                #[trigger] round.candidates[j]).candidate.descriptor.para_id.0 != para) ==> {
                &&& pending.core == assignment.core
                &&& pending.backing_group == assignment.group_idx
                &&& pending.hash == round.candidates[k].hash
                &&& pending.descriptor == candidate.descriptor
                &&& pending.backers == accepted[k].backers
                &&& pending.backed_in_number == round.check_cx.now
                &&& pending.relay_parent_number == round.check_cx.relay_parent_number
                &&& pending.availability_votes.len() == round.validators.len()
                &&& forall|v: int|
                    0 <= v < round.validators.len() ==> !#[trigger] pending.availability_votes[v]
                &&& after.pending_availability_commitments[para] == candidate.commitments@
            }
        }),
{
    let n = round.candidates.len() as int;
    let para = round.candidates[k].candidate.descriptor.para_id;
    let after = round.stored(n, accepted);
    let waited = round.state.effects.len() as int;
    passed_candidates_are_sound(round, answers, accepted);
    lemma_stored(round, accepted, n);
    assert(round.candidates[k]@.descriptor == round.candidates[k].candidate.descriptor);
    assert(after.effects.take(waited) =~= round.state.effects);
    assert(after.effects[waited + k] == backed_events(round, accepted, n)[k]);
    let last = lemma_some_is_last(round, n, k);
    assert(round.candidates[last]@.descriptor == round.candidates[last].candidate.descriptor);
    assert(last_for_para(round, n, last));
    if forall|j: int|
        k < j < n ==> (#[trigger] round.candidates[j]).candidate.descriptor.para_id.0 != para.0 {
        assert(last_for_para(round, n, k)) by {
            assert forall|j: int| k < j < n implies (
            #[trigger] round.candidates[j])@.descriptor.para_id
                != round.candidates[k]@.descriptor.para_id by {
                assert(round.candidates[j]@.descriptor
                    == round.candidates[j].candidate.descriptor);
            }
        }
    }
}

/// A para without a candidate in a round that passes keeps what is stored of it.
pub proof fn a_passed_round_leaves_other_paras<E>(
    round: Round,
    answers: Seq<Answers<E>>,
    accepted: Seq<Acceptance>,
    para: u32,
)
    requires
        round.outcome(answers) == Outcome::Passed(accepted),
        forall|k: int|
            0 <= k < round.candidates.len() ==> (
            #[trigger] round.candidates[k]).candidate.descriptor.para_id.0 != para,
    ensures
        ({
            let after = round.result_of(round.outcome(answers)).1;
            &&& after.pending_availability.contains_key(para)
                == round.state.pending_availability.contains_key(para)
            &&& round.state.pending_availability.contains_key(para)
                ==> after.pending_availability[para] == round.state.pending_availability[para]
            &&& after.pending_availability_commitments.contains_key(para)
                == round.state.pending_availability_commitments.contains_key(para)
            &&& round.state.pending_availability_commitments.contains_key(para)
                ==> after.pending_availability_commitments[para]
                == round.state.pending_availability_commitments[para]
        }),
{
    assert forall|k: int| 0 <= k < round.candidates.len() implies (
    #[trigger] round.candidates[k])@.descriptor.para_id.0 != para by {
        assert(round.candidates[k]@.descriptor == round.candidates[k].candidate.descriptor);
    }
    backing_leaves_other_paras(round, answers, accepted, para);
}

} // verus!
