//! Backing: candidates are held against the schedule, the votes that back them are tallied, and
//! those that pass are stored as pending availability.
use crate::bits::max_bits;
use crate::bits::ones;
use crate::bits::ones_are_the_one_positions;
use crate::bits::zeros;
use crate::bits::Bitfield;
use crate::checks::CandidateCheckContext;
use crate::pallet::receipts_view;
use crate::pallet::CandidatePendingAvailability;
use crate::pallet::Error;
use crate::pallet::Event;
use crate::pallet::Pallet;
use crate::pallet::ProcessedCandidates;
use crate::primitives::AssignmentKind;
use crate::primitives::BackedCandidate;
use crate::primitives::BackedCandidateView;
use crate::primitives::CandidateReceipt;
use crate::primitives::ChainContext;
use crate::primitives::CoreAssignment;
use crate::primitives::CoreIndex;
use crate::primitives::GroupIndex;
use crate::primitives::H256;
use crate::primitives::HostConfiguration;
use crate::primitives::ParaId;
use crate::primitives::SigningContext;
use crate::primitives::ValidatorId;
use crate::primitives::ValidatorIndex;
use crate::primitives::ValidityAttestation;
use crate::round::attestations_of;
use crate::round::backers_of;
use crate::round::backing_fault;
use crate::round::find;
use crate::round::find_is_first;
use crate::round::heard;
use crate::round::in_order;
use crate::round::member_keys;
use crate::round::origin_fault;
use crate::round::processed_view;
use crate::round::reply_fault;
use crate::round::vote_count;
use crate::round::voter;
use crate::round::votes_known;
use crate::round::Acceptance;
use crate::round::Answers;
use crate::round::Found;
use crate::round::Outcome;
use crate::round::Round;
use crate::round::SiblingReplies;
use crate::round::Stage;
use crate::round::Verdict;
use vstd::prelude::*;

verus! {

/// A verdict as a result: nothing wrong is a success.
pub open spec fn faultless(fault: Option<Error>) -> Result<(), Error> {
    match fault {
        Some(error) => Err(error),
        None => Ok(()),
    }
}

/// Checks that a candidate is in the context of the parent block, and signed by its collator.
pub fn check_origin(candidate: &BackedCandidate<H256>, parent_hash: &H256) -> (verdict: Result<
    (),
    Error,
>)
    ensures
        verdict == faultless(origin_fault(candidate@, *parent_hash)),
        verdict is Ok <==> candidate.candidate.descriptor.relay_parent == *parent_hash
            && candidate.collator_signed,
        verdict == Err::<(), Error>(Error::CandidateNotInParentContext)
            <==> candidate.candidate.descriptor.relay_parent != *parent_hash,
{
    if !candidate.descriptor().relay_parent.same(parent_hash) {
        return Err(Error::CandidateNotInParentContext);
    }
    if !candidate.collator_signed {
        return Err(Error::NotCollatorSigned);
    }
    Ok(())
}

/// Checks a candidate against what the sibling pallets say about it.
pub fn check_replies<E>(
    candidate: &BackedCandidate<H256>,
    check_cx: &CandidateCheckContext,
    replies: SiblingReplies<E>,
) -> (verdict: Result<(), Error>)
    ensures
        verdict == faultless(reply_fault(candidate@, *check_cx, replies)),
        verdict is Ok <==> {
            &&& replies.validation_code_hash == Some(
                candidate.candidate.descriptor.validation_code_hash,
            )
            &&& candidate.candidate.descriptor.para_head
                == candidate.candidate.commitments.head_data.digest
            &&& check_cx.outputs_verdict(
                candidate.candidate.commitments.head_data.bytes@,
                candidate.candidate.commitments@.new_validation_code,
                replies.outputs,
            ) is Ok
        },
{
    let commitments = &candidate.candidate.commitments;
    let validation_code_hash = match replies.validation_code_hash {
        Some(hash) => hash,
        // A candidate for a parachain without current validation code is not scheduled.
        None => {
            return Err(Error::UnscheduledCandidate);
        },
    };
    if !candidate.descriptor().validation_code_hash.same(&validation_code_hash) {
        return Err(Error::InvalidValidationCodeHash);
    }
    if !candidate.descriptor().para_head.same(&commitments.head_data.hash()) {
        return Err(Error::ParaHeadMismatch);
    }
    match check_cx.check_validation_outputs(
        &commitments.head_data,
        &commitments.new_validation_code,
        replies.outputs,
    ) {
        Err(error) => Err(error.strip_into_dispatch_err()),
        Ok(()) => Ok(()),
    }
}

/// Checks that the core at `i` comes after the core before it.
fn check_assignment_in_order(scheduled: &Vec<CoreAssignment>, i: usize) -> (verdict: Result<
    (),
    Error,
>)
    requires
        i < scheduled@.len(),
    ensures
        verdict == if in_order(scheduled@, i as int) {
            Ok::<(), Error>(())
        } else {
            Err(Error::ScheduledOutOfOrder)
        },
{
    if i == 0 || scheduled[i - 1].core.0 < scheduled[i].core.0 {
        Ok(())
    } else {
        Err(Error::ScheduledOutOfOrder)
    }
}

/// The place of the first assignment for a para, from a place on. The cores must ascend up to
/// there.
pub fn find_assignment(scheduled: &Vec<CoreAssignment>, from: usize, para: ParaId) -> (place:
    Result<usize, Error>)
    ensures
        match find(scheduled@, from as int, para) {
            Found::At(at) => place matches Ok(p) && p == at,
            Found::OutOfOrder => place == Err::<usize, Error>(Error::ScheduledOutOfOrder),
            Found::Nowhere => place == Err::<usize, Error>(Error::UnscheduledCandidate),
        },
        place matches Ok(p) ==> {
            &&& from <= p < scheduled@.len()
            &&& scheduled@[p as int].para_id == para
            &&& forall|i: int| from <= i < p ==> (#[trigger] scheduled@[i]).para_id != para
        },
{
    let mut i: usize = from;
    while i < scheduled.len()
        invariant
            find(scheduled@, from as int, para) == find(scheduled@, i as int, para),
        decreases scheduled.len() - i,
    {
        if let Err(error) = check_assignment_in_order(scheduled, i) {
            return Err(error);
        }
        if scheduled[i].para_id == para {
            proof {
                find_is_first(scheduled@, from as int, para);
            }
            return Ok(i);
        }
        i = i + 1;
    }
    // The end means that the candidate was not scheduled, or does not appear in the right order.
    Err(Error::UnscheduledCandidate)
}

/// The keys of the members of a group, where the members are known.
pub fn list_member_keys(group: &Vec<ValidatorIndex>, validators: &Vec<ValidatorId>) -> (keys: Vec<
    Option<ValidatorId>,
>)
    ensures
        keys@ == member_keys(group@, validators@),
        keys@.len() == group@.len(),
        forall|i: int|
            0 <= i < group@.len() ==> (#[trigger] keys@[i]) == if group@[i].0 < validators@.len() {
                Some(validators@[group@[i].0 as int])
            } else {
                None
            },
{
    let mut keys: Vec<Option<ValidatorId>> = Vec::new();
    for i in 0..group.len()
        invariant
            keys@ == member_keys(group@, validators@).take(i as int),
    {
        let ghost all = member_keys(group@, validators@);
        let member = group[i].0 as usize;
        if member < validators.len() {
            keys.push(Some(validators[member]));
        } else {
            keys.push(None);
        }
        assert(all.take(i + 1) =~= all.take(i as int).push(all[i as int]));
    }
    assert(keys@ =~= member_keys(group@, validators@));
    keys
}

/// The backers are the members that the votes are put together with.
proof fn lemma_backers_attested(
    candidate: BackedCandidateView<H256>,
    group: Seq<ValidatorIndex>,
    n_validators: nat,
    backers: Seq<bool>,
    attestations: Seq<(ValidatorIndex, ValidityAttestation)>,
)
    requires
        backers == backers_of(candidate, group, n_validators, vote_count(candidate)),
        attestations == attestations_of(candidate, group),
    ensures
        forall|v: int|
            0 <= v < n_validators ==> ((#[trigger] backers[v]) <==> exists|j: int|
                0 <= j < attestations.len() && (#[trigger] attestations[j]).0.0 == v),
{
    assert forall|v: int| 0 <= v < n_validators implies ((#[trigger] backers[v]) <==> exists|
        j: int,
    |
        0 <= j < attestations.len() && (#[trigger] attestations[j]).0.0 == v) by {
        if backers[v] {
            let j = choose|j: int|
                0 <= j < vote_count(candidate) && (#[trigger] voter(candidate, group, j)).0 == v;
            assert(attestations[j].0.0 == v);
        }
        if exists|j: int| 0 <= j < attestations.len() && (#[trigger] attestations[j]).0.0 == v {
            let j = choose|j: int|
                0 <= j < attestations.len() && (#[trigger] attestations[j]).0.0 == v;
            assert(voter(candidate, group, j).0 == v);
        }
    }
}

/// Puts the votes together with the members that cast them: the backers as one bit per validator,
/// and the votes in order.
pub fn tally(
    candidate: &BackedCandidate<H256>,
    group: &Vec<ValidatorIndex>,
    n_validators: usize,
) -> (tallied: (Bitfield, Vec<(ValidatorIndex, ValidityAttestation)>))
    requires
        n_validators <= max_bits(),
        forall|j: int|
            0 <= j < vote_count(candidate@) ==> (#[trigger] ones(
                candidate@.validator_indices,
            )[j]) < group@.len() && group@[ones(candidate@.validator_indices)[j]].0 < n_validators,
    ensures
        tallied.0@ == backers_of(
            candidate@,
            group@,
            n_validators as nat,
            vote_count(candidate@),
        ),
        tallied.1@ == attestations_of(candidate@, group@),
        tallied.0@.len() == n_validators,
        tallied.1@.len() <= candidate.validity_votes@.len(),
        tallied.1@.len() <= ones(candidate.validator_indices@).len(),
        tallied.1@.len() == candidate.validity_votes@.len() || tallied.1@.len() == ones(
            candidate.validator_indices@,
        ).len(),
        forall|j: int|
            0 <= j < tallied.1@.len() ==> (#[trigger] tallied.1@[j]) == (
                group@[ones(candidate.validator_indices@)[j]],
                candidate.validity_votes@[j],
            ),
        forall|v: int|
            0 <= v < n_validators ==> ((#[trigger] tallied.0@[v]) <==> exists|j: int|
                0 <= j < tallied.1@.len() && (#[trigger] tallied.1@[j]).0.0 == v),
{
    let positions = candidate.validator_indices.one_positions();
    let ghost places = ones(candidate@.validator_indices);
    let mut backers = Bitfield::zeros(n_validators);
    let mut attestations: Vec<(ValidatorIndex, ValidityAttestation)> = Vec::new();
    let count = if positions.len() <= candidate.validity_votes.len() {
        positions.len()
    } else {
        candidate.validity_votes.len()
    };
    proof {
        ones_are_the_one_positions(candidate@.validator_indices);
        assert(positions@.len() == places.len());
        assert(count == vote_count(candidate@));
        assert(backers@ =~= backers_of(candidate@, group@, n_validators as nat, 0));
    }
    for j in 0..count
        invariant
            places == ones(candidate@.validator_indices),
            positions@.map_values(|p: usize| p as int) == places,
            count == vote_count(candidate@),
            forall|j: int|
                0 <= j < count ==> 0 <= (#[trigger] places[j]) < group@.len()
                    && group@[places[j]].0 < n_validators,
            backers@ == backers_of(candidate@, group@, n_validators as nat, j as int),
            attestations@ == attestations_of(candidate@, group@).take(j as int),
    {
        let ghost all = attestations_of(candidate@, group@);
        assert(positions@.map_values(|p: usize| p as int)[j as int] == positions@[j as int]);
        assert(places[j as int] == positions@[j as int]);
        let val_idx = group[positions[j]];
        attestations.push((val_idx, candidate.validity_votes[j]));
        let ghost before = backers@;
        let _ = backers.put(val_idx.0 as usize, true);
        assert(val_idx == voter(candidate@, group@, j as int));
        assert(all.take(j + 1) =~= all.take(j as int).push(all[j as int]));
        assert forall|v: int| 0 <= v < n_validators implies (#[trigger] backers@[v]) == backers_of(
            candidate@,
            group@,
            n_validators as nat,
            j + 1,
        )[v] by {
            let earlier = exists|i: int|
                0 <= i < j && (#[trigger] voter(candidate@, group@, i)).0 == v;
            assert(before[v] == earlier);
        }
        assert(backers@ =~= backers_of(candidate@, group@, n_validators as nat, j + 1));
    }
    assert(attestations@ =~= attestations_of(candidate@, group@));
    proof {
        lemma_backers_attested(candidate@, group@, n_validators as nat, backers@, attestations@);
    }
    (backers, attestations)
}

/// Checks that the votes for a candidate are valid, and that more than half of its group cast one.
pub fn weigh_backing(backing: Result<usize, ()>, group_len: usize) -> (verdict: Result<(), Error>)
    ensures
        verdict == faultless(backing_fault(backing, group_len as nat)),
        verdict is Ok <==> backing is Ok && 2 * backing->Ok_0 > group_len,
        verdict == Err::<(), Error>(Error::InvalidBacking) <==> backing is Err,
{
    match backing {
        Ok(amount_validated) => if amount_validated > group_len / 2 {
            Ok(())
        } else {
            Err(Error::InsufficientBacking)
        },
        Err(()) => Err(Error::InvalidBacking),
    }
}

/// A candidate that passed.
pub struct AcceptedCandidate {
    /// The place of its assignment in the schedule.
    pub at: usize,
    /// The validators that back it: one bit per validator.
    pub backers: Bitfield,
    /// The validators that back it, each with its vote.
    pub attestations: Vec<(ValidatorIndex, ValidityAttestation)>,
}

impl View for AcceptedCandidate {
    type V = Acceptance;

    open spec fn view(&self) -> Acceptance {
        Acceptance {
            at: self.at as int,
            backers: self.backers@,
            attestations: self.attestations@,
        }
    }
}

/// What becomes of a candidate.
pub enum Judgement {
    /// The whole round is refused.
    Reject(Error),
    /// Nothing is done in this round.
    Abstain,
    /// The candidate passes.
    Accept(AcceptedCandidate),
}

impl View for Judgement {
    type V = Verdict;

    open spec fn view(&self) -> Verdict {
        match *self {
            Judgement::Reject(error) => Verdict::Reject(error),
            Judgement::Abstain => Verdict::Abstain,
            Judgement::Accept(accepted) => Verdict::Accept(accepted@),
        }
    }
}

impl Pallet {
    /// Whether the para has no candidate pending availability.
    pub fn is_free(&self, para: ParaId) -> (free: bool)
        requires
            self.wf(),
        ensures
            free == self@.is_free(para),
            free <==> !self@.pending_availability.contains_key(para.0)
                && !self@.pending_availability_commitments.contains_key(para.0),
    {
        !self.has_pending(para) && !self.has_commitments(para)
    }

    /// Checks a candidate against its assignment. Says whether the round goes on.
    pub fn check_assignment(
        &self,
        candidate: &BackedCandidate<H256>,
        assignment: &CoreAssignment,
        persisted_validation_data_hash: Option<H256>,
    ) -> (verdict: Result<bool, Error>)
        requires
            self.wf(),
        ensures
            verdict == self@.assignment_check(
                candidate@,
                *assignment,
                persisted_validation_data_hash,
            ),
            verdict == Ok::<bool, Error>(true) <==> {
                let descriptor = candidate.candidate.descriptor;
                &&& assignment.kind matches AssignmentKind::Parathread(collator, _) ==> collator
                    == descriptor.collator
                &&& persisted_validation_data_hash == Some(
                    descriptor.persisted_validation_data_hash,
                )
                &&& !self@.pending_availability.contains_key(descriptor.para_id.0)
                &&& !self@.pending_availability_commitments.contains_key(descriptor.para_id.0)
            },
    {
        if let Some(required_collator) = assignment.required_collator() {
            if !required_collator.same(&candidate.descriptor().collator) {
                return Err(Error::WrongCollator);
            }
        }
        // This should never be missing because the para is registered. It is no error, because
        // that would brick the relay-chain.
        let expected = match persisted_validation_data_hash {
            Some(hash) => hash,
            None => {
                return Ok(false);
            },
        };
        if !expected.same(&candidate.descriptor().persisted_validation_data_hash) {
            return Err(Error::ValidationDataHashMismatch);
        }
        if !self.is_free(candidate.descriptor().para_id) {
            return Err(Error::CandidateScheduledBeforeParaFree);
        }
        Ok(true)
    }

    /// Judges the `k`th candidate, with assignments looked at from `skip` on.
    fn judge<
        E,
        G: Fn(GroupIndex) -> Option<Vec<ValidatorIndex>>,
        C: Fn(&BackedCandidate<H256>, &CandidateCheckContext, &H256) -> SiblingReplies<E>,
        B: Fn(&BackedCandidate<H256>, &SigningContext, &Vec<Option<ValidatorId>>) -> Result<
            usize,
            (),
        >,
    >(
        &self,
        Ghost(round): Ghost<Round>,
        Ghost(k): Ghost<int>,
        candidate: &BackedCandidate<H256>,
        scheduled: &Vec<CoreAssignment>,
        skip: usize,
        validators: &Vec<ValidatorId>,
        signing_context: &SigningContext,
        parent_storage_root: &H256,
        check_cx: &CandidateCheckContext,
        group_validators: &G,
        consult: &C,
        check_backing: &B,
    ) -> (judged: (Judgement, Ghost<Answers<E>>))
        requires
            self.wf(),
            self@ == round.state,
            0 <= k < round.candidates.len(),
            round.candidates[k] == *candidate,
            round.scheduled == scheduled@,
            round.validators == validators@,
            round.signing_context == *signing_context,
            round.parent_storage_root == *parent_storage_root,
            round.check_cx == *check_cx,
            validators@.len() <= max_bits(),
            round.may_ask_about(k, skip as int, *group_validators, *consult, *check_backing),
        ensures
            judged.0@ == round.judge(k, skip as int, judged.1@),
            round.asked(
                k,
                skip as int,
                judged.1@,
                *group_validators,
                *consult,
                *check_backing,
            ),
            judged.0 matches Judgement::Accept(accepted) ==> skip <= accepted.at
                < scheduled@.len(),
    {
        let ghost mut answers: Answers<E> = arbitrary();
        if let Err(error) = check_origin(candidate, &signing_context.parent_hash) {
            return (Judgement::Reject(error), Ghost(answers));
        }
        let replies = consult(candidate, check_cx, parent_storage_root);
        proof {
            answers.replies = replies;
        }
        let persisted_validation_data_hash = replies.persisted_validation_data_hash;
        if let Err(error) = check_replies(candidate, check_cx, replies) {
            return (Judgement::Reject(error), Ghost(answers));
        }
        let at = match find_assignment(scheduled, skip, candidate.descriptor().para_id) {
            Ok(at) => at,
            Err(error) => {
                return (Judgement::Reject(error), Ghost(answers));
            },
        };
        proof {
            find_is_first(scheduled@, skip as int, candidate@.descriptor.para_id);
        }
        match self.check_assignment(candidate, &scheduled[at], persisted_validation_data_hash) {
            Ok(true) => {},
            Ok(false) => {
                return (Judgement::Abstain, Ghost(answers));
            },
            Err(error) => {
                return (Judgement::Reject(error), Ghost(answers));
            },
        }
        let group = group_validators(scheduled[at].group_idx);
        proof {
            answers.group = group;
        }
        let members = match group {
            Some(members) => members,
            None => {
                return (Judgement::Reject(Error::InvalidGroupIndex), Ghost(answers));
            },
        };
        let keys = list_member_keys(&members, validators);
        let backing = check_backing(candidate, signing_context, &keys);
        proof {
            answers.backing = backing;
            assert(round.backing_checked(k, members@, backing, *check_backing));
        }
        if let Err(error) = weigh_backing(backing, members.len()) {
            return (Judgement::Reject(error), Ghost(answers));
        }
        proof {
            let places = ones(candidate@.validator_indices);
            ones_are_the_one_positions(candidate@.validator_indices);
            assert(votes_known(candidate@, keys@));
            assert forall|j: int| 0 <= j < vote_count(candidate@) implies (#[trigger] places[j])
                < members@.len() && members@[places[j]].0 < validators@.len() by {
                assert(keys@[places[j]] is Some);
            }
        }
        let (backers, attestations) = tally(candidate, &members, validators.len());
        (Judgement::Accept(AcceptedCandidate { at, backers, attestations }), Ghost(answers))
    }
}

/// A stage depends only on the answers about the candidates judged so far.
proof fn lemma_stage_prefix<E>(round: Round, n: int, a: Seq<Answers<E>>, b: Seq<Answers<E>>)
    requires
        forall|i: int| 0 <= i < n ==> a[i] == b[i],
    ensures
        round.stage(n, a) == round.stage(n, b),
    decreases n,
{
    if n > 0 {
        lemma_stage_prefix(round, n - 1, a, b);
    }
}

/// Once a round has stopped, it stays as it is.
proof fn lemma_stopped_stays<E>(round: Round, n: int, m: int, answers: Seq<Answers<E>>)
    requires
        0 <= n <= m,
        !(round.stage(n, answers) is Going),
    ensures
        round.stage(m, answers) == round.stage(n, answers),
    decreases m,
{
    if n < m {
        lemma_stopped_stays(round, n, m - 1, answers);
    }
}

/// The answers about one more candidate go with those about the candidates before it.
proof fn lemma_answered_extends<
    E,
    G: Fn(GroupIndex) -> Option<Vec<ValidatorIndex>>,
    C: Fn(&BackedCandidate<H256>, &CandidateCheckContext, &H256) -> SiblingReplies<E>,
    B: Fn(&BackedCandidate<H256>, &SigningContext, &Vec<Option<ValidatorId>>) -> Result<usize, ()>,
>(
    round: Round,
    answers: Seq<Answers<E>>,
    answer: Answers<E>,
    group_validators: G,
    consult: C,
    check_backing: B,
)
    requires
        round.answered(answers.len() as int, answers, group_validators, consult, check_backing),
        round.stage(answers.len() as int, answers) matches Stage::Going(skip, _) ==> round.asked(
            answers.len() as int,
            skip,
            answer,
            group_validators,
            consult,
            check_backing,
        ),
    ensures
        round.stage(answers.len() as int, answers.push(answer)) == round.stage(
            answers.len() as int,
            answers,
        ),
        round.answered(
            answers.len() as int + 1,
            answers.push(answer),
            group_validators,
            consult,
            check_backing,
        ),
{
    let more = answers.push(answer);
    assert forall|k: int| 0 <= k <= answers.len() implies (#[trigger] round.stage(k, more))
        == round.stage(k, answers) by {
        lemma_stage_prefix(round, k, more, answers);
    }
}

/// Nothing is asked after a round has stopped.
proof fn lemma_answered_when_stopped<
    E,
    G: Fn(GroupIndex) -> Option<Vec<ValidatorIndex>>,
    C: Fn(&BackedCandidate<H256>, &CandidateCheckContext, &H256) -> SiblingReplies<E>,
    B: Fn(&BackedCandidate<H256>, &SigningContext, &Vec<Option<ValidatorId>>) -> Result<usize, ()>,
>(
    round: Round,
    n: int,
    m: int,
    answers: Seq<Answers<E>>,
    group_validators: G,
    consult: C,
    check_backing: B,
)
    requires
        0 <= n <= m,
        round.answered(n, answers, group_validators, consult, check_backing),
        !(round.stage(n, answers) is Going),
    ensures
        round.answered(m, answers, group_validators, consult, check_backing),
        round.stage(m, answers) == round.stage(n, answers),
{
    lemma_stopped_stays(round, n, m, answers);
    assert forall|k: int| n <= k < m implies !(#[trigger] round.stage(k, answers) is Going) by {
        lemma_stopped_stays(round, n, k, answers);
    }
}

/// What the accepted candidates hold.
pub open spec fn accepted_view(accepted: Seq<AcceptedCandidate>) -> Seq<Acceptance> {
    accepted.map_values(|a: AcceptedCandidate| a@)
}

/// How a round ends.
pub enum RoundEnd {
    /// It is refused.
    Refused(Error),
    /// Nothing is done.
    Ignored,
    /// The candidates passed.
    Passed(Vec<AcceptedCandidate>),
}

impl View for RoundEnd {
    type V = Outcome;

    open spec fn view(&self) -> Outcome {
        match *self {
            RoundEnd::Refused(error) => Outcome::Refused(error),
            RoundEnd::Ignored => Outcome::Ignored,
            RoundEnd::Passed(accepted) => Outcome::Passed(accepted_view(accepted@)),
        }
    }
}

impl Pallet {
    /// Does all checks on the candidates, without writing storage.
    ///
    /// The loop over the candidates picks up the schedule just after the place where the candidate
    /// before it was found. If the candidates appear in the order in which they appear in the
    /// schedule, then they are always found.
    fn judge_all<
        E,
        G: Fn(GroupIndex) -> Option<Vec<ValidatorIndex>>,
        C: Fn(&BackedCandidate<H256>, &CandidateCheckContext, &H256) -> SiblingReplies<E>,
        B: Fn(&BackedCandidate<H256>, &SigningContext, &Vec<Option<ValidatorId>>) -> Result<
            usize,
            (),
        >,
    >(
        &self,
        Ghost(round): Ghost<Round>,
        candidates: &Vec<BackedCandidate<H256>>,
        scheduled: &Vec<CoreAssignment>,
        validators: &Vec<ValidatorId>,
        signing_context: &SigningContext,
        parent_storage_root: &H256,
        check_cx: &CandidateCheckContext,
        group_validators: &G,
        consult: &C,
        check_backing: &B,
    ) -> (end: (RoundEnd, Ghost<Seq<Answers<E>>>))
        requires
            self.wf(),
            0 < scheduled@.len(),
            candidates@.len() <= scheduled@.len(),
            0 < candidates@.len() ==> validators@.len() <= max_bits(),
            round == (Round {
                state: self@,
                validators: validators@,
                signing_context: *signing_context,
                parent_storage_root: *parent_storage_root,
                check_cx: *check_cx,
                scheduled: scheduled@,
                candidates: candidates@,
            }),
            round.may_ask(*group_validators, *consult, *check_backing),
        ensures
            end.0@ == round.outcome(end.1@),
            round.answered(
                candidates@.len() as int,
                end.1@,
                *group_validators,
                *consult,
                *check_backing,
            ),
            end.0 matches RoundEnd::Passed(accepted) ==> accepted@.len() == candidates@.len() && (
            forall|k: int|
                0 <= k < accepted@.len() ==> (#[trigger] accepted@[k]).at < scheduled@.len()),
    {
        let mut accepted: Vec<AcceptedCandidate> = Vec::new();
        let mut skip: usize = 0;
        let ghost mut answers: Seq<Answers<E>> = Seq::empty();
        let ghost n = candidates@.len() as int;
        assert(accepted_view(accepted@) =~= Seq::<Acceptance>::empty());
        for k in 0..candidates.len()
            invariant
                self.wf(),
                n == candidates@.len(),
                0 < candidates@.len() ==> validators@.len() <= max_bits(),
                round == (Round {
                    state: self@,
                    validators: validators@,
                    signing_context: *signing_context,
                    parent_storage_root: *parent_storage_root,
                    check_cx: *check_cx,
                    scheduled: scheduled@,
                    candidates: candidates@,
                }),
                0 < scheduled@.len(),
                candidates@.len() <= scheduled@.len(),
                round.may_ask(*group_validators, *consult, *check_backing),
                answers.len() == k,
                accepted@.len() == k,
                skip <= scheduled@.len(),
                round.answered(k as int, answers, *group_validators, *consult, *check_backing),
                round.stage(k as int, answers) == Stage::Going(
                    skip as int,
                    accepted_view(accepted@),
                ),
                forall|i: int|
                    0 <= i < accepted@.len() ==> (#[trigger] accepted@[i]).at < scheduled@.len(),
        {
            let (judgement, Ghost(answer)) = self.judge(
                Ghost(round),
                Ghost(k as int),
                &candidates[k],
                scheduled,
                skip,
                validators,
                signing_context,
                parent_storage_root,
                check_cx,
                group_validators,
                consult,
                check_backing,
            );
            proof {
                lemma_answered_extends(
                    round,
                    answers,
                    answer,
                    *group_validators,
                    *consult,
                    *check_backing,
                );
                answers = answers.push(answer);
                assert(answers[k as int] == answer);
                if !(judgement is Accept) {
                    lemma_answered_when_stopped(
                        round,
                        k + 1,
                        n,
                        answers,
                        *group_validators,
                        *consult,
                        *check_backing,
                    );
                }
            }
            match judgement {
                Judgement::Reject(error) => {
                    return (RoundEnd::Refused(error), Ghost(answers));
                },
                Judgement::Abstain => {
                    return (RoundEnd::Ignored, Ghost(answers));
                },
                Judgement::Accept(one) => {
                    let ghost before = accepted@;
                    assert(one.at < scheduled.len());
                    skip = one.at + 1;
                    accepted.push(one);
                    assert(accepted_view(accepted@) =~= accepted_view(before).push(one@));
                },
            }
        }
        // Check the remainder of the scheduled cores, if any.
        for i in skip..scheduled.len()
            invariant
                skip <= scheduled@.len(),
                round.scheduled == scheduled@,
                round.candidates == candidates@,
                0 < scheduled@.len(),
                candidates@.len() <= scheduled@.len(),
                round.answered(
                    candidates@.len() as int,
                    answers,
                    *group_validators,
                    *consult,
                    *check_backing,
                ),
                round.stage(candidates@.len() as int, answers) == Stage::Going(
                    skip as int,
                    accepted_view(accepted@),
                ),
                forall|j: int| skip <= j < i ==> #[trigger] in_order(scheduled@, j),
        {
            if let Err(error) = check_assignment_in_order(scheduled, i) {
                return (RoundEnd::Refused(error), Ghost(answers));
            }
        }
        (RoundEnd::Passed(accepted), Ghost(answers))
    }
}

impl Pallet {
    /// Process candidates that have been backed. Provide the relay storage root, a set of
    /// candidates and scheduled cores.
    ///
    /// Both should be sorted ascending by core index, and the candidates should be a subset of
    /// scheduled cores. If these conditions are not met, the execution of the function fails.
    ///
    /// `consult` is asked what the sibling pallets say about a candidate, `group_validators` who
    /// is in a group, and `check_backing` how many votes for a candidate are valid, given the keys
    /// of the members of its group.
    pub fn process_candidates<
        E,
        G: Fn(GroupIndex) -> Option<Vec<ValidatorIndex>>,
        C: Fn(&BackedCandidate<H256>, &CandidateCheckContext, &H256) -> SiblingReplies<E>,
        B: Fn(&BackedCandidate<H256>, &SigningContext, &Vec<Option<ValidatorId>>) -> Result<
            usize,
            (),
        >,
    >(
        &mut self,
        chain: &ChainContext,
        config: HostConfiguration,
        parent_storage_root: H256,
        candidates: Vec<BackedCandidate<H256>>,
        scheduled: Vec<CoreAssignment>,
        group_validators: G,
        consult: C,
        check_backing: B,
    ) -> (processed: Result<ProcessedCandidates<H256>, Error>)
        requires
            old(self).wf(),
            0 < candidates@.len() <= scheduled@.len() ==> chain.validators@.len() <= max_bits(),
            candidates@.len() <= scheduled@.len() && 0 < scheduled@.len() ==> chain.now >= 1,
            Round::of(
                old(self)@,
                *chain,
                config,
                parent_storage_root,
                scheduled@,
                candidates@,
            ).may_ask(group_validators, consult, check_backing),
        ensures
            final(self).wf(),
            processed is Err ==> final(self)@ == old(self)@,
            ({
                let round = Round::of(
                    old(self)@,
                    *chain,
                    config,
                    parent_storage_root,
                    scheduled@,
                    candidates@,
                );
                exists|answers: Seq<Answers<E>>| #[trigger]
                    heard(round, answers, group_validators, consult, check_backing) && (
                    processed_view(processed),
                    final(self)@,
                ) == round.result_of(round.outcome(answers))
            }),
    {
        let ghost round = Round::of(
            self@,
            *chain,
            config,
            parent_storage_root,
            scheduled@,
            candidates@,
        );
        let ghost none = Seq::<Answers<E>>::empty();
        if candidates.len() > scheduled.len() {
            assert(heard(round, none, group_validators, consult, check_backing));
            return Err(Error::UnscheduledCandidate);
        }
        if scheduled.len() == 0 {
            assert(heard(round, none, group_validators, consult, check_backing));
            return Ok(ProcessedCandidates::default());
        }
        let signing_context = chain.signing_context();
        // The relay-parent is always one before of the block where a candidate is included.
        let relay_parent_number = chain.now - 1;
        let check_cx = CandidateCheckContext::new(config, chain.now, relay_parent_number);
        // Do all checks before writing storage.
        let (end, Ghost(answers)) = self.judge_all(
            Ghost(round),
            &candidates,
            &scheduled,
            &chain.validators,
            &signing_context,
            &parent_storage_root,
            &check_cx,
            &group_validators,
            &consult,
            &check_backing,
        );
        assert(heard(round, answers, group_validators, consult, check_backing));
        match end {
            RoundEnd::Refused(error) => Err(error),
            RoundEnd::Ignored => Ok(ProcessedCandidates::default()),
            RoundEnd::Passed(accepted) => Ok(
                self.store_accepted(
                    Ghost(round),
                    candidates,
                    accepted,
                    &scheduled,
                    chain.validators.len(),
                    &check_cx,
                ),
            ),
        }
    }

    /// One more sweep for actually writing to storage.
    fn store_accepted(
        &mut self,
        Ghost(round): Ghost<Round>,
        candidates: Vec<BackedCandidate<H256>>,
        accepted: Vec<AcceptedCandidate>,
        scheduled: &Vec<CoreAssignment>,
        n_validators: usize,
        check_cx: &CandidateCheckContext,
    ) -> (processed: ProcessedCandidates<H256>)
        requires
            old(self).wf(),
            round.state == old(self)@,
            round.candidates == candidates@,
            round.scheduled == scheduled@,
            round.validators.len() == n_validators,
            0 < candidates@.len() ==> n_validators <= max_bits(),
            round.check_cx == *check_cx,
            accepted@.len() == candidates@.len(),
            forall|k: int|
                0 <= k < accepted@.len() ==> (#[trigger] accepted@[k]).at < scheduled@.len(),
        ensures
            final(self).wf(),
            final(self)@ == round.stored(candidates@.len() as int, accepted_view(accepted@)),
            processed@ == round.report(accepted_view(accepted@)),
    {
        let mut core_indices: Vec<CoreIndex> = Vec::new();
        let mut receipts: Vec<(CandidateReceipt<H256>, Vec<(ValidatorIndex, ValidityAttestation)>)> =
            Vec::new();
        let mut accepted = accepted;
        let ghost all = accepted@;
        let ghost view = accepted_view(all);
        let ghost report = round.report(view);
        for candidate in it: candidates
            invariant
                self.wf(),
                it.seq() == round.candidates,
                round.scheduled == scheduled@,
                round.validators.len() == n_validators,
                0 < round.candidates.len() ==> n_validators <= max_bits(),
                round.check_cx == *check_cx,
                view == accepted_view(all),
                report == round.report(view),
                all.len() == round.candidates.len(),
                accepted@ == all.skip(it.index() as int),
                forall|k: int| 0 <= k < all.len() ==> (#[trigger] all[k]).at < scheduled@.len(),
                self@ == round.stored(it.index() as int, view),
                core_indices@ == report.core_indices.take(it.index() as int),
                receipts_view(receipts@) == report.receipts.take(it.index() as int),
        {
            let ghost k = it.index() as int;
            let ghost before = receipts@;
            assert(accepted@[0] == all[k]);
            assert(view[k] == all[k]@);
            let one = accepted.remove(0);
            assert(accepted@ =~= all.skip(k + 1));
            let assignment = &scheduled[one.at];
            let para_id = candidate.descriptor().para_id;
            let plain = candidate.candidate.to_plain();
            core_indices.push(assignment.core);
            receipts.push((plain, one.attestations));
            self.deposit_event(
                Event::CandidateBacked(
                    plain,
                    candidate.candidate.commitments.head_data.clone(),
                    assignment.core,
                    assignment.group_idx,
                ),
            );
            // Initialize all availability votes to 0.
            let pending = CandidatePendingAvailability::new(
                assignment.core,
                candidate.hash,
                candidate.candidate.descriptor,
                Bitfield::zeros(n_validators),
                one.backers,
                check_cx.relay_parent_number,
                check_cx.now,
                assignment.group_idx,
            );
            self.insert_pending(para_id, pending);
            self.insert_commitments(para_id, candidate.candidate.commitments);
            proof {
                assert(self@ == round.stored(k + 1, view));
                assert(report.core_indices.take(k + 1) =~= report.core_indices.take(k).push(
                    report.core_indices[k],
                ));
                assert(report.receipts.take(k + 1) =~= report.receipts.take(k).push(
                    report.receipts[k],
                ));
                assert(receipts_view(receipts@) =~= receipts_view(before).push(
                    report.receipts[k],
                ));
            }
        }
        let processed = ProcessedCandidates {
            core_indices,
            candidate_receipt_with_backing_validator_indices: receipts,
        };
        assert(processed@ =~= report);
        processed
    }
}

} // verus!
