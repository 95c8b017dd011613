//! A round of backing: what becomes of the candidates, given the schedule and what is learned from
//! outside.
use crate::bits::ones;
use crate::bits::zeros;
use crate::checks::CandidateCheckContext;
use crate::checks::OutputReplies;
use crate::pallet::none_processed;
use crate::pallet::EffectView;
use crate::pallet::Error;
use crate::pallet::EventView;
use crate::pallet::PalletView;
use crate::pallet::PendingView;
use crate::pallet::ProcessedCandidates;
use crate::pallet::ProcessedView;
use crate::primitives::BackedCandidate;
use crate::primitives::BackedCandidateView;
use crate::primitives::BlockNumber;
use crate::primitives::CandidateReceipt;
use crate::primitives::ChainContext;
use crate::primitives::CoreAssignment;
use crate::primitives::GroupIndex;
use crate::primitives::H256;
use crate::primitives::HostConfiguration;
use crate::primitives::ParaId;
use crate::primitives::SigningContext;
use crate::primitives::ValidatorId;
use crate::primitives::ValidatorIndex;
use crate::primitives::ValidityAttestation;
use vstd::prelude::*;

verus! {

/// What the sibling pallets say about a candidate.
pub struct SiblingReplies<E> {
    /// The digest of the validation code that the para runs at the current block, if it runs one.
    pub validation_code_hash: Option<H256>,
    /// The digest of the persisted validation data of the para, if there is such data.
    pub persisted_validation_data_hash: Option<H256>,
    /// About its outputs.
    pub outputs: OutputReplies<E>,
}

/// What the pallet learns from outside about one candidate.
pub struct Answers<E> {
    /// What the sibling pallets say about it.
    pub replies: SiblingReplies<E>,
    /// The members of the group of its assignment, if there is such a group.
    pub group: Option<Vec<ValidatorIndex>>,
    /// How many votes for it are valid, if all are.
    pub backing: Result<usize, ()>,
}

/// Where the assignment for a para is found.
pub enum Found {
    /// The assignment at this place is the first for the para.
    At(int),
    /// On the way there the cores do not ascend.
    OutOfOrder,
    /// There is none.
    Nowhere,
}

/// A candidate that passed.
pub struct Acceptance {
    /// The place of its assignment in the schedule.
    pub at: int,
    /// The validators that back it: one bit per validator.
    pub backers: Seq<bool>,
    /// The validators that back it, each with its vote.
    pub attestations: Seq<(ValidatorIndex, ValidityAttestation)>,
}

/// What becomes of a candidate.
pub enum Verdict {
    /// The whole round is refused.
    Reject(Error),
    /// Nothing is done in this round.
    Abstain,
    /// The candidate passes.
    Accept(Acceptance),
}

/// How far a round has come.
pub enum Stage {
    /// The next assignment to be looked at, and the candidates that passed.
    Going(int, Seq<Acceptance>),
    /// The round is refused.
    Refused(Error),
    /// Nothing is done in this round.
    Abstained,
}

/// What becomes of a round.
pub enum Outcome {
    /// It is refused.
    Refused(Error),
    /// Nothing is done.
    Ignored,
    /// The candidates passed.
    Passed(Seq<Acceptance>),
}

/// The core at `i` comes after the core before it.
pub open spec fn in_order(scheduled: Seq<CoreAssignment>, i: int) -> bool {
    i == 0 || scheduled[i - 1].core.0 < scheduled[i].core.0
}

/// The first assignment for a para, from a place on.
pub open spec fn find(scheduled: Seq<CoreAssignment>, from: int, para: ParaId) -> Found
    decreases scheduled.len() - from,
{
    if from >= scheduled.len() {
        Found::Nowhere
    } else if !in_order(scheduled, from) {
        Found::OutOfOrder
    } else if scheduled[from].para_id == para {
        Found::At(from)
    } else {
        find(scheduled, from + 1, para)
    }
}

/// The assignment that is found is the first for the para, and the cores ascend up to it.
pub proof fn find_is_first(scheduled: Seq<CoreAssignment>, from: int, para: ParaId)
    ensures
        find(scheduled, from, para) matches Found::At(at) ==> {
            &&& from <= at < scheduled.len()
            &&& scheduled[at].para_id == para
            &&& forall|i: int| from <= i <= at ==> #[trigger] in_order(scheduled, i)
            &&& forall|i: int| from <= i < at ==> (#[trigger] scheduled[i]).para_id != para
        },
    decreases scheduled.len() - from,
{
    if from < scheduled.len() && in_order(scheduled, from) && scheduled[from].para_id != para {
        find_is_first(scheduled, from + 1, para);
    }
}

/// How many votes there are to count: each needs a member that cast it.
pub open spec fn vote_count(candidate: BackedCandidateView<H256>) -> int {
    if ones(candidate.validator_indices).len() <= candidate.validity_votes.len() {
        ones(candidate.validator_indices).len() as int
    } else {
        candidate.validity_votes.len() as int
    }
}

/// The member that cast the `j`th vote.
pub open spec fn voter(
    candidate: BackedCandidateView<H256>,
    group: Seq<ValidatorIndex>,
    j: int,
) -> ValidatorIndex {
    group[ones(candidate.validator_indices)[j]]
}

/// The votes, each with the member that cast it.
pub open spec fn attestations_of(
    candidate: BackedCandidateView<H256>,
    group: Seq<ValidatorIndex>,
) -> Seq<(ValidatorIndex, ValidityAttestation)> {
    Seq::new(
        vote_count(candidate) as nat,
        |j: int| (voter(candidate, group, j), candidate.validity_votes[j]),
    )
}

/// The members that cast the first `n` votes, as one bit per validator.
pub open spec fn backers_of(
    candidate: BackedCandidateView<H256>,
    group: Seq<ValidatorIndex>,
    n_validators: nat,
    n: int,
) -> Seq<bool> {
    Seq::new(
        n_validators,
        |v: int| exists|j: int| 0 <= j < n && (#[trigger] voter(candidate, group, j)).0 == v,
    )
}

/// The keys of the members of a group, where the members are known.
pub open spec fn member_keys(
    group: Seq<ValidatorIndex>,
    validators: Seq<ValidatorId>,
) -> Seq<Option<ValidatorId>> {
    group.map_values(
        |member: ValidatorIndex|
            if member.0 < validators.len() {
                Some(validators[member.0 as int])
            } else {
                None
            },
    )
}

/// Every counted vote was cast by a member with a known key.
pub open spec fn votes_known(
    candidate: BackedCandidateView<H256>,
    keys: Seq<Option<ValidatorId>>,
) -> bool {
    forall|j: int|
        0 <= j < vote_count(candidate) ==> (#[trigger] ones(candidate.validator_indices)[j])
            < keys.len() && keys[ones(candidate.validator_indices)[j]] is Some
}

/// What is wrong with the candidate by itself: it must be in the context of the parent block, and
/// signed by its collator.
pub open spec fn origin_fault(
    candidate: BackedCandidateView<H256>,
    parent_hash: H256,
) -> Option<Error> {
    if candidate.descriptor.relay_parent != parent_hash {
        Some(Error::CandidateNotInParentContext)
    } else if !candidate.collator_signed {
        Some(Error::NotCollatorSigned)
    } else {
        None
    }
}

/// What is wrong with the candidate in the light of what the sibling pallets say.
pub open spec fn reply_fault<E>(
    candidate: BackedCandidateView<H256>,
    check_cx: CandidateCheckContext,
    replies: SiblingReplies<E>,
) -> Option<Error> {
    if replies.validation_code_hash is None {
        Some(Error::UnscheduledCandidate)
    } else if candidate.descriptor.validation_code_hash != replies.validation_code_hash->0 {
        Some(Error::InvalidValidationCodeHash)
    } else if candidate.descriptor.para_head != candidate.commitments.head_data.digest {
        Some(Error::ParaHeadMismatch)
    } else if let Err(e) = check_cx.outputs_verdict(
        candidate.commitments.head_data.bytes,
        candidate.commitments.new_validation_code,
        replies.outputs,
    ) {
        Some(e.stripped())
    } else {
        None
    }
}

impl PalletView {
    /// Whether a para has no candidate pending availability.
    pub open spec fn is_free(self, para: ParaId) -> bool {
        !self.pending_availability.contains_key(para.0)
            && !self.pending_availability_commitments.contains_key(para.0)
    }

    /// Whether a candidate goes on to the check of its backing, given its assignment and the
    /// digest of the persisted validation data. Without such data nothing is done in the round.
    pub open spec fn assignment_check(
        self,
        candidate: BackedCandidateView<H256>,
        assignment: CoreAssignment,
        persisted_validation_data_hash: Option<H256>,
    ) -> Result<bool, Error> {
        let required = assignment.demanded_collator();
        if required is Some && required->0 != candidate.descriptor.collator {
            Err(Error::WrongCollator)
        } else if persisted_validation_data_hash is None {
            Ok(false)
        } else if persisted_validation_data_hash->0
            != candidate.descriptor.persisted_validation_data_hash {
            Err(Error::ValidationDataHashMismatch)
        } else if !self.is_free(candidate.descriptor.para_id) {
            Err(Error::CandidateScheduledBeforeParaFree)
        } else {
            Ok(true)
        }
    }
}

/// What is wrong with the backing of a candidate: the votes must all be valid, and more than half
/// of the group must have cast one.
pub open spec fn backing_fault(backing: Result<usize, ()>, group_len: nat) -> Option<Error> {
    match backing {
        Err(_) => Some(Error::InvalidBacking),
        Ok(amount_validated) => if amount_validated * 2 > group_len {
            None
        } else {
            Some(Error::InsufficientBacking)
        },
    }
}

/// A round of backing: the candidates, the schedule, and what they are held against.
pub struct Round {
    /// The state of the pallet before the round.
    pub state: PalletView,
    /// The keys of the active validators.
    pub validators: Seq<ValidatorId>,
    /// The context that the signatures of validators are bound to.
    pub signing_context: SigningContext,
    /// The storage root of the parent of the current block.
    pub parent_storage_root: H256,
    /// The context in which the candidates are checked.
    pub check_cx: CandidateCheckContext,
    /// The assignments of the cores.
    pub scheduled: Seq<CoreAssignment>,
    /// The candidates.
    pub candidates: Seq<BackedCandidate<H256>>,
}

impl Round {
    /// The round of backing in the current block: the relay-parent is the block before it.
    pub open spec fn of(
        state: PalletView,
        chain: ChainContext,
        config: HostConfiguration,
        parent_storage_root: H256,
        scheduled: Seq<CoreAssignment>,
        candidates: Seq<BackedCandidate<H256>>,
    ) -> Round {
        Round {
            state,
            validators: chain.validators@,
            signing_context: chain.signing_context_spec(),
            parent_storage_root,
            check_cx: CandidateCheckContext {
                config,
                now: chain.now,
                relay_parent_number: (chain.now - 1) as BlockNumber,
            },
            scheduled,
            candidates,
        }
    }

    /// What becomes of the `k`th candidate, if assignments are looked at from `skip` on.
    pub open spec fn judge<E>(self, k: int, skip: int, answers: Answers<E>) -> Verdict {
        let candidate = self.candidates[k]@;
        if let Some(error) = self.early_fault(k, answers.replies) {
            Verdict::Reject(error)
        } else {
            match find(self.scheduled, skip, candidate.descriptor.para_id) {
                Found::OutOfOrder => Verdict::Reject(Error::ScheduledOutOfOrder),
                Found::Nowhere => Verdict::Reject(Error::UnscheduledCandidate),
                Found::At(at) => match self.state.assignment_check(
                    candidate,
                    self.scheduled[at],
                    answers.replies.persisted_validation_data_hash,
                ) {
                    Err(error) => Verdict::Reject(error),
                    Ok(false) => Verdict::Abstain,
                    Ok(true) => self.judge_backing(k, at, answers.group, answers.backing),
                },
            }
        }
    }

    /// What becomes of the `k`th candidate, with the assignment at `at`, when its backing is
    /// looked at.
    pub open spec fn judge_backing(
        self,
        k: int,
        at: int,
        group: Option<Vec<ValidatorIndex>>,
        backing: Result<usize, ()>,
    ) -> Verdict {
        let candidate = self.candidates[k]@;
        match group {
            None => Verdict::Reject(Error::InvalidGroupIndex),
            Some(members) => match backing_fault(backing, members@.len()) {
                Some(error) => Verdict::Reject(error),
                None => Verdict::Accept(
                    Acceptance {
                        at,
                        backers: backers_of(
                            candidate,
                            members@,
                            self.validators.len(),
                            vote_count(candidate),
                        ),
                        attestations: attestations_of(candidate, members@),
                    },
                ),
            },
        }
    }

    /// What is wrong with the `k`th candidate before its assignment is looked for.
    pub open spec fn early_fault<E>(self, k: int, replies: SiblingReplies<E>) -> Option<Error> {
        let candidate = self.candidates[k]@;
        if let Some(error) = origin_fault(candidate, self.signing_context.parent_hash) {
            Some(error)
        } else {
            reply_fault(candidate, self.check_cx, replies)
        }
    }

    /// How far the round has come when the first `n` candidates were judged.
    pub open spec fn stage<E>(self, n: int, answers: Seq<Answers<E>>) -> Stage
        decreases n,
    {
        if n <= 0 {
            Stage::Going(0, Seq::empty())
        } else {
            match self.stage(n - 1, answers) {
                Stage::Going(skip, accepted) => match self.judge(n - 1, skip, answers[n - 1]) {
                    Verdict::Reject(error) => Stage::Refused(error),
                    Verdict::Abstain => Stage::Abstained,
                    Verdict::Accept(acceptance) => Stage::Going(
                        acceptance.at + 1,
                        accepted.push(acceptance),
                    ),
                },
                stopped => stopped,
            }
        }
    }

    /// Whatever is asked in the round can be asked: of each candidate that the round comes to,
    /// after whatever answers were heard about those before it.
    pub open spec fn may_ask<
        E,
        G: Fn(GroupIndex) -> Option<Vec<ValidatorIndex>>,
        C: Fn(&BackedCandidate<H256>, &CandidateCheckContext, &H256) -> SiblingReplies<E>,
        B: Fn(&BackedCandidate<H256>, &SigningContext, &Vec<Option<ValidatorId>>) -> Result<
            usize,
            (),
        >,
    >(self, group_validators: G, consult: C, check_backing: B) -> bool {
        self.candidates.len() <= self.scheduled.len() && 0 < self.scheduled.len() ==> forall|
            k: int,
            answers: Seq<Answers<E>>,
        |
            0 <= k < self.candidates.len() && self.answered(
                k,
                answers,
                group_validators,
                consult,
                check_backing,
            ) ==> (#[trigger] self.stage(k, answers) matches Stage::Going(skip, _)
                ==> self.may_ask_about(k, skip, group_validators, consult, check_backing))
    }

    /// Whatever is asked about the `k`th candidate can be asked, with assignments looked at from
    /// `skip` on. The sibling pallets are asked about a candidate whose origin is right, and the
    /// group lookup about the group of the assignment of one that they have nothing against. The
    /// backing check is asked with the keys of the members of the group.
    pub open spec fn may_ask_about<
        E,
        G: Fn(GroupIndex) -> Option<Vec<ValidatorIndex>>,
        C: Fn(&BackedCandidate<H256>, &CandidateCheckContext, &H256) -> SiblingReplies<E>,
        B: Fn(&BackedCandidate<H256>, &SigningContext, &Vec<Option<ValidatorId>>) -> Result<
            usize,
            (),
        >,
    >(
        self,
        k: int,
        skip: int,
        group_validators: G,
        consult: C,
        check_backing: B,
    ) -> bool {
        let candidate = self.candidates[k];
        origin_fault(candidate@, self.signing_context.parent_hash) is None ==> {
            &&& call_requires(consult, (&candidate, &self.check_cx, &self.parent_storage_root))
            &&& forall|replies: SiblingReplies<E>| #[trigger]
                call_ensures(
                    consult,
                    (&candidate, &self.check_cx, &self.parent_storage_root),
                    replies,
                ) && self.early_fault(k, replies) is None ==> match find(
                    self.scheduled,
                    skip,
                    candidate@.descriptor.para_id,
                ) {
                    Found::At(at) => self.state.assignment_check(
                        candidate@,
                        self.scheduled[at],
                        replies.persisted_validation_data_hash,
                    ) == Ok::<bool, Error>(true) ==> self.may_ask_group(
                        k,
                        self.scheduled[at].group_idx,
                        group_validators,
                        check_backing,
                    ),
                    _ => true,
                }
        }
    }

    /// The group lookup can be asked about a group, and the backing check about the `k`th candidate
    /// with the keys of the members of the group. Where it finds the votes valid, it knew who cast
    /// them.
    pub open spec fn may_ask_group<
        G: Fn(GroupIndex) -> Option<Vec<ValidatorIndex>>,
        B: Fn(&BackedCandidate<H256>, &SigningContext, &Vec<Option<ValidatorId>>) -> Result<
            usize,
            (),
        >,
    >(self, k: int, group: GroupIndex, group_validators: G, check_backing: B) -> bool {
        let candidate = self.candidates[k];
        &&& call_requires(group_validators, (group,))
        &&& forall|members: Vec<ValidatorIndex>, keys: Vec<Option<ValidatorId>>|
            #![trigger call_ensures(group_validators, (group,), Some(members)), keys@]
            call_ensures(group_validators, (group,), Some(members)) && keys@ == member_keys(
                members@,
                self.validators,
            ) ==> {
                &&& call_requires(check_backing, (&candidate, &self.signing_context, &keys))
                &&& forall|amount_validated: usize| #[trigger]
                    call_ensures(
                        check_backing,
                        (&candidate, &self.signing_context, &keys),
                        Ok(amount_validated),
                    ) ==> votes_known(candidate@, keys@)
            }
    }

    /// The answers about the `k`th candidate are those of the sibling pallets, of the group
    /// lookup and of the backing check, as far as each of them was asked.
    pub open spec fn asked<
        E,
        G: Fn(GroupIndex) -> Option<Vec<ValidatorIndex>>,
        C: Fn(&BackedCandidate<H256>, &CandidateCheckContext, &H256) -> SiblingReplies<E>,
        B: Fn(&BackedCandidate<H256>, &SigningContext, &Vec<Option<ValidatorId>>) -> Result<
            usize,
            (),
        >,
    >(
        self,
        k: int,
        skip: int,
        answers: Answers<E>,
        group_validators: G,
        consult: C,
        check_backing: B,
    ) -> bool {
        let candidate = self.candidates[k];
        &&& origin_fault(candidate@, self.signing_context.parent_hash) is None ==> call_ensures(
            consult,
            (&candidate, &self.check_cx, &self.parent_storage_root),
            answers.replies,
        )
        &&& self.early_fault(k, answers.replies) is None ==> match find(
            self.scheduled,
            skip,
            candidate@.descriptor.para_id,
        ) {
            Found::At(at) => self.state.assignment_check(
                candidate@,
                self.scheduled[at],
                answers.replies.persisted_validation_data_hash,
            ) == Ok::<bool, Error>(true) ==> {
                &&& call_ensures(
                    group_validators,
                    (self.scheduled[at].group_idx,),
                    answers.group,
                )
                &&& answers.group matches Some(members) ==> self.backing_checked(
                    k,
                    members@,
                    answers.backing,
                    check_backing,
                )
            },
            _ => true,
        }
    }

    /// The answer of the backing check on the `k`th candidate, for the members of a group.
    pub open spec fn backing_checked<
        B: Fn(&BackedCandidate<H256>, &SigningContext, &Vec<Option<ValidatorId>>) -> Result<
            usize,
            (),
        >,
    >(
        self,
        k: int,
        members: Seq<ValidatorIndex>,
        backing: Result<usize, ()>,
        check_backing: B,
    ) -> bool {
        exists|keys: Vec<Option<ValidatorId>>|
            keys@ == member_keys(members, self.validators) && #[trigger] call_ensures(
                check_backing,
                (&self.candidates[k], &self.signing_context, &keys),
                backing,
            )
    }

    /// The answers are those about the candidates that were judged.
    pub open spec fn answered<
        E,
        G: Fn(GroupIndex) -> Option<Vec<ValidatorIndex>>,
        C: Fn(&BackedCandidate<H256>, &CandidateCheckContext, &H256) -> SiblingReplies<E>,
        B: Fn(&BackedCandidate<H256>, &SigningContext, &Vec<Option<ValidatorId>>) -> Result<
            usize,
            (),
        >,
    >(
        self,
        n: int,
        answers: Seq<Answers<E>>,
        group_validators: G,
        consult: C,
        check_backing: B,
    ) -> bool {
        forall|k: int|
            #![trigger self.stage(k, answers)]
            #![trigger answers[k]]
            0 <= k < n ==> (self.stage(k, answers) matches Stage::Going(skip, _)
                ==> self.asked(k, skip, answers[k], group_validators, consult, check_backing))
    }

    /// What becomes of the round.
    pub open spec fn outcome<E>(self, answers: Seq<Answers<E>>) -> Outcome {
        if self.candidates.len() > self.scheduled.len() {
            Outcome::Refused(Error::UnscheduledCandidate)
        } else if self.scheduled.len() == 0 {
            Outcome::Ignored
        } else {
            match self.stage(self.candidates.len() as int, answers) {
                Stage::Refused(error) => Outcome::Refused(error),
                Stage::Abstained => Outcome::Ignored,
                Stage::Going(skip, accepted) => if forall|i: int|
                    skip <= i < self.scheduled.len() ==> #[trigger] in_order(self.scheduled, i) {
                    Outcome::Passed(accepted)
                } else {
                    Outcome::Refused(Error::ScheduledOutOfOrder)
                },
            }
        }
    }

    /// The record of a candidate that passed.
    pub open spec fn pending_of(self, k: int, acceptance: Acceptance) -> PendingView<
        H256,
        BlockNumber,
    > {
        PendingView {
            core: self.scheduled[acceptance.at].core,
            hash: self.candidates[k]@.hash,
            descriptor: self.candidates[k]@.descriptor,
            availability_votes: zeros(self.validators.len()),
            backers: acceptance.backers,
            relay_parent_number: self.check_cx.relay_parent_number,
            backed_in_number: self.check_cx.now,
            backing_group: self.scheduled[acceptance.at].group_idx,
        }
    }

    /// The receipt of a candidate.
    pub open spec fn receipt_of(self, k: int) -> CandidateReceipt<H256> {
        CandidateReceipt {
            descriptor: self.candidates[k]@.descriptor,
            commitments_hash: self.candidates[k]@.commitments.digest,
        }
    }

    /// The state when the first `n` candidates that passed are stored.
    pub open spec fn stored(self, n: int, accepted: Seq<Acceptance>) -> PalletView
        decreases n,
    {
        if n <= 0 {
            self.state
        } else {
            let k = n - 1;
            let para = self.candidates[k]@.descriptor.para_id;
            let pending = self.pending_of(k, accepted[k]);
            let event = EventView::CandidateBacked(
                self.receipt_of(k),
                self.candidates[k]@.commitments.head_data,
                pending.core,
                pending.backing_group,
            );
            self.stored(k, accepted).put_down(
                seq![EffectView::DepositEvent(event)],
            ).insert_pending(para, pending).insert_commitments(
                para,
                self.candidates[k]@.commitments,
            )
        }
    }

    /// What is returned, and the state that is left, for each way a round can end.
    pub open spec fn result_of(self, outcome: Outcome) -> (
        Result<ProcessedView<H256>, Error>,
        PalletView,
    ) {
        match outcome {
            Outcome::Refused(error) => (Err(error), self.state),
            Outcome::Ignored => (Ok(none_processed::<H256>()), self.state),
            Outcome::Passed(accepted) => (
                Ok(self.report(accepted)),
                self.stored(self.candidates.len() as int, accepted),
            ),
        }
    }

    /// What is reported of the candidates that passed.
    pub open spec fn report(self, accepted: Seq<Acceptance>) -> ProcessedView<H256> {
        ProcessedView {
            core_indices: accepted.map_values(|a: Acceptance| self.scheduled[a.at].core),
            receipts: Seq::new(
                accepted.len(),
                |k: int| (self.receipt_of(k), accepted[k].attestations),
            ),
        }
    }
}

/// The answers are those that a round heard: none, if it never came to the candidates.
pub open spec fn heard<
    E,
    G: Fn(GroupIndex) -> Option<Vec<ValidatorIndex>>,
    C: Fn(&BackedCandidate<H256>, &CandidateCheckContext, &H256) -> SiblingReplies<E>,
    B: Fn(&BackedCandidate<H256>, &SigningContext, &Vec<Option<ValidatorId>>) -> Result<usize, ()>,
>(
    round: Round,
    answers: Seq<Answers<E>>,
    group_validators: G,
    consult: C,
    check_backing: B,
) -> bool {
    round.candidates.len() <= round.scheduled.len() && 0 < round.scheduled.len() ==> round.answered(
        round.candidates.len() as int,
        answers,
        group_validators,
        consult,
        check_backing,
    )
}

/// What is returned, with the processed candidates by their view.
pub open spec fn processed_view(processed: Result<ProcessedCandidates<H256>, Error>) -> Result<
    ProcessedView<H256>,
    Error,
> {
    match processed {
        Ok(processed) => Ok(processed@),
        Err(error) => Err(error),
    }
}

} // verus!
