//! What holds of every round of backing.
use crate::availability::counted;
use crate::availability::threshold;
use crate::availability::vouched;
use crate::bits::ones;
use crate::bits::zeros;
use crate::laws::available_candidates_are_included_once;
use crate::laws::available_cores;
use crate::laws::available_cores_become_available;
use crate::laws::becomes_available;
use crate::laws::bitfields_decide_on_each_candidate;
use crate::laws::has_core;
use crate::laws::inclusions_split;
use crate::laws::one_core_each;
use crate::laws::same_para;
use crate::pallet::enactment_of;
use crate::pallet::EffectView;
use crate::pallet::Error;
use crate::pallet::EventView;
use crate::pallet::PendingView;
use crate::primitives::BlockNumber;
use crate::primitives::CoreAssignment;
use crate::primitives::ParaId;
use crate::primitives::SignedBitfieldView;
use crate::round::attestations_of;
use crate::round::backers_of;
use crate::round::backing_fault;
use crate::round::find;
use crate::round::find_is_first;
use crate::round::in_order;
use crate::round::vote_count;
use crate::round::Acceptance;
use crate::round::Answers;
use crate::round::Found;
use crate::round::Outcome;
use crate::round::Round;
use crate::round::Stage;
use vstd::prelude::*;

verus! {

impl Round {
    /// The `k`th candidate passes with the assignment at `at`: it is in the context of the parent
    /// block and signed by its collator, the sibling pallets have nothing against it, the
    /// assignment is for its para and asks for no other collator, the para is free, and more than
    /// half of the group back it with valid votes.
    pub open spec fn sound_at<E>(self, k: int, at: int, answers: Answers<E>) -> bool {
        &&& 0 <= at < self.scheduled.len()
        &&& self.early_fault(k, answers.replies) is None
        &&& self.scheduled[at].para_id == self.candidates[k]@.descriptor.para_id
        &&& self.state.assignment_check(
            self.candidates[k]@,
            self.scheduled[at],
            answers.replies.persisted_validation_data_hash,
        ) == Ok::<bool, Error>(true)
        &&& answers.group matches Some(members) && backing_fault(
            answers.backing,
            members@.len(),
        ) is None
    }

    /// What is taken down of a candidate that passes with the assignment at `at`.
    pub open spec fn acceptance<E>(self, k: int, at: int, answers: Answers<E>) -> Acceptance {
        let candidate = self.candidates[k]@;
        let members = answers.group.unwrap()@;
        Acceptance {
            at,
            backers: backers_of(candidate, members, self.validators.len(), vote_count(candidate)),
            attestations: attestations_of(candidate, members),
        }
    }
}

/// The assignments that were looked at are in order, and the candidates that passed are sound,
/// with assignments in the order of the schedule.
pub(crate) proof fn lemma_stage_sound<E>(round: Round, n: int, answers: Seq<Answers<E>>)
    requires
        0 <= n,
    ensures
        round.stage(n, answers) matches Stage::Going(skip, accepted) ==> {
            &&& accepted.len() == n
            &&& 0 <= skip <= round.scheduled.len()
            &&& forall|i: int| 0 <= i < skip ==> #[trigger] in_order(round.scheduled, i)
            &&& forall|k: int|
                0 <= k < n ==> {
                    &&& round.sound_at(k, (#[trigger] accepted[k]).at, answers[k])
                    &&& accepted[k] == round.acceptance(k, accepted[k].at, answers[k])
                    &&& accepted[k].at < skip
                }
            &&& forall|j: int, k: int|
                0 <= j < k < n ==> (#[trigger] accepted[j]).at < (#[trigger] accepted[k]).at
        },
    decreases n,
{
    if n > 0 {
        lemma_stage_sound(round, n - 1, answers);
        if let Stage::Going(skip, accepted) = round.stage(n - 1, answers) {
            find_is_first(
                round.scheduled,
                skip,
                round.candidates[n - 1]@.descriptor.para_id,
            );
        }
    }
}

/// Cores that ascend step by step ascend throughout.
proof fn lemma_ascending(scheduled: Seq<CoreAssignment>, i: int, j: int)
    requires
        0 <= i < j < scheduled.len(),
        forall|k: int| 0 <= k < scheduled.len() ==> #[trigger] in_order(scheduled, k),
    ensures
        scheduled[i].core.0 < scheduled[j].core.0,
    decreases j,
{
    assert(in_order(scheduled, j));
    if i < j - 1 {
        lemma_ascending(scheduled, i, j - 1);
    }
}

/// A round passes only if the schedule ascends by core, and the candidates are sound and scheduled
/// in the order in which they come. The cores that are reported then ascend too.
pub proof fn passed_candidates_are_sound<E>(
    round: Round,
    answers: Seq<Answers<E>>,
    accepted: Seq<Acceptance>,
)
    requires
        round.outcome(answers) == Outcome::Passed(accepted),
    ensures
        accepted.len() == round.candidates.len(),
        forall|k: int|
            0 <= k < accepted.len() ==> {
                &&& round.sound_at(k, (#[trigger] accepted[k]).at, answers[k])
                &&& accepted[k] == round.acceptance(k, accepted[k].at, answers[k])
            },
        forall|j: int, k: int|
            0 <= j < k < accepted.len() ==> (#[trigger] accepted[j]).at < (
            #[trigger] accepted[k]).at,
        forall|i: int, j: int|
            0 <= i < j < round.scheduled.len() ==> (#[trigger] round.scheduled[i]).core.0 < (
            #[trigger] round.scheduled[j]).core.0,
        forall|j: int, k: int|
            0 <= j < k < accepted.len() ==> (#[trigger] round.report(accepted).core_indices[j]).0
                < (#[trigger] round.report(accepted).core_indices[k]).0,
{
    lemma_stage_sound(round, round.candidates.len() as int, answers);
    assert forall|i: int| 0 <= i < round.scheduled.len() implies #[trigger] in_order(
        round.scheduled,
        i,
    ) by {}
    assert forall|i: int, j: int| 0 <= i < j < round.scheduled.len() implies (
    #[trigger] round.scheduled[i]).core.0 < (#[trigger] round.scheduled[j]).core.0 by {
        lemma_ascending(round.scheduled, i, j);
    }
    assert forall|j: int, k: int| 0 <= j < k < accepted.len() implies (
    #[trigger] round.report(accepted).core_indices[j]).0 < (
    #[trigger] round.report(accepted).core_indices[k]).0 by {
        assert(accepted[j].at < accepted[k].at);
        assert(round.sound_at(k, accepted[k].at, answers[k]));
        assert(round.sound_at(j, accepted[j].at, answers[j]));
    }
}

impl Round {
    /// The candidates are scheduled in the order in which they come: `places` gives for each an
    /// assignment for its para, further down the schedule than the one before it.
    pub open spec fn scheduled_at(self, places: Seq<int>) -> bool {
        &&& places.len() == self.candidates.len()
        &&& forall|k: int|
            0 <= k < places.len() ==> 0 <= #[trigger] places[k] < self.scheduled.len()
                && self.scheduled[places[k]].para_id == self.candidates[k]@.descriptor.para_id
        &&& forall|j: int, k: int|
            0 <= j < k < places.len() ==> #[trigger] places[j] < #[trigger] places[k]
    }
}

/// The first assignment is found no later than a given one, where the cores ascend.
proof fn lemma_found_by(scheduled: Seq<CoreAssignment>, from: int, para: ParaId, place: int)
    requires
        0 <= from <= place < scheduled.len(),
        scheduled[place].para_id == para,
        forall|i: int| 0 <= i < scheduled.len() ==> #[trigger] in_order(scheduled, i),
    ensures
        find(scheduled, from, para) matches Found::At(at) && from <= at <= place,
    decreases place - from,
{
    assert(in_order(scheduled, from));
    if scheduled[from].para_id != para {
        lemma_found_by(scheduled, from + 1, para, place);
    }
}

/// As long as the candidates are sound wherever they are scheduled, the round goes on, and is not
/// past the places given for the candidates.
proof fn lemma_stage_goes_on<E>(
    round: Round,
    n: int,
    answers: Seq<Answers<E>>,
    places: Seq<int>,
)
    requires
        0 <= n <= round.candidates.len(),
        round.scheduled_at(places),
        forall|i: int| 0 <= i < round.scheduled.len() ==> #[trigger] in_order(round.scheduled, i),
        forall|k: int, at: int|
            0 <= k < round.candidates.len() && 0 <= at < round.scheduled.len()
                && round.scheduled[at].para_id == round.candidates[k]@.descriptor.para_id
                ==> #[trigger] round.sound_at(k, at, answers[k]),
    ensures
        round.stage(n, answers) matches Stage::Going(skip, _) && 0 <= skip && (n == 0 ==> skip == 0)
            && (n > 0 ==> skip <= places[n - 1] + 1),
    decreases n,
{
    if n > 0 {
        lemma_stage_goes_on(round, n - 1, answers, places);
        if let Stage::Going(skip, accepted) = round.stage(n - 1, answers) {
            let para = round.candidates[n - 1]@.descriptor.para_id;
            if n > 1 {
                assert(places[n - 2] < places[n - 1]);
            }
            lemma_found_by(round.scheduled, skip, para, places[n - 1]);
            find_is_first(round.scheduled, skip, para);
            if let Found::At(at) = find(round.scheduled, skip, para) {
                assert(round.sound_at(n - 1, at, answers[n - 1]));
            }
        }
    }
}

/// A round passes if the schedule ascends by core, the candidates are scheduled in the order in
/// which they come, and each is sound with every assignment for its para.
pub proof fn sound_rounds_pass<E>(round: Round, answers: Seq<Answers<E>>, places: Seq<int>)
    requires
        0 < round.scheduled.len(),
        round.candidates.len() <= round.scheduled.len(),
        round.scheduled_at(places),
        forall|i: int| 0 <= i < round.scheduled.len() ==> #[trigger] in_order(round.scheduled, i),
        forall|k: int, at: int|
            0 <= k < round.candidates.len() && 0 <= at < round.scheduled.len()
                && round.scheduled[at].para_id == round.candidates[k]@.descriptor.para_id
                ==> #[trigger] round.sound_at(k, at, answers[k]),
    ensures
        round.outcome(answers) is Passed,
{
    lemma_stage_goes_on(round, round.candidates.len() as int, answers, places);
}

/// The events that tell of the first `n` candidates that they are backed.
pub open spec fn backed_events(round: Round, accepted: Seq<Acceptance>, n: int) -> Seq<EffectView> {
    Seq::new(
        n as nat,
        |k: int|
            EffectView::DepositEvent(
                EventView::CandidateBacked(
                    round.receipt_of(k),
                    round.candidates[k]@.commitments.head_data,
                    round.scheduled[accepted[k].at].core,
                    round.scheduled[accepted[k].at].group_idx,
                ),
            ),
    )
}

/// No candidate after the `k`th one of the first `n` is for the same para.
pub open spec fn last_for_para(round: Round, n: int, k: int) -> bool {
    &&& 0 <= k < n
    &&& forall|j: int|
        k < j < n ==> (#[trigger] round.candidates[j])@.descriptor.para_id
            != round.candidates[k]@.descriptor.para_id
}

/// What is stored when the first `n` candidates are.
pub(crate) proof fn lemma_stored(round: Round, accepted: Seq<Acceptance>, n: int)
    requires
        0 <= n,
    ensures
        ({
            let after = round.stored(n, accepted);
            &&& after.availability_bitfields == round.state.availability_bitfields
            &&& after.effects == round.state.effects + backed_events(round, accepted, n)
            &&& forall|k: int| #[trigger]
                last_for_para(round, n, k) ==> {
                    let para = round.candidates[k]@.descriptor.para_id.0;
                    &&& after.pending_availability.contains_key(para)
                    &&& after.pending_availability[para] == round.pending_of(k, accepted[k])
                    &&& after.pending_availability_commitments.contains_key(para)
                    &&& after.pending_availability_commitments[para]
                        == round.candidates[k]@.commitments
                }
            &&& forall|para: u32|
                (forall|k: int|
                    0 <= k < n ==> (#[trigger] round.candidates[k])@.descriptor.para_id.0 != para)
                    ==> #[trigger] same_para(round.state, after, para)
        }),
    decreases n,
{
    if n > 0 {
        lemma_stored(round, accepted, n - 1);
        let before = round.stored(n - 1, accepted);
        let after = round.stored(n, accepted);
        assert(backed_events(round, accepted, n) =~= backed_events(round, accepted, n - 1).push(
            backed_events(round, accepted, n)[n - 1],
        ));
        assert(after.effects =~= round.state.effects + backed_events(round, accepted, n));
        assert forall|k: int| #[trigger] last_for_para(round, n, k) && k < n - 1 implies
            last_for_para(round, n - 1, k) && round.candidates[n - 1]@.descriptor.para_id
            != round.candidates[k]@.descriptor.para_id by {}
        assert forall|para: u32|
            (forall|k: int|
                0 <= k < n ==> (#[trigger] round.candidates[k])@.descriptor.para_id.0
                    != para) implies #[trigger] same_para(round.state, after, para) by {
            assert(round.candidates[n - 1]@.descriptor.para_id.0 != para);
            assert(same_para(round.state, before, para));
        }
    } else {
        assert(round.state.effects =~= round.state.effects + backed_events(round, accepted, n));
    }
}

/// What a round that passes stores can be read back: for each para the last of its candidates, as
/// backed in the current block and with no availability votes yet, and its commitments.
pub proof fn backed_candidates_can_be_read_back<E>(
    round: Round,
    answers: Seq<Answers<E>>,
    accepted: Seq<Acceptance>,
    k: int,
)
    requires
        round.outcome(answers) == Outcome::Passed(accepted),
        last_for_para(round, round.candidates.len() as int, k),
    ensures
        ({
            let after = round.result_of(round.outcome(answers)).1;
            let candidate = round.candidates[k]@;
            let para = candidate.descriptor.para_id.0;
            let pending = after.pending_availability[para];
            &&& after.pending_availability.contains_key(para)
            &&& pending.descriptor == candidate.descriptor
            &&& pending.hash == candidate.hash
            &&& pending.core == round.scheduled[accepted[k].at].core
            &&& pending.backing_group == round.scheduled[accepted[k].at].group_idx
            &&& pending.availability_votes == zeros(round.validators.len())
            &&& pending.backers == accepted[k].backers
            &&& pending.backed_in_number == round.check_cx.now
            &&& pending.relay_parent_number == round.check_cx.relay_parent_number
            &&& after.pending_availability_commitments.contains_key(para)
            &&& after.pending_availability_commitments[para] == candidate.commitments
        }),
{
    lemma_stored(round, accepted, round.candidates.len() as int);
}

/// A round that passes leaves the paras without a candidate in it alone.
pub proof fn backing_leaves_other_paras<E>(
    round: Round,
    answers: Seq<Answers<E>>,
    accepted: Seq<Acceptance>,
    para: u32,
)
    requires
        round.outcome(answers) == Outcome::Passed(accepted),
        forall|k: int|
            0 <= k < round.candidates.len() ==> (
            #[trigger] round.candidates[k])@.descriptor.para_id.0 != para,
    ensures
        same_para(round.state, round.result_of(round.outcome(answers)).1, para),
{
    lemma_stored(round, accepted, round.candidates.len() as int);
}

/// A round that passes tells of each candidate once, in order, and leaves the bitfields alone.
pub proof fn backed_candidates_are_told_once<E>(
    round: Round,
    answers: Seq<Answers<E>>,
    accepted: Seq<Acceptance>,
)
    requires
        round.outcome(answers) == Outcome::Passed(accepted),
    ensures
        ({
            let after = round.result_of(round.outcome(answers)).1;
            &&& after.availability_bitfields == round.state.availability_bitfields
            &&& after.effects == round.state.effects + backed_events(
                round,
                accepted,
                round.candidates.len() as int,
            )
        }),
{
    lemma_stored(round, accepted, round.candidates.len() as int);
}

/// A round that does not pass leaves the state as it was.
pub proof fn refused_rounds_change_nothing<E>(round: Round, answers: Seq<Answers<E>>)
    requires
        !(round.outcome(answers) is Passed),
    ensures
        round.result_of(round.outcome(answers)).1 == round.state,
{
}

/// There is a last candidate for the para of each candidate.
pub(crate) proof fn lemma_some_is_last(round: Round, n: int, k: int) -> (last: int)
    requires
        0 <= k < n,
    ensures
        last_for_para(round, n, last),
        round.candidates[last]@.descriptor.para_id == round.candidates[k]@.descriptor.para_id,
    decreases n - k,
{
    if last_for_para(round, n, k) {
        k
    } else {
        let j = choose|j: int|
            k < j < n && (#[trigger] round.candidates[j])@.descriptor.para_id
                == round.candidates[k]@.descriptor.para_id;
        lemma_some_is_last(round, n, j)
    }
}

/// While a candidate of a para is pending availability, no other candidate for the para passes.
pub proof fn no_candidate_for_an_occupied_para_passes<E>(
    round: Round,
    answers: Seq<Answers<E>>,
    k: int,
)
    requires
        0 <= k < round.candidates.len(),
        !round.state.is_free(round.candidates[k]@.descriptor.para_id),
    ensures
        !(round.outcome(answers) is Passed),
{
    if let Outcome::Passed(accepted) = round.outcome(answers) {
        passed_candidates_are_sound(round, answers, accepted);
        assert(round.sound_at(k, accepted[k].at, answers[k]));
    }
}

/// After a round that passes, the paras of its candidates are occupied: a round on the state that
/// it leaves cannot pass with a candidate for one of them.
pub proof fn backed_paras_are_occupied<E, F>(
    first: Round,
    first_answers: Seq<Answers<E>>,
    second: Round,
    second_answers: Seq<Answers<F>>,
    k: int,
    j: int,
)
    requires
        first.outcome(first_answers) is Passed,
        second.state == first.result_of(first.outcome(first_answers)).1,
        0 <= k < first.candidates.len(),
        0 <= j < second.candidates.len(),
        first.candidates[k]@.descriptor.para_id == second.candidates[j]@.descriptor.para_id,
    ensures
        !(second.outcome(second_answers) is Passed),
{
    if let Outcome::Passed(accepted) = first.outcome(first_answers) {
        let n = first.candidates.len() as int;
        let last = lemma_some_is_last(first, n, k);
        lemma_stored(first, accepted, n);
        assert(last_for_para(first, n, last));
        no_candidate_for_an_occupied_para_passes(second, second_answers, j);
    }
}

/// Backing keeps the state consistent.
pub proof fn backing_keeps_consistent<E>(round: Round, answers: Seq<Answers<E>>)
    requires
        round.state.consistent(round.validators.len()),
    ensures
        round.result_of(round.outcome(answers)).1.consistent(round.validators.len()),
{
    if let Outcome::Passed(accepted) = round.outcome(answers) {
        let n = round.candidates.len() as int;
        let after = round.stored(n, accepted);
        passed_candidates_are_sound(round, answers, accepted);
        lemma_stored(round, accepted, n);
        assert forall|para: u32| after.pending_availability.dom().contains(para)
            == after.pending_availability_commitments.dom().contains(para) && (
        after.pending_availability.contains_key(para) ==> {
            let pending = after.pending_availability[para];
            &&& pending.descriptor.para_id.0 == para
            &&& pending.availability_votes.len() == round.validators.len()
            &&& pending.backers.len() == round.validators.len()
        }) by {
            if exists|k: int|
                0 <= k < n && (#[trigger] round.candidates[k])@.descriptor.para_id.0 == para {
                let k = choose|k: int|
                    0 <= k < n && (#[trigger] round.candidates[k])@.descriptor.para_id.0 == para;
                let last = lemma_some_is_last(round, n, k);
                assert(last_for_para(round, n, last));
                assert(accepted[last] == round.acceptance(
                    last,
                    accepted[last].at,
                    answers[last],
                ));
            } else {
                assert(same_para(round.state, after, para));
                assert(round.state.pending_availability.dom().contains(para)
                    == round.state.pending_availability_commitments.dom().contains(para));
            }
        }
        assert(after.pending_availability.dom() =~= after.pending_availability_commitments.dom());
        assert(after.consistent(round.validators.len()));
    }
}

/// The validators that vouch for a core: one bit per validator.
pub open spec fn vouching(
    signed: Seq<SignedBitfieldView>,
    core: int,
    n_validators: nat,
) -> Seq<bool> {
    Seq::new(n_validators, |validator: int| vouched(signed, core, validator))
}

/// From backed to included: when a candidate has been backed, bitfields for the core of its para
/// free the core and include the candidate if enough validators vouch for the core, and else leave
/// it pending with just these votes.
pub proof fn backed_candidates_are_included_when_vouched_for<E>(
    round: Round,
    answers: Seq<Answers<E>>,
    accepted: Seq<Acceptance>,
    k: int,
    now: BlockNumber,
    assigned: Seq<Option<ParaId>>,
    core: int,
    signed: Seq<SignedBitfieldView>,
)
    requires
        round.outcome(answers) == Outcome::Passed(accepted),
        last_for_para(round, round.candidates.len() as int, k),
        one_core_each(assigned),
        0 <= core < assigned.len(),
        assigned[core] == Some(round.candidates[k]@.descriptor.para_id),
    ensures
        ({
            let n = round.validators.len();
            let para = round.candidates[k]@.descriptor.para_id;
            let votes = vouching(signed, core, n);
            let backed = round.result_of(round.outcome(answers)).1;
            let done = backed.with_bitfields(now, assigned, n as int, signed, false);
            let pending = PendingView {
                availability_votes: votes,
                ..round.pending_of(k, accepted[k])
            };
            if ones(votes).len() >= threshold(n as int) {
                &&& done.state.is_free(para)
                &&& done.freed.contains((pending.core, pending.hash))
                &&& exists|earlier: Seq<EffectView>, later: Seq<EffectView>|
                    done.state.effects == #[trigger] (earlier + enactment_of(
                        pending,
                        round.candidates[k]@.commitments,
                    ) + later)
            } else {
                &&& done.state.pending_availability.contains_key(para.0)
                &&& done.state.pending_availability[para.0] == pending
                &&& done.state.pending_availability_commitments.contains_key(para.0)
            }
        }),
{
    let n = round.validators.len();
    let para = round.candidates[k]@.descriptor.para_id;
    let votes = vouching(signed, core, n);
    let backed = round.result_of(round.outcome(answers)).1;
    let done = backed.with_bitfields(now, assigned, n as int, signed, false);
    let needed = threshold(n as int);
    let pending = PendingView { availability_votes: votes, ..round.pending_of(k, accepted[k]) };
    backed_candidates_can_be_read_back(round, answers, accepted, k);
    let record = counted(backed.pending_availability[para.0], core, signed);
    assert(record.availability_votes =~= votes);
    assert(record =~= pending);
    assert(has_core(assigned, assigned.len() as int, para.0, core));
    bitfields_decide_on_each_candidate(backed, now, assigned, n, signed, false, para.0);
    if ones(votes).len() >= needed {
        let cores = available_cores(backed, assigned, signed, needed, assigned.len() as int);
        available_candidates_are_included_once(backed, now, assigned, n, signed);
        available_cores_become_available(
            backed,
            assigned,
            signed,
            needed,
            assigned.len() as int,
            core,
        );
        assert(becomes_available(backed, assigned, signed, needed, core));
        let i = choose|i: int| 0 <= i < cores.len() && cores[i] == core;
        assert(done.freed[i] == (pending.core, pending.hash));
        let (earlier, later) = inclusions_split(backed, assigned, signed, cores, i);
        let enacted = enactment_of(pending, round.candidates[k]@.commitments);
        assert(done.state.effects =~= (backed.effects + earlier) + enacted + later);
    }
}

} // verus!
