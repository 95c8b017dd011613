//! What holds of the pallet as a whole.
use crate::availability::counted;
use crate::availability::record_of;
use crate::availability::records_of;
use crate::availability::settled;
use crate::availability::threshold;
use crate::availability::vouched;
use crate::availability::Settlement;
use crate::bitfields::bitfield_fault;
use crate::bitfields::first_fault;
use crate::bitfields::no_fault_among;
use crate::bitfields::overlap;
use crate::bitfields::refusal;
use crate::bits::ones;
use crate::pallet::enactment_of;
use crate::pallet::picked;
use crate::pallet::BitfieldRecordView;
use crate::pallet::EffectView;
use crate::pallet::EventView;
use crate::pallet::PalletView;
use crate::pallet::PendingView;
use crate::primitives::BlockNumber;
use crate::primitives::CandidateHash;
use crate::primitives::CandidateReceipt;
use crate::primitives::CoreIndex;
use crate::primitives::ParaId;
use crate::primitives::SignedBitfieldView;
use crate::primitives::H256;
use crate::storage::before;
use crate::storage::is_walk;
use crate::storage::lemma_walk_drop_last;
use crate::storage::location;
use vstd::prelude::*;

verus! {

/// At least two thirds of the validators are needed, and no fewer than that many would do, unless
/// the number of validators is one more than a multiple of three.
pub proof fn threshold_is_two_thirds(n: nat)
    ensures
        3 * threshold(n as int) >= 2 * n,
        n % 3 != 1 ==> 3 * (threshold(n as int) - 1) < 2 * n,
        n % 3 == 1 ==> threshold(n as int) == (2 * n + 4) / 3,
{
}

impl PalletView {
    /// The state is consistent: candidates and commitments go together, a candidate is stored under
    /// its own para, and there is one availability vote and one backer bit per validator.
    pub open spec fn consistent(self, n_validators: nat) -> bool {
        &&& self.pending_availability.dom() == self.pending_availability_commitments.dom()
        &&& forall|para: u32| #[trigger]
            self.pending_availability.contains_key(para) ==> {
                let pending = self.pending_availability[para];
                &&& pending.descriptor.para_id.0 == para
                &&& pending.availability_votes.len() == n_validators
                &&& pending.backers.len() == n_validators
            }
    }

    /// Nothing is stored for any para or validator.
    pub open spec fn is_bare(self) -> bool {
        &&& forall|validator: u32| !#[trigger] self.availability_bitfields.contains_key(validator)
        &&& forall|para: u32| !#[trigger] self.pending_availability.contains_key(para)
        &&& forall|para: u32| !#[trigger] self.pending_availability_commitments.contains_key(para)
    }
}

/// Bare storage is consistent, whatever the number of validators: that of a new pallet, and that
/// after a session change.
pub proof fn bare_storage_is_consistent(state: PalletView, n_validators: nat)
    requires
        state.is_bare(),
    ensures
        state.consistent(n_validators),
{
    assert(state.pending_availability.dom() =~= state.pending_availability_commitments.dom());
}

/// The paras of the cores: no para has two cores.
pub open spec fn one_core_each(assigned: Seq<Option<ParaId>>) -> bool {
    forall|i: int, j: int|
        0 <= i < j < assigned.len() && (#[trigger] assigned[i]) is Some ==> assigned[i]
            != #[trigger] assigned[j]
}

/// A para has no two cores.
pub open spec fn one_core_at_most(assigned: Seq<Option<ParaId>>, para: u32) -> bool {
    forall|i: int, j: int|
        0 <= i < j < assigned.len() && #[trigger] assigned[i] == Some(ParaId(para)) ==> assigned[i]
            != #[trigger] assigned[j]
}

/// The core that a para has among the first `n`.
pub open spec fn has_core(assigned: Seq<Option<ParaId>>, n: int, para: u32, core: int) -> bool {
    0 <= core < n && core < assigned.len() && assigned[core] == Some(ParaId(para))
}

/// What is stored for a para when the bitfields were counted for its candidate: with enough votes
/// neither candidate nor commitments are left, else the candidate with its votes, and the
/// commitments as they were.
pub open spec fn decided(
    before: PalletView,
    after: PalletView,
    para: u32,
    record: PendingView<H256, BlockNumber>,
    needed: int,
) -> bool {
    if ones(record.availability_votes).len() >= needed {
        &&& !after.pending_availability.contains_key(para)
        &&& !after.pending_availability_commitments.contains_key(para)
    } else {
        &&& after.pending_availability.contains_key(para)
        &&& after.pending_availability[para] == record
        &&& same_commitments(before, after, para)
    }
}

/// The commitments of a para are the same.
pub open spec fn same_commitments(a: PalletView, b: PalletView, para: u32) -> bool {
    &&& a.pending_availability_commitments.contains_key(para)
        == b.pending_availability_commitments.contains_key(para)
    &&& a.pending_availability_commitments.contains_key(para)
        ==> a.pending_availability_commitments[para] == b.pending_availability_commitments[para]
}

/// The candidate and the commitments of a para are the same.
pub open spec fn same_para(a: PalletView, b: PalletView, para: u32) -> bool {
    &&& a.pending_availability.contains_key(para) == b.pending_availability.contains_key(para)
    &&& a.pending_availability.contains_key(para) ==> a.pending_availability[para]
        == b.pending_availability[para]
    &&& same_commitments(a, b, para)
}

/// Recording bitfields leaves everything but the bitfields.
pub(crate) proof fn lemma_recorded_leaves_rest(
    state: PalletView,
    signed: Seq<SignedBitfieldView>,
    now: BlockNumber,
)
    ensures
        state.recorded(signed, now).pending_availability == state.pending_availability,
        state.recorded(signed, now).pending_availability_commitments
            == state.pending_availability_commitments,
        state.recorded(signed, now).effects == state.effects,
    decreases signed.len(),
{
    if signed.len() > 0 {
        lemma_recorded_leaves_rest(state, signed.drop_last(), now);
    }
}

/// What is stored for a para depends on its own core alone.
pub(crate) proof fn lemma_settled_para(
    start: PalletView,
    state: PalletView,
    assigned: Seq<Option<ParaId>>,
    signed: Seq<SignedBitfieldView>,
    n: int,
    needed: int,
    is_create_inherent: bool,
    para: u32,
)
    requires
        one_core_at_most(assigned, para),
        0 <= n <= assigned.len(),
        start.pending_availability == state.pending_availability,
    ensures
        ({
            let after = settled(
                start,
                assigned,
                records_of(state, assigned, signed).take(n),
                needed,
                is_create_inherent,
            ).state;
            &&& after.availability_bitfields == start.availability_bitfields
            &&& forall|core: int| #[trigger]
                has_core(assigned, n, para, core) && start.pending_availability.contains_key(para)
                    ==> decided(
                    start,
                    after,
                    para,
                    counted(state.pending_availability[para], core, signed),
                    needed,
                )
            &&& (!start.pending_availability.contains_key(para) || forall|core: int|
                !#[trigger] has_core(assigned, n, para, core)) ==> same_para(start, after, para)
        }),
    decreases n,
{
    let records = records_of(state, assigned, signed);
    if n > 0 {
        lemma_settled_para(
            start,
            state,
            assigned,
            signed,
            n - 1,
            needed,
            is_create_inherent,
            para,
        );
        assert(records.take(n).drop_last() =~= records.take(n - 1));
        assert(records.take(n).last() == record_of(state, assigned[n - 1], n - 1, signed));
        let before = settled(
            start,
            assigned,
            records.take(n - 1),
            needed,
            is_create_inherent,
        ).state;
        let after = settled(start, assigned, records.take(n), needed, is_create_inherent).state;
        if assigned[n - 1] == Some(ParaId(para)) {
            assert forall|core: int| has_core(assigned, n, para, core) implies core == n - 1 by {
                if core < n - 1 {
                    assert(assigned[core] == assigned[n - 1]);
                }
            }
            assert(forall|core: int| !#[trigger] has_core(assigned, n - 1, para, core));
            assert(same_para(start, before, para));
        } else {
            assert(forall|core: int|
                has_core(assigned, n, para, core) == has_core(assigned, n - 1, para, core));
            assert(same_para(before, after, para));
        }
        assert forall|core: int| #[trigger]
            has_core(assigned, n, para, core) && start.pending_availability.contains_key(
                para,
            ) implies decided(
            start,
            after,
            para,
            counted(state.pending_availability[para], core, signed),
            needed,
        ) by {
            if core < n - 1 {
                assert(has_core(assigned, n - 1, para, core));
                assert(decided(
                    start,
                    before,
                    para,
                    counted(state.pending_availability[para], core, signed),
                    needed,
                ));
            }
        }
        if start.pending_availability.contains_key(para) && forall|core: int|
            !#[trigger] has_core(assigned, n, para, core) {
            assert(!has_core(assigned, n, para, n - 1));
            assert forall|core: int| !#[trigger] has_core(assigned, n - 1, para, core) by {
                assert(!has_core(assigned, n, para, core));
            }
        }
    }
}

/// The bitfields decide on each candidate by itself. The candidate of a para with one core leaves,
/// with its commitments, if enough validators vouch for it; else it stays, with the votes counted
/// in. The other paras are left alone.
pub proof fn bitfields_decide_on_each_candidate(
    state: PalletView,
    now: BlockNumber,
    assigned: Seq<Option<ParaId>>,
    n_validators: nat,
    signed: Seq<SignedBitfieldView>,
    is_create_inherent: bool,
    para: u32,
)
    requires
        one_core_at_most(assigned, para),
    ensures
        ({
            let after = state.with_bitfields(
                now,
                assigned,
                n_validators as int,
                signed,
                is_create_inherent,
            ).state;
            &&& forall|core: int| #[trigger]
                has_core(assigned, assigned.len() as int, para, core)
                    && state.pending_availability.contains_key(para) ==> decided(
                    state,
                    after,
                    para,
                    counted(state.pending_availability[para], core, signed),
                    threshold(n_validators as int),
                )
            &&& (!state.pending_availability.contains_key(para) || forall|core: int|
                !#[trigger] has_core(assigned, assigned.len() as int, para, core)) ==> same_para(
                state,
                after,
                para,
            )
        }),
{
    let records = records_of(state, assigned, signed);
    assert(records.take(records.len() as int) =~= records);
    lemma_recorded_leaves_rest(state, signed, now);
    lemma_settled_para(
        state.recorded(signed, now),
        state,
        assigned,
        signed,
        assigned.len() as int,
        threshold(n_validators as int),
        is_create_inherent,
        para,
    );
}

/// Bitfields keep the state consistent, where no para has two cores.
pub proof fn bitfields_keep_consistent(
    state: PalletView,
    now: BlockNumber,
    assigned: Seq<Option<ParaId>>,
    n_validators: nat,
    signed: Seq<SignedBitfieldView>,
    is_create_inherent: bool,
)
    requires
        one_core_each(assigned),
        state.consistent(n_validators),
    ensures
        state.with_bitfields(
            now,
            assigned,
            n_validators as int,
            signed,
            is_create_inherent,
        ).state.consistent(n_validators),
{
    let after = state.with_bitfields(
        now,
        assigned,
        n_validators as int,
        signed,
        is_create_inherent,
    ).state;
    assert forall|para: u32|
        after.pending_availability.contains_key(para)
            == after.pending_availability_commitments.contains_key(para) && (
        after.pending_availability.contains_key(para) ==> {
            let pending = after.pending_availability[para];
            &&& pending.descriptor.para_id.0 == para
            &&& pending.availability_votes.len() == n_validators
            &&& pending.backers.len() == n_validators
        }) by {
        bitfields_decide_on_each_candidate(
            state,
            now,
            assigned,
            n_validators,
            signed,
            is_create_inherent,
            para,
        );
        assert(state.pending_availability.contains_key(para)
            == state.pending_availability_commitments.contains_key(para)) by {
            assert(state.pending_availability.dom().contains(para)
                == state.pending_availability_commitments.dom().contains(para));
        }
        if exists|core: int| #[trigger] has_core(assigned, assigned.len() as int, para, core) {
            let core = choose|core: int| #[trigger]
                has_core(assigned, assigned.len() as int, para, core);
            if state.pending_availability.contains_key(para) {
                assert(decided(
                    state,
                    after,
                    para,
                    counted(state.pending_availability[para], core, signed),
                    threshold(n_validators as int),
                ));
            }
        }
    }
    assert(after.pending_availability.dom() =~= after.pending_availability_commitments.dom());
}

/// A vote that was given stays given when bitfields are counted.
pub proof fn votes_only_grow(
    pending: PendingView<H256, BlockNumber>,
    core: int,
    signed: Seq<SignedBitfieldView>,
    validator: int,
)
    requires
        0 <= validator < pending.availability_votes.len(),
        pending.availability_votes[validator],
    ensures
        counted(pending, core, signed).availability_votes[validator],
{
}

/// Creating an inherent frees the same cores and leaves the same storage, but puts down no effect.
pub proof fn inherent_creation_only_drops_effects(
    state: PalletView,
    now: BlockNumber,
    assigned: Seq<Option<ParaId>>,
    n_validators: nat,
    signed: Seq<SignedBitfieldView>,
)
    ensures
        ({
            let applied = state.with_bitfields(now, assigned, n_validators as int, signed, false);
            let created = state.with_bitfields(now, assigned, n_validators as int, signed, true);
            &&& created.freed == applied.freed
            &&& created.state == (PalletView { effects: state.effects, ..applied.state })
        }),
{
    lemma_recorded_leaves_rest(state, signed, now);
    lemma_inherent_settled(
        state.recorded(signed, now),
        assigned,
        records_of(state, assigned, signed),
        threshold(n_validators as int),
    );
}

/// Settling for an inherent only drops the effects.
proof fn lemma_inherent_settled(
    start: PalletView,
    assigned: Seq<Option<ParaId>>,
    records: Seq<Option<PendingView<H256, BlockNumber>>>,
    needed: int,
)
    ensures
        ({
            let applied = settled(start, assigned, records, needed, false);
            let created = settled(start, assigned, records, needed, true);
            &&& created.freed == applied.freed
            &&& created.state == (PalletView { effects: start.effects, ..applied.state })
        }),
    decreases records.len(),
{
    if records.len() > 0 {
        lemma_inherent_settled(start, assigned, records.drop_last(), needed);
    }
}

/// The last of the bitfields of a validator.
pub open spec fn last_of(signed: Seq<SignedBitfieldView>, validator: u32, j: int) -> bool {
    &&& 0 <= j < signed.len()
    &&& signed[j].validator_index.0 == validator
    &&& forall|i: int| j < i < signed.len() ==> (#[trigger] signed[i]).validator_index.0
        != validator
}

/// Settling leaves the recorded bitfields.
proof fn lemma_settled_leaves_bitfields(
    start: PalletView,
    assigned: Seq<Option<ParaId>>,
    records: Seq<Option<PendingView<H256, BlockNumber>>>,
    needed: int,
    is_create_inherent: bool,
)
    ensures
        settled(
            start,
            assigned,
            records,
            needed,
            is_create_inherent,
        ).state.availability_bitfields == start.availability_bitfields,
    decreases records.len(),
{
    if records.len() > 0 {
        lemma_settled_leaves_bitfields(
            start,
            assigned,
            records.drop_last(),
            needed,
            is_create_inherent,
        );
    }
}

/// What is recorded of a validator after its bitfields were recorded one after the other.
proof fn lemma_recorded_latest(
    state: PalletView,
    signed: Seq<SignedBitfieldView>,
    now: BlockNumber,
    validator: u32,
)
    ensures
        ({
            let after = state.recorded(signed, now).availability_bitfields;
            &&& forall|j: int| #[trigger]
                last_of(signed, validator, j) ==> after.contains_key(validator)
                    && after[validator].bitfield == signed[j].bits
                    && after[validator].submitted_at == now
            &&& (forall|j: int|
                0 <= j < signed.len() ==> (#[trigger] signed[j]).validator_index.0 != validator)
                ==> after.contains_key(validator) == state.availability_bitfields.contains_key(
                validator,
            ) && (after.contains_key(validator) ==> after[validator]
                == state.availability_bitfields[validator])
        }),
    decreases signed.len(),
{
    if signed.len() > 0 {
        let rest = signed.drop_last();
        lemma_recorded_latest(state, rest, now, validator);
        assert forall|j: int| #[trigger] last_of(signed, validator, j) && j < rest.len() implies
            last_of(rest, validator, j) by {
            assert forall|i: int| j < i < rest.len() implies (
            #[trigger] rest[i]).validator_index.0 != validator by {
                assert(rest[i] == signed[i]);
            }
        }
        if signed.last().validator_index.0 == validator {
            assert forall|j: int| #[trigger] last_of(signed, validator, j) implies j
                == signed.len() - 1 by {
                if j < signed.len() - 1 {
                    assert(signed[signed.len() - 1].validator_index.0 != validator);
                }
            }
        } else {
            assert forall|j: int| #[trigger] last_of(signed, validator, j) implies last_of(
                rest,
                validator,
                j,
            ) by {}
            if forall|j: int|
                0 <= j < signed.len() ==> (#[trigger] signed[j]).validator_index.0 != validator {
                assert forall|j: int| 0 <= j < rest.len() implies (
                #[trigger] rest[j]).validator_index.0 != validator by {
                    assert(rest[j] == signed[j]);
                }
            }
        }
    }
}

/// The latest bitfield of each validator is on record: the last one among those that came in,
/// as submitted now, and what was on record before for the validators that submitted none.
pub proof fn latest_bitfield_is_recorded(
    state: PalletView,
    now: BlockNumber,
    assigned: Seq<Option<ParaId>>,
    n_validators: nat,
    signed: Seq<SignedBitfieldView>,
    is_create_inherent: bool,
    validator: u32,
)
    ensures
        ({
            let after = state.with_bitfields(
                now,
                assigned,
                n_validators as int,
                signed,
                is_create_inherent,
            ).state.availability_bitfields;
            &&& forall|j: int| #[trigger]
                last_of(signed, validator, j) ==> after.contains_key(validator)
                    && after[validator].bitfield == signed[j].bits
                    && after[validator].submitted_at == now
            &&& (forall|j: int|
                0 <= j < signed.len() ==> (#[trigger] signed[j]).validator_index.0 != validator)
                ==> after.contains_key(validator) == state.availability_bitfields.contains_key(
                validator,
            ) && (after.contains_key(validator) ==> after[validator]
                == state.availability_bitfields[validator])
        }),
{
    lemma_recorded_latest(state, signed, now, validator);
    lemma_settled_leaves_bitfields(
        state.recorded(signed, now),
        assigned,
        records_of(state, assigned, signed),
        threshold(n_validators as int),
        is_create_inherent,
    );
}

/// There is a last bitfield of each validator that submitted one.
proof fn lemma_some_bitfield_is_last(
    signed: Seq<SignedBitfieldView>,
    validator: u32,
    k: int,
) -> (j: int)
    requires
        0 <= k < signed.len(),
        signed[k].validator_index.0 == validator,
    ensures
        last_of(signed, validator, j),
    decreases signed.len() - k,
{
    if last_of(signed, validator, k) {
        k
    } else {
        let i = choose|i: int|
            k < i < signed.len() && (#[trigger] signed[i]).validator_index.0 == validator;
        lemma_some_bitfield_is_last(signed, validator, i)
    }
}

/// The same bitfield is on record of a validator.
spec fn same_record(
    a: Map<u32, BitfieldRecordView<BlockNumber>>,
    b: Map<u32, BitfieldRecordView<BlockNumber>>,
    validator: u32,
) -> bool {
    &&& a.contains_key(validator) == b.contains_key(validator)
    &&& a.contains_key(validator) ==> a[validator] == b[validator]
}

/// Records that are the same of each validator are the same.
proof fn lemma_same_records(
    a: Map<u32, BitfieldRecordView<BlockNumber>>,
    b: Map<u32, BitfieldRecordView<BlockNumber>>,
)
    requires
        forall|v: u32| #[trigger] same_record(a, b, v),
    ensures
        a == b,
{
    assert forall|v: u32| a.dom().contains(v) == b.dom().contains(v) by {
        assert(same_record(a, b, v));
    }
    assert forall|v: u32| #[trigger] a.dom().contains(v) implies a[v] == b[v] by {
        assert(same_record(a, b, v));
    }
    assert(a =~= b);
}

/// Recording the same bitfields again in the same block changes nothing.
proof fn lemma_recorded_again(
    state: PalletView,
    first: PalletView,
    signed: Seq<SignedBitfieldView>,
    now: BlockNumber,
)
    requires
        state.availability_bitfields == first.recorded(signed, now).availability_bitfields,
    ensures
        state.recorded(signed, now) == state,
{
    let had = state.availability_bitfields;
    let has = state.recorded(signed, now).availability_bitfields;
    lemma_recorded_leaves_rest(state, signed, now);
    assert forall|v: u32| #[trigger] same_record(had, has, v) by {
        lemma_recorded_latest(first, signed, now, v);
        lemma_recorded_latest(state, signed, now, v);
        if exists|k: int|
            0 <= k < signed.len() && (#[trigger] signed[k]).validator_index.0 == v {
            let k = choose|k: int|
                0 <= k < signed.len() && (#[trigger] signed[k]).validator_index.0 == v;
            let j = lemma_some_bitfield_is_last(signed, v, k);
            assert(last_of(signed, v, j));
            assert(had[v] =~= has[v]);
        }
    }
    lemma_same_records(had, has);
    assert(state.recorded(signed, now) =~= state);
}

/// Settling again with the same bitfields changes nothing and frees no core.
proof fn lemma_settled_again(
    state: PalletView,
    now: BlockNumber,
    later: BlockNumber,
    assigned: Seq<Option<ParaId>>,
    n_validators: nat,
    signed: Seq<SignedBitfieldView>,
    is_create_inherent: bool,
    n: int,
)
    requires
        one_core_each(assigned),
        0 <= n <= assigned.len(),
    ensures
        ({
            let once = state.with_bitfields(
                now,
                assigned,
                n_validators as int,
                signed,
                is_create_inherent,
            ).state;
            let start = once.recorded(signed, later);
            settled(
                start,
                assigned,
                records_of(once, assigned, signed).take(n),
                threshold(n_validators as int),
                is_create_inherent,
            ) == Settlement { state: start, freed: Seq::empty() }
        }),
    decreases n,
{
    let once = state.with_bitfields(
        now,
        assigned,
        n_validators as int,
        signed,
        is_create_inherent,
    ).state;
    let start = once.recorded(signed, later);
    let records = records_of(once, assigned, signed);
    let needed = threshold(n_validators as int);
    lemma_recorded_leaves_rest(once, signed, later);
    if n > 0 {
        lemma_settled_again(
            state,
            now,
            later,
            assigned,
            n_validators,
            signed,
            is_create_inherent,
            n - 1,
        );
        assert(records.take(n).drop_last() =~= records.take(n - 1));
        assert(records.take(n).last() == record_of(once, assigned[n - 1], n - 1, signed));
        if assigned[n - 1] is Some && once.pending_availability.contains_key(
            assigned[n - 1].unwrap().0,
        ) {
            let para = assigned[n - 1].unwrap();
            bitfields_decide_on_each_candidate(
                state,
                now,
                assigned,
                n_validators,
                signed,
                is_create_inherent,
                para.0,
            );
            assert(has_core(assigned, assigned.len() as int, para.0, n - 1));
            let pending = once.pending_availability[para.0];
            assert(counted(pending, n - 1, signed) =~= pending) by {
                assert(counted(pending, n - 1, signed).availability_votes
                    =~= pending.availability_votes);
            }
            assert(start.insert_pending(para, pending) =~= start);
        }
    } else {
        assert(records.take(n) =~= Seq::<Option<PendingView<H256, BlockNumber>>>::empty());
    }
}

/// The same bitfields applied twice do nothing the second time, where no para has two cores: no
/// core is freed and nothing is put down. In the same block the state stays as it is; in a later
/// one the bitfields are on record as submitted then.
pub proof fn bitfields_applied_twice_do_nothing_more(
    state: PalletView,
    now: BlockNumber,
    later: BlockNumber,
    assigned: Seq<Option<ParaId>>,
    n_validators: nat,
    signed: Seq<SignedBitfieldView>,
    is_create_inherent: bool,
)
    requires
        one_core_each(assigned),
    ensures
        ({
            let once = state.with_bitfields(
                now,
                assigned,
                n_validators as int,
                signed,
                is_create_inherent,
            ).state;
            let twice = once.with_bitfields(
                later,
                assigned,
                n_validators as int,
                signed,
                is_create_inherent,
            );
            &&& twice.freed == Seq::<(CoreIndex, CandidateHash)>::empty()
            &&& twice.state == once.recorded(signed, later)
            &&& twice.state.effects == once.effects
            &&& later == now ==> twice.state == once
        }),
{
    let once = state.with_bitfields(
        now,
        assigned,
        n_validators as int,
        signed,
        is_create_inherent,
    ).state;
    let records = records_of(once, assigned, signed);
    assert(records.take(records.len() as int) =~= records);
    lemma_settled_again(
        state,
        now,
        later,
        assigned,
        n_validators,
        signed,
        is_create_inherent,
        assigned.len() as int,
    );
    lemma_recorded_leaves_rest(once, signed, later);
    lemma_settled_leaves_bitfields(
        state.recorded(signed, now),
        assigned,
        records_of(state, assigned, signed),
        threshold(n_validators as int),
        is_create_inherent,
    );
    lemma_recorded_again(once, state, signed, now);
}

/// No two bitfields are from the same validator.
pub open spec fn one_bitfield_each(signed: Seq<SignedBitfieldView>) -> bool {
    forall|i: int, j: int|
        0 <= i < j < signed.len() ==> (#[trigger] signed[i]).validator_index != (
        #[trigger] signed[j]).validator_index
}

/// What the bitfields vouch for does not depend on their order.
proof fn lemma_vouched_in_any_order(
    a: Seq<SignedBitfieldView>,
    b: Seq<SignedBitfieldView>,
    core: int,
    validator: int,
)
    requires
        forall|field: SignedBitfieldView| a.contains(field) ==> b.contains(field),
        vouched(a, core, validator),
    ensures
        vouched(b, core, validator),
{
    let j = choose|j: int|
        0 <= j < a.len() && (#[trigger] a[j]).validator_index.0 == validator && core
            < a[j].bits.len() && a[j].bits[core];
    assert(a.contains(a[j]));
    let i = choose|i: int| 0 <= i < b.len() && b[i] == a[j];
    assert(b[i].validator_index.0 == validator);
}

/// What is on record does not depend on the order of bitfields from distinct validators.
proof fn lemma_recorded_in_any_order(
    state: PalletView,
    a: Seq<SignedBitfieldView>,
    b: Seq<SignedBitfieldView>,
    now: BlockNumber,
)
    requires
        one_bitfield_each(a),
        one_bitfield_each(b),
        forall|field: SignedBitfieldView| a.contains(field) == b.contains(field),
    ensures
        state.recorded(a, now) == state.recorded(b, now),
{
    let left = state.recorded(a, now).availability_bitfields;
    let right = state.recorded(b, now).availability_bitfields;
    lemma_recorded_leaves_rest(state, a, now);
    lemma_recorded_leaves_rest(state, b, now);
    assert forall|v: u32| #[trigger] same_record(left, right, v) by {
        lemma_recorded_latest(state, a, now, v);
        lemma_recorded_latest(state, b, now, v);
        if exists|k: int| 0 <= k < a.len() && (#[trigger] a[k]).validator_index.0 == v {
            let k = choose|k: int| 0 <= k < a.len() && (#[trigger] a[k]).validator_index.0 == v;
            assert(a.contains(a[k]));
            assert(b.contains(a[k]));
            let i = choose|i: int| 0 <= i < b.len() && b[i] == a[k];
            assert(last_of(a, v, k));
            assert(last_of(b, v, i));
            assert(left[v] =~= right[v]);
        } else {
            assert forall|j: int| 0 <= j < b.len() implies (#[trigger] b[j]).validator_index.0
                != v by {
                assert(b.contains(b[j]));
                assert(a.contains(b[j]));
                let k = choose|k: int| 0 <= k < a.len() && a[k] == b[j];
                assert(a[k].validator_index.0 == b[j].validator_index.0);
            }
        }
    }
    lemma_same_records(left, right);
    assert(state.recorded(a, now) =~= state.recorded(b, now));
}

/// The order of bitfields from distinct validators does not matter: the same state is left, and
/// the same cores are freed.
pub proof fn order_of_bitfields_does_not_matter(
    state: PalletView,
    now: BlockNumber,
    assigned: Seq<Option<ParaId>>,
    n_validators: nat,
    a: Seq<SignedBitfieldView>,
    b: Seq<SignedBitfieldView>,
    is_create_inherent: bool,
)
    requires
        one_bitfield_each(a),
        one_bitfield_each(b),
        forall|field: SignedBitfieldView| a.contains(field) == b.contains(field),
    ensures
        state.with_bitfields(now, assigned, n_validators as int, a, is_create_inherent)
            == state.with_bitfields(now, assigned, n_validators as int, b, is_create_inherent),
{
    lemma_recorded_in_any_order(state, a, b, now);
    assert forall|core: int, v: int| #[trigger] vouched(a, core, v) == vouched(b, core, v) by {
        if vouched(a, core, v) {
            lemma_vouched_in_any_order(a, b, core, v);
        }
        if vouched(b, core, v) {
            lemma_vouched_in_any_order(b, a, core, v);
        }
    }
    assert forall|i: int| 0 <= i < assigned.len() implies record_of(state, assigned[i], i, a)
        == record_of(state, assigned[i], i, b) by {
        if assigned[i] is Some && state.pending_availability.contains_key(
            assigned[i].unwrap().0,
        ) {
            let pending = state.pending_availability[assigned[i].unwrap().0];
            assert(counted(pending, i, a).availability_votes =~= counted(
                pending,
                i,
                b,
            ).availability_votes);
        }
    }
    assert(records_of(state, assigned, a) =~= records_of(state, assigned, b));
}

/// Whether the candidate of the para of a core becomes available: enough validators vouch for it.
pub open spec fn becomes_available(
    state: PalletView,
    assigned: Seq<Option<ParaId>>,
    signed: Seq<SignedBitfieldView>,
    needed: int,
    core: int,
) -> bool {
    &&& record_of(state, assigned[core], core, signed) matches Some(record) && ones(
        record.availability_votes,
    ).len() >= needed
    &&& state.pending_availability_commitments.contains_key(assigned[core].unwrap().0)
}

/// The cores among the first `n` whose candidates become available, ascending.
pub open spec fn available_cores(
    state: PalletView,
    assigned: Seq<Option<ParaId>>,
    signed: Seq<SignedBitfieldView>,
    needed: int,
    n: int,
) -> Seq<int>
    decreases n,
{
    if n <= 0 {
        Seq::empty()
    } else {
        let before = available_cores(state, assigned, signed, needed, n - 1);
        if becomes_available(state, assigned, signed, needed, n - 1) {
            before.push(n - 1)
        } else {
            before
        }
    }
}

/// The available cores are those whose candidates become available.
pub proof fn available_cores_become_available(
    state: PalletView,
    assigned: Seq<Option<ParaId>>,
    signed: Seq<SignedBitfieldView>,
    needed: int,
    n: int,
    core: int,
)
    ensures
        available_cores(state, assigned, signed, needed, n).contains(core) == (0 <= core < n
            && becomes_available(state, assigned, signed, needed, core)),
    decreases n,
{
    let cores = available_cores(state, assigned, signed, needed, n);
    if n > 0 {
        available_cores_become_available(state, assigned, signed, needed, n - 1, core);
        let before = available_cores(state, assigned, signed, needed, n - 1);
        if before.contains(core) {
            let i = choose|i: int| 0 <= i < before.len() && before[i] == core;
            assert(cores[i] == core);
        }
        if cores.contains(core) {
            let i = choose|i: int| 0 <= i < cores.len() && cores[i] == core;
            if i < before.len() {
                assert(before[i] == core);
            }
        }
        if core == n - 1 && becomes_available(state, assigned, signed, needed, core) {
            assert(cores[cores.len() - 1] == core);
        }
    }
}

/// The effects of including the candidates of the cores, one after the other.
pub open spec fn inclusions(
    state: PalletView,
    assigned: Seq<Option<ParaId>>,
    signed: Seq<SignedBitfieldView>,
    cores: Seq<int>,
) -> Seq<EffectView>
    decreases cores.len(),
{
    if cores.len() == 0 {
        Seq::empty()
    } else {
        let core = cores.last();
        inclusions(state, assigned, signed, cores.drop_last()) + enactment_of(
            record_of(state, assigned[core], core, signed).unwrap(),
            state.pending_availability_commitments[assigned[core].unwrap().0],
        )
    }
}

/// The effects of including the candidate of one of the cores stand in one piece among those of
/// all: what comes before them, and what comes after.
pub proof fn inclusions_split(
    state: PalletView,
    assigned: Seq<Option<ParaId>>,
    signed: Seq<SignedBitfieldView>,
    cores: Seq<int>,
    i: int,
) -> (parts: (Seq<EffectView>, Seq<EffectView>))
    requires
        0 <= i < cores.len(),
    ensures
        inclusions(state, assigned, signed, cores) == parts.0 + enactment_of(
            record_of(state, assigned[cores[i]], cores[i], signed).unwrap(),
            state.pending_availability_commitments[assigned[cores[i]].unwrap().0],
        ) + parts.1,
    decreases cores.len(),
{
    let rest = inclusions(state, assigned, signed, cores.drop_last());
    let last = enactment_of(
        record_of(state, assigned[cores.last()], cores.last(), signed).unwrap(),
        state.pending_availability_commitments[assigned[cores.last()].unwrap().0],
    );
    if i == cores.len() - 1 {
        assert(rest + last =~= rest + last + Seq::<EffectView>::empty());
        (rest, Seq::empty())
    } else {
        let (earlier, later) = inclusions_split(state, assigned, signed, cores.drop_last(), i);
        let own = enactment_of(
            record_of(state, assigned[cores[i]], cores[i], signed).unwrap(),
            state.pending_availability_commitments[assigned[cores[i]].unwrap().0],
        );
        assert(earlier + own + later + last =~= earlier + own + (later + last));
        (earlier, later + last)
    }
}

/// The cores that are freed, and the effects that are put down, as the cores are settled.
proof fn lemma_settled_freed(
    start: PalletView,
    state: PalletView,
    assigned: Seq<Option<ParaId>>,
    signed: Seq<SignedBitfieldView>,
    n: int,
    needed: int,
)
    requires
        one_core_each(assigned),
        0 <= n <= assigned.len(),
        start.pending_availability == state.pending_availability,
        start.pending_availability_commitments == state.pending_availability_commitments,
    ensures
        ({
            let done = settled(
                start,
                assigned,
                records_of(state, assigned, signed).take(n),
                needed,
                false,
            );
            let cores = available_cores(state, assigned, signed, needed, n);
            &&& done.freed == cores.map_values(
                |core: int|
                    {
                        let record = record_of(state, assigned[core], core, signed).unwrap();
                        (record.core, record.hash)
                    },
            )
            &&& done.state.effects == start.effects + inclusions(state, assigned, signed, cores)
        }),
    decreases n,
{
    let records = records_of(state, assigned, signed);
    let done = settled(start, assigned, records.take(n), needed, false);
    let cores = available_cores(state, assigned, signed, needed, n);
    let pair = |core: int|
        {
            let record = record_of(state, assigned[core], core, signed).unwrap();
            (record.core, record.hash)
        };
    if n > 0 {
        lemma_settled_freed(start, state, assigned, signed, n - 1, needed);
        let before = settled(start, assigned, records.take(n - 1), needed, false);
        let had = available_cores(state, assigned, signed, needed, n - 1);
        assert(records.take(n).drop_last() =~= records.take(n - 1));
        assert(records.take(n).last() == record_of(state, assigned[n - 1], n - 1, signed));
        if assigned[n - 1] is Some {
            let para = assigned[n - 1].unwrap().0;
            lemma_settled_para(start, state, assigned, signed, n - 1, needed, false, para);
            assert(assigned[n - 1] == Some(ParaId(para)));
            assert forall|core: int| !#[trigger] has_core(assigned, n - 1, para, core) by {
                if has_core(assigned, n - 1, para, core) {
                    assert(assigned[core] == assigned[n - 1]);
                }
            }
            assert(same_para(start, before.state, para));
        }
        if becomes_available(state, assigned, signed, needed, n - 1) {
            assert(cores.drop_last() =~= had);
            assert(cores.map_values(pair) =~= had.map_values(pair).push(pair(n - 1)));
            assert(done.state.effects =~= start.effects + inclusions(
                state,
                assigned,
                signed,
                cores,
            ));
        }
    } else {
        assert(records.take(n) =~= Seq::<Option<PendingView<H256, BlockNumber>>>::empty());
        assert(cores.map_values(pair) =~= Seq::<(CoreIndex, CandidateHash)>::empty());
        assert(done.state.effects =~= start.effects + inclusions(state, assigned, signed, cores));
    }
}

/// Where no para has two cores, the cores that are freed are those whose candidates become
/// available, in the order of the cores, and each of these candidates is included once, with the
/// votes counted in.
pub proof fn available_candidates_are_included_once(
    state: PalletView,
    now: BlockNumber,
    assigned: Seq<Option<ParaId>>,
    n_validators: nat,
    signed: Seq<SignedBitfieldView>,
)
    requires
        one_core_each(assigned),
    ensures
        ({
            let done = state.with_bitfields(now, assigned, n_validators as int, signed, false);
            let cores = available_cores(
                state,
                assigned,
                signed,
                threshold(n_validators as int),
                assigned.len() as int,
            );
            &&& done.freed == cores.map_values(
                |core: int|
                    {
                        let record = record_of(state, assigned[core], core, signed).unwrap();
                        (record.core, record.hash)
                    },
            )
            &&& done.state.effects == state.effects + inclusions(state, assigned, signed, cores)
        }),
{
    let records = records_of(state, assigned, signed);
    assert(records.take(records.len() as int) =~= records);
    lemma_recorded_leaves_rest(state, signed, now);
    lemma_settled_freed(
        state.recorded(signed, now),
        state,
        assigned,
        signed,
        assigned.len() as int,
        threshold(n_validators as int),
    );
}

/// Settling without bitfields, before the core of the one available candidate is reached and after.
proof fn lemma_settled_without_bitfields(
    state: PalletView,
    assigned: Seq<Option<ParaId>>,
    n: int,
    needed: int,
    para: ParaId,
    core: int,
)
    requires
        one_core_each(assigned),
        0 <= n <= assigned.len(),
        0 <= core < assigned.len(),
        assigned[core] == Some(para),
        state.pending_availability.contains_key(para.0),
        ones(state.pending_availability[para.0].availability_votes).len() >= needed,
        forall|i: int|
            0 <= i < assigned.len() && i != core && (#[trigger] assigned[i]) is Some
                && state.pending_availability.contains_key(assigned[i].unwrap().0) ==> ones(
                state.pending_availability[assigned[i].unwrap().0].availability_votes,
            ).len() < needed,
    ensures
        ({
            let done = settled(
                state,
                assigned,
                records_of(state, assigned, Seq::empty()).take(n),
                needed,
                false,
            );
            if n <= core {
                &&& done.state == state
                &&& done.freed == Seq::<(CoreIndex, CandidateHash)>::empty()
            } else {
                &&& done.state == state.force_enacted(para)
                &&& done.freed == if state.pending_availability_commitments.contains_key(para.0) {
                    seq![
                        (
                            state.pending_availability[para.0].core,
                            state.pending_availability[para.0].hash,
                        ),
                    ]
                } else {
                    Seq::empty()
                }
            }
        }),
    decreases n,
{
    let records = records_of(state, assigned, Seq::empty());
    if n > 0 {
        lemma_settled_without_bitfields(state, assigned, n - 1, needed, para, core);
        assert(records.take(n).drop_last() =~= records.take(n - 1));
        assert(records.take(n).last() == record_of(state, assigned[n - 1], n - 1, Seq::empty()));
        let before = settled(state, assigned, records.take(n - 1), needed, false);
        let after = settled(state, assigned, records.take(n), needed, false);
        if assigned[n - 1] is Some {
            let other = assigned[n - 1].unwrap();
            if state.pending_availability.contains_key(other.0) {
                let pending = state.pending_availability[other.0];
                assert(counted(pending, n - 1, Seq::empty()) =~= pending);
                if n - 1 == core {
                    assert(after.freed =~= if state.pending_availability_commitments.contains_key(
                        para.0,
                    ) {
                        seq![(pending.core, pending.hash)]
                    } else {
                        Seq::empty()
                    });
                } else {
                    assert(other != para) by {
                        if n - 1 < core {
                            assert(assigned[n - 1] != assigned[core]);
                        } else {
                            assert(assigned[core] != assigned[n - 1]);
                        }
                    }
                    assert(ones(pending.availability_votes).len() < needed);
                    assert(after.state =~= before.state);
                }
            }
        }
    } else {
        assert(records.take(n) =~= Seq::<Option<PendingView<H256, BlockNumber>>>::empty());
    }
}

/// To enact a candidate by force is what bitfields do to one that enough validators vouch for:
/// with no new bitfields, the para on one core, and no other candidate available, the state is the
/// same. The core is freed if the candidate is stored with its commitments.
pub proof fn force_enact_is_as_if_available(
    state: PalletView,
    now: BlockNumber,
    assigned: Seq<Option<ParaId>>,
    n_validators: nat,
    para: ParaId,
    core: int,
)
    requires
        one_core_each(assigned),
        0 <= core < assigned.len(),
        assigned[core] == Some(para),
        state.pending_availability.contains_key(para.0),
        ones(state.pending_availability[para.0].availability_votes).len() >= threshold(
            n_validators as int,
        ),
        forall|i: int|
            0 <= i < assigned.len() && i != core && (#[trigger] assigned[i]) is Some
                && state.pending_availability.contains_key(assigned[i].unwrap().0) ==> ones(
                state.pending_availability[assigned[i].unwrap().0].availability_votes,
            ).len() < threshold(n_validators as int),
    ensures
        ({
            let done = state.with_bitfields(
                now,
                assigned,
                n_validators as int,
                Seq::empty(),
                false,
            );
            &&& done.state == state.force_enacted(para)
            &&& done.freed == if state.pending_availability_commitments.contains_key(para.0) {
                seq![
                    (
                        state.pending_availability[para.0].core,
                        state.pending_availability[para.0].hash,
                    ),
                ]
            } else {
                Seq::empty()
            }
        }),
{
    let records = records_of(state, assigned, Seq::empty());
    assert(records.take(records.len() as int) =~= records);
    lemma_settled_without_bitfields(
        state,
        assigned,
        assigned.len() as int,
        threshold(n_validators as int),
        para,
        core,
    );
}

/// To enact by force does nothing to a para without a candidate, leaves none where there was one,
/// and keeps the state consistent.
pub proof fn force_enact_frees_the_para(state: PalletView, para: ParaId, n_validators: nat)
    ensures
        !state.pending_availability.contains_key(para.0) ==> state.force_enacted(para) == state,
        !state.force_enacted(para).pending_availability.contains_key(para.0),
        forall|other: u32|
            other != para.0 ==> #[trigger] same_para(state, state.force_enacted(para), other),
        state.consistent(n_validators) ==> state.force_enacted(para).consistent(n_validators),
{
    if state.consistent(n_validators) {
        let after = state.force_enacted(para);
        assert forall|p: u32|
            after.pending_availability.contains_key(p)
                == after.pending_availability_commitments.contains_key(p) by {
            assert(state.pending_availability.dom().contains(p)
                == state.pending_availability_commitments.dom().contains(p));
            assert(state.pending_availability.dom().contains(para.0)
                == state.pending_availability_commitments.dom().contains(para.0));
        }
        assert(after.pending_availability.dom() =~= after.pending_availability_commitments.dom());
        assert forall|p: u32| #[trigger] after.pending_availability.contains_key(p) implies {
            let pending = after.pending_availability[p];
            &&& pending.descriptor.para_id.0 == p
            &&& pending.availability_votes.len() == n_validators
            &&& pending.backers.len() == n_validators
        } by {
            assert(state.pending_availability.contains_key(p));
        }
    }
}

/// The candidate of a para is gone if the para is in the list, and left alone if it is not.
pub open spec fn para_cleaned_up(
    before: PalletView,
    after: PalletView,
    paras: Seq<ParaId>,
    para: u32,
) -> bool {
    if paras.contains(ParaId(para)) {
        after.is_free(ParaId(para))
    } else {
        same_para(before, after, para)
    }
}

/// The candidates of the paras are gone, and the other paras are left alone.
pub open spec fn cleaned_up(before: PalletView, after: PalletView, paras: Seq<ParaId>) -> bool {
    &&& after.availability_bitfields == before.availability_bitfields
    &&& forall|para: u32| #[trigger] para_cleaned_up(before, after, paras, para)
}

/// Timing out cleans up.
pub(crate) proof fn lemma_timed_out_cleans_up(state: PalletView, paras: Seq<ParaId>)
    ensures
        cleaned_up(state, state.timed_out(paras), paras),
    decreases paras.len(),
{
    if paras.len() > 0 {
        let rest = paras.drop_last();
        lemma_timed_out_cleans_up(state, rest);
        let before = state.timed_out(rest);
        let after = state.timed_out(paras);
        assert forall|para: u32| #[trigger] para_cleaned_up(state, after, paras, para) by {
            assert(para_cleaned_up(state, before, rest, para));
            if rest.contains(ParaId(para)) {
                let i = choose|i: int| 0 <= i < rest.len() && rest[i] == ParaId(para);
                assert(paras[i] == ParaId(para));
                assert(before.is_free(ParaId(para)));
            }
            if paras.contains(ParaId(para)) && !rest.contains(ParaId(para)) {
                let i = choose|i: int| 0 <= i < paras.len() && paras[i] == ParaId(para);
                if i < rest.len() {
                    assert(rest[i] == paras[i]);
                }
                assert(paras.last() == ParaId(para));
            }
            if paras.last() == ParaId(para) {
                assert(paras[paras.len() - 1] == ParaId(para));
            }
        }
    }
}

/// A walk comes by no key twice.
pub(crate) proof fn lemma_walk_has_no_repeats(keys: Seq<u32>, dom: Set<u32>)
    requires
        is_walk(keys, dom),
    ensures
        keys.no_duplicates(),
{
    assert forall|i: int, j: int| 0 <= i < j < keys.len() implies keys[i] != keys[j] by {
        assert(before(location(keys[i]), location(keys[j])));
    }
}

/// The paras that are picked are those whose pick is true, and none is picked twice.
pub(crate) proof fn lemma_picked_members(keys: Seq<u32>, picks: Seq<bool>)
    requires
        keys.no_duplicates(),
    ensures
        forall|i: int|
            0 <= i < keys.len() ==> picked(keys, picks).contains(ParaId(#[trigger] keys[i]))
                == picks[i],
        forall|para: ParaId| #[trigger]
            picked(keys, picks).contains(para) ==> keys.contains(para.0),
        picked(keys, picks).no_duplicates(),
    decreases keys.len(),
{
    if keys.len() > 0 {
        let rest = keys.drop_last();
        lemma_picked_members(rest, picks);
        let had = picked(rest, picks);
        let all = picked(keys, picks);
        assert(!had.contains(ParaId(keys.last()))) by {
            if had.contains(ParaId(keys.last())) {
                assert(rest.contains(keys.last()));
                let i = choose|i: int| 0 <= i < rest.len() && rest[i] == keys.last();
                assert(keys[i] == keys[keys.len() - 1]);
            }
        }
        assert forall|para: ParaId| #[trigger] all.contains(para) == (had.contains(para) || (
        picks[keys.len() - 1] && para == ParaId(keys.last()))) by {
            if had.contains(para) {
                let i = choose|i: int| 0 <= i < had.len() && had[i] == para;
                assert(all[i] == para);
            }
            if picks[keys.len() - 1] && para == ParaId(keys.last()) {
                assert(all[all.len() - 1] == para);
            }
            if all.contains(para) {
                let i = choose|i: int| 0 <= i < all.len() && all[i] == para;
                if i < had.len() {
                    assert(had[i] == para);
                }
            }
        }
        assert forall|i: int| 0 <= i < keys.len() implies all.contains(ParaId(#[trigger] keys[i]))
            == picks[i] by {
            if i < rest.len() {
                assert(rest[i] == keys[i]);
                assert(keys[i] != keys[keys.len() - 1]);
            }
        }
        assert forall|para: ParaId| #[trigger] all.contains(para) implies keys.contains(
            para.0,
        ) by {
            if had.contains(para) {
                assert(rest.contains(para.0));
                let i = choose|i: int| 0 <= i < rest.len() && rest[i] == para.0;
                assert(keys[i] == para.0);
            } else {
                assert(keys[keys.len() - 1] == para.0);
            }
        }
        assert(all.no_duplicates()) by {
            assert forall|i: int, j: int| 0 <= i < j < all.len() implies all[i] != all[j] by {
                if j == had.len() {
                    assert(had.contains(had[i]));
                }
            }
        }
    }
}

/// Collecting pending candidates removes exactly those that the predicate picks, with their
/// commitments, and nothing else of any para.
pub proof fn collected_candidates_are_the_picked(state: PalletView, picks: Seq<bool>, i: int)
    requires
        state.is_walked(),
        0 <= i < state.pending_walk().len(),
    ensures
        ({
            let para = state.pending_walk()[i];
            let after = state.timed_out(picked(state.pending_walk(), picks));
            &&& state.pending_availability.contains_key(para)
            &&& after.pending_availability.contains_key(para) == !picks[i]
            &&& picks[i] ==> after.is_free(ParaId(para))
            &&& !picks[i] ==> same_para(state, after, para)
        }),
{
    let keys = state.pending_walk();
    lemma_walk_has_no_repeats(keys, state.pending_availability.dom());
    lemma_picked_members(keys, picks);
    lemma_timed_out_cleans_up(state, picked(keys, picks));
    assert(keys.contains(keys[i]));
    assert(state.pending_availability.dom().contains(keys[i]));
    let after = state.timed_out(picked(keys, picks));
    assert(para_cleaned_up(state, after, picked(keys, picks), keys[i]));
}

/// Cleaning up keeps the state consistent.
proof fn lemma_clean_up_keeps_consistent(
    before: PalletView,
    after: PalletView,
    paras: Seq<ParaId>,
    n_validators: nat,
)
    requires
        before.consistent(n_validators),
        cleaned_up(before, after, paras),
    ensures
        after.consistent(n_validators),
{
    assert forall|para: u32| after.pending_availability.dom().contains(para)
        == after.pending_availability_commitments.dom().contains(para) by {
        assert(para_cleaned_up(before, after, paras, para));
        assert(before.pending_availability.dom().contains(para)
            == before.pending_availability_commitments.dom().contains(para));
    }
    assert(after.pending_availability.dom() =~= after.pending_availability_commitments.dom());
    assert forall|para: u32| #[trigger] after.pending_availability.contains_key(para) implies {
        let pending = after.pending_availability[para];
        &&& pending.descriptor.para_id.0 == para
        &&& pending.availability_votes.len() == n_validators
        &&& pending.backers.len() == n_validators
    } by {
        assert(para_cleaned_up(before, after, paras, para));
        assert(before.pending_availability.contains_key(para));
    }
}

/// Timing out keeps the state consistent.
pub proof fn time_out_keeps_consistent(
    state: PalletView,
    paras: Seq<ParaId>,
    n_validators: nat,
)
    requires
        state.consistent(n_validators),
    ensures
        state.timed_out(paras).consistent(n_validators),
{
    lemma_timed_out_cleans_up(state, paras);
    lemma_clean_up_keeps_consistent(state, state.timed_out(paras), paras, n_validators);
}

/// The event that tells that the candidate of a para timed out.
pub open spec fn time_out_event(state: PalletView, para: ParaId) -> EffectView {
    let pending = state.pending_availability[para.0];
    let commitments = state.pending_availability_commitments[para.0];
    EffectView::DepositEvent(
        EventView::CandidateTimedOut(
            CandidateReceipt {
                descriptor: pending.descriptor,
                commitments_hash: commitments.digest,
            },
            commitments.head_data,
            pending.core,
        ),
    )
}

/// Whether there is something to tell of a para when it is cleaned up: its candidate is stored
/// with its commitments.
pub open spec fn is_complete(state: PalletView, para: ParaId) -> bool {
    state.pending_availability.contains_key(para.0)
        && state.pending_availability_commitments.contains_key(para.0)
}

/// Each complete candidate that times out is told of once, in the order of the paras.
proof fn lemma_time_outs_told_once(state: PalletView, paras: Seq<ParaId>)
    requires
        paras.no_duplicates(),
    ensures
        state.timed_out(paras).effects == state.effects + paras.filter(
            |para: ParaId| is_complete(state, para),
        ).map_values(|para: ParaId| time_out_event(state, para)),
    decreases paras.len(),
{
    let complete = |para: ParaId| is_complete(state, para);
    let told = |para: ParaId| time_out_event(state, para);
    reveal(Seq::filter);
    if paras.len() > 0 {
        let rest = paras.drop_last();
        let para = paras.last();
        lemma_time_outs_told_once(state, rest);
        lemma_timed_out_cleans_up(state, rest);
        assert(!rest.contains(para)) by {
            if rest.contains(para) {
                let i = choose|i: int| 0 <= i < rest.len() && rest[i] == para;
                assert(paras[i] == paras[paras.len() - 1]);
            }
        }
        assert(para_cleaned_up(state, state.timed_out(rest), rest, para.0));
        let had = rest.filter(complete);
        if complete(para) {
            assert(paras.filter(complete) =~= had.push(para));
            assert(had.push(para).map_values(told) =~= had.map_values(told).push(told(para)));
        } else {
            assert(paras.filter(complete) =~= had);
        }
        assert(state.timed_out(paras).effects =~= state.effects + paras.filter(
            complete,
        ).map_values(told));
    } else {
        assert(state.timed_out(paras).effects =~= state.effects + paras.filter(
            complete,
        ).map_values(told));
    }
}

/// Each candidate that is collected with its commitments is told of once, in the order of the
/// storage. Of those without commitments nothing is told.
pub proof fn collected_candidates_are_told_once(state: PalletView, picks: Seq<bool>)
    requires
        state.is_walked(),
    ensures
        ({
            let paras = picked(state.pending_walk(), picks);
            state.timed_out(paras).effects == state.effects + paras.filter(
                |para: ParaId| state.pending_availability_commitments.contains_key(para.0),
            ).map_values(|para: ParaId| time_out_event(state, para))
        }),
{
    let keys = state.pending_walk();
    let paras = picked(keys, picks);
    lemma_walk_has_no_repeats(keys, state.pending_availability.dom());
    lemma_picked_members(keys, picks);
    lemma_time_outs_told_once(state, paras);
    assert forall|i: int| 0 <= i < paras.len() implies is_complete(state, #[trigger] paras[i])
        == state.pending_availability_commitments.contains_key(paras[i].0) by {
        assert(paras.contains(paras[i]));
        assert(keys.contains(paras[i].0));
        assert(state.pending_availability.dom().contains(paras[i].0));
    }
    lemma_filters_agree(
        paras,
        |para: ParaId| is_complete(state, para),
        |para: ParaId| state.pending_availability_commitments.contains_key(para.0),
    );
}

/// Predicates that agree on the paras of a list pick the same of them.
proof fn lemma_filters_agree(
    paras: Seq<ParaId>,
    f: spec_fn(ParaId) -> bool,
    g: spec_fn(ParaId) -> bool,
)
    requires
        forall|i: int| 0 <= i < paras.len() ==> f(#[trigger] paras[i]) == g(paras[i]),
    ensures
        paras.filter(f) == paras.filter(g),
    decreases paras.len(),
{
    reveal(Seq::filter);
    if paras.len() > 0 {
        let rest = paras.drop_last();
        assert forall|i: int| 0 <= i < rest.len() implies f(#[trigger] rest[i]) == g(rest[i]) by {
            assert(rest[i] == paras[i]);
        }
        lemma_filters_agree(rest, f, g);
        assert(f(paras[paras.len() - 1]) == g(paras[paras.len() - 1]));
    }
}

/// Evicting cleans up.
pub(crate) proof fn lemma_evicted_cleans_up(state: PalletView, paras: Seq<ParaId>)
    ensures
        cleaned_up(state, state.evicted(paras), paras),
{
    let raw = paras.map_values(|para: ParaId| para.0);
    let after = state.evicted(paras);
    assert forall|para: u32| #[trigger] para_cleaned_up(state, after, paras, para) by {
        if paras.contains(ParaId(para)) {
            let i = choose|i: int| 0 <= i < paras.len() && paras[i] == ParaId(para);
            assert(raw[i] == para);
            assert(raw.to_set().contains(para));
        } else if raw.to_set().contains(para) {
            let i = choose|i: int| 0 <= i < raw.len() && raw[i] == para;
            assert(paras[i] == ParaId(para));
        }
    }
}

/// After the disputed candidates were collected, none of them is pending; the candidates that are
/// not disputed are left alone, with their commitments, and nothing is told.
pub proof fn no_disputed_candidate_stays(
    state: PalletView,
    disputed: Seq<CandidateHash>,
    para: u32,
)
    requires
        state.is_walked(),
        state.pending_availability.contains_key(para),
    ensures
        ({
            let after = state.evicted(state.disputed_paras(disputed));
            &&& if disputed.contains(state.pending_availability[para].hash) {
                after.is_free(ParaId(para))
            } else {
                same_para(state, after, para)
            }
            &&& after.effects == state.effects
        }),
{
    let keys = state.pending_walk();
    let picks = state.disputed_picks(disputed);
    lemma_walk_has_no_repeats(keys, state.pending_availability.dom());
    lemma_picked_members(keys, picks);
    lemma_evicted_cleans_up(state, picked(keys, picks));
    assert(state.pending_availability.dom().contains(para));
    assert(keys.contains(para));
    let i = choose|i: int| 0 <= i < keys.len() && keys[i] == para;
    assert(picked(keys, picks).contains(ParaId(keys[i])) == picks[i]);
    let after = state.evicted(picked(keys, picks));
    assert(para_cleaned_up(state, after, picked(keys, picks), para));
}

/// States that agree on every para, on the bitfields and on the effects are the same.
proof fn lemma_same_states(a: PalletView, b: PalletView)
    requires
        a.availability_bitfields == b.availability_bitfields,
        a.effects == b.effects,
        forall|para: u32| #[trigger] same_para(a, b, para),
    ensures
        a == b,
{
    assert forall|para: u32| a.pending_availability.dom().contains(para)
        == b.pending_availability.dom().contains(para) by {
        assert(same_para(a, b, para));
    }
    assert forall|para: u32| #[trigger]
        a.pending_availability.dom().contains(para) implies a.pending_availability[para]
        == b.pending_availability[para] by {
        assert(same_para(a, b, para));
    }
    assert forall|para: u32| a.pending_availability_commitments.dom().contains(para)
        == b.pending_availability_commitments.dom().contains(para) by {
        assert(same_para(a, b, para));
    }
    assert forall|para: u32| #[trigger]
        a.pending_availability_commitments.dom().contains(
            para,
        ) implies a.pending_availability_commitments[para]
        == b.pending_availability_commitments[para] by {
        assert(same_para(a, b, para));
    }
    assert(a.pending_availability =~= b.pending_availability);
    assert(a.pending_availability_commitments =~= b.pending_availability_commitments);
    assert(a =~= b);
}

/// To collect disputed candidates is to collect pending ones by a predicate that is true of the
/// disputed, without a word: the same cores are cleaned up and the same state is left, but nothing
/// is told.
pub proof fn collecting_disputed_is_collecting_pending_in_silence(
    state: PalletView,
    disputed: Seq<CandidateHash>,
    picks: Seq<bool>,
)
    requires
        picks.len() == state.pending_walk().len(),
        forall|i: int|
            0 <= i < picks.len() ==> #[trigger] picks[i] == disputed.contains(
                state.pending_availability[state.pending_walk()[i]].hash,
            ),
    ensures
        ({
            let paras = picked(state.pending_walk(), picks);
            &&& state.evicted(state.disputed_paras(disputed)) == (PalletView {
                effects: state.effects,
                ..state.timed_out(paras)
            })
            &&& state.cores_of(state.disputed_paras(disputed)) == state.cores_of(paras)
        }),
{
    let paras = picked(state.pending_walk(), picks);
    assert(picks =~= state.disputed_picks(disputed));
    lemma_timed_out_cleans_up(state, paras);
    lemma_evicted_cleans_up(state, paras);
    let silent = PalletView { effects: state.effects, ..state.timed_out(paras) };
    let evicted = state.evicted(paras);
    assert forall|para: u32| #[trigger] same_para(evicted, silent, para) by {
        assert(para_cleaned_up(state, state.timed_out(paras), paras, para));
        assert(para_cleaned_up(state, evicted, paras, para));
    }
    lemma_same_states(evicted, silent);
}

/// A walk over some of the keys: those that are kept, in the order of the walk over all.
proof fn lemma_walk_over_some(keys: Seq<u32>, dom: Set<u32>, some: Set<u32>) -> (kept: Seq<u32>)
    requires
        is_walk(keys, dom),
        forall|k: u32| #[trigger] some.contains(k) ==> dom.contains(k),
    ensures
        is_walk(kept, some),
    decreases keys.len(),
{
    if keys.len() == 0 {
        assert forall|k: u32| some.contains(k) <==> keys.contains(k) by {
            if some.contains(k) {
                assert(dom.contains(k));
            }
        }
        keys
    } else {
        let last = keys.last();
        let rest = dom.remove(last);
        lemma_walk_drop_last(keys, dom);
        let others = some.remove(last);
        assert forall|k: u32| #[trigger] others.contains(k) implies rest.contains(k) by {
            assert(some.contains(k));
        }
        let kept = lemma_walk_over_some(keys.drop_last(), rest, others);
        if some.contains(last) {
            let all = kept.push(last);
            assert forall|k: u32| some.contains(k) <==> all.contains(k) by {
                if some.contains(k) && k != last {
                    assert(others.contains(k));
                    assert(kept.contains(k));
                    let i = choose|i: int| 0 <= i < kept.len() && kept[i] == k;
                    assert(all[i] == k);
                }
                if k == last {
                    assert(all[all.len() - 1] == k);
                }
                if all.contains(k) && k != last {
                    let i = choose|i: int| 0 <= i < all.len() && all[i] == k;
                    assert(kept[i] == k);
                    assert(kept.contains(k));
                    assert(others.contains(k));
                }
            }
            assert forall|i: int, j: int| 0 <= i < j < all.len() implies before(
                #[trigger] location(all[i]),
                #[trigger] location(all[j]),
            ) by {
                if j == kept.len() {
                    assert(kept.contains(kept[i]));
                    assert(others.contains(kept[i]));
                    assert(rest.contains(kept[i]));
                    assert(keys.drop_last().contains(kept[i]));
                    let m = choose|m: int|
                        0 <= m < keys.drop_last().len() && keys.drop_last()[m] == kept[i];
                    assert(before(location(keys[m]), location(keys[keys.len() - 1])));
                } else {
                    assert(before(location(kept[i]), location(kept[j])));
                }
            }
            all
        } else {
            assert(others =~= some);
            kept
        }
    }
}

/// Cleaning up leaves a state that is walked.
proof fn lemma_cleaned_up_is_walked(before: PalletView, after: PalletView, paras: Seq<ParaId>)
    requires
        before.is_walked(),
        cleaned_up(before, after, paras),
    ensures
        after.is_walked(),
{
    assert forall|k: u32| #[trigger]
        after.pending_availability.dom().contains(k) implies before.pending_availability.dom().contains(
        k,
    ) by {
        assert(para_cleaned_up(before, after, paras, k));
    }
    let kept = lemma_walk_over_some(
        before.pending_walk(),
        before.pending_availability.dom(),
        after.pending_availability.dom(),
    );
    assert(is_walk(kept, after.pending_availability.dom()));
}

/// The paras whose candidates are disputed are those with a candidate on the list.
pub(crate) proof fn lemma_disputed_paras(state: PalletView, disputed: Seq<CandidateHash>, para: u32)
    requires
        state.is_walked(),
    ensures
        state.disputed_paras(disputed).contains(ParaId(para)) == (
        state.pending_availability.contains_key(para) && disputed.contains(
            state.pending_availability[para].hash,
        )),
{
    let keys = state.pending_walk();
    let picks = state.disputed_picks(disputed);
    let paras = picked(keys, picks);
    lemma_walk_has_no_repeats(keys, state.pending_availability.dom());
    lemma_picked_members(keys, picks);
    if paras.contains(ParaId(para)) {
        assert(keys.contains(ParaId(para).0));
    }
    assert(state.pending_availability.dom().contains(para) == keys.contains(para));
    if keys.contains(para) {
        let i = choose|i: int| 0 <= i < keys.len() && keys[i] == para;
        assert(paras.contains(ParaId(keys[i])) == picks[i]);
    }
}

/// To collect two lists of disputed candidates in turn is to collect both at once: the same state
/// is left, and each para is cleaned up in one of the two turns.
pub proof fn disputed_lists_in_turn_are_their_union(
    state: PalletView,
    first: Seq<CandidateHash>,
    second: Seq<CandidateHash>,
)
    requires
        state.is_walked(),
    ensures
        ({
            let between = state.evicted(state.disputed_paras(first));
            let both = state.disputed_paras(first + second);
            &&& between.evicted(between.disputed_paras(second)) == state.evicted(both)
            &&& forall|para: ParaId| #[trigger]
                both.contains(para) == (state.disputed_paras(first).contains(para)
                    || between.disputed_paras(second).contains(para))
            &&& forall|para: ParaId|
                !(#[trigger] state.disputed_paras(first).contains(para)
                    && between.disputed_paras(second).contains(para))
        }),
{
    let once = state.disputed_paras(first);
    let between = state.evicted(once);
    let then = between.disputed_paras(second);
    let both = state.disputed_paras(first + second);
    lemma_evicted_cleans_up(state, once);
    lemma_cleaned_up_is_walked(state, between, once);
    lemma_evicted_cleans_up(between, then);
    lemma_evicted_cleans_up(state, both);
    assert forall|para: ParaId|
        #![trigger both.contains(para)]
        #![trigger once.contains(para)]
        both.contains(para) == (once.contains(para) || then.contains(para)) && !(once.contains(
            para,
        ) && then.contains(para)) by {
        assert(ParaId(para.0) == para);
        lemma_disputed_paras(state, first, para.0);
        lemma_disputed_paras(between, second, para.0);
        lemma_disputed_paras(state, first + second, para.0);
        assert(para_cleaned_up(state, between, once, para.0));
        if state.pending_availability.contains_key(para.0) {
            lemma_in_either(first, second, state.pending_availability[para.0].hash);
        }
    }
    let left = between.evicted(then);
    let right = state.evicted(both);
    assert forall|para: u32| #[trigger] same_para(left, right, para) by {
        assert(para_cleaned_up(state, between, once, para));
        assert(para_cleaned_up(between, left, then, para));
        assert(para_cleaned_up(state, right, both, para));
        assert(both.contains(ParaId(para)) == (once.contains(ParaId(para)) || then.contains(
            ParaId(para),
        )));
    }
    lemma_same_states(left, right);
}

/// What is on two lists together is on one of them.
proof fn lemma_in_either(a: Seq<CandidateHash>, b: Seq<CandidateHash>, hash: CandidateHash)
    ensures
        (a + b).contains(hash) == (a.contains(hash) || b.contains(hash)),
{
    let all = a + b;
    if a.contains(hash) {
        let i = choose|i: int| 0 <= i < a.len() && a[i] == hash;
        assert(all[i] == hash);
    }
    if b.contains(hash) {
        let i = choose|i: int| 0 <= i < b.len() && b[i] == hash;
        assert(all[a.len() + i] == hash);
    }
    if all.contains(hash) {
        let i = choose|i: int| 0 <= i < all.len() && all[i] == hash;
        if i < a.len() {
            assert(a[i] == hash);
        } else {
            assert(b[i - a.len()] == hash);
        }
    }
}

/// Collecting disputed candidates keeps the state consistent.
pub proof fn eviction_keeps_consistent(
    state: PalletView,
    paras: Seq<ParaId>,
    n_validators: nat,
)
    requires
        state.consistent(n_validators),
    ensures
        state.evicted(paras).consistent(n_validators),
{
    lemma_evicted_cleans_up(state, paras);
    lemma_clean_up_keeps_consistent(state, state.evicted(paras), paras, n_validators);
}

/// The bitfields are in order: each has the expected size, marks no disputed core, and comes from a
/// validator of the set that signed it; and the validators ascend.
pub open spec fn in_good_order(
    signed: Seq<SignedBitfieldView>,
    disputed: Seq<bool>,
    expected_bits: int,
    n_validators: int,
    signatures: Seq<bool>,
) -> bool {
    &&& disputed.len() == expected_bits
    &&& forall|j: int|
        0 <= j < signed.len() ==> {
            &&& (#[trigger] signed[j]).bits.len() == expected_bits
            &&& !overlap(signed[j].bits, disputed)
            &&& signed[j].validator_index.0 < n_validators
            &&& signatures[j]
        }
    &&& forall|i: int, j: int|
        0 <= i < j < signed.len() ==> (#[trigger] signed[i]).validator_index.0 < (
        #[trigger] signed[j]).validator_index.0
}

/// Bitfields are taken if and only if they are in order. So of each validator at most one is.
pub proof fn bitfields_are_taken_when_in_good_order(
    signed: Seq<SignedBitfieldView>,
    disputed: Seq<bool>,
    expected_bits: int,
    n_validators: int,
    signatures: Seq<bool>,
)
    ensures
        refusal(signed, disputed, expected_bits, n_validators, signatures) is None
            <==> in_good_order(signed, disputed, expected_bits, n_validators, signatures),
{
    if refusal(signed, disputed, expected_bits, n_validators, signatures) is None {
        no_fault_among(
            signed,
            signed.len() as int,
            disputed,
            expected_bits,
            n_validators,
            signatures,
        );
        assert forall|j: int| 0 <= j < signed.len() implies {
            &&& (#[trigger] signed[j]).bits.len() == expected_bits
            &&& !overlap(signed[j].bits, disputed)
            &&& signed[j].validator_index.0 < n_validators
            &&& signatures[j]
            &&& j > 0 ==> signed[j - 1].validator_index.0 < signed[j].validator_index.0
        } by {
            assert(bitfield_fault(
                signed,
                j,
                disputed,
                expected_bits,
                n_validators,
                signatures[j],
            ) is None);
        }
        assert forall|i: int, j: int| 0 <= i < j < signed.len() implies (
        #[trigger] signed[i]).validator_index.0 < (#[trigger] signed[j]).validator_index.0 by {
            lemma_validators_ascend(signed, i, j);
        }
    }
    if in_good_order(signed, disputed, expected_bits, n_validators, signatures) {
        lemma_no_fault_in_good_order(
            signed,
            signed.len() as int,
            disputed,
            expected_bits,
            n_validators,
            signatures,
        );
    }
}

/// Validators that ascend step by step ascend throughout.
proof fn lemma_validators_ascend(signed: Seq<SignedBitfieldView>, i: int, j: int)
    requires
        0 <= i < j < signed.len(),
        forall|k: int|
            0 < k < signed.len() ==> signed[k - 1].validator_index.0 < (
            #[trigger] signed[k]).validator_index.0,
    ensures
        signed[i].validator_index.0 < signed[j].validator_index.0,
    decreases j,
{
    assert(signed[j - 1].validator_index.0 < signed[j].validator_index.0);
    if i < j - 1 {
        lemma_validators_ascend(signed, i, j - 1);
    }
}

/// Bitfields in order have no fault.
proof fn lemma_no_fault_in_good_order(
    signed: Seq<SignedBitfieldView>,
    n: int,
    disputed: Seq<bool>,
    expected_bits: int,
    n_validators: int,
    signatures: Seq<bool>,
)
    requires
        0 <= n <= signed.len(),
        in_good_order(signed, disputed, expected_bits, n_validators, signatures),
    ensures
        first_fault(signed, n, disputed, expected_bits, n_validators, signatures) is None,
    decreases n,
{
    if n > 0 {
        lemma_no_fault_in_good_order(
            signed,
            n - 1,
            disputed,
            expected_bits,
            n_validators,
            signatures,
        );
        assert(signed[n - 1].bits.len() == expected_bits);
        if n > 1 {
            assert(signed[n - 2].validator_index.0 < signed[n - 1].validator_index.0);
        }
    }
}

} // verus!
