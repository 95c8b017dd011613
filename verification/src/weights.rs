//! Weights: how long an operation takes. All sums saturate at the largest weight.
use crate::pallet::effects_view;
use crate::pallet::enactment;
use crate::pallet::Effect;
use crate::pallet::EffectView;
use crate::primitives::BlockNumber;
use crate::primitives::CandidateDescriptor;
use crate::primitives::CommitmentsView;
use crate::primitives::CoreIndex;
use crate::primitives::GroupIndex;
use crate::primitives::H256;
use frame_support::weights::RuntimeDbWeight;
use vstd::prelude::*;

verus! {

/// A weight.
pub type Weight = u64;

/// What one read and one write of the database weigh.
#[derive(Clone, Copy, PartialEq, Eq, Structural, Debug)]
pub struct DbWeight {
    pub read: Weight,
    pub write: Weight,
}

/// A weight, or the largest one if there is none so large.
pub open spec fn cap(weight: int) -> Weight {
    if weight > u64::MAX {
        u64::MAX
    } else {
        weight as u64
    }
}

/// Calls `RuntimeDbWeight::reads`: the weight of `count` reads, saturating.
#[verifier::external_body]
fn runtime_reads(db: &DbWeight, count: u64) -> (weight: Weight)
    ensures
        weight == cap(db.read * count),
{
    RuntimeDbWeight { read: db.read, write: db.write }.reads(count).ref_time()
}

/// Calls `RuntimeDbWeight::writes`: the weight of `count` writes, saturating.
#[verifier::external_body]
fn runtime_writes(db: &DbWeight, count: u64) -> (weight: Weight)
    ensures
        weight == cap(db.write * count),
{
    RuntimeDbWeight { read: db.read, write: db.write }.writes(count).ref_time()
}

/// Calls `RuntimeDbWeight::reads_writes`: the weight of reads and writes together, saturating.
#[verifier::external_body]
fn runtime_reads_writes(db: &DbWeight, reads: u64, writes: u64) -> (weight: Weight)
    ensures
        weight == cap(db.read * reads + db.write * writes),
{
    RuntimeDbWeight { read: db.read, write: db.write }.reads_writes(reads, writes).ref_time()
}

impl DbWeight {
    /// The weight of `count` reads.
    pub fn reads(&self, count: u64) -> (weight: Weight)
        ensures
            weight == cap(self.read * count),
    {
        runtime_reads(self, count)
    }

    /// The weight of `count` writes.
    pub fn writes(&self, count: u64) -> (weight: Weight)
        ensures
            weight == cap(self.write * count),
    {
        runtime_writes(self, count)
    }

    /// The weight of reads and writes together.
    pub fn reads_writes(&self, reads: u64, writes: u64) -> (weight: Weight)
        ensures
            weight == cap(self.read * reads + self.write * writes),
    {
        runtime_reads_writes(self, reads, writes)
    }
}

/// A weight that comes `count` times.
fn times(weight: Weight, count: u32) -> (total: Weight)
    ensures
        total == cap(weight * count),
{
    match weight.checked_mul(count as u64) {
        Some(total) => total,
        None => u64::MAX,
    }
}

/// Whether an effect weighs something: the calls of the sibling pallets do, rewards and events do
/// not.
pub open spec fn weighs(effect: EffectView) -> bool {
    match effect {
        EffectView::RewardBacking(_) => false,
        EffectView::RewardBitfields(_) => false,
        EffectView::DepositEvent(_) => false,
        _ => true,
    }
}

/// What the first `n` effects weigh together, given what carrying out each of them took.
pub open spec fn effects_weight(effects: Seq<EffectView>, took: Seq<Weight>, n: int) -> int
    decreases n,
{
    if n <= 0 {
        0
    } else if weighs(effects[n - 1]) {
        effects_weight(effects, took, n - 1) + took[n - 1]
    } else {
        effects_weight(effects, took, n - 1)
    }
}

/// More effects do not weigh less.
proof fn lemma_effects_weight_grows(
    effects: Seq<EffectView>,
    took: Seq<Weight>,
    n: int,
    m: int,
)
    requires
        0 <= n <= m,
    ensures
        0 <= effects_weight(effects, took, n) <= effects_weight(effects, took, m),
    decreases m,
{
    if n < m {
        lemma_effects_weight_grows(effects, took, n, m - 1);
    } else if n > 0 {
        lemma_effects_weight_grows(effects, took, n - 1, n - 1);
    }
}

impl Effect {
    /// Whether the effect weighs something.
    pub fn weighs(&self) -> (r: bool)
        ensures
            r == weighs(self@),
    {
        match self {
            Effect::RewardBacking(_) => false,
            Effect::RewardBitfields(_) => false,
            Effect::DepositEvent(_) => false,
            _ => true,
        }
    }
}

/// The weight of including a candidate, given what carrying out each of its effects took: the
/// configuration is read, rewards and events weigh nothing, and every other effect counts once.
pub fn enactment_weight(db: &DbWeight, effects: &Vec<Effect>, took: &Vec<Weight>) -> (weight:
    Weight)
    requires
        took@.len() == effects@.len(),
        db.read + effects_weight(effects_view(effects@), took@, effects@.len() as int) <= u64::MAX,
    ensures
        weight == db.read + effects_weight(
            effects_view(effects@),
            took@,
            effects@.len() as int,
        ),
{
    // The initial weight is the read of the configuration.
    let mut weight = db.reads_writes(1, 0);
    for i in 0..effects.len()
        invariant
            took@.len() == effects@.len(),
            db.read + effects_weight(effects_view(effects@), took@, effects@.len() as int)
                <= u64::MAX,
            weight == db.read + effects_weight(effects_view(effects@), took@, i as int),
    {
        proof {
            lemma_effects_weight_grows(
                effects_view(effects@),
                took@,
                i + 1,
                effects@.len() as int,
            );
            assert(effects_view(effects@)[i as int] == effects@[i as int]@);
        }
        if effects[i].weighs() {
            weight = weight + took[i];
        }
    }
    weight
}

/// What including a candidate puts down weighs what its calls of the sibling pallets took, each
/// counted once: the code upgrade if there is one, the downward queue, the upward messages, the
/// horizontal messages to the para and from it, and the new head.
pub proof fn an_enactment_weighs_its_sibling_calls(
    relay_parent_number: BlockNumber,
    descriptor: CandidateDescriptor<H256>,
    commitments: CommitmentsView,
    backers: Seq<bool>,
    availability_votes: Seq<bool>,
    core_index: CoreIndex,
    backing_group: GroupIndex,
    took: Seq<Weight>,
)
    ensures
        ({
            let effects = enactment(
                relay_parent_number,
                descriptor,
                commitments,
                backers,
                availability_votes,
                core_index,
                backing_group,
            );
            let weight = effects_weight(effects, took, effects.len() as int);
            if commitments.new_validation_code is Some {
                &&& effects.len() == 9
                &&& effects[2] is ScheduleCodeUpgrade
                &&& effects[3] is PruneDmq
                &&& effects[4] is ReceiveUpwardMessages
                &&& effects[5] is PruneHrmp
                &&& effects[6] is QueueOutboundHrmp
                &&& effects[8] is NoteNewHead
                &&& weight == took[2] + took[3] + took[4] + took[5] + took[6] + took[8]
            } else {
                &&& effects.len() == 8
                &&& effects[2] is PruneDmq
                &&& effects[3] is ReceiveUpwardMessages
                &&& effects[4] is PruneHrmp
                &&& effects[5] is QueueOutboundHrmp
                &&& effects[7] is NoteNewHead
                &&& weight == took[2] + took[3] + took[4] + took[5] + took[7]
            }
        }),
{
    reveal_with_fuel(effects_weight, 10);
}

/// Weight functions for `pallet_elections_phragmen`.
#[derive(Clone, Copy, PartialEq, Eq, Structural, Debug)]
pub struct WeightInfo(pub DbWeight);

impl WeightInfo {
    /// Reads the candidates, the members, the runners-up, the voting and the locks, and writes the
    /// last two.
    pub fn vote_equal(&self, v: u32) -> (weight: Weight)
        ensures
            weight == cap(21_240_000 + 190_000 * v + self.0.read * 5 + self.0.write * 2),
    {
        21_240_000u64.saturating_add(times(190_000, v)).saturating_add(
            self.0.reads(5),
        ).saturating_add(self.0.writes(2))
    }

    /// Reads the candidates, the members, the runners-up, the voting and the locks, and writes the
    /// last two.
    pub fn vote_more(&self, v: u32) -> (weight: Weight)
        ensures
            weight == cap(33_409_000 + 152_000 * v + self.0.read * 5 + self.0.write * 2),
    {
        33_409_000u64.saturating_add(times(152_000, v)).saturating_add(
            self.0.reads(5),
        ).saturating_add(self.0.writes(2))
    }

    /// Reads the candidates, the members, the runners-up, the voting and the locks, and writes the
    /// last two.
    pub fn vote_less(&self, v: u32) -> (weight: Weight)
        ensures
            weight == cap(32_961_000 + 180_000 * v + self.0.read * 5 + self.0.write * 2),
    {
        32_961_000u64.saturating_add(times(180_000, v)).saturating_add(
            self.0.reads(5),
        ).saturating_add(self.0.writes(2))
    }

    /// Reads and writes the voting and the locks.
    pub fn remove_voter(&self) -> (weight: Weight)
        ensures
            weight == cap(29_515_000 + self.0.read * 2 + self.0.write * 2),
    {
        29_515_000u64.saturating_add(self.0.reads(2)).saturating_add(self.0.writes(2))
    }

    /// Reads the candidates, the members and the runners-up, and writes the candidates.
    pub fn submit_candidacy(&self, c: u32) -> (weight: Weight)
        ensures
            weight == cap(30_999_000 + 135_000 * c + self.0.read * 3 + self.0.write * 1),
    {
        30_999_000u64.saturating_add(times(135_000, c)).saturating_add(
            self.0.reads(3),
        ).saturating_add(self.0.writes(1))
    }

    /// Reads and writes the candidates.
    pub fn renounce_candidacy_candidate(&self, c: u32) -> (weight: Weight)
        ensures
            weight == cap(25_741_000 + 70_000 * c + self.0.read * 1 + self.0.write * 1),
    {
        25_741_000u64.saturating_add(times(70_000, c)).saturating_add(
            self.0.reads(1),
        ).saturating_add(self.0.writes(1))
    }

    /// Reads the members, the runners-up, and the prime and the proposals of the council; writes the
    /// first three and the members of the council.
    pub fn renounce_candidacy_members(&self) -> (weight: Weight)
        ensures
            weight == cap(39_440_000 + self.0.read * 4 + self.0.write * 4),
    {
        39_440_000u64.saturating_add(self.0.reads(4)).saturating_add(self.0.writes(4))
    }

    /// Reads and writes the runners-up.
    pub fn renounce_candidacy_runners_up(&self) -> (weight: Weight)
        ensures
            weight == cap(27_483_000 + self.0.read * 1 + self.0.write * 1),
    {
        27_483_000u64.saturating_add(self.0.reads(1)).saturating_add(self.0.writes(1))
    }

    /// A fixed weight, whatever the database weighs.
    pub fn remove_member_without_replacement(&self) -> (weight: Weight)
        ensures
            weight == 2_000_000_000_000,
    {
        2_000_000_000_000
    }

    /// Reads the runners-up, the members, the account, and the prime and the proposals of the
    /// council; writes the first four and the members of the council.
    pub fn remove_member_with_replacement(&self) -> (weight: Weight)
        ensures
            weight == cap(54_903_000 + self.0.read * 5 + self.0.write * 5),
    {
        54_903_000u64.saturating_add(self.0.reads(5)).saturating_add(self.0.writes(5))
    }

    /// Reads the runners-up.
    pub fn remove_member_wrong_refund(&self) -> (weight: Weight)
        ensures
            weight == cap(5_203_000 + self.0.read * 1),
    {
        5_203_000u64.saturating_add(self.0.reads(1))
    }

    /// For each of the `v` voters, of whom `d` are defunct, reads and writes the voting, the locks
    /// and the account. Reads the voting, the members, the runners-up and the candidates besides.
    pub fn clean_defunct_voters(&self, v: u32, d: u32) -> (weight: Weight)
        ensures
            weight == cap(
                47_366_000 * v + 240_000 * d + self.0.read * 4 + self.0.read * (3 * v)
                    + self.0.write * (3 * v),
            ),
    {
        let each = times(3, v);
        proof {
            lemma_product_natural(self.0.read as int, 3 * v);
            lemma_product_natural(self.0.write as int, 3 * v);
        }
        0u64.saturating_add(times(47_366_000, v)).saturating_add(times(240_000, d)).saturating_add(
            self.0.reads(4),
        ).saturating_add(self.0.reads(each)).saturating_add(self.0.writes(each))
    }

    /// For `c` candidates, `v` voters and `e` votes: reads twice and writes once for each candidate,
    /// and reads once for each voter.
    pub fn election_phragmen(&self, c: u32, v: u32, e: u32) -> (weight: Weight)
        ensures
            weight == cap(
                135_428_000 * c + 103_462_000 * v + 7_116_000 * e + self.0.read * (2 * c)
                    + self.0.read * (1 * v) + self.0.write * (1 * c),
            ),
    {
        proof {
            lemma_product_natural(self.0.read as int, 2 * c);
            lemma_product_natural(self.0.read as int, 1 * v);
            lemma_product_natural(self.0.write as int, 1 * c);
        }
        0u64.saturating_add(times(135_428_000, c)).saturating_add(
            times(103_462_000, v),
        ).saturating_add(times(7_116_000, e)).saturating_add(
            self.0.reads(times(2, c)),
        ).saturating_add(self.0.reads(times(1, v))).saturating_add(self.0.writes(times(1, c)))
    }
}

/// A product of natural numbers is one.
proof fn lemma_product_natural(a: int, b: int)
    by (nonlinear_arith)
    requires
        0 <= a,
        0 <= b,
    ensures
        0 <= a * b,
{
}

} // verus!
