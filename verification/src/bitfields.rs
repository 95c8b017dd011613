//! Incoming bitfields: which are refused, and what those do that are not.
use crate::availability::looked_up;
use crate::availability::threshold;
use crate::bits::ones;
use crate::inclusion_laws::votes_for_core;
use crate::pallet::Error;
use crate::pallet::Pallet;
use crate::primitives::signed_view;
use crate::primitives::CandidateHash;
use crate::primitives::ChainContext;
use crate::primitives::CoreIndex;
use crate::primitives::DisputedBitfield;
use crate::primitives::ParaId;
use crate::primitives::SignedBitfieldView;
use crate::primitives::SigningContext;
use crate::primitives::UncheckedSignedAvailabilityBitfield;
use crate::primitives::ValidatorId;
use vstd::prelude::*;

verus! {

/// Whether two bitfields have a one at the same place.
pub open spec fn overlap(a: Seq<bool>, b: Seq<bool>) -> bool {
    exists|i: int| 0 <= i < a.len() && i < b.len() && #[trigger] a[i] && b[i]
}

/// What is wrong with the `j`th bitfield, given whether its signature is valid.
pub open spec fn bitfield_fault(
    signed: Seq<SignedBitfieldView>,
    j: int,
    disputed: Seq<bool>,
    expected_bits: int,
    n_validators: int,
    signature_valid: bool,
) -> Option<Error> {
    if signed[j].bits.len() != expected_bits {
        Some(Error::WrongBitfieldSize)
    } else if overlap(signed[j].bits, disputed) {
        Some(Error::BitfieldReferencesFreedCore)
    } else if j > 0 && signed[j - 1].validator_index.0 >= signed[j].validator_index.0 {
        Some(Error::BitfieldDuplicateOrUnordered)
    } else if signed[j].validator_index.0 >= n_validators {
        Some(Error::ValidatorIndexOutOfBounds)
    } else if !signature_valid {
        Some(Error::InvalidBitfieldSignature)
    } else {
        None
    }
}

/// What is wrong with the first faulty one of the first `n` bitfields.
pub open spec fn first_fault(
    signed: Seq<SignedBitfieldView>,
    n: int,
    disputed: Seq<bool>,
    expected_bits: int,
    n_validators: int,
    signatures: Seq<bool>,
) -> Option<Error>
    decreases n,
{
    if n <= 0 {
        None
    } else {
        match first_fault(signed, n - 1, disputed, expected_bits, n_validators, signatures) {
            Some(error) => Some(error),
            None => bitfield_fault(
                signed,
                n - 1,
                disputed,
                expected_bits,
                n_validators,
                signatures[n - 1],
            ),
        }
    }
}

/// Why the bitfields are refused, if they are.
pub open spec fn refusal(
    signed: Seq<SignedBitfieldView>,
    disputed: Seq<bool>,
    expected_bits: int,
    n_validators: int,
    signatures: Seq<bool>,
) -> Option<Error> {
    if disputed.len() != expected_bits {
        Some(Error::WrongBitfieldSize)
    } else {
        first_fault(
            signed,
            signed.len() as int,
            disputed,
            expected_bits,
            n_validators,
            signatures,
        )
    }
}

/// The answers of a signature check: of each bitfield that has no other fault, and none before it,
/// whether it bears the signature of the validator with its index.
pub open spec fn signatures_checked<
    G: Fn(&UncheckedSignedAvailabilityBitfield, &SigningContext, &ValidatorId) -> bool,
>(
    verify: G,
    bitfields: Seq<UncheckedSignedAvailabilityBitfield>,
    disputed: Seq<bool>,
    expected_bits: int,
    context: SigningContext,
    validators: Seq<ValidatorId>,
    signatures: Seq<bool>,
) -> bool {
    let signed = signed_view(bitfields);
    let n = validators.len() as int;
    &&& signatures.len() == bitfields.len()
    &&& forall|j: int|
        0 <= j < bitfields.len() && disputed.len() == expected_bits && first_fault(
            signed,
            j,
            disputed,
            expected_bits,
            n,
            signatures,
        ) is None && bitfield_fault(signed, j, disputed, expected_bits, n, true) is None
            ==> call_ensures(
            verify,
            (&bitfields[j], &context, &validators[bitfields[j].validator_index.0 as int]),
            #[trigger] signatures[j],
        )
}

/// The check comes to the `j`th bitfield: those before it have no fault, and bear valid signatures.
pub open spec fn comes_to<
    G: Fn(&UncheckedSignedAvailabilityBitfield, &SigningContext, &ValidatorId) -> bool,
>(
    verify: G,
    bitfields: Seq<UncheckedSignedAvailabilityBitfield>,
    disputed: Seq<bool>,
    expected_bits: int,
    context: SigningContext,
    validators: Seq<ValidatorId>,
    j: int,
) -> bool {
    let signed = signed_view(bitfields);
    &&& disputed.len() == expected_bits
    &&& forall|i: int|
        0 <= i < j ==> bitfield_fault(
            signed,
            i,
            disputed,
            expected_bits,
            validators.len() as int,
            true,
        ) is None && call_ensures(
            verify,
            (
                &#[trigger] bitfields[i],
                &context,
                &validators[bitfields[i].validator_index.0 as int],
            ),
            true,
        )
}

/// The signature check can be asked about each bitfield that the check comes to and that has no
/// other fault.
pub open spec fn may_verify<
    G: Fn(&UncheckedSignedAvailabilityBitfield, &SigningContext, &ValidatorId) -> bool,
>(
    verify: G,
    bitfields: Seq<UncheckedSignedAvailabilityBitfield>,
    disputed: Seq<bool>,
    expected_bits: int,
    context: SigningContext,
    validators: Seq<ValidatorId>,
) -> bool {
    forall|j: int|
        0 <= j < bitfields.len() && comes_to(
            verify,
            bitfields,
            disputed,
            expected_bits,
            context,
            validators,
            j,
        ) && bitfield_fault(
            signed_view(bitfields),
            j,
            disputed,
            expected_bits,
            validators.len() as int,
            true,
        ) is None ==> call_requires(
            verify,
            (
                &#[trigger] bitfields[j],
                &context,
                &validators[bitfields[j].validator_index.0 as int],
            ),
        )
}

/// Where no fault was found among the first `j` bitfields, the check comes to the next one.
proof fn lemma_comes_to<
    G: Fn(&UncheckedSignedAvailabilityBitfield, &SigningContext, &ValidatorId) -> bool,
>(
    verify: G,
    bitfields: Seq<UncheckedSignedAvailabilityBitfield>,
    disputed: Seq<bool>,
    expected_bits: int,
    context: SigningContext,
    validators: Seq<ValidatorId>,
    signatures: Seq<bool>,
    j: int,
)
    requires
        j <= bitfields.len(),
        disputed.len() == expected_bits,
        first_fault(
            signed_view(bitfields),
            j,
            disputed,
            expected_bits,
            validators.len() as int,
            signatures,
        ) is None,
        forall|k: int|
            0 <= k < j ==> call_ensures(
                verify,
                (
                    &bitfields[k],
                    &context,
                    &validators[bitfields[k].validator_index.0 as int],
                ),
                #[trigger] signatures[k],
            ),
    ensures
        comes_to(verify, bitfields, disputed, expected_bits, context, validators, j),
{
    let signed = signed_view(bitfields);
    let n = validators.len() as int;
    no_fault_among(signed, j, disputed, expected_bits, n, signatures);
    assert forall|i: int| 0 <= i < j implies bitfield_fault(
        signed,
        i,
        disputed,
        expected_bits,
        n,
        true,
    ) is None && call_ensures(
        verify,
        (
            &#[trigger] bitfields[i],
            &context,
            &validators[bitfields[i].validator_index.0 as int],
        ),
        true,
    ) by {
        assert(bitfield_fault(signed, i, disputed, expected_bits, n, signatures[i]) is None);
        assert(signatures[i]);
    }
}

/// Whether a bitfield marks a disputed core.
fn marks_disputed(
    bitfield: &UncheckedSignedAvailabilityBitfield,
    disputed: &DisputedBitfield,
) -> (r: bool)
    ensures
        r == overlap(bitfield@.bits, disputed@),
{
    let len = bitfield.payload.0.len();
    let disputed_len = disputed.0.len();
    let mut i: usize = 0;
    while i < len && i < disputed_len
        invariant
            i <= len == bitfield@.bits.len(),
            i <= disputed_len == disputed@.len(),
            forall|k: int| 0 <= k < i ==> !(#[trigger] bitfield@.bits[k] && disputed@[k]),
        decreases len - i,
    {
        if bitfield.payload.0.get(i).unwrap() && disputed.0.get(i).unwrap() {
            assert(bitfield@.bits[i as int] && disputed@[i as int]);
            return true;
        }
        i = i + 1;
    }
    false
}

/// Faults of earlier bitfields do not depend on later signatures.
proof fn lemma_first_fault_extends(
    signed: Seq<SignedBitfieldView>,
    n: int,
    disputed: Seq<bool>,
    expected_bits: int,
    n_validators: int,
    a: Seq<bool>,
    b: Seq<bool>,
)
    requires
        n <= a.len(),
        n <= b.len(),
        forall|i: int| 0 <= i < n ==> a[i] == b[i],
    ensures
        first_fault(signed, n, disputed, expected_bits, n_validators, a) == first_fault(
            signed,
            n,
            disputed,
            expected_bits,
            n_validators,
            b,
        ),
    decreases n,
{
    if n > 0 {
        lemma_first_fault_extends(signed, n - 1, disputed, expected_bits, n_validators, a, b);
    }
}

/// A fault stays the first one when more bitfields follow.
pub(crate) proof fn lemma_first_fault_stays(
    signed: Seq<SignedBitfieldView>,
    n: int,
    m: int,
    disputed: Seq<bool>,
    expected_bits: int,
    n_validators: int,
    signatures: Seq<bool>,
)
    requires
        0 <= n <= m,
        first_fault(signed, n, disputed, expected_bits, n_validators, signatures) is Some,
    ensures
        first_fault(signed, m, disputed, expected_bits, n_validators, signatures) == first_fault(
            signed,
            n,
            disputed,
            expected_bits,
            n_validators,
            signatures,
        ),
    decreases m,
{
    if n < m {
        lemma_first_fault_stays(
            signed,
            n,
            m - 1,
            disputed,
            expected_bits,
            n_validators,
            signatures,
        );
    }
}

/// The answers heard up to the first faulty bitfield are enough: none is asked for after it.
proof fn lemma_refused_at<
    G: Fn(&UncheckedSignedAvailabilityBitfield, &SigningContext, &ValidatorId) -> bool,
>(
    verify: G,
    bitfields: Seq<UncheckedSignedAvailabilityBitfield>,
    disputed: Seq<bool>,
    expected_bits: int,
    context: SigningContext,
    validators: Seq<ValidatorId>,
    heard: Seq<bool>,
    j: int,
)
    requires
        0 <= j < bitfields.len(),
        j <= heard.len() <= j + 1,
        disputed.len() == expected_bits,
        first_fault(
            signed_view(bitfields),
            j,
            disputed,
            expected_bits,
            validators.len() as int,
            heard,
        ) is None,
        bitfield_fault(
            signed_view(bitfields),
            j,
            disputed,
            expected_bits,
            validators.len() as int,
            heard.len() == j || heard[j],
        ) is Some,
        forall|k: int|
            0 <= k < heard.len() ==> call_ensures(
                verify,
                (
                    &bitfields[k],
                    &context,
                    &validators[bitfields[k].validator_index.0 as int],
                ),
                #[trigger] heard[k],
            ),
    ensures
        exists|signatures: Seq<bool>| #[trigger]
            signatures_checked(
                verify,
                bitfields,
                disputed,
                expected_bits,
                context,
                validators,
                signatures,
            ) && refusal(
                signed_view(bitfields),
                disputed,
                expected_bits,
                validators.len() as int,
                signatures,
            ) == bitfield_fault(
                signed_view(bitfields),
                j,
                disputed,
                expected_bits,
                validators.len() as int,
                heard.len() == j || heard[j],
            ),
{
    let signed = signed_view(bitfields);
    let n = validators.len() as int;
    let filled = heard + Seq::new((signed.len() - heard.len()) as nat, |i: int| true);
    lemma_first_fault_extends(signed, j, disputed, expected_bits, n, heard, filled);
    assert(filled[j] == (heard.len() == j || heard[j]));
    lemma_first_fault_stays(
        signed,
        j + 1,
        signed.len() as int,
        disputed,
        expected_bits,
        n,
        filled,
    );
    assert forall|k: int|
        0 <= k < signed.len() && first_fault(
            signed,
            k,
            disputed,
            expected_bits,
            n,
            filled,
        ) is None && bitfield_fault(
            signed,
            k,
            disputed,
            expected_bits,
            n,
            true,
        ) is None implies call_ensures(
        verify,
        (&bitfields[k], &context, &validators[bitfields[k].validator_index.0 as int]),
        #[trigger] filled[k],
    ) by {
        if k > j {
            lemma_first_fault_stays(signed, j + 1, k, disputed, expected_bits, n, filled);
        } else {
            assert(k < heard.len());
            assert(filled[k] == heard[k]);
        }
    }
    assert(signatures_checked(
        verify,
        bitfields,
        disputed,
        expected_bits,
        context,
        validators,
        filled,
    ));
}

/// Where there is no fault among bitfields, there is none among the first of them.
pub(crate) proof fn lemma_no_fault_before(
    signed: Seq<SignedBitfieldView>,
    n: int,
    m: int,
    disputed: Seq<bool>,
    expected_bits: int,
    n_validators: int,
    signatures: Seq<bool>,
)
    requires
        0 <= n < m,
        first_fault(signed, m, disputed, expected_bits, n_validators, signatures) is None,
    ensures
        first_fault(signed, n, disputed, expected_bits, n_validators, signatures) is None,
        bitfield_fault(signed, n, disputed, expected_bits, n_validators, true) is None,
{
    if first_fault(signed, n, disputed, expected_bits, n_validators, signatures) is Some {
        lemma_first_fault_stays(signed, n, m, disputed, expected_bits, n_validators, signatures);
    }
    no_fault_among(signed, m, disputed, expected_bits, n_validators, signatures);
    assert(bitfield_fault(
        signed,
        n,
        disputed,
        expected_bits,
        n_validators,
        signatures[n],
    ) is None);
}

/// Where there is no fault, each bitfield is without one.
pub proof fn no_fault_among(
    signed: Seq<SignedBitfieldView>,
    n: int,
    disputed: Seq<bool>,
    expected_bits: int,
    n_validators: int,
    signatures: Seq<bool>,
)
    requires
        first_fault(signed, n, disputed, expected_bits, n_validators, signatures) is None,
    ensures
        forall|j: int|
            0 <= j < n ==> bitfield_fault(
                signed,
                j,
                disputed,
                expected_bits,
                n_validators,
                #[trigger] signatures[j],
            ) is None,
    decreases n,
{
    if n > 0 {
        no_fault_among(signed, n - 1, disputed, expected_bits, n_validators, signatures);
    }
}

/// What is wrong with a bitfield apart from its signature, given the index of the validator before
/// it.
fn check_bitfield(
    bitfield: &UncheckedSignedAvailabilityBitfield,
    last_index: Option<u32>,
    disputed_bitfield: &DisputedBitfield,
    expected_bits: usize,
    n_validators: usize,
    Ghost(signed): Ghost<Seq<SignedBitfieldView>>,
    Ghost(j): Ghost<int>,
) -> (fault: Option<Error>)
    requires
        0 <= j < signed.len(),
        signed[j] == bitfield@,
        last_index == if j > 0 {
            Some(signed[j - 1].validator_index.0)
        } else {
            None
        },
    ensures
        fault == bitfield_fault(
            signed,
            j,
            disputed_bitfield@,
            expected_bits as int,
            n_validators as int,
            true,
        ),
{
    if bitfield.payload.0.len() != expected_bits {
        return Some(Error::WrongBitfieldSize);
    }
    if marks_disputed(bitfield, disputed_bitfield) {
        return Some(Error::BitfieldReferencesFreedCore);
    }
    if let Some(last) = last_index {
        if last >= bitfield.validator_index.0 {
            return Some(Error::BitfieldDuplicateOrUnordered);
        }
    }
    if bitfield.validator_index.0 as usize >= n_validators {
        return Some(Error::ValidatorIndexOutOfBounds);
    }
    None
}

/// Checks that the bitfields have the expected size, mark no disputed core, come from distinct
/// validators in the order of their indices, and are signed by them.
pub fn sanitize_bitfields<
    G: Fn(&UncheckedSignedAvailabilityBitfield, &SigningContext, &ValidatorId) -> bool,
>(
    unchecked_bitfields: &Vec<UncheckedSignedAvailabilityBitfield>,
    disputed_bitfield: &DisputedBitfield,
    expected_bits: usize,
    context: &SigningContext,
    validators: &Vec<ValidatorId>,
    verify: G,
) -> (result: Result<(), Error>)
    requires
        may_verify(
            verify,
            unchecked_bitfields@,
            disputed_bitfield@,
            expected_bits as int,
            *context,
            validators@,
        ),
    ensures
        exists|signatures: Seq<bool>| #[trigger]
            signatures_checked(
                verify,
                unchecked_bitfields@,
                disputed_bitfield@,
                expected_bits as int,
                *context,
                validators@,
                signatures,
            ) && result == match refusal(
                signed_view(unchecked_bitfields@),
                disputed_bitfield@,
                expected_bits as int,
                validators@.len() as int,
                signatures,
            ) {
                Some(error) => Err(error),
                None => Ok(()),
            },
{
    let ghost signed = signed_view(unchecked_bitfields@);
    let ghost expected = expected_bits as int;
    let ghost n = validators@.len() as int;
    let ghost disputed = disputed_bitfield@;
    let ghost arbitrary = Seq::new(signed.len(), |i: int| true);
    if disputed_bitfield.0.len() != expected_bits {
        assert(signatures_checked(
            verify,
            unchecked_bitfields@,
            disputed,
            expected,
            *context,
            validators@,
            arbitrary,
        ));
        return Err(Error::WrongBitfieldSize);
    }
    let ghost mut signatures: Seq<bool> = Seq::empty();
    let mut last_index: Option<u32> = None;
    for j in 0..unchecked_bitfields.len()
        invariant
            signed == signed_view(unchecked_bitfields@),
            expected == expected_bits,
            n == validators@.len(),
            disputed == disputed_bitfield@,
            disputed.len() == expected,
            last_index == if j > 0 {
                Some(signed[j - 1].validator_index.0)
            } else {
                None
            },
            may_verify(
                verify,
                unchecked_bitfields@,
                disputed,
                expected,
                *context,
                validators@,
            ),
            signatures.len() == j,
            first_fault(signed, j as int, disputed, expected, n, signatures) is None,
            forall|k: int|
                0 <= k < j ==> call_ensures(
                    verify,
                    (
                        &unchecked_bitfields@[k],
                        context,
                        &validators@[unchecked_bitfields@[k].validator_index.0 as int],
                    ),
                    #[trigger] signatures[k],
                ),
    {
        let bitfield = &unchecked_bitfields[j];
        assert(signed[j as int] == bitfield@);
        let fault = check_bitfield(
            bitfield,
            last_index,
            disputed_bitfield,
            expected_bits,
            validators.len(),
            Ghost(signed),
            Ghost(j as int),
        );
        let ghost had = signatures;
        if let Some(error) = fault {
            proof {
                lemma_refused_at(
                    verify,
                    unchecked_bitfields@,
                    disputed,
                    expected,
                    *context,
                    validators@,
                    signatures,
                    j as int,
                );
            }
            return Err(error);
        }
        proof {
            lemma_comes_to(
                verify,
                unchecked_bitfields@,
                disputed,
                expected,
                *context,
                validators@,
                signatures,
                j as int,
            );
        }
        let signature_valid = verify(
            bitfield,
            context,
            &validators[bitfield.validator_index.0 as usize],
        );
        proof {
            signatures = signatures.push(signature_valid);
            lemma_first_fault_extends(signed, j as int, disputed, expected, n, had, signatures);
        }
        if !signature_valid {
            proof {
                lemma_refused_at(
                    verify,
                    unchecked_bitfields@,
                    disputed,
                    expected,
                    *context,
                    validators@,
                    signatures,
                    j as int,
                );
            }
            return Err(Error::InvalidBitfieldSignature);
        }
        last_index = Some(bitfield.validator_index.0);
    }
    assert(signatures_checked(
        verify,
        unchecked_bitfields@,
        disputed,
        expected,
        *context,
        validators@,
        signatures,
    ));
    Ok(())
}

impl Pallet {
    /// Process a set of incoming bitfields.
    ///
    /// Returns a `Vec` of `CandidateHash`es and their respective `AvailabilityCore`s that became
    /// available, and cores free.
    pub fn process_bitfields<
        F: Fn(CoreIndex) -> Option<ParaId>,
        G: Fn(&UncheckedSignedAvailabilityBitfield, &SigningContext, &ValidatorId) -> bool,
    >(
        &mut self,
        chain: &ChainContext,
        expected_bits: usize,
        signed_bitfields: Vec<UncheckedSignedAvailabilityBitfield>,
        disputed_bitfield: DisputedBitfield,
        core_lookup: F,
        verify: G,
    ) -> (result: Result<Vec<(CoreIndex, CandidateHash)>, Error>)
        requires
            old(self).wf(),
            may_verify(
                verify,
                signed_bitfields@,
                disputed_bitfield@,
                expected_bits as int,
                chain.signing_context_spec(),
                chain.validators@,
            ),
            comes_to(
                verify,
                signed_bitfields@,
                disputed_bitfield@,
                expected_bits as int,
                chain.signing_context_spec(),
                chain.validators@,
                signed_bitfields@.len() as int,
            ) ==> forall|core: CoreIndex|
                core.0 < expected_bits ==> #[trigger] call_requires(core_lookup, (core,)),
        ensures
            final(self).wf(),
            result is Err ==> final(self)@ == old(self)@,
            result is Ok ==> forall|core: CoreIndex, para: ParaId|
                core.0 < expected_bits <= 0x1_0000_0000 && #[trigger] call_ensures(
                    core_lookup,
                    (core,),
                    Some(para),
                ) && (forall|answer: Option<ParaId>| #[trigger]
                    call_ensures(core_lookup, (core,), answer) ==> answer == Some(para)) && (forall|
                    other: CoreIndex,
                    answer: Option<ParaId>,
                |
                    other.0 < expected_bits && other != core && #[trigger] call_ensures(
                        core_lookup,
                        (other,),
                        answer,
                    ) ==> answer != Some(para)) && old(self)@.pending_availability.contains_key(
                    para.0,
                ) && old(self)@.pending_availability_commitments.contains_key(para.0) && ones(
                    votes_for_core(
                        old(self)@.pending_availability[para.0].availability_votes,
                        signed_view(signed_bitfields@),
                        core.0 as int,
                    ),
                ).len() >= threshold(chain.validators@.len() as int) ==> {
                    &&& !final(self)@.pending_availability.contains_key(para.0)
                    &&& !final(self)@.pending_availability_commitments.contains_key(para.0)
                    &&& result->Ok_0@.contains(
                        (
                            old(self)@.pending_availability[para.0].core,
                            old(self)@.pending_availability[para.0].hash,
                        ),
                    )
                },
            exists|signatures: Seq<bool>| #[trigger]
                signatures_checked(
                    verify,
                    signed_bitfields@,
                    disputed_bitfield@,
                    expected_bits as int,
                    chain.signing_context_spec(),
                    chain.validators@,
                    signatures,
                ) && match refusal(
                    signed_view(signed_bitfields@),
                    disputed_bitfield@,
                    expected_bits as int,
                    chain.validators@.len() as int,
                    signatures,
                ) {
                    Some(error) => result == Err::<Vec<(CoreIndex, CandidateHash)>, Error>(error)
                        && final(self)@ == old(self)@,
                    None => result is Ok && exists|assigned: Seq<Option<ParaId>>| #[trigger]
                        looked_up(core_lookup, expected_bits as int, assigned) && {
                            let done = old(self)@.with_bitfields(
                                chain.now,
                                assigned,
                                chain.validators@.len() as int,
                                signed_view(signed_bitfields@),
                                false,
                            );
                            &&& final(self)@ == done.state
                            &&& result->Ok_0@ == done.freed
                        },
                },
    {
        let context = chain.signing_context();
        match sanitize_bitfields(
            &signed_bitfields,
            &disputed_bitfield,
            expected_bits,
            &context,
            &chain.validators,
            verify,
        ) {
            Err(error) => Err(error),
            Ok(()) => {
                proof {
                    let signed = signed_view(signed_bitfields@);
                    let n = chain.validators@.len() as int;
                    let signatures = choose|signatures: Seq<bool>| #[trigger]
                        signatures_checked(
                            verify,
                            signed_bitfields@,
                            disputed_bitfield@,
                            expected_bits as int,
                            context,
                            chain.validators@,
                            signatures,
                        ) && refusal(
                            signed,
                            disputed_bitfield@,
                            expected_bits as int,
                            n,
                            signatures,
                        ) is None;
                    no_fault_among(
                        signed,
                        signed.len() as int,
                        disputed_bitfield@,
                        expected_bits as int,
                        n,
                        signatures,
                    );
                    assert forall|k: int| 0 <= k < signed.len() implies call_ensures(
                        verify,
                        (
                            &signed_bitfields@[k],
                            &context,
                            &chain.validators@[signed_bitfields@[k].validator_index.0 as int],
                        ),
                        #[trigger] signatures[k],
                    ) by {
                        lemma_no_fault_before(
                            signed,
                            k,
                            signed.len() as int,
                            disputed_bitfield@,
                            expected_bits as int,
                            n,
                            signatures,
                        );
                    }
                    lemma_comes_to(
                        verify,
                        signed_bitfields@,
                        disputed_bitfield@,
                        expected_bits as int,
                        context,
                        chain.validators@,
                        signatures,
                        signed.len() as int,
                    );
                    assert forall|j: int, i: int|
                        0 <= j < signed.len() && expected_bits <= i < signed[j].bits.len()
                        implies !#[trigger] signed[j].bits[i] by {
                        assert(bitfield_fault(
                            signed,
                            j,
                            disputed_bitfield@,
                            expected_bits as int,
                            n,
                            signatures[j],
                        ) is None);
                    }
                }
                let freed_cores = self.update_pending_availability_and_get_freed_cores::<F, false>(
                    chain.now,
                    expected_bits,
                    chain.validators.as_slice(),
                    signed_bitfields,
                    core_lookup,
                );
                Ok(freed_cores)
            },
        }
    }
}

} // verus!
