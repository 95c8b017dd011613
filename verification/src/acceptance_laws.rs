//! What the acceptance criteria come to, in numbers.
use crate::checks::AcceptanceCheckErr;
use crate::checks::CandidateCheckContext;
use crate::checks::OutputReplies;
use crate::pallet::Error;
use crate::primitives::BlockNumber;
use vstd::prelude::*;

verus! {

/// Outputs pass if and only if the head is no larger than allowed, new code comes no sooner than
/// the upgrade frequency after the last upgrade and is no larger than allowed, and none of the
/// message pallets objects.
pub proof fn outputs_pass_within_the_limits<E>(
    check_cx: CandidateCheckContext,
    head: Seq<u8>,
    code: Option<Seq<u8>>,
    replies: OutputReplies<E>,
)
    ensures
        check_cx.outputs_verdict(head, code, replies) is Ok <==> {
            &&& head.len() <= check_cx.config.max_head_data_size
            &&& code is Some && replies.last_code_upgrade is Some ==> replies.last_code_upgrade->0
                + check_cx.config.validation_upgrade_frequency <= check_cx.relay_parent_number
            &&& code is Some ==> code->0.len() <= check_cx.config.max_code_size
            &&& replies.processed_downward_messages is Ok
            &&& replies.upward_messages is Ok
            &&& replies.hrmp_watermark is Ok
            &&& replies.outbound_hrmp is Ok
        },
{
}

/// Each objection is raised if and only if it holds and none before it does: a head that is too
/// large, new code that comes too soon, new code that is too large, and then the objections of the
/// message pallets in their order, each with what the pallet said.
pub proof fn the_first_objection_is_raised<E>(
    check_cx: CandidateCheckContext,
    head: Seq<u8>,
    code: Option<Seq<u8>>,
    replies: OutputReplies<E>,
)
    ensures
        ({
            let verdict = check_cx.outputs_verdict(head, code, replies);
            let small_head = head.len() <= check_cx.config.max_head_data_size;
            let in_time = code is Some && replies.last_code_upgrade is Some
                ==> replies.last_code_upgrade->0 + check_cx.config.validation_upgrade_frequency
                <= check_cx.relay_parent_number;
            let small_code = code is Some ==> code->0.len() <= check_cx.config.max_code_size;
            let own = small_head && in_time && small_code;
            let dmp = replies.processed_downward_messages;
            let ump = replies.upward_messages;
            let watermark = replies.hrmp_watermark;
            let outbound = replies.outbound_hrmp;
            &&& !small_head ==> verdict == Err::<(), AcceptanceCheckErr<E>>(
                AcceptanceCheckErr::HeadDataTooLarge,
            )
            &&& small_head && !in_time ==> verdict == Err::<(), AcceptanceCheckErr<E>>(
                AcceptanceCheckErr::PrematureCodeUpgrade,
            )
            &&& small_head && in_time && !small_code ==> verdict == Err::<
                (),
                AcceptanceCheckErr<E>,
            >(AcceptanceCheckErr::NewCodeTooLarge)
            &&& own && dmp is Err ==> verdict == Err::<(), AcceptanceCheckErr<E>>(
                AcceptanceCheckErr::ProcessedDownwardMessages(dmp->Err_0),
            )
            &&& own && dmp is Ok && ump is Err ==> verdict == Err::<(), AcceptanceCheckErr<E>>(
                AcceptanceCheckErr::UpwardMessages(ump->Err_0),
            )
            &&& own && dmp is Ok && ump is Ok && watermark is Err ==> verdict == Err::<
                (),
                AcceptanceCheckErr<E>,
            >(AcceptanceCheckErr::HrmpWatermark(watermark->Err_0))
            &&& own && dmp is Ok && ump is Ok && watermark is Ok && outbound is Err ==> verdict
                == Err::<(), AcceptanceCheckErr<E>>(
                AcceptanceCheckErr::OutboundHrmp(outbound->Err_0),
            )
        }),
{
}

/// New code is premature if and only if the last upgrade and the upgrade frequency together lie
/// beyond the relay-parent.
pub proof fn code_is_premature_before_its_time(
    check_cx: CandidateCheckContext,
    last_code_upgrade: Option<BlockNumber>,
)
    ensures
        check_cx.may_upgrade(last_code_upgrade) <==> (last_code_upgrade is None
            || last_code_upgrade->0 + check_cx.config.validation_upgrade_frequency
            <= check_cx.relay_parent_number),
{
}

/// Outputs that pass at a relay-parent pass at every later one, if the siblings say the same: an
/// upgrade that is allowed stays allowed.
pub proof fn outputs_that_pass_keep_passing<E>(
    earlier: CandidateCheckContext,
    later: CandidateCheckContext,
    head: Seq<u8>,
    code: Option<Seq<u8>>,
    replies: OutputReplies<E>,
)
    requires
        earlier.config == later.config,
        earlier.relay_parent_number <= later.relay_parent_number,
        earlier.outputs_verdict(head, code, replies) is Ok,
    ensures
        later.outputs_verdict(head, code, replies) is Ok,
{
}

/// Smaller outputs pass wherever larger ones do, and outputs without code wherever outputs with
/// code do.
pub proof fn smaller_outputs_pass_too<E>(
    check_cx: CandidateCheckContext,
    head: Seq<u8>,
    code: Seq<u8>,
    smaller_head: Seq<u8>,
    smaller_code: Seq<u8>,
    replies: OutputReplies<E>,
)
    requires
        check_cx.outputs_verdict(head, Some(code), replies) is Ok,
        smaller_head.len() <= head.len(),
        smaller_code.len() <= code.len(),
    ensures
        check_cx.outputs_verdict(smaller_head, Some(smaller_code), replies) is Ok,
        check_cx.outputs_verdict(smaller_head, None, replies) is Ok,
{
}

/// Each objection is answered with the error of its own.
pub proof fn objections_have_errors_of_their_own<E>(e: E)
    ensures
        AcceptanceCheckErr::<E>::HeadDataTooLarge.stripped() == Error::HeadDataTooLarge,
        AcceptanceCheckErr::<E>::PrematureCodeUpgrade.stripped() == Error::PrematureCodeUpgrade,
        AcceptanceCheckErr::<E>::NewCodeTooLarge.stripped() == Error::NewCodeTooLarge,
        AcceptanceCheckErr::ProcessedDownwardMessages(e).stripped()
            == Error::IncorrectDownwardMessageHandling,
        AcceptanceCheckErr::UpwardMessages(e).stripped() == Error::InvalidUpwardMessages,
        AcceptanceCheckErr::HrmpWatermark(e).stripped() == Error::HrmpWatermarkMishandling,
        AcceptanceCheckErr::OutboundHrmp(e).stripped() == Error::InvalidOutboundHrmp,
{
}

} // verus!
