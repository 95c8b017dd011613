//! The acceptance criteria for the outputs of a candidate.
use crate::pallet::Error;
use crate::pallet::Pallet;
use crate::primitives::code_view;
use crate::primitives::BlockNumber;
use crate::primitives::CandidateCommitments;
use crate::primitives::ChainContext;
use crate::primitives::HeadData;
use crate::primitives::HostConfiguration;
use crate::primitives::ParaId;
use crate::primitives::ValidationCode;
use vstd::prelude::*;

verus! {

/// Why the outputs of a candidate are not acceptable. `E` is what the message pallets say.
#[derive(PartialEq, Eq, Debug)]
pub enum AcceptanceCheckErr<E> {
    HeadDataTooLarge,
    PrematureCodeUpgrade,
    NewCodeTooLarge,
    ProcessedDownwardMessages(E),
    UpwardMessages(E),
    HrmpWatermark(E),
    OutboundHrmp(E),
}

impl<E> AcceptanceCheckErr<E> {
    /// The error of the pallet that stands for this one.
    pub open spec fn stripped(self) -> Error {
        match self {
            AcceptanceCheckErr::HeadDataTooLarge => Error::HeadDataTooLarge,
            AcceptanceCheckErr::PrematureCodeUpgrade => Error::PrematureCodeUpgrade,
            AcceptanceCheckErr::NewCodeTooLarge => Error::NewCodeTooLarge,
            AcceptanceCheckErr::ProcessedDownwardMessages(
                _,
            ) => Error::IncorrectDownwardMessageHandling,
            AcceptanceCheckErr::UpwardMessages(_) => Error::InvalidUpwardMessages,
            AcceptanceCheckErr::HrmpWatermark(_) => Error::HrmpWatermarkMishandling,
            AcceptanceCheckErr::OutboundHrmp(_) => Error::InvalidOutboundHrmp,
        }
    }

    /// Returns the same error so that it can be returned from the pallet: the detail is dropped.
    pub fn strip_into_dispatch_err(self) -> (error: Error)
        ensures
            error == self.stripped(),
            self is HeadDataTooLarge ==> error == Error::HeadDataTooLarge,
            self is PrematureCodeUpgrade ==> error == Error::PrematureCodeUpgrade,
            self is NewCodeTooLarge ==> error == Error::NewCodeTooLarge,
            self is ProcessedDownwardMessages ==> error == Error::IncorrectDownwardMessageHandling,
            self is UpwardMessages ==> error == Error::InvalidUpwardMessages,
            self is HrmpWatermark ==> error == Error::HrmpWatermarkMishandling,
            self is OutboundHrmp ==> error == Error::InvalidOutboundHrmp,
    {
        match self {
            AcceptanceCheckErr::HeadDataTooLarge => Error::HeadDataTooLarge,
            AcceptanceCheckErr::PrematureCodeUpgrade => Error::PrematureCodeUpgrade,
            AcceptanceCheckErr::NewCodeTooLarge => Error::NewCodeTooLarge,
            AcceptanceCheckErr::ProcessedDownwardMessages(
                _,
            ) => Error::IncorrectDownwardMessageHandling,
            AcceptanceCheckErr::UpwardMessages(_) => Error::InvalidUpwardMessages,
            AcceptanceCheckErr::HrmpWatermark(_) => Error::HrmpWatermarkMishandling,
            AcceptanceCheckErr::OutboundHrmp(_) => Error::InvalidOutboundHrmp,
        }
    }
}

/// What the sibling pallets say about the outputs of a candidate.
pub struct OutputReplies<E> {
    /// The block of the last code upgrade of the para, one that is still to come included.
    pub last_code_upgrade: Option<BlockNumber>,
    /// Whether the downward messages were processed as they must be.
    pub processed_downward_messages: Result<(), E>,
    /// Whether the upward messages are acceptable.
    pub upward_messages: Result<(), E>,
    /// Whether the watermark was advanced as it must be.
    pub hrmp_watermark: Result<(), E>,
    /// Whether the horizontal messages are acceptable.
    pub outbound_hrmp: Result<(), E>,
}

/// A collection of data required for checking a candidate.
#[derive(Clone, Copy, PartialEq, Eq, Debug)]
pub struct CandidateCheckContext {
    pub config: HostConfiguration,
    pub now: BlockNumber,
    pub relay_parent_number: BlockNumber,
}

impl CandidateCheckContext {
    /// The context for checking a candidate.
    pub fn new(
        config: HostConfiguration,
        now: BlockNumber,
        relay_parent_number: BlockNumber,
    ) -> (context: Self)
        ensures
            context == (CandidateCheckContext { config, now, relay_parent_number }),
    {
        CandidateCheckContext { config, now, relay_parent_number }
    }

    /// Whether the para may upgrade its code, given its last upgrade.
    pub open spec fn may_upgrade(self, last_code_upgrade: Option<BlockNumber>) -> bool {
        match last_code_upgrade {
            Some(last) => last <= self.relay_parent_number && self.relay_parent_number - last
                >= self.config.validation_upgrade_frequency,
            None => true,
        }
    }

    /// What the acceptance criteria make of the outputs.
    pub open spec fn outputs_verdict<E>(
        self,
        head_data: Seq<u8>,
        new_validation_code: Option<Seq<u8>>,
        replies: OutputReplies<E>,
    ) -> Result<(), AcceptanceCheckErr<E>> {
        if head_data.len() > self.config.max_head_data_size {
            Err(AcceptanceCheckErr::HeadDataTooLarge)
        } else if new_validation_code is Some && !self.may_upgrade(replies.last_code_upgrade) {
            Err(AcceptanceCheckErr::PrematureCodeUpgrade)
        } else if new_validation_code matches Some(code) && code.len()
            > self.config.max_code_size {
            Err(AcceptanceCheckErr::NewCodeTooLarge)
        } else if let Err(e) = replies.processed_downward_messages {
            Err(AcceptanceCheckErr::ProcessedDownwardMessages(e))
        } else if let Err(e) = replies.upward_messages {
            Err(AcceptanceCheckErr::UpwardMessages(e))
        } else if let Err(e) = replies.hrmp_watermark {
            Err(AcceptanceCheckErr::HrmpWatermark(e))
        } else if let Err(e) = replies.outbound_hrmp {
            Err(AcceptanceCheckErr::OutboundHrmp(e))
        } else {
            Ok(())
        }
    }

    /// Check the given outputs after candidate validation on whether it passes the acceptance
    /// criteria.
    pub fn check_validation_outputs<E>(
        &self,
        head_data: &HeadData,
        new_validation_code: &Option<ValidationCode>,
        replies: OutputReplies<E>,
    ) -> (verdict: Result<(), AcceptanceCheckErr<E>>)
        ensures
            verdict == self.outputs_verdict(
                head_data@.bytes,
                code_view(*new_validation_code),
                replies,
            ),
            verdict is Ok <==> {
                &&& head_data.bytes@.len() <= self.config.max_head_data_size
                &&& new_validation_code matches Some(code) ==> {
                    &&& replies.last_code_upgrade matches Some(last) ==> last
                        + self.config.validation_upgrade_frequency <= self.relay_parent_number
                    &&& code.0@.len() <= self.config.max_code_size
                }
                &&& replies.processed_downward_messages is Ok
                &&& replies.upward_messages is Ok
                &&& replies.hrmp_watermark is Ok
                &&& replies.outbound_hrmp is Ok
            },
    {
        if head_data.bytes.len() > self.config.max_head_data_size as usize {
            return Err(AcceptanceCheckErr::HeadDataTooLarge);
        }
        if let Some(new_validation_code) = new_validation_code {
            let valid_upgrade_attempt = match replies.last_code_upgrade {
                Some(last) => last <= self.relay_parent_number
                    && self.relay_parent_number.saturating_sub(last)
                    >= self.config.validation_upgrade_frequency,
                None => true,
            };
            if !valid_upgrade_attempt {
                return Err(AcceptanceCheckErr::PrematureCodeUpgrade);
            }
            if new_validation_code.0.len() > self.config.max_code_size as usize {
                return Err(AcceptanceCheckErr::NewCodeTooLarge);
            }
        }
        if let Err(e) = replies.processed_downward_messages {
            return Err(AcceptanceCheckErr::ProcessedDownwardMessages(e));
        }
        if let Err(e) = replies.upward_messages {
            return Err(AcceptanceCheckErr::UpwardMessages(e));
        }
        if let Err(e) = replies.hrmp_watermark {
            return Err(AcceptanceCheckErr::HrmpWatermark(e));
        }
        if let Err(e) = replies.outbound_hrmp {
            return Err(AcceptanceCheckErr::OutboundHrmp(e));
        }
        Ok(())
    }
}

impl Pallet {
    /// Run the acceptance criteria checks on the given candidate commitments.
    ///
    /// This function is meant to be called from the runtime APIs against the relay-parent, hence
    /// the number of the relay-parent is that of the current block.
    pub fn check_validation_outputs_for_runtime_api<
        E,
        C: Fn(ParaId, &CandidateCommitments, &CandidateCheckContext) -> OutputReplies<E>,
    >(
        chain: &ChainContext,
        config: HostConfiguration,
        para_id: ParaId,
        validation_outputs: CandidateCommitments,
        consult: C,
    ) -> (acceptable: bool)
        requires
            call_requires(
                consult,
                (
                    para_id,
                    &validation_outputs,
                    &(CandidateCheckContext {
                        config,
                        now: chain.now,
                        relay_parent_number: chain.now,
                    }),
                ),
            ),
        ensures
            ({
                let check_cx = CandidateCheckContext {
                    config,
                    now: chain.now,
                    relay_parent_number: chain.now,
                };
                exists|replies: OutputReplies<E>| #[trigger]
                    call_ensures(consult, (para_id, &validation_outputs, &check_cx), replies)
                        && acceptable == check_cx.outputs_verdict(
                        validation_outputs@.head_data.bytes,
                        validation_outputs@.new_validation_code,
                        replies,
                    ) is Ok && (acceptable <==> {
                        &&& validation_outputs.head_data.bytes@.len() <= config.max_head_data_size
                        &&& validation_outputs.new_validation_code matches Some(code) ==> {
                            &&& replies.last_code_upgrade matches Some(last) ==> last
                                + config.validation_upgrade_frequency <= chain.now
                            &&& code.0@.len() <= config.max_code_size
                        }
                        &&& replies.processed_downward_messages is Ok
                        &&& replies.upward_messages is Ok
                        &&& replies.hrmp_watermark is Ok
                        &&& replies.outbound_hrmp is Ok
                    })
            }),
    {
        let check_cx = CandidateCheckContext::new(config, chain.now, chain.now);
        let replies = consult(para_id, &validation_outputs, &check_cx);
        match check_cx.check_validation_outputs(
            &validation_outputs.head_data,
            &validation_outputs.new_validation_code,
            replies,
        ) {
            Err(_) => false,
            Ok(()) => true,
        }
    }
}

} // verus!
