//! The command decoder: an opaque byte buffer becomes one of two typed
//! commands.  The first byte selects the command; the rest is its payload,
//! which must be consumed exactly.

use crate::codec::{
    read_string, read_string_vec, read_u64, spec_read_string, spec_read_string_vec, spec_read_u64,
};
use crate::errors::PollError;
use crate::state::lemma_skip_skip;
use vstd::prelude::*;

verus! {

/// The payload of a poll-creation command.
pub struct CreatePollPayload {
    pub title: String,
    pub description: String,
    pub ends_at: u64,
    pub options: Vec<String>,
    pub authorized_addresses: Vec<String>,
}

#[verifier::ext_equal]
pub ghost struct CreatePollModel {
    pub title: Seq<char>,
    pub description: Seq<char>,
    pub ends_at: u64,
    pub options: Seq<Seq<char>>,
    pub authorized_addresses: Seq<Seq<char>>,
}

impl View for CreatePollPayload {
    type V = CreatePollModel;

    open spec fn view(&self) -> CreatePollModel {
        CreatePollModel {
            title: self.title@,
            description: self.description@,
            ends_at: self.ends_at,
            options: self.options.deep_view(),
            authorized_addresses: self.authorized_addresses.deep_view(),
        }
    }
}

/// The payload of a vote-casting command.
pub struct VoteOnPollPayload {
    pub poll_id: u64,
    pub option: String,
}

#[verifier::ext_equal]
pub ghost struct VoteOnPollModel {
    pub poll_id: u64,
    pub option: Seq<char>,
}

impl View for VoteOnPollPayload {
    type V = VoteOnPollModel;

    open spec fn view(&self) -> VoteOnPollModel {
        VoteOnPollModel { poll_id: self.poll_id, option: self.option@ }
    }
}

/// A decoded command.
pub enum PollMakerInstruction {
    CreatePoll(CreatePollPayload),
    VoteOnPoll(VoteOnPollPayload),
}

#[verifier::ext_equal]
pub ghost enum InstructionModel {
    CreatePoll(CreatePollModel),
    VoteOnPoll(VoteOnPollModel),
}

impl View for PollMakerInstruction {
    type V = InstructionModel;

    open spec fn view(&self) -> InstructionModel {
        match self {
            PollMakerInstruction::CreatePoll(p) => InstructionModel::CreatePoll(p@),
            PollMakerInstruction::VoteOnPoll(p) => InstructionModel::VoteOnPoll(p@),
        }
    }
}

/// Reads a poll-creation payload: title, description, closing time,
/// options, authorized voters.
pub open spec fn spec_read_create_payload(b: Seq<u8>) -> Option<(CreatePollModel, int)> {
    match spec_read_string(b) {
        Some(ti) => match spec_read_string(b.skip(ti.1)) {
            Some(de) => match spec_read_u64(b.skip(ti.1 + de.1)) {
                Some(en) => match spec_read_string_vec(b.skip(ti.1 + de.1 + en.1)) {
                    Some(op) => match spec_read_string_vec(
                        b.skip(ti.1 + de.1 + en.1 + op.1),
                    ) {
                        Some(au) => Some(
                            (
                                CreatePollModel {
                                    title: ti.0,
                                    description: de.0,
                                    ends_at: en.0,
                                    options: op.0,
                                    authorized_addresses: au.0,
                                },
                                ti.1 + de.1 + en.1 + op.1 + au.1,
                            ),
                        ),
                        None => None,
                    },
                    None => None,
                },
                None => None,
            },
            None => None,
        },
        None => None,
    }
}

/// Reads a vote-casting payload: poll identifier and chosen option.
pub open spec fn spec_read_vote_payload(b: Seq<u8>) -> Option<(VoteOnPollModel, int)> {
    match spec_read_u64(b) {
        Some(id) => match spec_read_string(b.skip(id.1)) {
            Some(op) => Some((VoteOnPollModel { poll_id: id.0, option: op.0 }, id.1 + op.1)),
            None => None,
        },
        None => None,
    }
}

/// What decoding a command buffer yields.  Discriminant byte 0 selects
/// poll creation and 1 vote casting; an empty buffer, any other first
/// byte, a malformed payload, or payload bytes left over all fail with
/// `DecodeError`.
pub open spec fn spec_unpack(b: Seq<u8>) -> Result<InstructionModel, PollError> {
    if b.len() == 0 {
        Err(PollError::DecodeError)
    } else if b[0] == 0 {
        match spec_read_create_payload(b.skip(1)) {
            Some(p) => if p.1 == b.len() - 1 {
                Ok(InstructionModel::CreatePoll(p.0))
            } else {
                Err(PollError::DecodeError)
            },
            None => Err(PollError::DecodeError),
        }
    } else if b[0] == 1 {
        match spec_read_vote_payload(b.skip(1)) {
            Some(p) => if p.1 == b.len() - 1 {
                Ok(InstructionModel::VoteOnPoll(p.0))
            } else {
                Err(PollError::DecodeError)
            },
            None => Err(PollError::DecodeError),
        }
    } else {
        Err(PollError::DecodeError)
    }
}

impl PollMakerInstruction {
    /// Decodes a command buffer, accepting exactly the well-formed
    /// encodings of the two commands.
    #[verifier::rlimit(60)]
    pub fn unpack(input: &[u8]) -> (r: Result<Self, PollError>)
        ensures
            match r {
                Ok(ins) => spec_unpack(input@) == Ok::<InstructionModel, PollError>(ins@),
                Err(e) => spec_unpack(input@) == Err::<InstructionModel, PollError>(e),
            },
    {
        if input.len() == 0 {
            return Err(PollError::DecodeError);
        }
        let variant = input[0];
        if variant == 0 {
            let ti = match read_string(input, 1) {
                Some(p) => p,
                None => {
                    return Err(PollError::DecodeError);
                },
            };
            proof {
                lemma_skip_skip(input@, 1, ti.1 - 1);
            }
            let de = match read_string(input, ti.1) {
                Some(p) => p,
                None => {
                    return Err(PollError::DecodeError);
                },
            };
            proof {
                lemma_skip_skip(input@, 1, de.1 - 1);
            }
            let en = match read_u64(input, de.1) {
                Some(p) => p,
                None => {
                    return Err(PollError::DecodeError);
                },
            };
            proof {
                lemma_skip_skip(input@, 1, en.1 - 1);
            }
            let op = match read_string_vec(input, en.1) {
                Some(p) => p,
                None => {
                    return Err(PollError::DecodeError);
                },
            };
            proof {
                lemma_skip_skip(input@, 1, op.1 - 1);
            }
            let au = match read_string_vec(input, op.1) {
                Some(p) => p,
                None => {
                    return Err(PollError::DecodeError);
                },
            };
            if au.1 != input.len() {
                return Err(PollError::DecodeError);
            }
            Ok(PollMakerInstruction::CreatePoll(CreatePollPayload {
                title: ti.0,
                description: de.0,
                ends_at: en.0,
                options: op.0,
                authorized_addresses: au.0,
            }))
        } else if variant == 1 {
            let id = match read_u64(input, 1) {
                Some(p) => p,
                None => {
                    return Err(PollError::DecodeError);
                },
            };
            proof {
                lemma_skip_skip(input@, 1, id.1 - 1);
            }
            let op = match read_string(input, id.1) {
                Some(p) => p,
                None => {
                    return Err(PollError::DecodeError);
                },
            };
            if op.1 != input.len() {
                return Err(PollError::DecodeError);
            }
            Ok(PollMakerInstruction::VoteOnPoll(VoteOnPollPayload {
                poll_id: id.0,
                option: op.0,
            }))
        } else {
            Err(PollError::DecodeError)
        }
    }
}

} // verus!
