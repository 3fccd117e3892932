use vstd::prelude::*;

verus! {

/// Every way a command can fail.  Each failure is terminal for the
/// instruction that raised it: the ledger is left exactly as it was.
#[derive(Clone, Copy, Debug, PartialEq, Eq, Structural)]
pub enum PollError {
    /// The command bytes are malformed: unknown discriminant, truncation,
    /// a length prefix overrunning the buffer, or invalid text.
    DecodeError,
    /// A caller-supplied account address disagrees with the derived address
    /// for its role, or no derived address exists for the seeds.
    AddressMismatch,
    /// A missing signer or writable flag, a wrong account owner, a wrong
    /// allocator identity, or a voter outside the authorized set.
    AuthorizationError,
    /// The current time is at or past the poll's closing time.
    PollExpired,
    /// The chosen option does not appear in the poll's option list.
    InvalidOption,
    /// The serialized poll record reaches the size ceiling.
    RecordTooLarge,
    /// The target address already holds an allocated record.
    AllocationConflict,
}

}
