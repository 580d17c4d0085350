//! How a read ends, and the exit status that tells it.

use vstd::prelude::*;

verus! {

/// Where a read stands after an event.
#[derive(Clone, Copy, Debug, PartialEq, Eq, Structural)]
pub enum ReadOutcome {
    /// More input is wanted.
    Reading,
    /// The read is over and the buffer is the answer.
    Finished,
    /// The read is over and the default is the answer.
    DefaultTaken,
    /// Time ran out.
    TimedOut,
    /// The user gave up.
    Cancelled,
}

/// The status that tells of a cancelled read.
pub const STATUS_CANCELLED: i32 = -1;

/// The status that tells of a read that ran out of time.
pub const STATUS_TIMED_OUT: i32 = -2;

/// The exit status of a read that is over: -1 after Escape, -2 after a
/// timeout, else the length of the answer.
pub open spec fn exit_status(outcome: ReadOutcome, buffer_len: usize, default_len: usize) -> i32 {
    match outcome {
        ReadOutcome::Cancelled => STATUS_CANCELLED,
        ReadOutcome::TimedOut => STATUS_TIMED_OUT,
        ReadOutcome::DefaultTaken => default_len as i32,
        _ => buffer_len as i32,
    }
}

/// Computes the exit status of a read that is over.
pub fn status_of(outcome: ReadOutcome, buffer_len: usize, default_len: usize) -> (status: i32)
    ensures
        status == exit_status(outcome, buffer_len, default_len),
{
    match outcome {
        ReadOutcome::Cancelled => STATUS_CANCELLED,
        ReadOutcome::TimedOut => STATUS_TIMED_OUT,
        ReadOutcome::DefaultTaken => {
            #[verifier::truncate]
            (default_len as i32)
        },
        _ => {
            #[verifier::truncate]
            (buffer_len as i32)
        },
    }
}

/// The length of the default answer in bytes; 0 where there is none.
pub open spec fn default_len(default_string: Option<String>) -> usize {
    match default_string {
        Some(d) => vstd::utf8::encode_utf8(d@).len() as usize,
        None => 0,
    }
}

/// Whether the default answer is due: one was given, and nothing has been
/// typed.
pub open spec fn default_due(dflt: bool, has_default: bool, typed: nat) -> bool {
    dflt && has_default && typed == 0
}

/// The status of a read that ended with its buffer as the answer is the
/// length of that buffer, as long as the length fits the status.
pub proof fn lemma_status_is_length(buffer_len: usize, default_len: usize)
    requires
        buffer_len <= i32::MAX,
    ensures
        exit_status(ReadOutcome::Finished, buffer_len, default_len) == buffer_len,
{
    assert(buffer_len as i32 == buffer_len) by (bit_vector)
        requires
            buffer_len <= 0x7fff_ffff,
    ;
}

} // verus!
