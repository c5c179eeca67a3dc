//! The decisions of a block device that reads and writes fixed-size blocks
//! through a shared submission/completion ring.
//!
//! Nothing here touches a file or a ring. The device validates a request and
//! hands out a [`RingOperation`], which tells its driver what to do with the ring
//! next and takes what the ring answered. The driver owns the descriptor and the
//! ring, performs each action, and reports the outcome.

use vstd::prelude::*;

verus! {

/// Why a block device refused or failed a request.
#[derive(Debug, Clone, Copy, PartialEq, Eq, Structural)]
pub enum IoError {
    /// The storage path could not be opened for cache-bypassing I/O, or the
    /// device's geometry does not fit what the platform requires.
    OpenFailed,
    /// An offset or a buffer that does not fit the device's alignment and block size.
    Misaligned,
    /// The ring did not take the submission, or answered it with no completion.
    RingSubmissionFailed,
    /// A completion reported a failure; the field is the operating system's
    /// error number.
    DeviceError(i32),
}

/// A byte buffer of fixed length whose memory starts at a multiple of its alignment.
pub trait AlignedBuffer {
    /// The bytes of the buffer, for reading.
    fn as_slice(&self) -> &[u8];

    /// The bytes of the buffer, for writing.
    fn as_mut_slice(&mut self) -> &mut [u8];

    /// The number of bytes in the buffer.
    fn len(&self) -> usize;

    /// The alignment of the buffer's memory, in bytes.
    fn alignment(&self) -> usize;
}

/// Whether a transfer moves data from the device or to it.
#[derive(Debug, Clone, Copy, PartialEq, Eq, Structural)]
pub enum OpCode {
    Read,
    Write,
}

/// The identifier that tags the submissions of reads.
pub const READ_TAG: u64 = 0x42;

/// The identifier that tags the submissions of writes.
pub const WRITE_TAG: u64 = 0x43;

/// The identifier that tags the submissions of `opcode`.
pub open spec fn tag_of(opcode: OpCode) -> u64 {
    match opcode {
        OpCode::Read => READ_TAG,
        OpCode::Write => WRITE_TAG,
    }
}

/// One entry for the submission queue: a transfer of `len` bytes at `offset`.
#[derive(Debug, Clone, Copy, PartialEq, Eq, Structural)]
pub struct Submission {
    pub opcode: OpCode,
    pub offset: u64,
    pub len: u32,
    pub user_data: u64,
}

/// What the platform answered when the storage path was opened.
#[derive(Debug, Clone, Copy, PartialEq, Eq, Structural)]
pub enum OpenOutcome {
    /// The path could not be opened, or not for cache-bypassing I/O.
    Refused,
    /// The path is open; offsets and buffers must be multiples of
    /// `required_alignment`.
    Opened { required_alignment: usize },
}

/// The alignment that direct I/O on an open file requires, out of what the
/// platform said of the file: the larger of the alignments it reports for
/// memory and for offsets or, where it reports none, the file's preferred block
/// size.
pub open spec fn required_alignment_of(
    reported: bool,
    mem_align: u32,
    offset_align: u32,
    block_size: u32,
) -> u32 {
    if !reported {
        block_size
    } else if mem_align >= offset_align {
        mem_align
    } else {
        offset_align
    }
}

/// Settles what opening the storage path came to, from what the platform said
/// of the open file.
///
/// `reported` tells whether the platform reports alignments for direct I/O at
/// all. A required alignment of zero means that the file cannot be used for
/// direct I/O: the path counts as refused.
pub fn open_outcome(reported: bool, mem_align: u32, offset_align: u32, block_size: u32) -> (out:
    OpenOutcome)
    ensures
        required_alignment_of(reported, mem_align, offset_align, block_size) == 0 ==> out
            == OpenOutcome::Refused,
        required_alignment_of(reported, mem_align, offset_align, block_size) != 0 ==> out == (
        OpenOutcome::Opened {
            required_alignment: required_alignment_of(
                reported,
                mem_align,
                offset_align,
                block_size,
            ) as usize,
        }),
{
    let required: u32 = if !reported {
        block_size
    } else if mem_align >= offset_align {
        mem_align
    } else {
        offset_align
    };
    if required == 0 {
        OpenOutcome::Refused
    } else {
        OpenOutcome::Opened { required_alignment: required as usize }
    }
}

/// Whether blocks of `block_size` bytes at multiples of `alignment` are something
/// the platform, which asks for `required_alignment`, and the ring can serve.
pub open spec fn geometry_ok(block_size: usize, alignment: usize, required_alignment: usize) -> bool {
    &&& required_alignment > 0
    &&& alignment > 0
    &&& alignment % required_alignment == 0
    &&& block_size > 0
    &&& block_size % alignment == 0
    &&& block_size <= i32::MAX
}

/// Whether a transfer at `offset`, from or into a buffer of `len` bytes aligned
/// to `buffer_alignment`, fits a device of `block_size` and `alignment`: the
/// buffer is one block long and aligned as the device asks or more strictly, and
/// the offset is a multiple of the buffer's alignment.
pub open spec fn request_ok(
    block_size: usize,
    alignment: usize,
    offset: u64,
    len: usize,
    buffer_alignment: usize,
) -> bool {
    &&& len == block_size
    &&& buffer_alignment > 0
    &&& buffer_alignment % alignment == 0
    &&& offset % (buffer_alignment as u64) == 0
}

/// An offset that is a multiple of a buffer's alignment is a multiple of every
/// alignment that the buffer's alignment is a multiple of.
pub proof fn lemma_offset_fits_device(offset: u64, buffer_alignment: usize, alignment: usize)
    requires
        alignment > 0,
        buffer_alignment > 0,
        buffer_alignment % alignment == 0,
        offset % (buffer_alignment as u64) == 0,
    ensures
        offset % (alignment as u64) == 0,
{
    let o = offset as int;
    let b = buffer_alignment as int;
    let a = alignment as int;
    vstd::arithmetic::div_mod::lemma_fundamental_div_mod(o, b);
    vstd::arithmetic::div_mod::lemma_fundamental_div_mod(b, a);
    assert(o == a * ((b / a) * (o / b))) by (nonlinear_arith)
        requires
            o == b * (o / b),
            b == a * (b / a),
    ;
    vstd::arithmetic::div_mod::lemma_fundamental_div_mod_converse(o, a, (b / a) * (o / b), 0);
}

/// The ring entry for a transfer of one block of `block_size` bytes at `offset`.
pub open spec fn submission_for(opcode: OpCode, offset: u64, block_size: usize) -> Submission {
    Submission { opcode, offset, len: block_size as u32, user_data: tag_of(opcode) }
}

/// Whether a device of `block_size` and `alignment` comes to be after `opened`.
pub open spec fn opens(block_size: usize, opened: OpenOutcome, alignment: usize) -> bool {
    opened matches OpenOutcome::Opened { required_alignment } && geometry_ok(
        block_size,
        alignment,
        required_alignment,
    )
}

/// The core of a block device of `BLOCK_SIZE` bytes per block.
#[derive(Debug)]
pub struct IOUringDevice<const BLOCK_SIZE: usize> {
    alignment: usize,
}

impl<const BLOCK_SIZE: usize> IOUringDevice<BLOCK_SIZE> {
    /// The alignment that the device asks of offsets and buffers.
    pub closed spec fn spec_alignment(&self) -> usize {
        self.alignment
    }

    #[verifier::type_invariant]
    spec fn valid(&self) -> bool {
        &&& self.alignment > 0
        &&& BLOCK_SIZE > 0
        &&& BLOCK_SIZE % self.alignment == 0
        &&& BLOCK_SIZE <= i32::MAX
    }

    /// Sets up the device once the storage path has been opened.
    ///
    /// Fails with `OpenFailed` when the path was refused, and when the block size
    /// and the alignment do not fit each other, what the platform requires, and
    /// the ring, whose completions count the bytes of a block in 31 bits.
    pub fn new(opened: OpenOutcome, alignment: usize) -> (out: Result<Self, IoError>)
        ensures
            opens(BLOCK_SIZE, opened, alignment) ==> (out matches Ok(device)
                && device.spec_alignment() == alignment),
            !opens(BLOCK_SIZE, opened, alignment) ==> out == Err::<Self, IoError>(
                IoError::OpenFailed,
            ),
    {
        match opened {
            OpenOutcome::Refused => Err(IoError::OpenFailed),
            OpenOutcome::Opened { required_alignment } => {
                if required_alignment == 0 || alignment == 0 || alignment % required_alignment != 0
                    || BLOCK_SIZE == 0 || BLOCK_SIZE % alignment != 0 || BLOCK_SIZE
                    > i32::MAX as usize {
                    Err(IoError::OpenFailed)
                } else {
                    Ok(IOUringDevice { alignment })
                }
            },
        }
    }

    /// Begins a read of one block at `offset` into `buffer`.
    ///
    /// The buffer says how long and how aligned it is; [`IOUringDevice::transfer`]
    /// decides on what it said. A request that is let through is a read of
    /// exactly one block at an aligned offset.
    pub fn read_block<T: AlignedBuffer>(&self, offset: u64, buffer: &T) -> (out: Result<
        RingOperation,
        IoError,
    >)
        ensures
            offset % (self.spec_alignment() as u64) != 0 ==> out is Err,
            out matches Ok(operation) ==> operation@ == initial_state(
                submission_for(OpCode::Read, offset, BLOCK_SIZE),
            ),
            out matches Err(e) ==> e == IoError::Misaligned,
    {
        let len: usize = buffer.len();
        let buffer_alignment: usize = buffer.alignment();
        proof {
            use_type_invariant(self);
            if request_ok(BLOCK_SIZE, self.spec_alignment(), offset, len, buffer_alignment) {
                lemma_offset_fits_device(offset, buffer_alignment, self.spec_alignment());
            }
        }
        self.transfer(OpCode::Read, offset, len, buffer_alignment)
    }

    /// Begins a write of the one block in `buffer` at `offset`.
    ///
    /// The buffer says how long and how aligned it is; [`IOUringDevice::transfer`]
    /// decides on what it said. A request that is let through is a write of
    /// exactly one block at an aligned offset.
    pub fn write_block<T: AlignedBuffer>(&self, offset: u64, buffer: &T) -> (out: Result<
        RingOperation,
        IoError,
    >)
        ensures
            offset % (self.spec_alignment() as u64) != 0 ==> out is Err,
            out matches Ok(operation) ==> operation@ == initial_state(
                submission_for(OpCode::Write, offset, BLOCK_SIZE),
            ),
            out matches Err(e) ==> e == IoError::Misaligned,
    {
        let len: usize = buffer.len();
        let buffer_alignment: usize = buffer.alignment();
        proof {
            use_type_invariant(self);
            if request_ok(BLOCK_SIZE, self.spec_alignment(), offset, len, buffer_alignment) {
                lemma_offset_fits_device(offset, buffer_alignment, self.spec_alignment());
            }
        }
        self.transfer(OpCode::Write, offset, len, buffer_alignment)
    }

    /// Begins a transfer of one block at `offset`, from or into a buffer of `len`
    /// bytes whose memory is aligned to `buffer_alignment`.
    ///
    /// The buffer must be exactly one block long and its alignment a multiple of
    /// the device's; the offset must be a multiple of the buffer's alignment.
    /// Anything else is `Misaligned`.
    pub fn transfer(
        &self,
        opcode: OpCode,
        offset: u64,
        len: usize,
        buffer_alignment: usize,
    ) -> (out: Result<RingOperation, IoError>)
        ensures
            request_ok(BLOCK_SIZE, self.spec_alignment(), offset, len, buffer_alignment) ==> (
            out matches Ok(operation) && operation@ == initial_state(
                submission_for(opcode, offset, BLOCK_SIZE),
            )),
            !request_ok(BLOCK_SIZE, self.spec_alignment(), offset, len, buffer_alignment) ==> (
            out matches Err(e) && e == IoError::Misaligned),
    {
        proof {
            use_type_invariant(self);
        }
        if len != BLOCK_SIZE || buffer_alignment == 0 || buffer_alignment % self.alignment != 0
            || offset % (buffer_alignment as u64) != 0 {
            return Err(IoError::Misaligned);
        }
        let user_data: u64 = match opcode {
            OpCode::Read => READ_TAG,
            OpCode::Write => WRITE_TAG,
        };
        Ok(
            RingOperation::start(
                Submission { opcode, offset, len: BLOCK_SIZE as u32, user_data },
            ),
        )
    }

    /// The alignment that the device asks of offsets and buffers.
    pub fn alignment(&self) -> (alignment: usize)
        ensures
            alignment == self.spec_alignment(),
            alignment > 0,
            BLOCK_SIZE % alignment == 0,
    {
        proof {
            use_type_invariant(self);
        }
        self.alignment
    }
}

/// What the driver of an operation must do with the ring next.
#[derive(Debug, Clone, Copy, PartialEq, Eq)]
pub enum RingAction {
    /// Take exclusive access to the ring.
    Acquire,
    /// Push this one entry onto the submission queue.
    Push(Submission),
    /// Submit, and wait until at least this many completions have arrived.
    SubmitAndWait(usize),
    /// Take the next completion off the completion queue, if there is one.
    NextCompletion,
    /// Give up the ring, if it is held, and hand this result to the caller.
    Release(Result<(), IoError>),
}

/// What the ring answered to the action that was pending.
#[derive(Debug, Clone, Copy, PartialEq, Eq)]
pub enum RingEvent {
    /// Exclusive access to the ring was granted.
    Acquired,
    /// The submission queue took the entry.
    Pushed,
    /// The submission queue was full and did not take the entry.
    QueueFull,
    /// The submission went through and the wait is over.
    Submitted,
    /// The submission was rejected.
    SubmitFailed,
    /// A completion with this status came off the completion queue: the number
    /// of bytes moved, or the negative of an error number.
    Completion(i32),
    /// The completion queue holds nothing more.
    QueueEmpty,
}

/// The state of an operation: its one submission, the action that its driver
/// owes, and what the completions taken so far have reported: nothing yet, a
/// full transfer each, or the first failure.
pub struct OperationState {
    pub submission: Submission,
    pub pending: RingAction,
    pub reported: Option<Result<(), IoError>>,
}

/// The error number of a transfer that moved fewer bytes than its block: that
/// of an input/output error.
pub const SHORT_TRANSFER: i32 = 5;

/// The operating system's error number behind a negative completion status.
pub open spec fn error_number(status: i32) -> i32 {
    if status == i32::MIN {
        i32::MAX
    } else {
        (-status) as i32
    }
}

/// Whether a completion with `status` says that a transfer of `len` bytes
/// failed: the status is negative, or it counts fewer bytes than `len`.
pub open spec fn status_fails(len: u32, status: i32) -> bool {
    status < len
}

/// The failure behind a status that fails: the device error with the operating
/// system's error number for a negative status, and with [`SHORT_TRANSFER`] for
/// a count of bytes.
pub open spec fn failure_of(status: i32) -> IoError {
    if status < 0 {
        IoError::DeviceError(error_number(status))
    } else {
        IoError::DeviceError(SHORT_TRANSFER)
    }
}

/// What is on record after a completion with `status` for a transfer of `len`
/// bytes: a failure that is on record stays, and otherwise the completion counts.
pub open spec fn record_status(reported: Option<Result<(), IoError>>, len: u32, status: i32)
    -> Option<Result<(), IoError>> {
    match reported {
        Some(Err(_)) => reported,
        _ => if status_fails(len, status) {
            Some(Err(failure_of(status)))
        } else {
            Some(Ok(()))
        },
    }
}

/// The result of an operation whose completions left `reported` on record. An
/// operation that no completion answered has failed: its submission came to
/// nothing.
pub open spec fn outcome_of(reported: Option<Result<(), IoError>>) -> Result<(), IoError> {
    match reported {
        Some(result) => result,
        None => Err(IoError::RingSubmissionFailed),
    }
}

/// The state of an operation that has not touched the ring yet.
pub open spec fn initial_state(submission: Submission) -> OperationState {
    OperationState { submission, pending: RingAction::Acquire, reported: None }
}

/// The state after `event`. An event that does not answer the pending action
/// changes nothing.
pub open spec fn step_spec(state: OperationState, event: RingEvent) -> OperationState {
    match (state.pending, event) {
        (RingAction::Acquire, RingEvent::Acquired) => OperationState {
            pending: RingAction::Push(state.submission),
            ..state
        },
        (RingAction::Push(_), RingEvent::Pushed) => OperationState {
            pending: RingAction::SubmitAndWait(1),
            ..state
        },
        (RingAction::Push(_), RingEvent::QueueFull) => OperationState {
            pending: RingAction::Release(Err(IoError::RingSubmissionFailed)),
            ..state
        },
        (RingAction::SubmitAndWait(_), RingEvent::Submitted) => OperationState {
            pending: RingAction::NextCompletion,
            ..state
        },
        (RingAction::SubmitAndWait(_), RingEvent::SubmitFailed) => OperationState {
            pending: RingAction::Release(Err(IoError::RingSubmissionFailed)),
            ..state
        },
        (RingAction::NextCompletion, RingEvent::Completion(status)) => OperationState {
            reported: record_status(state.reported, state.submission.len, status),
            ..state
        },
        (RingAction::NextCompletion, RingEvent::QueueEmpty) => OperationState {
            pending: RingAction::Release(outcome_of(state.reported)),
            ..state
        },
        _ => state,
    }
}

/// One read or write on its way through the ring.
///
/// The operation acquires the ring, pushes its one entry, submits and waits for
/// a completion, drains the completion queue, and releases the ring with its
/// result: success where every completion reported a full block, and there was
/// one. Its driver performs [`RingOperation::pending`] and answers with
/// [`RingOperation::step`] until the pending action is a release.
#[derive(Debug)]
pub struct RingOperation {
    submission: Submission,
    pending: RingAction,
    reported: Option<Result<(), IoError>>,
}

impl View for RingOperation {
    type V = OperationState;

    closed spec fn view(&self) -> OperationState {
        OperationState {
            submission: self.submission,
            pending: self.pending,
            reported: self.reported,
        }
    }
}

/// Computes the failure behind a status that fails.
fn failure_for(status: i32) -> (failure: IoError)
    ensures
        failure == failure_of(status),
{
    if status == i32::MIN {
        IoError::DeviceError(i32::MAX)
    } else if status < 0 {
        IoError::DeviceError(-status)
    } else {
        IoError::DeviceError(SHORT_TRANSFER)
    }
}

impl RingOperation {
    /// An operation for `submission` that has not touched the ring yet.
    fn start(submission: Submission) -> (operation: Self)
        ensures
            operation@ == initial_state(submission),
    {
        RingOperation { submission, pending: RingAction::Acquire, reported: None }
    }

    /// The entry that this operation submits.
    pub fn submission(&self) -> (submission: Submission)
        ensures
            submission == self@.submission,
    {
        self.submission
    }

    /// What the driver must do next.
    pub fn pending(&self) -> (action: RingAction)
        ensures
            action == self@.pending,
    {
        self.pending
    }

    /// Takes the ring's answer to the pending action and returns the action that
    /// is pending now.
    pub fn step(&mut self, event: RingEvent) -> (action: RingAction)
        ensures
            final(self)@ == step_spec(old(self)@, event),
            action == final(self)@.pending,
    {
        match (self.pending, event) {
            (RingAction::Acquire, RingEvent::Acquired) => {
                self.pending = RingAction::Push(self.submission);
            },
            (RingAction::Push(_), RingEvent::Pushed) => {
                self.pending = RingAction::SubmitAndWait(1);
            },
            (RingAction::Push(_), RingEvent::QueueFull) => {
                self.pending = RingAction::Release(Err(IoError::RingSubmissionFailed));
            },
            (RingAction::SubmitAndWait(_), RingEvent::Submitted) => {
                self.pending = RingAction::NextCompletion;
            },
            (RingAction::SubmitAndWait(_), RingEvent::SubmitFailed) => {
                self.pending = RingAction::Release(Err(IoError::RingSubmissionFailed));
            },
            (RingAction::NextCompletion, RingEvent::Completion(status)) => {
                match self.reported {
                    Some(Err(_)) => {},
                    _ => {
                        if (status as i64) < (self.submission.len as i64) {
                            self.reported = Some(Err(failure_for(status)));
                        } else {
                            self.reported = Some(Ok(()));
                        }
                    },
                }
            },
            (RingAction::NextCompletion, RingEvent::QueueEmpty) => {
                self.pending = RingAction::Release(
                    match self.reported {
                        Some(result) => result,
                        None => Err(IoError::RingSubmissionFailed),
                    },
                );
            },
            _ => {},
        }
        self.pending
    }
}

} // verus!
