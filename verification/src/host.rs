//! The host's side of a bot: what may be called on a bot's handle and when,
//! what each call is given, and the two buffers that take the bot's output.

use vstd::prelude::*;
use wasmtime_wasi::p2::pipe::MemoryOutputPipe;
use crate::board::{encoding, Board};
use crate::error::ArenaError;

verus! {

/// How many bytes of a bot's standard output, and as many of its standard
/// error, are kept: 64 KiB.
pub const OUTPUT_CAPACITY: usize = 65536;

/// The compute budget under which a bot's module is instantiated.
pub const INSTANTIATION_FUEL: u64 = 10_000_000;

/// The compute budget of one call of a bot.
pub const CALL_FUEL: u64 = 100_000_000;

/// The in-memory pipe of `wasmtime_wasi` that takes what a sandboxed module
/// writes to an output stream. Its clones share one buffer.
#[verifier::external_type_specification]
#[verifier::external_body]
pub struct ExMemoryOutputPipe(wasmtime_wasi::p2::pipe::MemoryOutputPipe);

/// The capacity that a pipe was made with: the most bytes that it will ever
/// hold.
pub uninterp spec fn pipe_capacity(pipe: MemoryOutputPipe) -> nat;

/// `MemoryOutputPipe::new`: an empty pipe that keeps the capacity it is given.
#[verifier::external_body]
fn new_pipe(capacity: usize) -> (pipe: MemoryOutputPipe)
    ensures
        pipe_capacity(pipe) == capacity,
{
    MemoryOutputPipe::new(capacity)
}

/// `MemoryOutputPipe::clone`: a second end of the same pipe. The clone has
/// the capacity of the pipe and shares its one buffer, so it is the pipe
/// itself under another owner.
#[verifier::external_body]
fn share_pipe(pipe: &MemoryOutputPipe) -> (other: MemoryOutputPipe)
    ensures
        other == *pipe,
{
    pipe.clone()
}

/// `MemoryOutputPipe::contents`: a copy of the bytes written to the pipe so
/// far. Both ways of writing to a pipe refuse or cut what would take it
/// beyond its capacity, so the copy is never longer than that. Nothing else
/// is claimed of the bytes: they are what the module chose to write. The
/// call panics only where a writer has panicked while it held the buffer.
#[verifier::external_body]
fn pipe_contents(pipe: &MemoryOutputPipe) -> (bytes: Vec<u8>)
    ensures
        bytes@.len() <= pipe_capacity(*pipe),
{
    pipe.contents().to_vec()
}

/// Whether a bot has been initialized.
#[derive(Clone, Copy, Debug, PartialEq, Eq, Hash, Structural)]
pub enum HandleState {
    Uninitialized,
    Ready,
}

/// What came of loading a bot's module: reading it, compiling it and
/// instantiating it under the budget for that.
#[derive(Clone, Copy, Debug, PartialEq, Eq, Hash, Structural)]
pub enum ModuleStatus {
    /// The module was read, compiled and instantiated.
    Loaded,
    /// There is no such module.
    Missing,
    /// The module is not one that can run as a bot.
    Malformed,
    /// Instantiating the module used up the budget for it.
    OverBudget,
}

/// What is to be done for one call of a bot: arm the compute budget with
/// `fuel`, then hand `board` to the bot.
#[derive(Debug, PartialEq, Eq)]
pub struct CallRequest {
    pub fuel: u64,
    pub board: Vec<u8>,
}

/// What came of the call that initializes a bot.
#[derive(Clone, Copy, Debug, PartialEq, Eq, Hash, Structural)]
pub enum InitOutcome {
    /// The bot was constructed.
    Constructed,
    /// The call was aborted because its compute budget was used up.
    BudgetExhausted,
}

/// What came of one call for a bot's move.
#[derive(Clone, Copy, Debug, PartialEq, Eq, Hash, Structural)]
pub enum CallOutcome {
    /// The call returned this value.
    Returned(i64),
    /// The call was aborted because its compute budget was used up.
    BudgetExhausted,
}

/// The two bounded buffers that take a bot's standard output and standard
/// error. They are made before the bot's module is instantiated, so that the
/// sandbox can be given an end of each.
pub struct OutputBuffers {
    stdout: MemoryOutputPipe,
    stderr: MemoryOutputPipe,
}

impl OutputBuffers {
    #[verifier::type_invariant]
    spec fn bounded(self) -> bool {
        &&& pipe_capacity(self.stdout) == OUTPUT_CAPACITY
        &&& pipe_capacity(self.stderr) == OUTPUT_CAPACITY
    }

    /// The pipe that takes the bot's standard output.
    pub closed spec fn stdout_end(self) -> MemoryOutputPipe {
        self.stdout
    }

    /// The pipe that takes the bot's standard error.
    pub closed spec fn stderr_end(self) -> MemoryOutputPipe {
        self.stderr
    }

    /// Two buffers of 64 KiB each.
    pub fn new() -> (buffers: OutputBuffers)
        ensures
            pipe_capacity(buffers.stdout_end()) == OUTPUT_CAPACITY,
            pipe_capacity(buffers.stderr_end()) == OUTPUT_CAPACITY,
    {
        OutputBuffers { stdout: new_pipe(OUTPUT_CAPACITY), stderr: new_pipe(OUTPUT_CAPACITY) }
    }

    /// An end of the buffer for standard output, to be given to the sandbox:
    /// the very pipe that the handle later reads.
    pub fn stdout_pipe(&self) -> (pipe: MemoryOutputPipe)
        ensures
            pipe == self.stdout_end(),
            pipe_capacity(pipe) == OUTPUT_CAPACITY,
    {
        proof {
            use_type_invariant(self);
        }
        share_pipe(&self.stdout)
    }

    /// An end of the buffer for standard error, to be given to the sandbox:
    /// the very pipe that the handle later reads.
    pub fn stderr_pipe(&self) -> (pipe: MemoryOutputPipe)
        ensures
            pipe == self.stderr_end(),
            pipe_capacity(pipe) == OUTPUT_CAPACITY,
    {
        proof {
            use_type_invariant(self);
        }
        share_pipe(&self.stderr)
    }
}

/// The host's record of one bot: whether it has been initialized, whether
/// the call that initializes it is under way, and the two buffers into which
/// its output goes.
pub struct PlayerHandle {
    state: HandleState,
    pending: bool,
    buffers: OutputBuffers,
}

impl PlayerHandle {
    #[verifier::type_invariant]
    spec fn orderly(self) -> bool {
        self.pending ==> self.state == HandleState::Uninitialized
    }

    /// Whether the bot has been initialized.
    pub closed spec fn status(self) -> HandleState {
        self.state
    }

    /// Whether the call that initializes the bot has been admitted and its
    /// outcome is still to come.
    pub closed spec fn awaiting_outcome(self) -> bool {
        self.pending
    }

    /// The buffers that take the bot's output.
    pub closed spec fn buffers(self) -> OutputBuffers {
        self.buffers
    }

    /// Makes the handle of a bot from what came of loading its module and
    /// from the buffers that its sandbox writes to. A loaded module gets a
    /// handle that is not initialized; any other gets none, and the error
    /// says why.
    pub fn new(module: ModuleStatus, buffers: OutputBuffers) -> (r: Result<PlayerHandle, ArenaError>)
        ensures
            module == ModuleStatus::Loaded ==> r is Ok && r->Ok_0.status()
                == HandleState::Uninitialized && !r->Ok_0.awaiting_outcome() && r->Ok_0.buffers()
                == buffers,
            module == ModuleStatus::Missing || module == ModuleStatus::Malformed ==> r is Err
                && r->Err_0 == ArenaError::ModuleLoadError,
            module == ModuleStatus::OverBudget ==> r is Err && r->Err_0
                == ArenaError::ComputeBudgetExceeded,
    {
        match module {
            ModuleStatus::Loaded => Ok(
                PlayerHandle { state: HandleState::Uninitialized, pending: false, buffers },
            ),
            ModuleStatus::Missing => Err(ArenaError::ModuleLoadError),
            ModuleStatus::Malformed => Err(ArenaError::ModuleLoadError),
            ModuleStatus::OverBudget => Err(ArenaError::ComputeBudgetExceeded),
        }
    }

    /// Whether the bot has been initialized.
    pub fn state(&self) -> (s: HandleState)
        ensures
            s == self.status(),
    {
        self.state
    }

    /// Admits the one call that initializes the bot, with the board as the
    /// bot sees it at the start. The bot is not ready yet: it is once the
    /// call is reported to have constructed it. While that report is due,
    /// and once the bot is ready, a further such call is refused and changes
    /// nothing.
    pub fn initialize(&mut self, board: &Board, fuel: u64) -> (r: Result<CallRequest, ArenaError>)
        ensures
            r is Ok <==> old(self).status() == HandleState::Uninitialized
                && !old(self).awaiting_outcome(),
            r is Ok ==> r->Ok_0.fuel == fuel && r->Ok_0.board@ == encoding(board@),
            r is Ok ==> final(self).status() == HandleState::Uninitialized
                && final(self).awaiting_outcome() && final(self).buffers() == old(self).buffers(),
            r is Err ==> r->Err_0 == ArenaError::ProtocolViolation && *final(self) == *old(self),
    {
        proof {
            use_type_invariant(&*self);
        }
        match self.state {
            HandleState::Ready => Err(ArenaError::ProtocolViolation),
            HandleState::Uninitialized => {
                if self.pending {
                    return Err(ArenaError::ProtocolViolation);
                }
                self.pending = true;
                Ok(CallRequest { fuel, board: board.to_bytes() })
            },
        }
    }

    /// Takes the outcome of the call that initializes the bot. A bot that
    /// was constructed is ready from now on. One whose call used up its
    /// budget stays uninitialized, so that a call for a move is still
    /// refused. An outcome that no admitted call is waiting for is refused
    /// and changes nothing.
    pub fn initialized(&mut self, outcome: InitOutcome) -> (r: Result<(), ArenaError>)
        ensures
            old(self).awaiting_outcome() && outcome == InitOutcome::Constructed ==> r is Ok
                && final(self).status() == HandleState::Ready,
            old(self).awaiting_outcome() && outcome == InitOutcome::BudgetExhausted ==> r
                == Err::<(), ArenaError>(ArenaError::ComputeBudgetExceeded)
                && final(self).status() == HandleState::Uninitialized,
            old(self).awaiting_outcome() ==> !final(self).awaiting_outcome()
                && final(self).buffers() == old(self).buffers(),
            !old(self).awaiting_outcome() ==> r == Err::<(), ArenaError>(
                ArenaError::ProtocolViolation,
            ) && *final(self) == *old(self),
    {
        proof {
            use_type_invariant(&*self);
        }
        if !self.pending {
            return Err(ArenaError::ProtocolViolation);
        }
        match outcome {
            InitOutcome::Constructed => {
                self.pending = false;
                self.state = HandleState::Ready;
                Ok(())
            },
            InitOutcome::BudgetExhausted => {
                self.pending = false;
                Err(ArenaError::ComputeBudgetExceeded)
            },
        }
    }

    /// Admits a call for the bot's next move, with the board as the bot sees
    /// it. It is refused until the bot has been initialized.
    pub fn play(&self, board: &Board, fuel: u64) -> (r: Result<CallRequest, ArenaError>)
        ensures
            self.status() == HandleState::Ready ==> r is Ok && r->Ok_0.fuel == fuel
                && r->Ok_0.board@ == encoding(board@),
            self.status() == HandleState::Uninitialized ==> r is Err && r->Err_0
                == ArenaError::ProtocolViolation,
    {
        match self.state {
            HandleState::Uninitialized => Err(ArenaError::ProtocolViolation),
            HandleState::Ready => Ok(CallRequest { fuel, board: board.to_bytes() }),
        }
    }

    /// What the bot has written to its standard output so far: at most
    /// 64 KiB.
    pub fn stdout(&self) -> (bytes: Vec<u8>)
        ensures
            bytes@.len() <= OUTPUT_CAPACITY,
    {
        proof {
            use_type_invariant(&self.buffers);
        }
        pipe_contents(&self.buffers.stdout)
    }

    /// What the bot has written to its standard error so far: at most
    /// 64 KiB.
    pub fn stderr(&self) -> (bytes: Vec<u8>)
        ensures
            bytes@.len() <= OUTPUT_CAPACITY,
    {
        proof {
            use_type_invariant(&self.buffers);
        }
        pipe_contents(&self.buffers.stderr)
    }
}

} // verus!
