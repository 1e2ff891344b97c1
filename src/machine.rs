//! Control-flow outcomes, errors and results of a frame.

use crate::address::Address;
use crate::block::Block;
use crate::context::Context;
use crate::eval::{ends, eval, frame_result, instruction, is_initial, lemma_runs_extend, moved, reports, exit_result, runs};
use crate::opcode::Opcode;
use crate::jump_map::JumpMap;
use crate::memory::Memory;
use crate::stack::{Stack, STACK_LIMIT};
use crate::state::{copy_bytes, State};
use crate::storage::Storage;
use crate::word::Word;
use vstd::prelude::*;

verus! {

/// What went wrong in a frame.
#[derive(Debug, Clone, PartialEq, Eq)]
pub enum EvmError {
    StackUnderflow,
    StackOverflow,
    InvalidInstruction,
    InvalidJump,
    /// The opcode may not run in a static frame.
    OpcodeNotStatic(u8),
    /// REVERT, with its payload.
    Revert(Vec<u8>),
    /// Memory beyond this machine's limit, or the step budget spent.
    ResourceLimit,
}

} // verus!

verus! {

/// How a frame ended well.
#[derive(Debug, Clone, PartialEq, Eq)]
pub enum ExitSuccess {
    Stop,
    Return(Vec<u8>),
}

#[derive(Debug, Clone, PartialEq, Eq)]
pub enum ExitReason {
    Error(EvmError),
    Success(ExitSuccess),
}

/// What a handler tells the fetch loop.
#[derive(Debug, Clone, PartialEq, Eq)]
pub enum ControlFlow {
    /// Advance the program counter by this many bytes.
    Continue(usize),
    /// Set the program counter (already checked against the jump map).
    Jump(usize),
    Exit(ExitReason),
}

} // verus!

verus! {

/// The deepest that calls may nest.
pub const MAX_CALL_DEPTH: usize = 1024;

/// A log record.
#[derive(Debug)]
pub struct Log {
    /// The contract that emitted it.
    pub address: Address,
    pub data: Vec<u8>,
    pub topics: Vec<Word>,
}

impl Log {
    pub fn new(address: Address, data: Vec<u8>) -> (r: Log)
        ensures
            r.address == address,
            r.data@ == data@,
            r.topics@ == Seq::<Word>::empty(),
    {
        Log { address, data, topics: Vec::new() }
    }

    pub fn add_topic(&mut self, topic: Word)
        ensures
            final(self).address == old(self).address,
            final(self).data@ == old(self).data@,
            final(self).topics@ == old(self).topics@.push(topic),
    {
        self.topics.push(topic);
    }
}

/// The outcome of running a frame.
pub struct EvmResult {
    /// The stack, top first.
    pub stack: Vec<Word>,
    pub success: bool,
    pub error: Option<EvmError>,
    pub logs: Vec<Log>,
    /// The payload of RETURN or REVERT.
    pub return_val: Option<Vec<u8>>,
    /// The world state as the frame left it.
    pub state: State,
}

impl EvmResult {
    /// Success and error agree, the stack is within its limit, the state is
    /// well formed, and a revert carries its payload out.
    pub open spec fn wf(&self) -> bool {
        &&& self.success == (self.error is None)
        &&& self.stack@.len() <= STACK_LIMIT
        &&& self.state.wf()
        &&& (self.error matches Some(EvmError::Revert(p)) ==> self.return_val matches Some(v) && v@ == p@)
        &&& (self.error matches Some(e) && !(e is Revert) ==> self.return_val is None)
    }
}

enum EvmStatus {
    Running,
    Exited(ExitReason),
}

/// One frame of execution.
pub struct Machine {
    pub stack: Stack,
    pub memory: Memory,
    /// What the last sub-call returned.
    pub return_data_buffer: Vec<u8>,
    pub context: Context,
    pub jump_map: JumpMap,
    pub code: Vec<u8>,
    pub logs: Vec<Log>,
    pub pc: usize,
    /// How many frames enclose this one.
    pub depth: usize,
}

impl Machine {
    /// Stack, memory and state are well formed, the jump map is the code's,
    /// and the depth is within the limit.
    pub open spec fn wf(&self) -> bool {
        &&& self.stack.wf()
        &&& self.memory.wf()
        &&& self.context.state.wf()
        &&& self.jump_map@ == JumpMap::of_code(self.code@)
        &&& self.depth <= MAX_CALL_DEPTH
    }

    /// A fresh frame at `depth` for `code`.
    pub fn new(code: &[u8], context: Context, depth: usize) -> (r: Machine)
        requires
            context.state.wf(),
            depth <= MAX_CALL_DEPTH,
        ensures
            r.wf(),
            r.code@ == code@,
            r.pc == 0,
            r.depth == depth,
            r.stack@ == Seq::<Word>::empty(),
            r.memory@ == Seq::<u8>::empty(),
            r.logs@ == Seq::<Log>::empty(),
            r.return_data_buffer@ == Seq::<u8>::empty(),
            r.context == context,
    {
        Machine {
            stack: Stack::new(),
            memory: Memory::new(),
            return_data_buffer: Vec::new(),
            context,
            jump_map: JumpMap::new(code),
            code: copy_bytes(code),
            logs: Vec::new(),
            pc: 0,
            depth,
        }
    }

    /// The opcode at the program counter.
    pub fn opcode(&self) -> (r: u8)
        requires
            self.pc < self.code@.len(),
        ensures
            r == self.code@[self.pc as int],
    {
        self.code[self.pc]
    }

    fn step(&mut self, block: &Block, storage: &mut Storage) -> (r: EvmStatus)
        requires
            old(self).wf(),
            old(storage).wf(),
            old(self).pc < old(self).code@.len(),
        ensures
            final(self).wf(),
            final(storage).wf(),
            final(self).depth == old(self).depth,
            exists|c: Machine, f: ControlFlow|
                #[trigger] instruction((MAX_CALL_DEPTH - old(self).depth) as nat, *old(self), old(storage)@, c, final(storage)@, f, *block) && (
                f matches ControlFlow::Exit(reason) ==> r == EvmStatus::Exited(reason) && *final(self) == c) && (
                !(f is Exit) ==> r is Running && moved(c, *final(self), f)),
        decreases MAX_CALL_DEPTH - self.depth, 2nat,
    {
        let flow = eval(self, block, storage);
        let ghost c = *self;
        proof {
            assert(instruction((MAX_CALL_DEPTH - old(self).depth) as nat, *old(self), old(storage)@, c, storage@, flow, *block));
        }
        match flow {
            ControlFlow::Continue(steps) => {
                if steps <= usize::MAX - self.pc {
                    self.pc = self.pc + steps;
                } else {
                    self.pc = usize::MAX;
                }
                EvmStatus::Running
            },
            ControlFlow::Jump(position) => {
                self.pc = position;
                EvmStatus::Running
            },
            ControlFlow::Exit(reason) => EvmStatus::Exited(reason),
        }
    }

    fn finish(self, success: bool, error: Option<EvmError>, return_val: Option<Vec<u8>>) -> (r: EvmResult)
        requires
            self.wf(),
        ensures
            r.stack@ == self.stack@.reverse(),
            r.success == success,
            r.error == error,
            r.logs@ == self.logs@,
            r.return_val == return_val,
            r.state@ == self.context.state@,
            r.state.wf(),
    {
        EvmResult {
            stack: self.stack.data(),
            success,
            error,
            logs: self.logs,
            return_val,
            state: self.context.state,
        }
    }

    /// Run the frame until it stops, returns, fails, or runs off the end of
    /// its code.
    pub fn execute(self, block: &Block, storage: &mut Storage) -> (r: EvmResult)
        requires
            self.wf(),
            old(storage).wf(),
        ensures
            final(storage).wf(),
            r.wf(),
            exists|n: nat, last: Machine, sl: Map<Word, Word>|
                #[trigger] runs((MAX_CALL_DEPTH - self.depth) as nat, self, old(storage)@, last, sl, *block, n)
                    && ends((MAX_CALL_DEPTH - self.depth) as nat, last, sl, r, final(storage)@, *block, n),
        decreases MAX_CALL_DEPTH - self.depth, 3nat,
    {
        let ghost depth = self.depth;
        let ghost k = (MAX_CALL_DEPTH - self.depth) as nat;
        let ghost start = self;
        let ghost s_start = storage@;
        let mut frame = self;
        let mut steps: usize = 0;
        while frame.pc < frame.code.len()
            invariant
                frame.wf(),
                storage.wf(),
                frame.depth == depth,
                depth == self.depth,
                k == (MAX_CALL_DEPTH - depth) as nat,
                start == self,
                s_start == old(storage)@,
                runs(k, start, s_start, frame, storage@, *block, steps as nat),
            decreases usize::MAX - steps,
        {
            if steps == usize::MAX {
                let ghost fin = frame;
                let ghost s_fin = storage@;
                let r = frame.finish(false, Some(EvmError::ResourceLimit), None);
                proof {
                    assert(ends(k, fin, s_fin, r, storage@, *block, steps as nat));
                }
                return r;
            }
            let ghost before = frame;
            let ghost s_before = storage@;
            match frame.step(block, storage) {
                EvmStatus::Running => {
                    proof {
                        let (c, f) = choose|c: Machine, f: ControlFlow|
                            #[trigger] instruction(k, before, s_before, c, storage@, f, *block) && (
                            f matches ControlFlow::Exit(reason) ==> EvmStatus::Running == EvmStatus::Exited(reason) && frame == c) && (
                            !(f is Exit) ==> moved(c, frame, f));
                        lemma_runs_extend(k, start, s_start, before, s_before, c, frame, storage@, f, *block, steps as nat);
                    }
                    steps = steps + 1;
                },
                EvmStatus::Exited(reason) => {
                    proof {
                        let (c, f) = choose|c: Machine, f: ControlFlow|
                            #[trigger] instruction(k, before, s_before, c, storage@, f, *block) && (
                            f matches ControlFlow::Exit(reason2) ==> EvmStatus::Exited(reason) == EvmStatus::Exited(reason2) && frame == c) && (
                            !(f is Exit) ==> EvmStatus::Exited(reason) is Running && moved(c, frame, f));
                        assert(f == ControlFlow::Exit(reason));
                        assert(instruction(k, before, s_before, frame, storage@, ControlFlow::Exit(reason), *block));
                    }
                    let ghost fin = frame;
                    let ghost why = reason;
                    let r = match reason {
                        ExitReason::Success(ExitSuccess::Stop) => frame.finish(true, None, None),
                        ExitReason::Success(ExitSuccess::Return(data)) => frame.finish(true, None, Some(data)),
                        ExitReason::Error(error) => {
                            let payload = match &error {
                                EvmError::Revert(data) => Some(copy_bytes(data.as_slice())),
                                _ => None,
                            };
                            frame.finish(false, Some(error), payload)
                        },
                    };
                    proof {
                        let w = (fin, why);
                        assert(reports(r, w.0) && instruction(k, before, s_before, w.0, storage@, ControlFlow::Exit(w.1), *block)
                            && exit_result(w.1, r));
                        assert(ends(k, before, s_before, r, storage@, *block, steps as nat));
                    }
                    return r;
                },
            }
        }
        let ghost fin = frame;
        let r = frame.finish(true, None, None);
        proof {
            assert(ends(k, fin, storage@, r, storage@, *block, steps as nat));
        }
        r
    }
}

/// Run `code` in a new frame at `depth`.
pub fn run_frame(code: &[u8], context: Context, block: &Block, storage: &mut Storage, depth: usize) -> (r: EvmResult)
    requires
        context.state.wf(),
        old(storage).wf(),
        depth <= MAX_CALL_DEPTH,
    ensures
        final(storage).wf(),
        r.wf(),
        frame_result((MAX_CALL_DEPTH - depth + 1) as nat, code@, context, *block, old(storage)@, r, final(storage)@, depth),
    decreases MAX_CALL_DEPTH - depth, 4nat,
{
    let machine = Machine::new(code, context, depth);
    let ghost m0 = machine;
    let ghost k = (MAX_CALL_DEPTH - depth) as nat;
    let ghost s0 = storage@;
    let r = machine.execute(block, storage);
    proof {
        let (n, last, sl) = choose|n: nat, last: Machine, sl: Map<Word, Word>|
            #[trigger] runs(k, m0, s0, last, sl, *block, n) && ends(k, last, sl, r, storage@, *block, n);
        let w = (m0, n, last, sl);
        assert(is_initial(w.0, code@, context, depth));
        assert(((MAX_CALL_DEPTH - depth + 1) as nat - 1) as nat == k);
        assert(runs(k, w.0, s0, w.2, w.3, *block, w.1) && ends(k, w.2, w.3, r, storage@, *block, w.1));
    }
    r
}

} // verus!
