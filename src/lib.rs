//! An interpreter for the Ethereum Virtual Machine, with its data structures
//! and opcode semantics stated as contracts over mathematical models.

pub mod address;
pub mod arith;
pub mod block;
pub mod context;
pub mod eval;
pub mod helpers;
pub mod jump_map;
pub mod machine;
pub mod memory;
pub mod opcode;
pub mod stack;
pub mod state;
pub mod storage;
pub mod transaction;
pub mod word;

use crate::block::Block;
use crate::context::Context;
use crate::eval::frame_result;
use crate::machine::{run_frame, EvmResult, MAX_CALL_DEPTH};
use crate::storage::Storage;
use crate::word::Word;
use vstd::prelude::*;

verus! {

/// Run `code` as the outermost frame, in `context` and `block`, on
/// `storage` (pass a fresh `Storage::new()` where none is shared). The
/// result is that of a run of instructions from the initial frame, each
/// with the effect `opcode_effect` gives it, to the end of the code, an
/// instruction that stops, returns or fails, or the end of the step budget.
pub fn evm(code: &[u8], context: Context, block: &Block, storage: &mut Storage) -> (r: EvmResult)
    requires
        context.state.wf(),
        old(storage).wf(),
    ensures
        final(storage).wf(),
        r.wf(),
        frame_result((MAX_CALL_DEPTH + 1) as nat, code@, context, *block, old(storage)@, r, final(storage)@, 0),
{
    run_frame(code, context, block, storage, 0)
}

} // verus!
