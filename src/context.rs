//! The per-frame call context.

use crate::address::Address;
use crate::helpers::{slice_from, slice_padded};
use crate::state::State;
use crate::word::{be_val, from_big_endian, Word};
use vstd::prelude::*;

verus! {

/// A frame's context, also called its environment.
pub type Environment = Context;

/// The call context of one frame.
pub struct Context {
    /// The executing contract.
    pub address: Address,
    pub caller: Address,
    /// The sender of the transaction.
    pub origin: Address,
    pub gasprice: Word,
    /// Wei transferred into this frame.
    pub value: Word,
    pub call_data: Vec<u8>,
    pub state: State,
    pub is_static: bool,
}

impl Context {
    pub fn new(
        address: Address,
        caller: Address,
        origin: Address,
        gasprice: Word,
        value: Word,
        call_data: Vec<u8>,
        state: State,
        is_static: bool,
    ) -> (r: Context)
        ensures
            r.address == address,
            r.caller == caller,
            r.origin == origin,
            r.gasprice == gasprice,
            r.value == value,
            r.call_data@ == call_data@,
            r.state@ == state@,
            r.state.wf() == state.wf(),
            r.is_static == is_static,
    {
        Context { address, caller, origin, gasprice, value, call_data, state, is_static }
    }

    /// The length of the call data.
    pub fn calldata_size(&self) -> (r: Word)
        ensures
            r.val() == self.call_data@.len(),
    {
        Word::from_usize(self.call_data.len())
    }

    /// The 32 bytes of call data from `byte_offset`, zero-filled past its end,
    /// as a word.
    pub fn load_calldata(&self, byte_offset: Word) -> (r: Word)
        ensures
            r.val() == be_val(slice_padded(self.call_data@, byte_offset.val(), 32)),
    {
        let bytes = slice_from(self.call_data.as_slice(), byte_offset, 32);
        from_big_endian(bytes.as_slice())
    }
}

} // verus!
