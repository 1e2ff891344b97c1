//! The block a transaction runs in.

use vstd::prelude::*;

verus! {

/// Block constants, each a big-endian byte string.
pub struct Block {
    pub coinbase: Vec<u8>,
    pub timestamp: Vec<u8>,
    pub number: Vec<u8>,
    pub difficulty: Vec<u8>,
    pub gaslimit: Vec<u8>,
    pub chainid: Vec<u8>,
    pub basefee: Vec<u8>,
}

impl Block {
    pub fn new(
        coinbase: Vec<u8>,
        timestamp: Vec<u8>,
        number: Vec<u8>,
        difficulty: Vec<u8>,
        gaslimit: Vec<u8>,
        chainid: Vec<u8>,
        basefee: Vec<u8>,
    ) -> (r: Block)
        ensures
            r.coinbase@ == coinbase@,
            r.timestamp@ == timestamp@,
            r.number@ == number@,
            r.difficulty@ == difficulty@,
            r.gaslimit@ == gaslimit@,
            r.chainid@ == chainid@,
            r.basefee@ == basefee@,
    {
        Block { coinbase, timestamp, number, difficulty, gaslimit, chainid, basefee }
    }
}

} // verus!
