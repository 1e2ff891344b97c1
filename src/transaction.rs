//! The sender-side fields of a transaction.

use vstd::prelude::*;

verus! {

/// Who sent a transaction and at what gas price, as big-endian bytes.
pub struct Transaction {
    pub caller: Vec<u8>,
    pub origin: Vec<u8>,
    pub gasprice: Vec<u8>,
}

impl Transaction {
    pub fn new(caller: Vec<u8>, origin: Vec<u8>, gasprice: Vec<u8>) -> (r: Transaction)
        ensures
            r.caller@ == caller@,
            r.origin@ == origin@,
            r.gasprice@ == gasprice@,
    {
        Transaction { caller, origin, gasprice }
    }
}

} // verus!
