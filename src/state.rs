//! The world state: accounts by address, each with a balance and code.

use crate::address::Address;
use crate::helpers::arr_slice_extend;
use crate::word::{word_modulus, wrapping_add, Word};
use vstd::prelude::*;

verus! {

/// Copy of a byte string.
pub fn copy_bytes(b: &[u8]) -> (r: Vec<u8>)
    ensures
        r@ == b@,
{
    let r = arr_slice_extend(b, 0, b.len());
    assert(r@ =~= b@);
    r
}

#[derive(Debug)]
pub struct Account {
    pub balance: Word,
    pub code: Vec<u8>,
}

impl Account {
    pub fn new(balance: Word, code: Vec<u8>) -> (r: Account)
        ensures
            r.balance == balance,
            r.code@ == code@,
    {
        Account { balance, code }
    }

    /// A copy of the account.
    pub fn copy(&self) -> (r: Account)
        ensures
            r.balance == self.balance,
            r.code@ == self.code@,
    {
        Account { balance: self.balance, code: copy_bytes(self.code.as_slice()) }
    }

    /// The balance and the code.
    pub open spec fn view_of(&self) -> (Word, Seq<u8>) {
        (self.balance, self.code@)
    }
}

/// The balance of `a` in state `s`: zero for an absent account.
pub open spec fn balance_of(s: Map<Address, (Word, Seq<u8>)>, a: Address) -> nat {
    if s.contains_key(a) { s[a].0.val() } else { 0 }
}

/// The code of `a` in state `s`: empty for an absent account.
pub open spec fn code_of(s: Map<Address, (Word, Seq<u8>)>, a: Address) -> Seq<u8> {
    if s.contains_key(a) { s[a].1 } else { Seq::empty() }
}

/// State `s` with each listed account set in turn, later entries winning.
pub open spec fn with_accounts(
    s: Map<Address, (Word, Seq<u8>)>,
    list: Seq<(Address, Word, Vec<u8>)>,
) -> Map<Address, (Word, Seq<u8>)>
    decreases list.len(),
{
    if list.len() == 0 {
        s
    } else {
        let last = list.last();
        with_accounts(s, list.drop_last()).insert(last.0, (last.1, last.2@))
    }
}

/// The world state: accounts keyed by address, each address held once.
pub struct State {
    accounts: Vec<(Address, Account)>,
}

impl View for State {
    /// Each address's balance and code.
    type V = Map<Address, (Word, Seq<u8>)>;

    closed spec fn view(&self) -> Map<Address, (Word, Seq<u8>)> {
        Map::new(
            |k: Address| exists|i: int| 0 <= i < self.accounts@.len() && self.accounts@[i].0 == k,
            |k: Address|
                self.accounts@[choose|i: int|
                    0 <= i < self.accounts@.len() && self.accounts@[i].0 == k].1.view_of(),
        )
    }
}

impl State {
    /// No address is held twice.
    pub closed spec fn wf(&self) -> bool {
        forall|i: int, j: int|
            0 <= i < self.accounts@.len() && 0 <= j < self.accounts@.len() && i != j
                ==> self.accounts@[i].0 != self.accounts@[j].0
    }

    pub fn new() -> (r: State)
        ensures
            r.wf(),
            r@ == Map::<Address, (Word, Seq<u8>)>::empty(),
    {
        let r = State { accounts: Vec::new() };
        assert(r@ =~= Map::<Address, (Word, Seq<u8>)>::empty());
        r
    }

    proof fn lemma_index(&self, i: int)
        requires
            self.wf(),
            0 <= i < self.accounts@.len(),
        ensures
            self@.contains_key(self.accounts@[i].0),
            self@[self.accounts@[i].0] == self.accounts@[i].1.view_of(),
    {
        let k = self.accounts@[i].0;
        assert(self@.contains_key(k));
        let j = choose|j: int| 0 <= j < self.accounts@.len() && self.accounts@[j].0 == k;
        assert(i == j);
    }

    fn find(&self, address: &Address) -> (r: Option<usize>)
        requires
            self.wf(),
        ensures
            r is None ==> !self@.contains_key(*address),
            r matches Some(i) ==> i < self.accounts@.len() && self.accounts@[i as int].0 == *address
                && self@.contains_key(*address) && self@[*address] == self.accounts@[i as int].1.view_of(),
    {
        let mut i: usize = 0;
        while i < self.accounts.len()
            invariant
                self.wf(),
                i <= self.accounts@.len(),
                forall|j: int| 0 <= j < i ==> self.accounts@[j].0 != *address,
            decreases self.accounts@.len() - i,
        {
            if self.accounts[i].0.equals(address) {
                proof {
                    self.lemma_index(i as int);
                }
                return Some(i);
            }
            i = i + 1;
        }
        None
    }

    /// Hold `account` under `address`, replacing what was there.
    fn insert(&mut self, address: Address, account: Account)
        requires
            old(self).wf(),
        ensures
            final(self).wf(),
            final(self)@ == old(self)@.insert(address, account.view_of()),
    {
        let ghost before = self@;
        let ghost v = account.view_of();
        match self.find(&address) {
            Some(i) => {
                self.accounts.set(i, (address, account));
                proof {
                    assert forall|k: Address| #[trigger] self@.contains_key(k) == before.insert(address, v).contains_key(k) by {
                        if exists|j: int| 0 <= j < old(self).accounts@.len() && old(self).accounts@[j].0 == k {
                            let j = choose|j: int| 0 <= j < old(self).accounts@.len() && old(self).accounts@[j].0 == k;
                            assert(self.accounts@[j].0 == k);
                        }
                        if exists|j: int| 0 <= j < self.accounts@.len() && self.accounts@[j].0 == k {
                            let j = choose|j: int| 0 <= j < self.accounts@.len() && self.accounts@[j].0 == k;
                            if j != i {
                                assert(old(self).accounts@[j].0 == k);
                            }
                        }
                    }
                    assert forall|k: Address| #[trigger] self@.contains_key(k) implies self@[k] == before.insert(address, v)[k] by {
                        let j = choose|j: int| 0 <= j < self.accounts@.len() && self.accounts@[j].0 == k;
                        self.lemma_index(j);
                        if j != i {
                            old(self).lemma_index(j);
                        }
                    }
                    assert(self@ =~= before.insert(address, v));
                }
            },
            None => {
                self.accounts.push((address, account));
                proof {
                    let n = old(self).accounts@.len() as int;
                    assert forall|k: Address| #[trigger] self@.contains_key(k) == before.insert(address, v).contains_key(k) by {
                        if exists|j: int| 0 <= j < old(self).accounts@.len() && old(self).accounts@[j].0 == k {
                            let j = choose|j: int| 0 <= j < old(self).accounts@.len() && old(self).accounts@[j].0 == k;
                            assert(self.accounts@[j].0 == k);
                        }
                        if k == address {
                            assert(self.accounts@[n].0 == k);
                        }
                    }
                    assert forall|k: Address| #[trigger] self@.contains_key(k) implies self@[k] == before.insert(address, v)[k] by {
                        let j = choose|j: int| 0 <= j < self.accounts@.len() && self.accounts@[j].0 == k;
                        self.lemma_index(j);
                        if j != n {
                            old(self).lemma_index(j);
                        }
                    }
                    assert(self@ =~= before.insert(address, v));
                }
            },
        }
    }

    /// Set the account at `address` to `balance` and `code`.
    pub fn add_account(&mut self, address: Address, balance: Word, code: Vec<u8>)
        requires
            old(self).wf(),
        ensures
            final(self).wf(),
            final(self)@ == old(self)@.insert(address, (balance, code@)),
    {
        self.insert(address, Account::new(balance, code));
    }

    /// Set each listed account in turn.
    pub fn add_accounts(&mut self, accounts: &Vec<(Address, Word, Vec<u8>)>)
        requires
            old(self).wf(),
        ensures
            final(self).wf(),
            final(self)@ == with_accounts(old(self)@, accounts@),
    {
        let mut i: usize = 0;
        while i < accounts.len()
            invariant
                self.wf(),
                i <= accounts@.len(),
                self@ == with_accounts(old(self)@, accounts@.subrange(0, i as int)),
            decreases accounts@.len() - i,
        {
            let (address, balance, code) = &accounts[i];
            self.add_account(*address, *balance, copy_bytes(code.as_slice()));
            proof {
                assert(accounts@.subrange(0, i + 1).drop_last() =~= accounts@.subrange(0, i as int));
            }
            i = i + 1;
        }
        assert(accounts@.subrange(0, accounts@.len() as int) =~= accounts@);
    }

    /// The balance at `address`; zero if there is no account.
    pub fn get_account_balance(&self, address: &Address) -> (r: Word)
        requires
            self.wf(),
        ensures
            r.val() == balance_of(self@, *address),
            self@.contains_key(*address) ==> r == self@[*address].0,
    {
        match self.find(address) {
            Some(i) => self.accounts[i].1.balance,
            None => Word::zero(),
        }
    }

    /// The code at `address`; empty if there is no account.
    pub fn get_account_code(&self, address: &Address) -> (r: Vec<u8>)
        requires
            self.wf(),
        ensures
            r@ == code_of(self@, *address),
    {
        match self.find(address) {
            Some(i) => copy_bytes(self.accounts[i].1.code.as_slice()),
            None => Vec::new(),
        }
    }

    /// A copy of the account at `address`, if there is one.
    pub fn get_account(&self, address: &Address) -> (r: Option<Account>)
        requires
            self.wf(),
        ensures
            r is None <==> !self@.contains_key(*address),
            r matches Some(a) ==> a.view_of() == self@[*address],
    {
        match self.find(address) {
            Some(i) => Some(self.accounts[i].1.copy()),
            None => None,
        }
    }

    /// Remove the account at `address`, giving back its balance.
    pub fn destruct_account(&mut self, address: &Address) -> (r: Word)
        requires
            old(self).wf(),
        ensures
            final(self).wf(),
            r.val() == balance_of(old(self)@, *address),
            final(self)@ == old(self)@.remove(*address),
    {
        match self.find(address) {
            Some(i) => {
                let ghost before = self@;
                let (_, account) = self.accounts.remove(i);
                proof {
                    assert forall|k: Address| #[trigger] self@.contains_key(k) == before.remove(*address).contains_key(k) by {
                        if exists|j: int| 0 <= j < old(self).accounts@.len() && old(self).accounts@[j].0 == k {
                            let j = choose|j: int| 0 <= j < old(self).accounts@.len() && old(self).accounts@[j].0 == k;
                            if j < i {
                                assert(self.accounts@[j].0 == k);
                            } else if j > i {
                                assert(self.accounts@[j - 1].0 == k);
                            }
                        }
                        if exists|j: int| 0 <= j < self.accounts@.len() && self.accounts@[j].0 == k {
                            let j = choose|j: int| 0 <= j < self.accounts@.len() && self.accounts@[j].0 == k;
                            if j < i {
                                assert(old(self).accounts@[j].0 == k);
                            } else {
                                assert(old(self).accounts@[j + 1].0 == k);
                            }
                        }
                    }
                    assert forall|k: Address| #[trigger] self@.contains_key(k) implies self@[k] == before.remove(*address)[k] by {
                        let j = choose|j: int| 0 <= j < self.accounts@.len() && self.accounts@[j].0 == k;
                        self.lemma_index(j);
                        if j < i {
                            old(self).lemma_index(j);
                        } else {
                            old(self).lemma_index(j + 1);
                        }
                    }
                    assert(self@ =~= before.remove(*address));
                }
                account.balance
            },
            None => {
                assert(self@ =~= old(self)@.remove(*address));
                Word::zero()
            },
        }
    }

    /// Add `balance` to the account at `address` (wrapping) and set its code.
    pub fn add_or_update_account(&mut self, address: Address, balance: Word, code: Vec<u8>)
        requires
            old(self).wf(),
        ensures
            final(self).wf(),
            final(self)@.dom() == old(self)@.dom().insert(address),
            final(self)@[address].0.val() == (balance.val() + balance_of(old(self)@, address)) % word_modulus(),
            final(self)@[address].1 == code@,
            forall|a: Address| a != address ==> #[trigger] final(self)@.get(a) == old(self)@.get(a),
    {
        let prev = self.get_account_balance(&address);
        self.add_account(address, wrapping_add(balance, prev), code);
    }

    /// Add `extra` to the balance at `address` (wrapping), creating an
    /// account with empty code if there is none.
    pub fn increment_balance(&mut self, address: Address, extra: Word)
        requires
            old(self).wf(),
        ensures
            final(self).wf(),
            final(self)@.dom() == old(self)@.dom().insert(address),
            final(self)@[address].0.val() == (balance_of(old(self)@, address) + extra.val()) % word_modulus(),
            final(self)@[address].1 == code_of(old(self)@, address),
            forall|a: Address| a != address ==> #[trigger] final(self)@.get(a) == old(self)@.get(a),
    {
        let prev = self.get_account_balance(&address);
        let code = self.get_account_code(&address);
        self.add_account(address, wrapping_add(prev, extra), code);
    }

    /// A copy holding the same accounts.
    pub fn copy(&self) -> (r: State)
        requires
            self.wf(),
        ensures
            r.wf(),
            r@ == self@,
    {
        let mut accounts: Vec<(Address, Account)> = Vec::new();
        let mut i: usize = 0;
        while i < self.accounts.len()
            invariant
                i <= self.accounts@.len(),
                accounts@.len() == i,
                forall|j: int| 0 <= j < i ==> #[trigger] accounts@[j].0 == self.accounts@[j].0
                    && accounts@[j].1.view_of() == self.accounts@[j].1.view_of(),
            decreases self.accounts@.len() - i,
        {
            accounts.push((self.accounts[i].0, self.accounts[i].1.copy()));
            i = i + 1;
        }
        let r = State { accounts };
        assert forall|k: Address| #[trigger] r@.contains_key(k) == self@.contains_key(k) by {
            if exists|j: int| 0 <= j < self.accounts@.len() && self.accounts@[j].0 == k {
                let j = choose|j: int| 0 <= j < self.accounts@.len() && self.accounts@[j].0 == k;
                assert(r.accounts@[j].0 == k);
            }
            if exists|j: int| 0 <= j < r.accounts@.len() && r.accounts@[j].0 == k {
                let j = choose|j: int| 0 <= j < r.accounts@.len() && r.accounts@[j].0 == k;
                assert(self.accounts@[j].0 == k);
            }
        }
        assert(r.wf());
        assert forall|k: Address| #[trigger] r@.contains_key(k) implies r@[k] == self@[k] by {
            let j = choose|j: int| 0 <= j < r.accounts@.len() && r.accounts@[j].0 == k;
            r.lemma_index(j);
            self.lemma_index(j);
        }
        assert(r@ =~= self@);
        r
    }
}

} // verus!
