//! The ledger: the mutable, address-keyed account store shared across one
//! simulated chain, mutated only through the transaction pipeline. Balances
//! are non-negative arbitrary-precision numbers kept as canonical big-endian
//! magnitudes; their arithmetic is delegated to the big-integer library.
use vstd::prelude::*;

use crate::bigint::{big_add, big_checked_sub, big_from_u64, big_mul};
use crate::bytes::{
    be_unsigned, bytes_eq, canonical_mag, clone_bytes, lemma_trim_mag, trim_leading_zeros,
};
use crate::context::{storage_wf, StorageEntry};

verus! {

/// A structural, ledger-level failure: terminal for its transaction, but the
/// simulated chain continues with the next one.
#[derive(Clone, Copy, PartialEq, Eq, Structural, Debug)]
pub enum LedgerError {
    InsufficientFunds,
}

/// An address-keyed account record: nonce, balance, attached code, and
/// key-value storage.
pub struct Account {
    pub address: Vec<u8>,
    pub nonce: u64,
    pub egld_balance: Vec<u8>,
    pub contract_path: Vec<u8>,
    pub storage: Vec<StorageEntry>,
}

impl Account {
    /// The balance is canonical (never negative by construction) and the
    /// storage keys are unique.
    pub open spec fn wf(self) -> bool {
        canonical_mag(self.egld_balance@) && storage_wf(self.storage@)
    }

    /// The balance as a number.
    pub open spec fn balance(self) -> nat {
        be_unsigned(self.egld_balance@)
    }
}

/// A preset new-contract address: address derivation is an external
/// collaborator, so each simulated chain is seeded with the address that a
/// given (creator, creator nonce) deployment will receive.
pub struct NewAddressEntry {
    pub creator: Vec<u8>,
    pub creator_nonce: u64,
    pub new_address: Vec<u8>,
}

/// Index of the first account holding the given address, or -1.
pub open spec fn account_index(accounts: Seq<Account>, addr: Seq<u8>) -> int
    decreases accounts.len(),
{
    if accounts.len() == 0 {
        -1
    } else if accounts[0].address@ == addr {
        0
    } else {
        let r = account_index(accounts.drop_first(), addr);
        if r < 0 {
            -1
        } else {
            r + 1
        }
    }
}

/// Index of the first preset new address for the given creator and nonce,
/// or -1.
pub open spec fn new_address_index(
    entries: Seq<NewAddressEntry>,
    creator: Seq<u8>,
    creator_nonce: u64,
) -> int
    decreases entries.len(),
{
    if entries.len() == 0 {
        -1
    } else if entries[0].creator@ == creator && entries[0].creator_nonce == creator_nonce {
        0
    } else {
        let r = new_address_index(entries.drop_first(), creator, creator_nonce);
        if r < 0 {
            -1
        } else {
            r + 1
        }
    }
}

pub proof fn lemma_account_index_props(accounts: Seq<Account>, addr: Seq<u8>)
    ensures
        ({
            let r = account_index(accounts, addr);
            &&& -1 <= r < accounts.len()
            &&& r >= 0 ==> accounts[r].address@ == addr && (forall|j: int|
                0 <= j < r ==> accounts[j].address@ != addr)
            &&& r < 0 ==> (forall|j: int| 0 <= j < accounts.len() ==> accounts[j].address@ != addr)
        }),
    decreases accounts.len(),
{
    if accounts.len() == 0 {
    } else if accounts[0].address@ == addr {
    } else {
        let df = accounts.drop_first();
        lemma_account_index_props(df, addr);
        let r0 = account_index(df, addr);
        if r0 >= 0 {
            assert forall|j: int| 0 <= j < r0 + 1 implies accounts[j].address@ != addr by {
                if j > 0 {
                    assert(df[j - 1] == accounts[j]);
                }
            }
        } else {
            assert forall|j: int| 0 <= j < accounts.len() implies accounts[j].address@ != addr by {
                if j > 0 {
                    assert(df[j - 1] == accounts[j]);
                }
            }
        }
    }
}

pub proof fn lemma_account_index_char(accounts: Seq<Account>, addr: Seq<u8>, i: int)
    requires
        0 <= i < accounts.len(),
        accounts[i].address@ == addr,
        forall|j: int| 0 <= j < i ==> accounts[j].address@ != addr,
    ensures
        account_index(accounts, addr) == i,
    decreases accounts.len(),
{
    if i == 0 {
    } else {
        let df = accounts.drop_first();
        assert(df[i - 1] == accounts[i]);
        assert forall|j: int| 0 <= j < i - 1 implies df[j].address@ != addr by {
            assert(df[j] == accounts[j + 1]);
        }
        lemma_account_index_char(df, addr, i - 1);
    }
}

pub proof fn lemma_account_index_none(accounts: Seq<Account>, addr: Seq<u8>)
    requires
        forall|j: int| 0 <= j < accounts.len() ==> accounts[j].address@ != addr,
    ensures
        account_index(accounts, addr) == -1,
    decreases accounts.len(),
{
    if accounts.len() > 0 {
        let df = accounts.drop_first();
        assert forall|j: int| 0 <= j < df.len() implies df[j].address@ != addr by {
            assert(df[j] == accounts[j + 1]);
        }
        lemma_account_index_none(df, addr);
    }
}

pub proof fn lemma_new_address_index_char(
    entries: Seq<NewAddressEntry>,
    creator: Seq<u8>,
    creator_nonce: u64,
    i: int,
)
    requires
        0 <= i < entries.len(),
        entries[i].creator@ == creator && entries[i].creator_nonce == creator_nonce,
        forall|j: int|
            0 <= j < i ==> !(entries[j].creator@ == creator && entries[j].creator_nonce
                == creator_nonce),
    ensures
        new_address_index(entries, creator, creator_nonce) == i,
    decreases entries.len(),
{
    if i == 0 {
    } else {
        let df = entries.drop_first();
        assert(df[i - 1] == entries[i]);
        assert forall|j: int| 0 <= j < i - 1 implies !(df[j].creator@ == creator
            && df[j].creator_nonce == creator_nonce) by {
            assert(df[j] == entries[j + 1]);
        }
        lemma_new_address_index_char(df, creator, creator_nonce, i - 1);
    }
}

pub proof fn lemma_new_address_index_none(
    entries: Seq<NewAddressEntry>,
    creator: Seq<u8>,
    creator_nonce: u64,
)
    requires
        forall|j: int|
            0 <= j < entries.len() ==> !(entries[j].creator@ == creator
                && entries[j].creator_nonce == creator_nonce),
    ensures
        new_address_index(entries, creator, creator_nonce) == -1,
    decreases entries.len(),
{
    if entries.len() > 0 {
        let df = entries.drop_first();
        assert forall|j: int| 0 <= j < df.len() implies !(df[j].creator@ == creator
            && df[j].creator_nonce == creator_nonce) by {
            assert(df[j] == entries[j + 1]);
        }
        lemma_new_address_index_none(df, creator, creator_nonce);
    }
}

/// One account keeps its identity, code and storage while its balance is
/// set to the given number (in canonical bytes) and its nonce to the given
/// counter.
pub open spec fn account_adjusted(a0: Account, a1: Account, nonce: u64, bal: nat) -> bool {
    &&& a1.address == a0.address
    &&& a1.contract_path == a0.contract_path
    &&& a1.storage == a0.storage
    &&& a1.nonce == nonce
    &&& be_unsigned(a1.egld_balance@) == bal
    &&& canonical_mag(a1.egld_balance@)
}

/// The in-memory account store of one simulated chain.
pub struct Ledger {
    pub accounts: Vec<Account>,
    pub new_addresses: Vec<NewAddressEntry>,
}

impl Ledger {
    /// Addresses are unique and every account is well-formed.
    pub open spec fn wf(self) -> bool {
        &&& forall|i: int, j: int|
            0 <= i < j < self.accounts@.len() ==> self.accounts@[i].address@
                != self.accounts@[j].address@
        &&& forall|i: int| 0 <= i < self.accounts@.len() ==> (#[trigger] self.accounts@[i]).wf()
    }

    pub fn new() -> (r: Ledger)
        ensures
            r.wf(),
            r.accounts@ == Seq::<Account>::empty(),
            r.new_addresses@ == Seq::<NewAddressEntry>::empty(),
    {
        Ledger { accounts: Vec::new(), new_addresses: Vec::new() }
    }

    /// Seeds the chain with an account; its address must be fresh.
    pub fn put_account(&mut self, account: Account)
        requires
            old(self).wf(),
            account.wf(),
            account_index(old(self).accounts@, account.address@) < 0,
        ensures
            final(self).wf(),
            final(self).accounts@ == old(self).accounts@.push(account),
            final(self).new_addresses == old(self).new_addresses,
    {
        proof {
            lemma_account_index_props(self.accounts@, account.address@);
        }
        self.accounts.push(account);
    }

    /// Seeds the chain with the address a later deployment will receive.
    pub fn put_new_address(&mut self, creator: &Vec<u8>, creator_nonce: u64, new_address: &Vec<u8>)
        ensures
            final(self).accounts == old(self).accounts,
            final(self).new_addresses@.len() == old(self).new_addresses@.len() + 1,
            final(self).new_addresses@.drop_last() == old(self).new_addresses@,
            final(self).new_addresses@.last().creator@ == creator@,
            final(self).new_addresses@.last().creator_nonce == creator_nonce,
            final(self).new_addresses@.last().new_address@ == new_address@,
    {
        let entry = NewAddressEntry {
            creator: clone_bytes(creator),
            creator_nonce,
            new_address: clone_bytes(new_address),
        };
        self.new_addresses.push(entry);
        proof {
            assert(final(self).new_addresses@.drop_last() =~= old(self).new_addresses@);
        }
    }

    /// Finds the account holding the given address.
    fn find_account(&self, address: &Vec<u8>) -> (r: Option<usize>)
        ensures
            r matches Some(i) ==> 0 <= i < self.accounts@.len() && account_index(
                self.accounts@,
                address@,
            ) == i,
            r is None ==> account_index(self.accounts@, address@) == -1,
    {
        let n = self.accounts.len();
        let mut i: usize = 0;
        while i < n
            invariant
                n == self.accounts@.len(),
                i <= n,
                forall|j: int| 0 <= j < i ==> self.accounts@[j].address@ != address@,
            decreases n - i,
        {
            if bytes_eq(&self.accounts[i].address, address) {
                proof {
                    lemma_account_index_char(self.accounts@, address@, i as int);
                }
                return Some(i);
            }
            i = i + 1;
        }
        proof {
            lemma_account_index_none(self.accounts@, address@);
        }
        None
    }

    /// The account holding the given address, if any.
    pub fn get_account(&self, address: &Vec<u8>) -> (r: Option<&Account>)
        ensures
            r matches Some(a) ==> account_index(self.accounts@, address@) >= 0 && *a
                == self.accounts@[account_index(self.accounts@, address@)],
            r is None ==> account_index(self.accounts@, address@) == -1,
    {
        match self.find_account(address) {
            Some(i) => Some(&self.accounts[i]),
            None => None,
        }
    }

    /// Bumps the account's monotonic counter. Admission happens before any
    /// debit and is never rolled back.
    pub fn increase_account_nonce(&mut self, address: &Vec<u8>)
        requires
            old(self).wf(),
            account_index(old(self).accounts@, address@) >= 0,
            old(self).accounts@[account_index(old(self).accounts@, address@)].nonce < u64::MAX,
        ensures
            final(self).wf(),
            final(self).new_addresses == old(self).new_addresses,
            ({
                let si = account_index(old(self).accounts@, address@);
                let a0 = old(self).accounts@[si];
                final(self).accounts@ == old(self).accounts@.update(
                    si,
                    Account { nonce: (a0.nonce + 1) as u64, ..a0 },
                )
            }),
    {
        proof {
            lemma_account_index_props(self.accounts@, address@);
        }
        match self.find_account(address) {
            Some(i) => {
                let mut a = self.accounts.remove(i);
                a.nonce = a.nonce + 1;
                self.accounts.insert(i, a);
                proof {
                    let si = account_index(old(self).accounts@, address@);
                    let a0 = old(self).accounts@[si];
                    assert(final(self).accounts@ =~= old(self).accounts@.update(
                        si,
                        Account { nonce: (a0.nonce + 1) as u64, ..a0 },
                    ));
                }
            },
            None => {
                proof {
                    assert(false);
                }
            },
        }
    }

    /// Debits the transferred value; fails without touching the ledger when
    /// the balance would go negative.
    pub fn subtract_egld_balance(&mut self, address: &Vec<u8>, amount: &Vec<u8>) -> (r: Result<
        (),
        LedgerError,
    >)
        requires
            old(self).wf(),
            account_index(old(self).accounts@, address@) >= 0,
        ensures
            ({
                let si = account_index(old(self).accounts@, address@);
                let b0 = old(self).accounts@[si].balance();
                let v = be_unsigned(amount@);
                &&& final(self).new_addresses == old(self).new_addresses
                &&& b0 < v ==> (r matches Err(e) && e is InsufficientFunds && *final(self) == *old(
                    self,
                ))
                &&& b0 >= v ==> (r is Ok && final(self).wf() && final(self).accounts@.len() == old(
                    self,
                ).accounts@.len() && (forall|j: int|
                    0 <= j < old(self).accounts@.len() && j != si ==> final(self).accounts@[j]
                        == old(self).accounts@[j]) && account_adjusted(
                    old(self).accounts@[si],
                    final(self).accounts@[si],
                    old(self).accounts@[si].nonce,
                    (b0 - v) as nat,
                ))
            }),
    {
        proof {
            lemma_account_index_props(self.accounts@, address@);
        }
        match self.find_account(address) {
            Some(i) => {
                match big_checked_sub(&self.accounts[i].egld_balance, amount) {
                    Some(difference) => {
                        proof {
                            lemma_trim_mag(difference@);
                        }
                        let nb = trim_leading_zeros(&difference);
                        let mut a = self.accounts.remove(i);
                        a.egld_balance = nb;
                        self.accounts.insert(i, a);
                        proof {
                            assert(final(self).accounts@ =~= old(self).accounts@.update(
                                i as int,
                                final(self).accounts@[i as int],
                            ));
                        }
                        Ok(())
                    },
                    None => Err(LedgerError::InsufficientFunds),
                }
            },
            None => {
                proof {
                    assert(false);
                }
                Err(LedgerError::InsufficientFunds)
            },
        }
    }

    /// Debits the flat gas cost, `gas_limit` times `gas_price`; fails
    /// without touching the ledger when the balance would go negative.
    pub fn subtract_tx_gas(&mut self, address: &Vec<u8>, gas_limit: u64, gas_price: u64) -> (r:
        Result<(), LedgerError>)
        requires
            old(self).wf(),
            account_index(old(self).accounts@, address@) >= 0,
        ensures
            ({
                let si = account_index(old(self).accounts@, address@);
                let b0 = old(self).accounts@[si].balance();
                let g = (gas_limit as nat) * (gas_price as nat);
                &&& final(self).new_addresses == old(self).new_addresses
                &&& b0 < g ==> (r matches Err(e) && e is InsufficientFunds && *final(self) == *old(
                    self,
                ))
                &&& b0 >= g ==> (r is Ok && final(self).wf() && final(self).accounts@.len() == old(
                    self,
                ).accounts@.len() && (forall|j: int|
                    0 <= j < old(self).accounts@.len() && j != si ==> final(self).accounts@[j]
                        == old(self).accounts@[j]) && account_adjusted(
                    old(self).accounts@[si],
                    final(self).accounts@[si],
                    old(self).accounts@[si].nonce,
                    (b0 - g) as nat,
                ))
            }),
    {
        let limit_bytes = big_from_u64(gas_limit);
        let price_bytes = big_from_u64(gas_price);
        let gas_cost = big_mul(&limit_bytes, &price_bytes);
        self.subtract_egld_balance(address, &gas_cost)
    }

    /// Credits an account.
    pub fn increase_egld_balance(&mut self, address: &Vec<u8>, amount: &Vec<u8>)
        requires
            old(self).wf(),
            account_index(old(self).accounts@, address@) >= 0,
        ensures
            ({
                let si = account_index(old(self).accounts@, address@);
                let b0 = old(self).accounts@[si].balance();
                let v = be_unsigned(amount@);
                &&& final(self).new_addresses == old(self).new_addresses
                &&& final(self).wf()
                &&& final(self).accounts@.len() == old(self).accounts@.len()
                &&& (forall|j: int|
                    0 <= j < old(self).accounts@.len() && j != si ==> final(self).accounts@[j]
                        == old(self).accounts@[j])
                &&& account_adjusted(
                    old(self).accounts@[si],
                    final(self).accounts@[si],
                    old(self).accounts@[si].nonce,
                    b0 + v,
                )
            }),
    {
        proof {
            lemma_account_index_props(self.accounts@, address@);
        }
        match self.find_account(address) {
            Some(i) => {
                let sum = big_add(&self.accounts[i].egld_balance, amount);
                proof {
                    lemma_trim_mag(sum@);
                }
                let nb = trim_leading_zeros(&sum);
                let mut a = self.accounts.remove(i);
                a.egld_balance = nb;
                self.accounts.insert(i, a);
                proof {
                    assert(final(self).accounts@ =~= old(self).accounts@.update(
                        i as int,
                        final(self).accounts@[i as int],
                    ));
                }
            },
            None => {
                proof {
                    assert(false);
                }
            },
        }
    }

    /// Creates a fresh contract account: zero balance and nonce, the given
    /// code attached, empty storage.
    pub fn create_account(&mut self, address: &Vec<u8>, contract_path: &Vec<u8>)
        requires
            old(self).wf(),
            account_index(old(self).accounts@, address@) < 0,
        ensures
            final(self).wf(),
            final(self).new_addresses == old(self).new_addresses,
            final(self).accounts@.len() == old(self).accounts@.len() + 1,
            forall|j: int|
                0 <= j < old(self).accounts@.len() ==> final(self).accounts@[j] == old(
                    self,
                ).accounts@[j],
            final(self).accounts@.last().address@ == address@,
            final(self).accounts@.last().nonce == 0,
            final(self).accounts@.last().egld_balance@ == Seq::<u8>::empty(),
            final(self).accounts@.last().contract_path@ == contract_path@,
            final(self).accounts@.last().storage@ == Seq::<StorageEntry>::empty(),
            account_index(final(self).accounts@, address@) == old(self).accounts@.len(),
            forall|a: Seq<u8>|
                account_index(old(self).accounts@, a) >= 0 ==> account_index(
                    final(self).accounts@,
                    a,
                ) == account_index(old(self).accounts@, a),
    {
        proof {
            lemma_account_index_props(self.accounts@, address@);
        }
        let account = Account {
            address: clone_bytes(address),
            nonce: 0,
            egld_balance: Vec::new(),
            contract_path: clone_bytes(contract_path),
            storage: Vec::new(),
        };
        self.accounts.push(account);
        proof {
            lemma_account_index_char(
                final(self).accounts@,
                address@,
                old(self).accounts@.len() as int,
            );
            assert forall|a: Seq<u8>| account_index(old(self).accounts@, a) >= 0 implies
                account_index(final(self).accounts@, a) == account_index(
                old(self).accounts@,
                a,
            ) by {
                lemma_account_index_props(old(self).accounts@, a);
                lemma_account_index_char(
                    final(self).accounts@,
                    a,
                    account_index(old(self).accounts@, a),
                );
            }
        }
    }

    /// The preset address for a deployment by `creator` at `creator_nonce`.
    pub fn get_new_address(&self, creator: &Vec<u8>, creator_nonce: u64) -> (r: Option<Vec<u8>>)
        ensures
            ({
                let idx = new_address_index(self.new_addresses@, creator@, creator_nonce);
                &&& idx >= 0 ==> (r matches Some(a) && a@
                    == self.new_addresses@[idx].new_address@)
                &&& idx < 0 ==> r is None
            }),
    {
        let n = self.new_addresses.len();
        let mut i: usize = 0;
        while i < n
            invariant
                n == self.new_addresses@.len(),
                i <= n,
                forall|j: int|
                    0 <= j < i ==> !(self.new_addresses@[j].creator@ == creator@
                        && self.new_addresses@[j].creator_nonce == creator_nonce),
            decreases n - i,
        {
            if bytes_eq(&self.new_addresses[i].creator, creator) && self.new_addresses[i].creator_nonce
                == creator_nonce {
                proof {
                    lemma_new_address_index_char(
                        self.new_addresses@,
                        creator@,
                        creator_nonce,
                        i as int,
                    );
                }
                return Some(clone_bytes(&self.new_addresses[i].new_address));
            }
            i = i + 1;
        }
        proof {
            lemma_new_address_index_none(self.new_addresses@, creator@, creator_nonce);
        }
        None
    }

    /// Attaches the storage a contract accumulated during execution to its
    /// account; the commit step's only contract-visible mutation.
    pub fn set_account_storage(&mut self, address: &Vec<u8>, storage: Vec<StorageEntry>)
        requires
            old(self).wf(),
            account_index(old(self).accounts@, address@) >= 0,
            storage_wf(storage@),
        ensures
            final(self).wf(),
            final(self).new_addresses == old(self).new_addresses,
            ({
                let si = account_index(old(self).accounts@, address@);
                let a0 = old(self).accounts@[si];
                final(self).accounts@ == old(self).accounts@.update(
                    si,
                    Account { storage, ..a0 },
                )
            }),
    {
        proof {
            lemma_account_index_props(self.accounts@, address@);
        }
        match self.find_account(address) {
            Some(i) => {
                let mut a = self.accounts.remove(i);
                a.storage = storage;
                self.accounts.insert(i, a);
                proof {
                    let si = account_index(old(self).accounts@, address@);
                    let a0 = old(self).accounts@[si];
                    assert(final(self).accounts@ =~= old(self).accounts@.update(
                        si,
                        Account { storage: final(self).accounts@[si].storage, ..a0 },
                    ));
                }
            },
            None => {
                proof {
                    assert(false);
                }
            },
        }
    }
}

} // verus!
