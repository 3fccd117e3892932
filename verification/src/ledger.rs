//! An address-keyed ledger of accounts, the storage the transitions act on.
//! It models the host runtime's account store: each account lives at an
//! opaque byte address, is owned by one module, and holds a byte buffer.
//! Allocation at an occupied address fails, which is what makes a derived
//! address an implicit uniqueness constraint.

use crate::errors::PollError;
use vstd::prelude::*;

verus! {

/// What the ledger holds at one address.
#[verifier::ext_equal]
pub ghost struct AccountModel {
    pub owner: Seq<u8>,
    pub data: Seq<u8>,
}

/// One stored account.
pub struct LedgerEntry {
    pub address: Vec<u8>,
    pub owner: Vec<u8>,
    pub data: Vec<u8>,
}

pub open spec fn entry_model(e: LedgerEntry) -> AccountModel {
    AccountModel { owner: e.owner@, data: e.data@ }
}

/// The map an entry list denotes, later entries shadowing earlier ones;
/// with distinct addresses the order never matters.
pub open spec fn entries_map(s: Seq<LedgerEntry>) -> Map<Seq<u8>, AccountModel>
    decreases s.len(),
{
    if s.len() == 0 {
        Map::empty()
    } else {
        entries_map(s.drop_last()).insert(s.last().address@, entry_model(s.last()))
    }
}

/// The in-memory ledger: a list of accounts at pairwise distinct addresses,
/// seen by every contract as an address-to-account map.
pub struct Ledger {
    entries: Vec<LedgerEntry>,
}

impl View for Ledger {
    type V = Map<Seq<u8>, AccountModel>;

    closed spec fn view(&self) -> Map<Seq<u8>, AccountModel> {
        entries_map(self.entries@)
    }
}

pub proof fn lemma_entries_map_domain(s: Seq<LedgerEntry>, k: Seq<u8>)
    ensures
        entries_map(s).contains_key(k) <==> exists|i: int|
            0 <= i < s.len() && #[trigger] s[i].address@ == k,
    decreases s.len(),
{
    if s.len() > 0 {
        lemma_entries_map_domain(s.drop_last(), k);
        if entries_map(s).contains_key(k) {
            if s.last().address@ == k {
                assert(s[s.len() - 1].address@ == k);
            } else {
                let i = choose|i: int|
                    0 <= i < s.drop_last().len() && #[trigger] s.drop_last()[i].address@ == k;
                assert(s[i].address@ == k);
            }
        }
        if exists|i: int| 0 <= i < s.len() && #[trigger] s[i].address@ == k {
            let i = choose|i: int| 0 <= i < s.len() && #[trigger] s[i].address@ == k;
            if i < s.len() - 1 {
                assert(s.drop_last()[i].address@ == k);
            }
        }
    }
}

/// With distinct addresses, the entry at index `i` is what the map holds.
pub proof fn lemma_entries_map_index(s: Seq<LedgerEntry>, i: int)
    requires
        0 <= i < s.len(),
        forall|a: int, b: int|
            0 <= a < b < s.len() ==> #[trigger] s[a].address@ != #[trigger] s[b].address@,
    ensures
        entries_map(s).contains_key(s[i].address@),
        entries_map(s)[s[i].address@] == entry_model(s[i]),
    decreases s.len(),
{
    lemma_entries_map_domain(s, s[i].address@);
    if i < s.len() - 1 {
        assert(s.drop_last()[i] == s[i]);
        lemma_entries_map_index(s.drop_last(), i);
        assert(s.last().address@ != s[i].address@);
    }
}

impl Ledger {
    /// Addresses are pairwise distinct.
    pub closed spec fn wf(&self) -> bool {
        forall|a: int, b: int|
            0 <= a < b < self.entries@.len() ==> #[trigger] self.entries@[a].address@
                != #[trigger] self.entries@[b].address@
    }

    /// An empty ledger.
    pub fn new() -> (r: Self)
        ensures
            r.wf(),
            r@ == Map::<Seq<u8>, AccountModel>::empty(),
    {
        Ledger { entries: Vec::new() }
    }

    fn find(&self, address: &Vec<u8>) -> (r: Option<usize>)
        requires
            self.wf(),
        ensures
            match r {
                Some(i) => i < self.entries@.len() && self.entries@[i as int].address@ == address@
                    && self@.contains_key(address@) && self@[address@] == entry_model(
                    self.entries@[i as int],
                ),
                None => !self@.contains_key(address@),
            },
    {
        let n = self.entries.len();
        let mut i: usize = 0;
        while i < n
            invariant
                self.wf(),
                n == self.entries@.len(),
                i <= n,
                forall|j: int| 0 <= j < i ==> #[trigger] self.entries@[j].address@ != address@,
            decreases n - i,
        {
            if bytes_eq(self.entries[i].address.as_slice(), address.as_slice()) {
                proof {
                    lemma_entries_map_index(self.entries@, i as int);
                }
                return Some(i);
            }
            i = i + 1;
        }
        proof {
            lemma_entries_map_domain(self.entries@, address@);
        }
        None
    }

    /// Whether any account is allocated at the address.
    pub fn contains(&self, address: &Vec<u8>) -> (r: bool)
        requires
            self.wf(),
        ensures
            r == self@.contains_key(address@),
    {
        self.find(address).is_some()
    }

    /// The account at the address, if one is allocated.
    pub fn read(&self, address: &Vec<u8>) -> (r: Option<&LedgerEntry>)
        requires
            self.wf(),
        ensures
            match r {
                Some(e) => self@.contains_key(address@) && self@[address@] == entry_model(*e)
                    && e.address@ == address@,
                None => !self@.contains_key(address@),
            },
    {
        match self.find(address) {
            Some(i) => Some(&self.entries[i]),
            None => None,
        }
    }

    /// Allocates `size` zeroed bytes at the address for `owner`.  Fails,
    /// changing nothing, exactly when the address is already occupied:
    /// the double-vote and re-creation guard.
    pub fn allocate(&mut self, address: &Vec<u8>, size: usize, owner: &Vec<u8>) -> (r: Result<
        (),
        PollError,
    >)
        requires
            old(self).wf(),
        ensures
            final(self).wf(),
            old(self)@.contains_key(address@) ==> r == Err::<(), PollError>(
                PollError::AllocationConflict,
            ) && final(self)@ == old(self)@,
            !old(self)@.contains_key(address@) ==> r is Ok && final(self)@ == old(self)@.insert(
                address@,
                AccountModel { owner: owner@, data: Seq::new(size as nat, |i: int| 0u8) },
            ),
    {
        if self.contains(address) {
            return Err(PollError::AllocationConflict);
        }
        let mut data: Vec<u8> = Vec::new();
        let mut i: usize = 0;
        while i < size
            invariant
                i <= size,
                data@ =~= Seq::new(i as nat, |j: int| 0u8),
            decreases size - i,
        {
            data.push(0);
            proof {
                assert(data@ =~= Seq::new((i + 1) as nat, |j: int| 0u8));
            }
            i = i + 1;
        }
        let entry = LedgerEntry {
            address: crate::ledger::clone_bytes(address),
            owner: crate::ledger::clone_bytes(owner),
            data,
        };
        proof {
            lemma_entries_map_domain(self.entries@, address@);
            assert(forall|j: int|
                0 <= j < self.entries@.len() ==> #[trigger] self.entries@[j].address@ != address@);
            assert(self.entries@.push(entry).drop_last() =~= self.entries@);
        }
        self.entries.push(entry);
        Ok(())
    }

    /// Overwrites the data of the account at the address, keeping its owner.
    pub fn write(&mut self, address: &Vec<u8>, data: Vec<u8>)
        requires
            old(self).wf(),
            old(self)@.contains_key(address@),
        ensures
            final(self).wf(),
            final(self)@ == old(self)@.insert(
                address@,
                AccountModel { owner: old(self)@[address@].owner, data: data@ },
            ),
    {
        let i = match self.find(address) {
            Some(i) => i,
            None => {
                proof {
                    assert(false);
                }
                0
            },
        };
        let mut entry = self.entries.remove(i);
        entry.data = data;
        proof {
            assert(old(self).entries@.remove(i as int).insert(i as int, entry) =~= old(
                self,
            ).entries@.update(i as int, entry));
        }
        self.entries.insert(i, entry);
        proof {
            lemma_entries_map_update(old(self).entries@, i as int, entry);
        }
    }
}

/// Replacing the entry at `i` by one at the same address updates the map
/// at that address alone.
pub proof fn lemma_entries_map_update(s: Seq<LedgerEntry>, i: int, e: LedgerEntry)
    requires
        0 <= i < s.len(),
        e.address@ == s[i].address@,
        forall|a: int, b: int|
            0 <= a < b < s.len() ==> #[trigger] s[a].address@ != #[trigger] s[b].address@,
    ensures
        entries_map(s.update(i, e)) == entries_map(s).insert(e.address@, entry_model(e)),
    decreases s.len(),
{
    let t = s.update(i, e);
    if i == s.len() - 1 {
        assert(t.drop_last() =~= s.drop_last());
        assert(entries_map(t) =~= entries_map(s).insert(e.address@, entry_model(e)));
    } else {
        assert(t.drop_last() =~= s.drop_last().update(i, e));
        assert(s.drop_last()[i] == s[i]);
        lemma_entries_map_update(s.drop_last(), i, e);
        assert(t.last() == s.last());
        assert(s.last().address@ != e.address@);
        assert(entries_map(t) == entries_map(s.drop_last()).insert(
            e.address@,
            entry_model(e),
        ).insert(s.last().address@, entry_model(s.last())));
        assert(entries_map(s.drop_last()).insert(e.address@, entry_model(e)).insert(
            s.last().address@,
            entry_model(s.last()),
        ) =~= entries_map(s).insert(e.address@, entry_model(e)));
    }
}

/// Byte-for-byte equality of two buffers.
pub fn bytes_eq(a: &[u8], b: &[u8]) -> (r: bool)
    ensures
        r == (a@ == b@),
{
    if a.len() != b.len() {
        proof {
            assert(a@ != b@);
        }
        return false;
    }
    let n = a.len();
    let mut i: usize = 0;
    while i < n
        invariant
            n == a@.len(),
            n == b@.len(),
            i <= n,
            forall|j: int| 0 <= j < i ==> a@[j] == b@[j],
        decreases n - i,
    {
        if a[i] != b[i] {
            return false;
        }
        i = i + 1;
    }
    proof {
        assert(a@ =~= b@);
    }
    true
}

/// A fresh copy of a byte buffer.
pub fn clone_bytes(v: &Vec<u8>) -> (r: Vec<u8>)
    ensures
        r@ == v@,
{
    vstd::slice::slice_to_vec(v.as_slice())
}

} // verus!
