//! Sorted per-image symbol index and its best-match lookup.

use crate::errors::LoadFault;
use vstd::prelude::*;

verus! {

/// One row of a symbol table: the address a symbol starts at and its name.
#[derive(Debug)]
pub struct SymbolEntry {
    pub addr: u64,
    pub name: String,
}

/// Addresses are strictly increasing, hence unique.
pub open spec fn entries_sorted(s: Seq<SymbolEntry>) -> bool {
    forall|i: int, j: int| 0 <= i < j < s.len() ==> s[i].addr < s[j].addr
}

/// `i` indexes an entry at or below `addr` with every later entry above
/// `addr`: in a sorted table, the entry with the greatest address not
/// exceeding `addr`.
pub open spec fn is_best_match(s: Seq<SymbolEntry>, addr: u64, i: int) -> bool {
    &&& 0 <= i < s.len()
    &&& s[i].addr <= addr
    &&& forall|j: int| i < j < s.len() ==> s[j].addr > addr
}

/// The index a lookup for `addr` must yield, if any entry qualifies.
pub open spec fn table_lookup(s: Seq<SymbolEntry>, addr: u64) -> Option<int> {
    if exists|i: int| is_best_match(s, addr, i) {
        Some(choose|i: int| is_best_match(s, addr, i))
    } else {
        None
    }
}

/// A best match is unique (even without sortedness), so `table_lookup` is
/// pinned to it.
pub proof fn lemma_best_match_unique(s: Seq<SymbolEntry>, addr: u64, i: int, j: int)
    requires
        is_best_match(s, addr, i),
        is_best_match(s, addr, j),
    ensures
        i == j,
{
    if i < j {
        assert(s[j].addr > addr);
    }
    if j < i {
        assert(s[i].addr > addr);
    }
}

/// Pairwise order of neighbours extends to any pair of indices.
proof fn lemma_adjacent_sorted(s: Seq<SymbolEntry>, i: int, j: int)
    requires
        forall|k: int| 0 <= k < s.len() - 1 ==> #[trigger] s[k].addr < s[k + 1].addr,
        0 <= i < j < s.len(),
    ensures
        s[i].addr < s[j].addr,
    decreases j - i,
{
    assert(s[i].addr < s[i + 1].addr);
    if i + 1 < j {
        lemma_adjacent_sorted(s, i + 1, j);
    }
}

/// A per-image symbol index, sorted by strictly increasing address.
#[derive(Debug)]
pub struct SymbolTable {
    entries: Vec<SymbolEntry>,
}

impl View for SymbolTable {
    type V = Seq<SymbolEntry>;

    closed spec fn view(&self) -> Seq<SymbolEntry> {
        self.entries@
    }
}

impl SymbolTable {
    #[verifier::type_invariant]
    spec fn inv(self) -> bool {
        entries_sorted(self@)
    }

    /// Builds a table from entries that must arrive sorted by strictly
    /// increasing address; out-of-order or duplicate addresses are flagged
    /// as a format fault, never silently merged.
    pub fn new(entries: Vec<SymbolEntry>) -> (r: Result<SymbolTable, LoadFault>)
        ensures
            match r {
                Ok(t) => t@ == entries@ && entries_sorted(entries@),
                Err(f) => f == LoadFault::Format && !entries_sorted(entries@),
            },
    {
        let n = entries.len();
        if n <= 1 {
            return Ok(SymbolTable { entries });
        }
        let mut k: usize = 1;
        while k < n
            invariant
                1 <= k <= n,
                n == entries@.len(),
                forall|a: int| 0 <= a < k - 1 ==> #[trigger] entries@[a].addr < entries@[a + 1].addr,
            decreases n - k,
        {
            if entries[k - 1].addr >= entries[k].addr {
                assert(!entries_sorted(entries@));
                return Err(LoadFault::Format);
            }
            k = k + 1;
        }
        proof {
            assert forall|i: int, j: int|
                0 <= i < j < entries@.len() implies entries@[i].addr < entries@[j].addr by {
                lemma_adjacent_sorted(entries@, i, j);
            }
        }
        Ok(SymbolTable { entries })
    }

    /// The number of entries in the table.
    pub fn len(&self) -> (n: usize)
        ensures
            n == self@.len(),
    {
        self.entries.len()
    }

    /// The entry at index `i`.
    pub fn entry(&self, i: usize) -> (e: &SymbolEntry)
        requires
            i < self@.len(),
        ensures
            *e == self@[i as int],
    {
        &self.entries[i]
    }

    /// Binary search for the entry with the greatest address not exceeding
    /// `addr`; `None` when the whole table lies above `addr` or is empty.
    pub fn find_le(&self, addr: u64) -> (r: Option<usize>)
        ensures
            match r {
                Some(i) => table_lookup(self@, addr) == Some(i as int),
                None => table_lookup(self@, addr) is None,
            },
    {
        proof {
            use_type_invariant(&*self);
        }
        let n = self.entries.len();
        if n == 0 || self.entries[0].addr > addr {
            proof {
                if exists|i: int| is_best_match(self@, addr, i) {
                    let i = choose|i: int| is_best_match(self@, addr, i);
                    assert(self@[i].addr <= addr);
                    if i > 0 {
                        assert(self@[0].addr < self@[i].addr);
                    }
                }
            }
            return None;
        }
        let mut lo: usize = 0;
        let mut hi: usize = n - 1;
        while lo < hi
            invariant
                entries_sorted(self@),
                n == self@.len(),
                lo <= hi < n,
                self@[lo as int].addr <= addr,
                forall|j: int| hi < j < n ==> self@[j].addr > addr,
            decreases hi - lo,
        {
            let mid = lo + (hi - lo + 1) / 2;
            if self.entries[mid].addr <= addr {
                lo = mid;
            } else {
                hi = mid - 1;
            }
        }
        proof {
            assert(is_best_match(self@, addr, lo as int));
            let c = choose|i: int| is_best_match(self@, addr, i);
            lemma_best_match_unique(self@, addr, c, lo as int);
        }
        Some(lo)
    }
}

} // verus!
