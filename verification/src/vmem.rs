//! Sv39 virtual memory: page-table entry encoding, the page-table walker and
//! the mapper that installs leaf mappings, backed by the bitmap page
//! allocator for fresh table pages.

use crate::allocator::{
    first_fit, free_count, lemma_free_count_first_fit, BitMapAlloc, PAGE_COUNT,
};
use crate::PAGE_SIZE;
use vstd::prelude::*;

verus! {

broadcast use crate::allocator::BitMapAlloc::lemma_bits_len;

/// Entries per page table (one page of 64-bit entries).
pub const TABLE_LEN: usize = 512;

/// Sv39 mode tag for the address-translation control register.
pub const MODE_SV39: u64 = 8u64 << 60;

/// Permission bits of a leaf entry, as encoded in an Sv39 PTE:
/// readable (bit 1), writable (bit 2, only together with readable),
/// executable (bit 3), user-accessible (bit 4).
#[derive(Debug, Clone, Copy, PartialEq, Eq, Structural)]
pub struct Perms {
    inner: usize,
}

/// `v` holds only permission bits, and write implies read.
pub open spec fn perm_bits_wf(v: usize) -> bool {
    v == v & 0x1E && (v & 4 != 0 ==> v & 2 != 0)
}

/// `v` makes a leaf: at least one of read/write/execute is set.
pub open spec fn perm_bits_leaf(v: usize) -> bool {
    v & 0xE != 0
}

impl Perms {
    /// The raw permission bits.
    pub closed spec fn value(self) -> usize {
        self.inner
    }

    /// Readable.
    pub fn read() -> (r: Self)
        ensures
            r.value() == 2,
    {
        Perms { inner: 2 }
    }

    /// Readable and writable; write without read is never constructed.
    pub fn read_write() -> (r: Self)
        ensures
            r.value() == 6,
    {
        Perms { inner: 6 }
    }

    /// Executable.
    pub fn execute() -> (r: Self)
        ensures
            r.value() == 8,
    {
        Perms { inner: 8 }
    }

    /// User-accessible; only meaningful combined with another permission.
    pub fn user() -> (r: Self)
        ensures
            r.value() == 16,
    {
        Perms { inner: 16 }
    }

    /// Every permission: read, write, execute, user.
    pub fn all() -> (r: Self)
        ensures
            r.value() == 30,
    {
        Perms { inner: 30 }
    }

    /// The permissions of `self` and `other` combined.
    pub fn union(self, other: Self) -> (r: Self)
        ensures
            r.value() == self.value() | other.value(),
    {
        Perms { inner: self.inner | other.inner }
    }

    /// The raw permission bits.
    pub fn bits(&self) -> (r: usize)
        ensures
            r == self.value(),
    {
        self.inner
    }
}

/// Failures of `map`. Running out of pages for fresh tables is not here:
/// exhaustion of physical memory is unrecoverable at this layer.
#[derive(Debug, Clone, Copy, PartialEq, Eq, Structural)]
pub enum MapError {
    /// A walk step dereferenced through an unusable pointer. Defensive: the
    /// verified walker never produces it.
    InvalidPtr { ptr: usize },
    /// The virtual page is already mapped; existing mappings are never
    /// silently overwritten.
    Remap,
}

/// The valid bit of an entry is set.
pub open spec fn pte_valid(e: usize) -> bool {
    e & 1 == 1
}

/// The read/write/execute bits of an entry.
pub open spec fn pte_rwx(e: usize) -> usize {
    e & 0xE
}

/// A valid entry without R/W/X bits: it points at the next table level.
pub open spec fn pte_is_branch(e: usize) -> bool {
    pte_valid(e) && pte_rwx(e) == 0
}

/// The physical-page-number field of an entry, moved into place.
pub open spec fn spec_pa2pte(pa: usize) -> usize {
    (pa >> 12usize) << 10usize
}

/// The physical address an entry points at.
pub open spec fn spec_pte2pa(pte: usize) -> usize {
    (pte >> 10usize) << 12usize
}

/// The leaf entry mapping physical address `pa` with permission bits `perms`.
pub open spec fn spec_leaf_pte(pa: usize, perms: usize) -> usize {
    spec_pa2pte(pa) | perms | 1usize
}

/// The 9-bit slice of `va` that indexes a table at `level`.
pub open spec fn spec_px(level: int, va: usize) -> usize {
    (va >> ((12 + 9 * level) as usize)) & 0x1ffusize
}

/// Turn a physical address into the PPN field of an entry.
pub fn pa2pte(pa: usize) -> (r: usize)
    ensures
        r == spec_pa2pte(pa),
{
    (pa >> 12) << 10
}

/// Turn the PPN field of an entry back into a physical address.
pub fn pte2pa(pte: usize) -> (r: usize)
    ensures
        r == spec_pte2pa(pte),
{
    (pte >> 10) << 12
}

/// Index of `va` into the table at `level` (0 is the leaf level).
pub fn px(level: usize, va: usize) -> (r: usize)
    requires
        level <= 2,
    ensures
        r == spec_px(level as int, va),
        r < TABLE_LEN,
{
    let r = (va >> (12 + 9 * level)) & 0x1FF;
    proof {
        lemma_px_bound(va, (12 + 9 * level) as usize);
    }
    r
}

proof fn lemma_px_bound(va: usize, amt: usize)
    by (bit_vector)
    requires
        amt < 31,
    ensures
        ((va >> amt) & 0x1ffusize) < 512,
{
}

/// Encoding a leaf entry from a page-aligned physical address and a set of
/// permission bits and decoding it again yields the address, the
/// permissions, and a set valid bit, exactly.
pub proof fn lemma_entry_round_trip(pa: usize, perms: usize)
    requires
        pa % PAGE_SIZE == 0,
        perm_bits_wf(perms),
    ensures
        spec_pte2pa(spec_leaf_pte(pa, perms)) == pa,
        spec_leaf_pte(pa, perms) & 0x1e == perms,
        pte_valid(spec_leaf_pte(pa, perms)),
{
    assert((((((pa >> 12usize) << 10usize) | perms | 1usize) >> 10usize) << 12usize) == pa
        && ((((pa >> 12usize) << 10usize) | perms | 1usize) & 0x1eusize) == perms && ((((pa
        >> 12usize) << 10usize) | perms | 1usize) & 1usize) == 1) by (bit_vector)
        requires
            pa % 4096 == 0,
            perms == perms & 0x1eusize,
    ;
}

/// A page-aligned address survives the move into and out of the PPN field.
pub proof fn lemma_pa_round_trip(pa: usize)
    requires
        pa % PAGE_SIZE == 0,
    ensures
        spec_pte2pa(spec_pa2pte(pa)) == pa,
        spec_pa2pte(pa) & 0x3ff == 0,
{
    assert(((((pa >> 12usize) << 10usize) >> 10usize) << 12usize) == pa && (((pa >> 12usize)
        << 10usize) & 0x3ffusize) == 0) by (bit_vector)
        requires
            pa % 4096 == 0,
    ;
}

/// One raw Sv39 page-table entry.
#[derive(Debug, Clone, Copy, PartialEq, Eq, Structural)]
pub struct PTEntry {
    inner: usize,
}

impl PTEntry {
    /// The raw word of the entry.
    pub closed spec fn value(self) -> usize {
        self.inner
    }

    /// An empty (invalid) entry.
    pub fn new() -> (r: Self)
        ensures
            r.value() == 0,
    {
        PTEntry { inner: 0 }
    }

    /// The raw word of the entry.
    pub fn bits(&self) -> (r: usize)
        ensures
            r == self.value(),
    {
        self.inner
    }

    /// The valid bit is set.
    pub fn is_valid(&self) -> (r: bool)
        ensures
            r == pte_valid(self.value()),
    {
        let e = self.inner;
        proof {
            assert((e & 1usize != 0) == (e & 1usize == 1)) by (bit_vector);
        }
        (e & 1) != 0
    }

    /// Set the valid bit; passing `false` leaves the entry unchanged rather
    /// than clearing the bit.
    pub fn set_valid(&mut self, valid: bool)
        ensures
            final(self).value() == old(self).value() | (if valid {
                1usize
            } else {
                0usize
            }),
    {
        let valid = if valid {
            1
        } else {
            0
        };
        self.inner |= valid;
    }

    /// Add permission bits to the entry.
    pub fn set_perms(&mut self, perms: Perms)
        ensures
            final(self).value() == old(self).value() | perms.value(),
    {
        self.inner |= perms.bits();
    }

    /// Replace the whole entry with the PPN field of `paddr`.
    pub fn set_inner_from_pa(&mut self, paddr: usize)
        ensures
            final(self).value() == spec_pa2pte(paddr),
    {
        self.inner = (paddr >> 12) << 10;
    }

    /// The physical address the entry points at.
    pub fn get_physical_addr(&self) -> (r: usize)
        ensures
            r == spec_pte2pa(self.value()),
    {
        (self.inner >> 10) << 12
    }

    /// Reset the entry to invalid.
    pub fn clear(&mut self)
        ensures
            final(self).value() == 0,
    {
        self.inner = 0
    }
}

} // verus!

use vstd::prelude::*;

verus! {

/// Two virtual addresses select the same slots at every table level: they
/// name the same Sv39 virtual page.
pub open spec fn vpn_eq(va1: usize, va2: usize) -> bool {
    spec_px(2, va1) == spec_px(2, va2) && spec_px(1, va1) == spec_px(1, va2) && spec_px(0, va1)
        == spec_px(0, va2)
}

/// One past the highest Sv39 virtual address.
pub open spec fn va_limit() -> int {
    0x80_0000_0000
}

/// Page-aligned Sv39 addresses with equal slot indices are equal.
pub proof fn lemma_vpn_eq_same_page(va1: usize, va2: usize)
    requires
        va1 % PAGE_SIZE == 0,
        va2 % PAGE_SIZE == 0,
        va1 < va_limit(),
        va2 < va_limit(),
        vpn_eq(va1, va2),
    ensures
        va1 == va2,
{
    assert(va1 == va2) by (bit_vector)
        requires
            va1 % 4096 == 0,
            va2 % 4096 == 0,
            (va1 as u64) < 0x80_0000_0000u64,
            (va2 as u64) < 0x80_0000_0000u64,
            (va1 >> 30usize) & 0x1ffusize == (va2 >> 30usize) & 0x1ffusize,
            (va1 >> 21usize) & 0x1ffusize == (va2 >> 21usize) & 0x1ffusize,
            (va1 >> 12usize) & 0x1ffusize == (va2 >> 12usize) & 0x1ffusize,
    ;
}

/// The page-table mapper. It owns the root table and every table reachable
/// from it; each table's page was handed out by the bitmap allocator, and
/// the entries of table `i` live at `entries[TABLE_LEN * i ..]`.
pub struct Mapper {
    root_addr: usize,
    addrs: Vec<usize>,
    entries: Vec<usize>,
    levels: Ghost<Seq<int>>,
}

impl Mapper {
    /// Number of tables in the forest.
    pub closed spec fn n(self) -> int {
        self.addrs@.len() as int
    }

    /// Physical address of table `i`.
    pub closed spec fn addr_of(self, i: int) -> usize {
        self.addrs@[i]
    }

    /// Level of table `i`: 2 for the root, 0 for leaf tables.
    pub closed spec fn level_of(self, i: int) -> int {
        self.levels@[i]
    }

    /// Entry `j` of table `i`.
    pub closed spec fn ent(self, i: int, j: int) -> usize {
        self.entries@[TABLE_LEN * i + j]
    }

    /// Physical address of the root table.
    pub closed spec fn root(self) -> usize {
        self.root_addr
    }

    /// Some table of the forest sits at `addr` on level `lvl`.
    pub closed spec fn has_table_at(self, addr: usize, lvl: int) -> bool {
        exists|k: int| 0 <= k < self.n() && self.addr_of(k) == addr && self.level_of(k) == lvl
    }

    /// Index of the table at `addr`.
    pub closed spec fn table_index_of(self, addr: usize) -> int {
        choose|k: int| 0 <= k < self.n() && self.addr_of(k) == addr
    }

    /// Entry `(i, j)` is a valid pointer to a child table.
    pub closed spec fn is_branch_slot(self, i: int, j: int) -> bool {
        0 <= i < self.n() && 0 <= j < TABLE_LEN && self.level_of(i) >= 1 && pte_valid(
            self.ent(i, j),
        )
    }

    /// The tri-state entry invariant of table `i`, slot `j`: a valid entry
    /// above level 0 is a branch to a table one level down; a valid entry at
    /// level 0 is a leaf.
    pub closed spec fn entry_ok(self, i: int, j: int) -> bool {
        pte_valid(self.ent(i, j)) ==> if self.level_of(i) >= 1 {
            pte_rwx(self.ent(i, j)) == 0 && self.has_table_at(
                spec_pte2pa(self.ent(i, j)),
                self.level_of(i) - 1,
            )
        } else {
            pte_rwx(self.ent(i, j)) != 0
        }
    }

    /// No two branch entries point at the same child: reachability through
    /// valid chains is the ownership graph, and it is a forest.
    pub closed spec fn parents_unique(self) -> bool {
        forall|i1: int, j1: int, i2: int, j2: int|
            #![trigger self.is_branch_slot(i1, j1), self.is_branch_slot(i2, j2)]
            self.is_branch_slot(i1, j1) && self.is_branch_slot(i2, j2) && spec_pte2pa(
                self.ent(i1, j1),
            ) == spec_pte2pa(self.ent(i2, j2)) ==> i1 == i2 && j1 == j2
    }

    /// Structural invariant of the whole forest.
    pub closed spec fn wf(self) -> bool {
        &&& self.n() >= 1
        &&& self.levels@.len() == self.n()
        &&& self.entries@.len() == TABLE_LEN * self.n()
        &&& self.addr_of(0) == self.root_addr
        &&& self.level_of(0) == 2
        &&& forall|i: int| 1 <= i < self.n() ==> 0 <= #[trigger] self.level_of(i) <= 1
        &&& forall|i: int| 0 <= i < self.n() ==> #[trigger] self.addr_of(i) % PAGE_SIZE == 0
        &&& forall|i1: int, i2: int|
            0 <= i1 < i2 < self.n() ==> self.addr_of(i1) != self.addr_of(i2)
        &&& forall|i: int, j: int|
            0 <= i < self.n() && 0 <= j < TABLE_LEN ==> #[trigger] self.entry_ok(i, j)
        &&& self.parents_unique()
    }

    /// Every table page was allocated from `a` and is still marked taken.
    pub closed spec fn coherent(self, a: BitMapAlloc) -> bool {
        forall|i: int|
            0 <= i < self.n() ==> exists|p: int|
                0 <= p < PAGE_COUNT && a.bits()[p] && #[trigger] self.addr_of(i) == a.page_addr(p)
    }

    /// The level-0 slot that a walk of `va` reaches, if the branches to it
    /// exist: the leaf table index and the slot within it.
    pub closed spec fn leaf_slot(self, va: usize) -> Option<(int, int)> {
        let e2 = self.ent(0, spec_px(2, va) as int);
        if !pte_valid(e2) {
            None
        } else {
            let t1 = self.table_index_of(spec_pte2pa(e2));
            let e1 = self.ent(t1, spec_px(1, va) as int);
            if !pte_valid(e1) {
                None
            } else {
                Some((self.table_index_of(spec_pte2pa(e1)), spec_px(0, va) as int))
            }
        }
    }

    /// The installed leaf entry for virtual address `va`, if `va`'s page is
    /// mapped. This is the mapper's whole observable state.
    pub closed spec fn pte_for(self, va: usize) -> Option<usize> {
        match self.leaf_slot(va) {
            None => None,
            Some(slot) => {
                let e = self.ent(slot.0, slot.1);
                if pte_valid(e) {
                    Some(e)
                } else {
                    None
                }
            },
        }
    }

    /// `va`'s page has a mapping installed.
    pub open spec fn is_mapped(self, va: usize) -> bool {
        self.pte_for(va) is Some
    }

    /// Physical address of the root table.
    pub fn root_address(&self) -> (r: usize)
        ensures
            r == self.root(),
    {
        self.root_addr
    }

    /// The word to write into the address-translation control register:
    /// the Sv39 mode tag over the root table's physical page number.
    pub fn satp_value(&self) -> (r: u64)
        ensures
            r == MODE_SV39 | ((self.root() as u64) >> 12),
    {
        MODE_SV39 | ((self.root_addr as u64) >> 12)
    }
}

/// The mapping view depends only on the virtual page, never on the offset
/// bits or on anything above the Sv39 index slices.
pub proof fn lemma_pte_for_vpn(m: Mapper, va1: usize, va2: usize)
    requires
        vpn_eq(va1, va2),
    ensures
        m.leaf_slot(va1) == m.leaf_slot(va2),
        m.pte_for(va1) == m.pte_for(va2),
{
}

} // verus!

verus! {

/// An all-zero entry is invalid.
proof fn lemma_zero_entry()
    ensures
        !pte_valid(0),
{
    assert(0usize & 1usize == 0) by (bit_vector);
}

/// Slot indices computed from a virtual address stay inside a table.
proof fn lemma_spec_px_bound(level: int, va: usize)
    requires
        0 <= level <= 2,
    ensures
        spec_px(level, va) < TABLE_LEN,
{
    let amt = (12 + 9 * level) as usize;
    assert(((va >> amt) & 0x1ffusize) < 512) by (bit_vector)
        requires
            amt < 31,
    ;
}

impl Mapper {
    /// Two table indices holding the same address are the same index.
    proof fn lemma_unique_index(self, k1: int, k2: int)
        requires
            self.wf(),
            0 <= k1 < self.n(),
            0 <= k2 < self.n(),
            self.addr_of(k1) == self.addr_of(k2),
        ensures
            k1 == k2,
    {
    }

    /// `table_index_of` finds exactly the table it is asked for.
    proof fn lemma_index_of(self, k: int)
        requires
            self.wf(),
            0 <= k < self.n(),
        ensures
            self.table_index_of(self.addr_of(k)) == k,
    {
        let addr = self.addr_of(k);
        assert(exists|k2: int| 0 <= k2 < self.n() && self.addr_of(k2) == addr);
        let k2 = self.table_index_of(addr);
        assert(0 <= k2 < self.n() && self.addr_of(k2) == addr);
        self.lemma_unique_index(k, k2);
    }

    /// Read entry `j` of table `t`.
    fn entry_at(&self, t: usize, j: usize) -> (r: usize)
        requires
            self.wf(),
            (t as int) < self.n(),
            j < TABLE_LEN,
        ensures
            r == self.ent(t as int, j as int),
    {
        proof {
            assert(TABLE_LEN * (t as int) + TABLE_LEN <= TABLE_LEN * self.n()) by (nonlinear_arith)
                requires
                    t as int <= self.n() - 1,
                    TABLE_LEN > 0,
            ;
        }
        // reading the length pins the flat index inside machine range
        let _ = self.entries.len();
        let idx = t * TABLE_LEN + j;
        self.entries[idx]
    }

    /// Overwrite entry `j` of table `t` with the raw word `v`; everything
    /// else of the mapper keeps its value. Re-establishing the forest
    /// invariant is the caller's burden.
    fn set_entry(&mut self, t: usize, j: usize, v: usize)
        requires
            old(self).wf(),
            (t as int) < old(self).n(),
            j < TABLE_LEN,
        ensures
            final(self).n() == old(self).n(),
            final(self).root() == old(self).root(),
            final(self).addrs@ == old(self).addrs@,
            final(self).levels@ == old(self).levels@,
            final(self).entries@ == old(self).entries@.update(
                TABLE_LEN * (t as int) + j,
                v,
            ),
            final(self).ent(t as int, j as int) == v,
            forall|i: int, j2: int|
                0 <= i < old(self).n() && 0 <= j2 < TABLE_LEN && !(i == t && j2 == j)
                    ==> final(self).ent(i, j2) == old(self).ent(i, j2),
    {
        proof {
            assert(TABLE_LEN * (t as int) + TABLE_LEN <= TABLE_LEN * self.n()) by (nonlinear_arith)
                requires
                    t as int <= self.n() - 1,
                    TABLE_LEN > 0,
            ;
        }
        // reading the length pins the flat index inside machine range
        let _ = self.entries.len();
        let idx = t * TABLE_LEN + j;
        self.entries.set(idx, v);
        proof {
            assert forall|i: int, j2: int|
                0 <= i < old(self).n() && 0 <= j2 < TABLE_LEN && !(i == t && j2 == j) implies self.ent(
                i,
                j2,
            ) == old(self).ent(i, j2) by {
                assert(TABLE_LEN * i + j2 != TABLE_LEN * (t as int) + j);
            }
        }
    }
}

} // verus!

verus! {

/// Flat index of entry `(i, j)` stays inside a forest of `n` tables.
proof fn lemma_flat_index(i: int, j: int, n: int)
    requires
        0 <= i < n,
        0 <= j < TABLE_LEN,
    ensures
        0 <= TABLE_LEN * i + j < TABLE_LEN * n,
    decreases n,
{
    assert(TABLE_LEN * i + j < TABLE_LEN * n) by (nonlinear_arith)
        requires
            0 <= i < n && 0 <= j < TABLE_LEN,
    ;
}

/// The valid bit of a raw entry.
fn entry_is_valid(e: usize) -> (r: bool)
    ensures
        r == pte_valid(e),
{
    proof {
        assert((e & 1usize != 0) == (e & 1usize == 1)) by (bit_vector);
    }
    (e & 1) != 0
}

impl Mapper {
    /// Append a fresh zeroed table at `addr` with ghost level `lvl`.
    fn push_table(&mut self, addr: usize, Ghost(lvl): Ghost<int>)
        requires
            old(self).wf(),
        ensures
            final(self).n() == old(self).n() + 1,
            final(self).root() == old(self).root(),
            final(self).addrs@ == old(self).addrs@.push(addr),
            final(self).levels@ == old(self).levels@.push(lvl),
            final(self).entries@.len() == TABLE_LEN * final(self).n(),
            forall|i: int, j: int|
                0 <= i < old(self).n() && 0 <= j < TABLE_LEN ==> final(self).ent(i, j) == old(
                    self,
                ).ent(i, j),
            forall|j: int| 0 <= j < TABLE_LEN ==> final(self).ent(old(self).n(), j) == 0,
            final(self).addr_of(old(self).n()) == addr,
            final(self).level_of(old(self).n()) == lvl,
    {
        self.addrs.push(addr);
        self.levels = Ghost(self.levels@.push(lvl));
        let mut k: usize = 0;
        while k < TABLE_LEN
            invariant
                k <= TABLE_LEN,
                self.entries@.len() == old(self).entries@.len() + k,
                forall|m: int|
                    0 <= m < old(self).entries@.len() ==> self.entries@[m] == old(
                        self,
                    ).entries@[m],
                forall|m: int|
                    old(self).entries@.len() <= m < self.entries@.len() ==> self.entries@[m] == 0,
                self.addrs@ == old(self).addrs@.push(addr),
                self.levels@ == old(self).levels@.push(lvl),
                self.root_addr == old(self).root_addr,
            decreases TABLE_LEN - k,
        {
            self.entries.push(0);
            k = k + 1;
        }
        proof {
            let n0 = old(self).n();
            assert forall|i: int, j: int|
                0 <= i < n0 && 0 <= j < TABLE_LEN implies self.ent(i, j) == old(self).ent(
                i,
                j,
            ) by {
                lemma_flat_index(i, j, n0);
            }
            assert forall|j: int| 0 <= j < TABLE_LEN implies self.ent(n0, j) == 0 by {
                lemma_flat_index(n0, j, n0 + 1);
            }
        }
    }

    /// Index of the table at physical address `addr`, which must exist.
    fn find_table(&self, addr: usize) -> (r: usize)
        requires
            self.wf(),
            exists|k: int| 0 <= k < self.n() && self.addr_of(k) == addr,
        ensures
            (r as int) < self.n(),
            self.addr_of(r as int) == addr,
            r as int == self.table_index_of(addr),
    {
        let n = self.addrs.len();
        let mut i: usize = 0;
        while i < n
            invariant
                self.wf(),
                n == self.n(),
                i <= n,
                exists|k: int| 0 <= k < self.n() && self.addr_of(k) == addr,
                forall|k: int| 0 <= k < i ==> self.addr_of(k) != addr,
            decreases n - i,
        {
            if self.addrs[i] == addr {
                proof {
                    let k0 = self.table_index_of(addr);
                    assert(0 <= k0 < self.n() && self.addr_of(k0) == addr);
                    self.lemma_unique_index(k0, i as int);
                }
                return i;
            }
            i = i + 1;
        }
        proof {
            let k0 = choose|k: int| 0 <= k < self.n() && self.addr_of(k) == addr;
            assert(self.addr_of(k0) != addr);
        }
        unreached()
    }

    /// The mapping installed for `va`, read back from the tables: the raw
    /// leaf entry if `va`'s page is mapped.
    pub fn translate(&self, va: usize) -> (r: Option<usize>)
        requires
            self.wf(),
        ensures
            r == self.pte_for(va),
    {
        let idx2 = px(2, va);
        let e2 = self.entry_at(0, idx2);
        if !entry_is_valid(e2) {
            return None;
        }
        proof {
            assert(self.entry_ok(0, idx2 as int));
        }
        let pa1 = pte2pa(e2);
        let t1 = self.find_table(pa1);
        proof {
            let lvl_witness = choose|k: int|
                0 <= k < self.n() && self.addr_of(k) == pa1 && self.level_of(k) == 1;
            self.lemma_unique_index(lvl_witness, t1 as int);
        }
        let idx1 = px(1, va);
        let e1 = self.entry_at(t1, idx1);
        if !entry_is_valid(e1) {
            return None;
        }
        proof {
            assert(self.entry_ok(t1 as int, idx1 as int));
        }
        let pa0 = pte2pa(e1);
        let t0 = self.find_table(pa0);
        let idx0 = px(0, va);
        let e0 = self.entry_at(t0, idx0);
        if entry_is_valid(e0) {
            Some(e0)
        } else {
            None
        }
    }
}

/// Set up the mapper: allocate one page for the root table and hand back a
/// mapper whose address space is empty.
pub fn init(balloc: &mut BitMapAlloc) -> (m: Mapper)
    requires
        old(balloc).wf(),
        free_count(old(balloc).bits()) > 0,
    ensures
        final(balloc).wf(),
        final(balloc).base_addr() == old(balloc).base_addr(),
        free_count(final(balloc).bits()) + 1 == free_count(old(balloc).bits()),
        forall|k: int|
            0 <= k < PAGE_COUNT && old(balloc).bits()[k] ==> final(balloc).bits()[k],
        m.wf(),
        m.coherent(*final(balloc)),
        forall|va: usize| m.pte_for(va) is None,
        m.root() == old(balloc).page_addr(first_fit(old(balloc).bits(), 1).unwrap()),
{
    proof {
        lemma_free_count_first_fit(balloc.bits());
    }
    let tbl_addr = balloc.allocate(1);

    let mut addrs: Vec<usize> = Vec::new();
    addrs.push(tbl_addr);
    let mut entries: Vec<usize> = Vec::new();
    let mut k: usize = 0;
    while k < TABLE_LEN
        invariant
            k <= TABLE_LEN,
            entries@.len() == k,
            forall|m: int| 0 <= m < k ==> entries@[m] == 0,
        decreases TABLE_LEN - k,
    {
        entries.push(0);
        k = k + 1;
    }

    let ghost root_levels: Seq<int> = seq![2int];
    let m = Mapper { root_addr: tbl_addr, addrs, entries, levels: Ghost(root_levels) };
    proof {
        let ghost start = first_fit(old(balloc).bits(), 1).unwrap() as int;
        lemma_zero_entry();
        assert forall|i: int, j: int|
            0 <= i < m.n() && 0 <= j < TABLE_LEN implies m.entry_ok(i, j) by {
            assert(m.ent(i, j) == 0);
        }
        assert forall|i1: int, j1: int, i2: int, j2: int|
            m.is_branch_slot(i1, j1) && m.is_branch_slot(i2, j2) && spec_pte2pa(m.ent(i1, j1))
                == spec_pte2pa(m.ent(i2, j2)) implies i1 == i2 && j1 == j2 by {
            assert(m.ent(i1, j1) == 0);
        }
        assert(m.wf());
        assert forall|i: int| 0 <= i < m.n() implies exists|p: int|
            0 <= p < PAGE_COUNT && balloc.bits()[p] && #[trigger] m.addr_of(i) == balloc.page_addr(
            p,
        ) by {
            assert(0 <= start < PAGE_COUNT && balloc.bits()[start] && m.addr_of(i)
                == balloc.page_addr(start));
        }
        assert forall|va: usize| m.pte_for(va) is None by {
            lemma_spec_px_bound(2, va);
            assert(m.ent(0, spec_px(2, va) as int) == 0);
        }
    }
    m
}

} // verus!

verus! {

/// The entry that points a branch at the table page `addr`: valid bit set,
/// no permission bits, PPN field of `addr`.
proof fn lemma_branch_pte(addr: usize)
    requires
        addr % PAGE_SIZE == 0,
    ensures
        pte_is_branch(spec_pa2pte(addr) | 1usize),
        spec_pte2pa(spec_pa2pte(addr) | 1usize) == addr,
{
    assert(((((addr >> 12usize) << 10usize) | 1usize) & 1usize) == 1 && ((((addr >> 12usize)
        << 10usize) | 1usize) & 0xeusize) == 0 && ((((((addr >> 12usize) << 10usize) | 1usize)
        >> 10usize) << 12usize) == addr)) by (bit_vector)
        requires
            addr % 4096 == 0,
    ;
}

impl Mapper {
    /// Step one level down from table `t` through slot `idx`: descend into
    /// the child table if the entry is a valid branch, or allocate a fresh
    /// zeroed child and install the branch first. The mapping view is
    /// untouched either way.
    fn descend(&mut self, balloc: &mut BitMapAlloc, t: usize, idx: usize, Ghost(lvl): Ghost<int>)
        -> (r: usize)
        requires
            old(self).wf(),
            old(balloc).wf(),
            old(self).coherent(*old(balloc)),
            (t as int) < old(self).n(),
            old(self).level_of(t as int) == lvl,
            1 <= lvl <= 2,
            idx < TABLE_LEN,
            free_count(old(balloc).bits()) >= 1,
        ensures
            final(self).wf(),
            final(balloc).wf(),
            final(self).coherent(*final(balloc)),
            final(balloc).base_addr() == old(balloc).base_addr(),
            free_count(final(balloc).bits()) + 1 >= free_count(old(balloc).bits()),
            forall|k: int|
                0 <= k < PAGE_COUNT && old(balloc).bits()[k] ==> final(balloc).bits()[k],
            final(self).root() == old(self).root(),
            final(self).n() >= old(self).n(),
            forall|i: int|
                0 <= i < old(self).n() ==> final(self).addr_of(i) == old(self).addr_of(i)
                    && final(self).level_of(i) == old(self).level_of(i),
            forall|i: int, j: int|
                0 <= i < old(self).n() && 0 <= j < TABLE_LEN && !(i == t && j == idx)
                    ==> final(self).ent(i, j) == old(self).ent(i, j),
            forall|va: usize| final(self).pte_for(va) == old(self).pte_for(va),
            (r as int) < final(self).n(),
            final(self).level_of(r as int) == lvl - 1,
            pte_is_branch(final(self).ent(t as int, idx as int)),
            spec_pte2pa(final(self).ent(t as int, idx as int)) == final(self).addr_of(r as int),
    {
        let e = self.entry_at(t, idx);
        if entry_is_valid(e) {
            proof {
                assert(self.entry_ok(t as int, idx as int));
            }
            let pa = pte2pa(e);
            let child = self.find_table(pa);
            proof {
                let k = choose|k: int|
                    0 <= k < self.n() && self.addr_of(k) == pa && self.level_of(k) == lvl - 1;
                self.lemma_unique_index(k, child as int);
            }
            child
        } else {
            proof {
                lemma_free_count_first_fit(balloc.bits());
            }
            let ghost pre_bits = balloc.bits();
            let new_addr = balloc.allocate(1);
            let ghost start = first_fit(pre_bits, 1).unwrap() as int;

            proof {
                // the fresh page is no table's page: every table page is
                // still marked taken, while this one was free
                assert forall|i: int|
                    0 <= i < self.n() implies self.addr_of(i) != new_addr by {
                    let p = choose|p: int|
                        0 <= p < PAGE_COUNT && pre_bits[p] && self.addr_of(i) == old(
                            balloc,
                        ).page_addr(p);
                    assert(!pre_bits[start]);
                }
            }

            let child = self.addrs.len();
            let ghost m0 = *self;
            self.push_table(new_addr, Ghost(lvl - 1));
            let ghost m1_full = *self;
            let ghost m1_snap = self.addrs;
            let ghost m1_levels = self.levels@;
            let branch = pa2pte(new_addr) | 1;
            proof {
                lemma_branch_pte(new_addr);
                assert(self.wf()) by {
                    let m1 = *self;
                    let nn0 = m0.n();
                    assert forall|i: int| 1 <= i < m1.n() implies 0 <= #[trigger] m1.level_of(i) <= 1 by {
                        if i < nn0 {
                            assert(m1.level_of(i) == m0.level_of(i));
                        } else {
                            assert(m1.level_of(i) == lvl - 1);
                        }
                    }
                    assert forall|i: int|
                        0 <= i < m1.n() implies m1.addr_of(i) % PAGE_SIZE == 0 by {
                        if i < nn0 {
                            assert(m1.addr_of(i) == m0.addr_of(i));
                        } else {
                            assert(m1.addr_of(i) == new_addr);
                        }
                    }
                    assert forall|i1: int, i2: int|
                        0 <= i1 < i2 < m1.n() implies m1.addr_of(i1) != m1.addr_of(i2) by {
                        if i2 < nn0 {
                            assert(m1.addr_of(i1) == m0.addr_of(i1) && m1.addr_of(i2)
                                == m0.addr_of(i2));
                        } else {
                            assert(m1.addr_of(i1) == m0.addr_of(i1) && m1.addr_of(i2) == new_addr);
                            assert(m0.addr_of(i1) != new_addr);
                        }
                    }
                    assert forall|i: int, j: int|
                        0 <= i < m1.n() && 0 <= j < TABLE_LEN implies m1.entry_ok(i, j) by {
                        if i < m0.n() {
                            assert(m0.entry_ok(i, j));
                            if pte_valid(m0.ent(i, j)) && m0.level_of(i) >= 1 {
                                let k = choose|k: int|
                                    0 <= k < m0.n() && m0.addr_of(k) == spec_pte2pa(m0.ent(i, j))
                                        && m0.level_of(k) == m0.level_of(i) - 1;
                                assert(m1.addr_of(k) == m0.addr_of(k));
                            }
                        } else {
                            lemma_zero_entry();
                        }
                    }
                    assert forall|i1: int, j1: int, i2: int, j2: int|
                        m1.is_branch_slot(i1, j1) && m1.is_branch_slot(i2, j2) && spec_pte2pa(
                            m1.ent(i1, j1),
                        ) == spec_pte2pa(m1.ent(i2, j2)) implies i1 == i2 && j1 == j2 by {
                        lemma_zero_entry();
                        assert(i1 < m0.n() && i2 < m0.n());
                        assert(m0.is_branch_slot(i1, j1) && m0.is_branch_slot(i2, j2));
                    }
                }
            }
            self.set_entry(t, idx, branch);
            proof {
                let m2 = *self;
                let tt = t as int;
                let ii = idx as int;
                let nn = m0.n();

                // the new forest is well formed
                assert(m2.addrs@ == m1_snap@ && m2.levels@ == m1_levels);
                assert forall|i: int, j: int|
                    0 <= i < m2.n() && 0 <= j < TABLE_LEN implies m2.entry_ok(i, j) by {
                    if i == tt && j == ii {
                        assert(m2.ent(tt, ii) == branch);
                        assert(m2.addr_of(nn) == new_addr && m2.level_of(nn) == lvl - 1);
                    } else if i < nn {
                        assert(m0.entry_ok(i, j));
                        assert(m2.ent(i, j) == m0.ent(i, j));
                        if pte_valid(m0.ent(i, j)) && m0.level_of(i) >= 1 {
                            let k = choose|k: int|
                                0 <= k < nn && m0.addr_of(k) == spec_pte2pa(m0.ent(i, j))
                                    && m0.level_of(k) == m0.level_of(i) - 1;
                            assert(m2.addr_of(k) == m0.addr_of(k));
                        }
                    } else {
                        lemma_zero_entry();
                        assert(m2.ent(i, j) == 0);
                    }
                }
                assert forall|i: int| 1 <= i < m2.n() implies 0 <= #[trigger] m2.level_of(i) <= 1 by {
                    assert(m2.level_of(i) == m1_full.level_of(i));
                }
                assert forall|i: int|
                    0 <= i < m2.n() implies m2.addr_of(i) % PAGE_SIZE == 0 by {
                    assert(m2.addr_of(i) == m1_full.addr_of(i));
                }
                assert forall|i1: int, i2: int|
                    0 <= i1 < i2 < m2.n() implies m2.addr_of(i1) != m2.addr_of(i2) by {
                    assert(m2.addr_of(i1) == m1_full.addr_of(i1) && m2.addr_of(i2)
                        == m1_full.addr_of(i2));
                }
                assert(m2.parents_unique()) by {
                    assert forall|i1: int, j1: int, i2: int, j2: int|
                        m2.is_branch_slot(i1, j1) && m2.is_branch_slot(i2, j2) && spec_pte2pa(
                            m2.ent(i1, j1),
                        ) == spec_pte2pa(m2.ent(i2, j2)) implies i1 == i2 && j1 == j2 by {
                        lemma_zero_entry();
                        if i1 == tt && j1 == ii {
                            if !(i2 == tt && j2 == ii) {
                                // an old branch cannot point at the fresh page
                                assert(i2 < nn && m0.is_branch_slot(i2, j2));
                                assert(m0.entry_ok(i2, j2));
                                let k = choose|k: int|
                                    0 <= k < nn && m0.addr_of(k) == spec_pte2pa(m0.ent(i2, j2))
                                        && m0.level_of(k) == m0.level_of(i2) - 1;
                                assert(m0.addr_of(k) != new_addr);
                            }
                        } else if i2 == tt && j2 == ii {
                            assert(i1 < nn && m0.is_branch_slot(i1, j1));
                            assert(m0.entry_ok(i1, j1));
                            let k = choose|k: int|
                                0 <= k < nn && m0.addr_of(k) == spec_pte2pa(m0.ent(i1, j1))
                                    && m0.level_of(k) == m0.level_of(i1) - 1;
                            assert(m0.addr_of(k) != new_addr);
                        } else {
                            assert(i1 < nn && i2 < nn);
                            assert(m0.is_branch_slot(i1, j1) && m0.is_branch_slot(i2, j2));
                        }
                    }
                }
                assert(m2.wf());

                // the allocator still backs every table page
                assert forall|i: int|
                    0 <= i < m2.n() implies exists|p: int|
                    0 <= p < PAGE_COUNT && balloc.bits()[p] && #[trigger] m2.addr_of(i)
                        == balloc.page_addr(p) by {
                    if i < nn {
                        let p = choose|p: int|
                            0 <= p < PAGE_COUNT && pre_bits[p] && m0.addr_of(i) == old(
                                balloc,
                            ).page_addr(p);
                        assert(0 <= p < PAGE_COUNT && balloc.bits()[p] && m2.addr_of(i)
                            == balloc.page_addr(p));
                    } else {
                        assert(0 <= start < PAGE_COUNT && balloc.bits()[start] && m2.addr_of(i)
                            == balloc.page_addr(start));
                    }
                }

                // the mapping view is untouched
                assert forall|va: usize| m2.pte_for(va) == m0.pte_for(va) by {
                    lemma_spec_px_bound(2, va);
                    lemma_spec_px_bound(1, va);
                    lemma_spec_px_bound(0, va);
                    let j2 = spec_px(2, va) as int;
                    let j1 = spec_px(1, va) as int;
                    let j0 = spec_px(0, va) as int;
                    lemma_zero_entry();
                    if lvl == 2 && j2 == ii {
                        // the written slot is on this path, at the top
                        assert(tt == 0);
                        assert(!pte_valid(m0.ent(0, j2)));
                        assert(m2.ent(0, j2) == branch);
                        m2.lemma_index_of(nn);
                        assert(m2.table_index_of(new_addr) == nn);
                        assert(m2.ent(nn, j1) == 0);
                        assert(m2.pte_for(va) is None && m0.pte_for(va) is None);
                    } else {
                        // the top entry is the same in both forests
                        assert(m2.ent(0, j2) == m0.ent(0, j2));
                        if !pte_valid(m0.ent(0, j2)) {
                        } else {
                            assert(m0.entry_ok(0, j2));
                            let pa1 = spec_pte2pa(m0.ent(0, j2));
                            let k1 = choose|k: int|
                                0 <= k < nn && m0.addr_of(k) == pa1 && m0.level_of(k) == 1;
                            m0.lemma_index_of(k1);
                            m2.lemma_index_of(k1);
                            assert(m0.table_index_of(pa1) == k1 && m2.table_index_of(pa1) == k1);
                            if lvl == 1 && k1 == tt && j1 == ii {
                                // the written slot is on this path, one level down
                                assert(!pte_valid(m0.ent(k1, j1)));
                                assert(m2.ent(k1, j1) == branch);
                                m2.lemma_index_of(nn);
                                assert(m2.ent(nn, j0) == 0);
                                assert(m2.pte_for(va) is None && m0.pte_for(va) is None);
                            } else {
                                assert(m2.ent(k1, j1) == m0.ent(k1, j1));
                                if !pte_valid(m0.ent(k1, j1)) {
                                } else {
                                    assert(m0.entry_ok(k1, j1));
                                    let pa0 = spec_pte2pa(m0.ent(k1, j1));
                                    let k0 = choose|k: int|
                                        0 <= k < nn && m0.addr_of(k) == pa0 && m0.level_of(k)
                                            == 0;
                                    m0.lemma_index_of(k0);
                                    m2.lemma_index_of(k0);
                                    assert(m2.ent(k0, j0) == m0.ent(k0, j0));
                                }
                            }
                        }
                    }
                }
            }
            child
        }
    }
}

} // verus!

verus! {

impl Mapper {
    /// Walk the tables from the root along `va`, creating the two branch
    /// levels as needed, and return the index of the level-0 table whose
    /// slot `px(0, va)` holds `va`'s leaf entry. No mapping changes.
    fn walk(&mut self, balloc: &mut BitMapAlloc, va: usize) -> (r: usize)
        requires
            old(self).wf(),
            old(balloc).wf(),
            old(self).coherent(*old(balloc)),
            free_count(old(balloc).bits()) >= 2,
        ensures
            final(self).wf(),
            final(balloc).wf(),
            final(self).coherent(*final(balloc)),
            final(balloc).base_addr() == old(balloc).base_addr(),
            free_count(final(balloc).bits()) + 2 >= free_count(old(balloc).bits()),
            forall|k: int|
                0 <= k < PAGE_COUNT && old(balloc).bits()[k] ==> final(balloc).bits()[k],
            final(self).root() == old(self).root(),
            final(self).n() >= old(self).n(),
            forall|i: int|
                0 <= i < old(self).n() ==> final(self).addr_of(i) == old(self).addr_of(i)
                    && final(self).level_of(i) == old(self).level_of(i),
            forall|va2: usize| final(self).pte_for(va2) == old(self).pte_for(va2),
            (r as int) < final(self).n(),
            final(self).level_of(r as int) == 0,
            final(self).leaf_slot(va) == Some((r as int, spec_px(0, va) as int)),
    {
        let idx2 = px(2, va);
        let t1 = self.descend(balloc, 0, idx2, Ghost(2));
        let ghost mid = *self;
        let idx1 = px(1, va);
        let t0 = self.descend(balloc, t1, idx1, Ghost(1));
        proof {
            // the top branch entry survives the second descend: the slot it
            // wrote sits in a level-1 table, never in the root
            assert(self.ent(0, idx2 as int) == mid.ent(0, idx2 as int));
            assert(self.addr_of(t1 as int) == mid.addr_of(t1 as int));
            self.lemma_index_of(t1 as int);
            self.lemma_index_of(t0 as int);
            assert(self.table_index_of(spec_pte2pa(self.ent(0, idx2 as int))) == t1 as int);
            assert(self.leaf_slot(va) == Some((t0 as int, spec_px(0, va) as int)));
        }
        t0
    }

    /// A leaf slot belongs to exactly one virtual page: if the walks of two
    /// addresses end at the same level-0 slot, the addresses agree on every
    /// index slice.
    proof fn lemma_leaf_slot_unique(self, va1: usize, va2: usize)
        requires
            self.wf(),
            self.leaf_slot(va1) is Some,
            self.leaf_slot(va1) == self.leaf_slot(va2),
        ensures
            vpn_eq(va1, va2),
    {
        lemma_spec_px_bound(2, va1);
        lemma_spec_px_bound(1, va1);
        lemma_spec_px_bound(2, va2);
        lemma_spec_px_bound(1, va2);
        let j2a = spec_px(2, va1) as int;
        let j2b = spec_px(2, va2) as int;
        let j1a = spec_px(1, va1) as int;
        let j1b = spec_px(1, va2) as int;
        let e2a = self.ent(0, j2a);
        let e2b = self.ent(0, j2b);
        assert(self.entry_ok(0, j2a));
        assert(self.entry_ok(0, j2b));
        let k1a = choose|k: int|
            0 <= k < self.n() && self.addr_of(k) == spec_pte2pa(e2a) && self.level_of(k) == 1;
        let k1b = choose|k: int|
            0 <= k < self.n() && self.addr_of(k) == spec_pte2pa(e2b) && self.level_of(k) == 1;
        self.lemma_index_of(k1a);
        self.lemma_index_of(k1b);
        let e1a = self.ent(k1a, j1a);
        let e1b = self.ent(k1b, j1b);
        assert(self.entry_ok(k1a, j1a));
        assert(self.entry_ok(k1b, j1b));
        let k0a = choose|k: int|
            0 <= k < self.n() && self.addr_of(k) == spec_pte2pa(e1a) && self.level_of(k) == 0;
        let k0b = choose|k: int|
            0 <= k < self.n() && self.addr_of(k) == spec_pte2pa(e1b) && self.level_of(k) == 0;
        self.lemma_index_of(k0a);
        self.lemma_index_of(k0b);
        // same leaf table: the two level-1 branch entries point at the same
        // page, so they are the same slot
        assert(k0a == k0b);
        assert(spec_pte2pa(e1a) == self.addr_of(k0a) && spec_pte2pa(e1b) == self.addr_of(k0b));
        assert(self.is_branch_slot(k1a, j1a) && self.is_branch_slot(k1b, j1b));
        assert(k1a == k1b && j1a == j1b);
        // same level-1 table: same root slot
        assert(spec_pte2pa(e2a) == self.addr_of(k1a) && spec_pte2pa(e2b) == self.addr_of(k1b));
        assert(self.is_branch_slot(0, j2a) && self.is_branch_slot(0, j2b));
        assert(j2a == j2b);
    }
}

} // verus!

verus! {

/// Virtual or physical address of page `k` of a run starting at `base`.
pub open spec fn page_va(base: usize, k: int) -> usize {
    (base + k * PAGE_SIZE) as usize
}

/// Leaf-entry fields: the encoded entry is valid and carries exactly the
/// permission bits it was built from.
proof fn lemma_leaf_pte_fields(pa: usize, perms: usize)
    ensures
        pte_valid(spec_leaf_pte(pa, perms)),
        pte_rwx(spec_leaf_pte(pa, perms)) == perms & 0xe,
{
    assert(((((pa >> 12usize) << 10usize) | perms | 1usize) & 1usize) == 1 && ((((pa >> 12usize)
        << 10usize) | perms | 1usize) & 0xeusize) == (perms & 0xeusize)) by (bit_vector);
}

/// Distinct pages of one `map` call never share a virtual page number.
proof fn lemma_pages_distinct(vaddr: usize, a: int, b: int, pages: int)
    requires
        vaddr % PAGE_SIZE == 0,
        vaddr + pages * PAGE_SIZE <= va_limit(),
        vaddr + pages * PAGE_SIZE <= usize::MAX,
        0 <= a < pages,
        0 <= b < pages,
        a != b,
    ensures
        !vpn_eq(page_va(vaddr, a), page_va(vaddr, b)),
{
    let va_a = page_va(vaddr, a);
    let va_b = page_va(vaddr, b);
    assert(a * PAGE_SIZE < pages * PAGE_SIZE && b * PAGE_SIZE < pages * PAGE_SIZE)
        by (nonlinear_arith)
        requires
            0 <= a < pages && 0 <= b < pages && PAGE_SIZE > 0,
    ;
    vstd::arithmetic::div_mod::lemma_mod_multiples_vanish(a, vaddr as int, PAGE_SIZE as int);
    vstd::arithmetic::div_mod::lemma_mod_multiples_vanish(b, vaddr as int, PAGE_SIZE as int);
    assert(va_a % PAGE_SIZE == 0 && va_b % PAGE_SIZE == 0);
    if vpn_eq(va_a, va_b) {
        lemma_vpn_eq_same_page(va_a, va_b);
    }
}

impl Mapper {
    /// Install `pages` leaf mappings, virtual and physical addresses rising
    /// in lockstep one page at a time from `vaddr` and `paddr`. Each virtual
    /// page must be unmapped: hitting one that is already mapped stops the
    /// call with `Remap`, leaving the pages before it mapped, the conflicting
    /// mapping untouched, and every unrelated mapping as it was.
    #[verifier::rlimit(100)]
    pub fn map(
        &mut self,
        balloc: &mut BitMapAlloc,
        paddr: usize,
        vaddr: usize,
        perms: Perms,
        pages: usize,
    ) -> (r: Result<(), MapError>)
        requires
            old(self).wf(),
            old(balloc).wf(),
            old(self).coherent(*old(balloc)),
            pages > 0,
            vaddr % PAGE_SIZE == 0,
            vaddr + pages * PAGE_SIZE <= va_limit(),
            vaddr + pages * PAGE_SIZE <= usize::MAX,
            paddr + pages * PAGE_SIZE <= usize::MAX,
            perm_bits_wf(perms.value()),
            perm_bits_leaf(perms.value()),
            free_count(old(balloc).bits()) >= 2 * pages,
        ensures
            final(self).wf(),
            final(balloc).wf(),
            final(self).coherent(*final(balloc)),
            final(balloc).base_addr() == old(balloc).base_addr(),
            final(self).root() == old(self).root(),
            forall|k: int|
                0 <= k < PAGE_COUNT && old(balloc).bits()[k] ==> final(balloc).bits()[k],
            free_count(final(balloc).bits()) + 2 * pages >= free_count(old(balloc).bits()),
            match r {
                Ok(_) => {
                    &&& forall|k: int|
                        0 <= k < pages ==> old(self).pte_for(
                            page_va(vaddr, k),
                        ) is None
                    &&& forall|k: int|
                        0 <= k < pages ==> final(self).pte_for(page_va(vaddr, k))
                            == Some(spec_leaf_pte(page_va(paddr, k), perms.value()))
                    &&& forall|va2: usize|
                        (forall|k: int|
                            0 <= k < pages ==> !vpn_eq(va2, page_va(vaddr, k)))
                            ==> final(self).pte_for(va2) == old(self).pte_for(va2)
                },
                Err(e) => {
                    &&& e == MapError::Remap
                    &&& exists|f: int|
                        {
                            &&& 0 <= f < pages
                            &&& old(self).pte_for(page_va(vaddr, f)) is Some
                            &&& final(self).pte_for(page_va(vaddr, f)) == old(
                                self,
                            ).pte_for(page_va(vaddr, f))
                            &&& forall|k: int|
                                0 <= k < f ==> old(self).pte_for(
                                    page_va(vaddr, k),
                                ) is None
                            &&& forall|k: int|
                                0 <= k < f ==> final(self).pte_for(
                                    page_va(vaddr, k),
                                ) == Some(
                                    spec_leaf_pte(page_va(paddr, k), perms.value()),
                                )
                            &&& forall|va2: usize|
                                (forall|k: int|
                                    0 <= k < f ==> !vpn_eq(va2, page_va(vaddr, k)))
                                    ==> final(self).pte_for(va2) == old(self).pte_for(va2)
                        }
                },
            },
    {
        let mut i: usize = 0;
        while i < pages
            invariant
                self.wf(),
                balloc.wf(),
                self.coherent(*balloc),
                balloc.base_addr() == old(balloc).base_addr(),
                self.root() == old(self).root(),
                i <= pages,
                pages > 0,
                vaddr % PAGE_SIZE == 0,
                vaddr + pages * PAGE_SIZE <= va_limit(),
                vaddr + pages * PAGE_SIZE <= usize::MAX,
                paddr + pages * PAGE_SIZE <= usize::MAX,
                perm_bits_wf(perms.value()),
                perm_bits_leaf(perms.value()),
                free_count(balloc.bits()) >= 2 * (pages - i),
                free_count(balloc.bits()) + 2 * i >= free_count(old(balloc).bits()),
                forall|k: int|
                    0 <= k < PAGE_COUNT && old(balloc).bits()[k] ==> balloc.bits()[k],
                forall|k: int|
                    0 <= k < i ==> old(self).pte_for(page_va(vaddr, k)) is None,
                forall|k: int|
                    0 <= k < i ==> self.pte_for(page_va(vaddr, k)) == Some(
                        spec_leaf_pte(page_va(paddr, k), perms.value()),
                    ),
                forall|va2: usize|
                    (forall|k: int| 0 <= k < i ==> !vpn_eq(va2, page_va(vaddr, k)))
                        ==> self.pte_for(va2) == old(self).pte_for(va2),
            decreases pages - i,
        {
            proof {
                assert(i * PAGE_SIZE < pages * PAGE_SIZE && (i * PAGE_SIZE) % PAGE_SIZE as int
                    == 0) by (nonlinear_arith)
                    requires
                        0 <= i < pages && PAGE_SIZE > 0,
                ;
            }
            let offset = PAGE_SIZE * i;
            let va = vaddr + offset;
            let pa = paddr + offset;
            proof {
                vstd::arithmetic::div_mod::lemma_mod_multiples_vanish(
                    i as int,
                    vaddr as int,
                    PAGE_SIZE as int,
                );
                assert(va % PAGE_SIZE == 0);
            }
            let ghost pre_walk = *self;
            let t0 = self.walk(balloc, va);
            let j = px(0, va);
            let ghost pre = *self;
            let e = self.entry_at(t0, j);

            proof {
                // this page's number differs from every page already done
                assert forall|k: int| 0 <= k < i implies !vpn_eq(
                    va,
                    page_va(vaddr, k),
                ) by {
                    lemma_pages_distinct(vaddr, i as int, k, pages as int);
                }
                assert(pre.pte_for(va) == old(self).pte_for(va)) by {
                    assert(pre_walk.pte_for(va) == old(self).pte_for(va));
                }
            }

            if entry_is_valid(e) {
                proof {
                    assert(pre.pte_for(va) == Some(e));
                    let f = i as int;
                    assert({
                        &&& 0 <= f < pages
                        &&& old(self).pte_for(page_va(vaddr, f)) is Some
                        &&& pre.pte_for(page_va(vaddr, f)) == old(self).pte_for(
                            page_va(vaddr, f),
                        )
                        &&& forall|k: int|
                            0 <= k < f ==> old(self).pte_for(
                                page_va(vaddr, k),
                            ) is None
                        &&& forall|k: int|
                            0 <= k < f ==> pre.pte_for(page_va(vaddr, k)) == Some(
                                spec_leaf_pte(page_va(paddr, k), perms.value()),
                            )
                        &&& forall|va2: usize|
                            (forall|k: int|
                                0 <= k < f ==> !vpn_eq(va2, page_va(vaddr, k)))
                                ==> pre.pte_for(va2) == old(self).pte_for(va2)
                    });
                }
                return Err(MapError::Remap);
            }

            let new_e = (pa2pte(pa) | perms.bits()) | 1;
            self.set_entry(t0, j, new_e);

            proof {
                let cur = *self;
                let tt = t0 as int;
                let jj = j as int;
                lemma_leaf_pte_fields(pa, perms.value());
                assert(new_e == spec_leaf_pte(pa, perms.value()));

                // the forest is still well formed: the slot now holds a leaf
                // in a level-0 table
                assert forall|i2: int, j2: int|
                    0 <= i2 < cur.n() && 0 <= j2 < TABLE_LEN implies cur.entry_ok(i2, j2) by {
                    if i2 == tt && j2 == jj {
                        assert(cur.level_of(tt) == 0);
                        assert(pte_rwx(new_e) == perms.value() & 0xe);
                        assert(perms.value() & 0xe != 0);
                    } else {
                        assert(pre.entry_ok(i2, j2));
                        assert(cur.ent(i2, j2) == pre.ent(i2, j2));
                        if pte_valid(pre.ent(i2, j2)) && pre.level_of(i2) >= 1 {
                            let k = choose|k: int|
                                0 <= k < pre.n() && pre.addr_of(k) == spec_pte2pa(pre.ent(i2, j2))
                                    && pre.level_of(k) == pre.level_of(i2) - 1;
                            assert(cur.addr_of(k) == pre.addr_of(k));
                        }
                    }
                }
                assert(cur.parents_unique()) by {
                    assert forall|i1: int, j1: int, i2: int, j2: int|
                        cur.is_branch_slot(i1, j1) && cur.is_branch_slot(i2, j2) && spec_pte2pa(
                            cur.ent(i1, j1),
                        ) == spec_pte2pa(cur.ent(i2, j2)) implies i1 == i2 && j1 == j2 by {
                        assert(!(i1 == tt && j1 == jj) && !(i2 == tt && j2 == jj));
                        assert(pre.is_branch_slot(i1, j1) && pre.is_branch_slot(i2, j2));
                    }
                }
                assert forall|i2: int| 1 <= i2 < cur.n() implies 0 <= #[trigger] cur.level_of(i2)
                    <= 1 by {
                    assert(cur.level_of(i2) == pre.level_of(i2));
                }
                assert forall|i2: int|
                    0 <= i2 < cur.n() implies cur.addr_of(i2) % PAGE_SIZE == 0 by {
                    assert(cur.addr_of(i2) == pre.addr_of(i2));
                }
                assert forall|i1: int, i2: int|
                    0 <= i1 < i2 < cur.n() implies cur.addr_of(i1) != cur.addr_of(i2) by {
                    assert(cur.addr_of(i1) == pre.addr_of(i1) && cur.addr_of(i2) == pre.addr_of(
                        i2,
                    ));
                }
                assert(cur.wf());

                assert forall|i2: int|
                    0 <= i2 < cur.n() implies exists|p: int|
                    0 <= p < PAGE_COUNT && balloc.bits()[p] && #[trigger] cur.addr_of(i2)
                        == balloc.page_addr(p) by {
                    let p = choose|p: int|
                        0 <= p < PAGE_COUNT && balloc.bits()[p] && pre.addr_of(i2)
                            == balloc.page_addr(p);
                    assert(0 <= p < PAGE_COUNT && balloc.bits()[p] && cur.addr_of(i2)
                        == balloc.page_addr(p));
                }

                // how the write moves the view: exactly va's page changes
                assert forall|va2: usize|
                    cur.pte_for(va2) == if vpn_eq(va2, va) {
                        Some(new_e)
                    } else {
                        pre.pte_for(va2)
                    } by {
                    lemma_spec_px_bound(2, va2);
                    lemma_spec_px_bound(1, va2);
                    lemma_spec_px_bound(0, va2);
                    let j2 = spec_px(2, va2) as int;
                    let j1 = spec_px(1, va2) as int;
                    let j0 = spec_px(0, va2) as int;
                    assert(cur.ent(0, j2) == pre.ent(0, j2));
                    if vpn_eq(va2, va) {
                        lemma_pte_for_vpn(pre, va2, va);
                        lemma_pte_for_vpn(cur, va2, va);
                        assert(pre.leaf_slot(va) == Some((tt, jj)));
                        assert(cur.leaf_slot(va) == pre.leaf_slot(va)) by {
                            assert(pre.entry_ok(0, spec_px(2, va) as int));
                            let pa1 = spec_pte2pa(pre.ent(0, spec_px(2, va) as int));
                            let k1 = choose|k: int|
                                0 <= k < pre.n() && pre.addr_of(k) == pa1 && pre.level_of(k) == 1;
                            pre.lemma_index_of(k1);
                            cur.lemma_index_of(k1);
                            assert(cur.ent(k1, spec_px(1, va) as int) == pre.ent(
                                k1,
                                spec_px(1, va) as int,
                            ));
                            assert(pre.entry_ok(k1, spec_px(1, va) as int));
                            let pa0 = spec_pte2pa(pre.ent(k1, spec_px(1, va) as int));
                            let k0 = choose|k: int|
                                0 <= k < pre.n() && pre.addr_of(k) == pa0 && pre.level_of(k) == 0;
                            pre.lemma_index_of(k0);
                            cur.lemma_index_of(k0);
                        }
                        assert(cur.ent(tt, jj) == new_e);
                        assert(cur.pte_for(va) == Some(new_e));
                    } else {
                        if !pte_valid(pre.ent(0, j2)) {
                        } else {
                            assert(pre.entry_ok(0, j2));
                            let pa1 = spec_pte2pa(pre.ent(0, j2));
                            let k1 = choose|k: int|
                                0 <= k < pre.n() && pre.addr_of(k) == pa1 && pre.level_of(k) == 1;
                            pre.lemma_index_of(k1);
                            cur.lemma_index_of(k1);
                            assert(cur.ent(k1, j1) == pre.ent(k1, j1));
                            if !pte_valid(pre.ent(k1, j1)) {
                            } else {
                                assert(pre.entry_ok(k1, j1));
                                let pa0 = spec_pte2pa(pre.ent(k1, j1));
                                let k0 = choose|k: int|
                                    0 <= k < pre.n() && pre.addr_of(k) == pa0 && pre.level_of(k)
                                        == 0;
                                pre.lemma_index_of(k0);
                                cur.lemma_index_of(k0);
                                assert(pre.leaf_slot(va2) == Some((k0, j0)));
                                assert(cur.leaf_slot(va2) == Some((k0, j0)));
                                if k0 == tt && j0 == jj {
                                    pre.lemma_leaf_slot_unique(va, va2);
                                    assert(vpn_eq(va2, va));
                                } else {
                                    assert(cur.ent(k0, j0) == pre.ent(k0, j0));
                                }
                            }
                        }
                    }
                }

                // carry the loop facts to i + 1
                assert forall|k: int|
                    0 <= k < i + 1 implies cur.pte_for(page_va(vaddr, k)) == Some(
                    spec_leaf_pte(page_va(paddr, k), perms.value()),
                ) by {
                    if k < i {
                        lemma_pages_distinct(vaddr, k, i as int, pages as int);
                        assert(!vpn_eq(page_va(vaddr, k), va));
                    } else {
                        assert(vpn_eq(va, va));
                        assert(cur.pte_for(va) == Some(new_e));
                    }
                }
                assert(old(self).pte_for(va) is None);
                assert(va == page_va(vaddr, i as int));
                assert forall|va2: usize|
                    (forall|k: int| 0 <= k < i + 1 ==> !vpn_eq(va2, page_va(vaddr, k))) implies cur.pte_for(
                    va2,
                ) == old(self).pte_for(va2) by {
                    assert(!vpn_eq(va2, page_va(vaddr, i as int)));
                    assert(!vpn_eq(va2, va));
                    assert(cur.pte_for(va2) == pre.pte_for(va2));
                    assert(forall|k: int| 0 <= k < i ==> !vpn_eq(va2, page_va(vaddr, k)));
                    assert(pre_walk.pte_for(va2) == old(self).pte_for(va2));
                    assert(pre.pte_for(va2) == pre_walk.pte_for(va2));
                }
            }
            i = i + 1;
        }
        Ok(())
    }
}

} // verus!
