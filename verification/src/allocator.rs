//! The physical page allocator: a `BitMap` tracking which pages above a base
//! address are taken, with first-fit contiguous allocation and freeing.
//!
//! Page `i` of the bitmap stands for the physical page at
//! `base + PAGE_SIZE * (i + 1)`: the page at `base` itself holds the bitmap
//! and is never handed out.

use crate::bitmap::BitMap;
use crate::PAGE_SIZE;
use vstd::prelude::*;

verus! {

/// Number of pages the allocator tracks (one bit per byte bit of the bitmap).
pub const PAGE_COUNT: usize = PAGE_SIZE * 8;

/// Bits `start .. start + n` of `s` are all clear (the pages are free).
pub open spec fn run_free(s: Seq<bool>, start: int, n: int) -> bool {
    forall|k: int| start <= k < start + n ==> !s[k]
}

/// A free run of `n` pages fits at `start`.
pub open spec fn fits_at(s: Seq<bool>, start: int, n: int) -> bool {
    0 <= start && start + n <= s.len() && run_free(s, start, n)
}

/// Index of the first free run of `n` pages at or after `i`, if any.
pub open spec fn first_fit_from(s: Seq<bool>, n: int, i: int) -> Option<int>
    decreases s.len() - i when 0 <= i && 1 <= n
{
    if i + n > s.len() {
        None
    } else if run_free(s, i, n) {
        Some(i)
    } else {
        first_fit_from(s, n, i + 1)
    }
}

/// Index of the first free run of `n` pages, if any.
pub open spec fn first_fit(s: Seq<bool>, n: int) -> Option<int> {
    first_fit_from(s, n, 0)
}

/// `s` with bits `start .. start + n` set to `v` and all others kept.
pub open spec fn set_run(s: Seq<bool>, start: int, n: int, v: bool) -> Seq<bool> {
    Seq::new(s.len(), |k: int| if start <= k < start + n { v } else { s[k] })
}

/// Number of clear bits (free pages) in `s`.
pub open spec fn free_count(s: Seq<bool>) -> nat
    decreases s.len(),
{
    if s.len() == 0 {
        0
    } else {
        free_count(s.drop_last()) + if s.last() {
            0nat
        } else {
            1nat
        }
    }
}

/// What `first_fit_from` returns: the least fitting index at or after `i`,
/// or a proof that none fits there.
pub proof fn lemma_first_fit_from(s: Seq<bool>, n: int, i: int)
    requires
        0 <= i,
        1 <= n,
    ensures
        match first_fit_from(s, n, i) {
            Some(j) => i <= j && fits_at(s, j, n) && forall|m: int|
                i <= m < j ==> !fits_at(s, m, n),
            None => forall|m: int| i <= m ==> !fits_at(s, m, n),
        },
    decreases s.len() - i,
{
    if i + n > s.len() {
        assert forall|m: int| i <= m implies !fits_at(s, m, n) by {}
    } else if run_free(s, i, n) {
    } else {
        lemma_first_fit_from(s, n, i + 1);
        assert(!fits_at(s, i, n));
    }
}

/// First-fit determinism: a fitting run that nothing earlier matches is
/// exactly what `first_fit` returns.
pub proof fn lemma_first_fit_exact(s: Seq<bool>, n: int, j: int)
    requires
        1 <= n,
        fits_at(s, j, n),
        forall|m: int| 0 <= m < j ==> !fits_at(s, m, n),
    ensures
        first_fit(s, n) == Some(j),
{
    lemma_first_fit_from(s, n, 0);
    match first_fit(s, n) {
        Some(j2) => {
            if j2 < j {
                assert(!fits_at(s, j2, n));
            } else if j2 > j {
                assert(!fits_at(s, j, n));
            }
        },
        None => {
            assert(!fits_at(s, j, n));
        },
    }
}

/// Updating one bit moves the free count by exactly that bit's change.
pub proof fn lemma_free_count_update(s: Seq<bool>, k: int, v: bool)
    requires
        0 <= k < s.len(),
    ensures
        free_count(s.update(k, v)) == free_count(s) + (if v {
            0int
        } else {
            1int
        }) - (if s[k] {
            0int
        } else {
            1int
        }),
    decreases s.len(),
{
    let s2 = s.update(k, v);
    if k == s.len() - 1 {
        assert(s2.drop_last() =~= s.drop_last());
    } else {
        assert(s2.drop_last() =~= s.drop_last().update(k, v));
        lemma_free_count_update(s.drop_last(), k, v);
    }
}

/// In an all-free map every page counts as free.
pub proof fn lemma_free_count_all_free(s: Seq<bool>)
    requires
        forall|k: int| 0 <= k < s.len() ==> !s[k],
    ensures
        free_count(s) == s.len(),
    decreases s.len(),
{
    if s.len() > 0 {
        lemma_free_count_all_free(s.drop_last());
    }
}

/// A positive free count yields a page for a one-page request.
pub proof fn lemma_free_count_first_fit(s: Seq<bool>)
    requires
        free_count(s) > 0,
    ensures
        first_fit(s, 1) is Some,
    decreases s.len(),
{
    let k = choose|k: int| 0 <= k < s.len() && !s[k];
    if exists|k: int| 0 <= k < s.len() && !s[k] {
        assert(fits_at(s, k, 1));
        lemma_first_fit_from(s, 1, 0);
        if first_fit(s, 1) is None {
            assert(!fits_at(s, k, 1));
        }
    } else {
        lemma_free_count_all_taken(s);
    }
}

proof fn lemma_free_count_all_taken(s: Seq<bool>)
    requires
        forall|k: int| 0 <= k < s.len() ==> s[k],
    ensures
        free_count(s) == 0,
    decreases s.len(),
{
    if s.len() > 0 {
        lemma_free_count_all_taken(s.drop_last());
    }
}

/// Allocating a run and freeing the same run returns the page map,
/// bit for bit, to what it was before.
pub proof fn lemma_alloc_free_round_trip(s: Seq<bool>, start: int, n: int)
    requires
        0 <= start,
        start + n <= s.len(),
        run_free(s, start, n),
    ensures
        set_run(set_run(s, start, n, true), start, n, false) == s,
{
    assert(set_run(set_run(s, start, n, true), start, n, false) =~= s);
}

/// No double allocation: a run that is taken stays disjoint from whatever
/// run `first_fit` picks next, so addresses handed out without an
/// intervening free never overlap.
pub proof fn lemma_no_double_alloc(s: Seq<bool>, a: int, n1: int, b: int, n2: int)
    requires
        0 <= a,
        a + n1 <= s.len(),
        n1 > 0,
        n2 > 0,
        forall|k: int| a <= k < a + n1 ==> s[k],
        first_fit(s, n2) == Some(b),
    ensures
        a + n1 <= b || b + n2 <= a,
{
    lemma_first_fit_from(s, n2, 0);
    assert(fits_at(s, b, n2));
    if !(a + n1 <= b || b + n2 <= a) {
        let k = if a >= b {
            a
        } else {
            b
        };
        assert(a <= k < a + n1);
        assert(b <= k < b + n2);
        assert(s[k]);
        assert(run_free(s, b, n2));
        assert(!s[k]);
    }
}

/// The page allocator: a bitmap of taken pages above a page-aligned base.
pub struct BitMapAlloc {
    bitmap: BitMap<PAGE_SIZE>,
    base: usize,
}

impl BitMapAlloc {
    /// The bitmap is intact, the base is page-aligned, and every page the
    /// allocator can hand out has an address that fits in a `usize`.
    pub closed spec fn wf(self) -> bool {
        &&& self.bitmap.wf()
        &&& self.base % PAGE_SIZE == 0
        &&& self.base + PAGE_SIZE * (PAGE_COUNT + 1) <= usize::MAX
    }

    /// The taken/free state of each trackable page.
    pub closed spec fn bits(self) -> Seq<bool> {
        Seq::new(PAGE_COUNT as nat, |k: int| self.bitmap.bit(k))
    }

    /// The base address handed to `init`; page `i` lives at
    /// `base + PAGE_SIZE * (i + 1)`.
    pub closed spec fn base_addr(self) -> usize {
        self.base
    }

    /// The page map always covers exactly `PAGE_COUNT` pages.
    pub broadcast proof fn lemma_bits_len(self)
        ensures
            (#[trigger] self.bits()).len() == PAGE_COUNT,
    {
    }

    /// Address of page `i` of allocator `a`.
    pub open spec fn page_addr(self, i: int) -> int {
        self.base_addr() + PAGE_SIZE + PAGE_SIZE * i
    }

    /// A fresh allocator over the region at `addr`: every page free.
    pub fn init(addr: usize) -> (r: Self)
        requires
            addr % PAGE_SIZE == 0,
            addr + PAGE_SIZE * (PAGE_COUNT + 1) <= usize::MAX,
        ensures
            r.wf(),
            r.base_addr() == addr,
            r.bits().len() == PAGE_COUNT,
            forall|k: int| 0 <= k < PAGE_COUNT ==> !r.bits()[k],
            free_count(r.bits()) == PAGE_COUNT,
    {
        let bitmap = BitMap::zeroed();
        let r = BitMapAlloc { bitmap, base: addr };
        proof {
            lemma_free_count_all_free(r.bits());
        }
        r
    }

    /// Index of the first run of `num_pages` free pages, scanning from the
    /// lowest page up.
    fn find_first_fit(&self, num_pages: usize) -> (start: usize)
        requires
            self.wf(),
            0 < num_pages,
            first_fit(self.bits(), num_pages as int) is Some,
        ensures
            Some(start as int) == first_fit(self.bits(), num_pages as int),
            fits_at(self.bits(), start as int, num_pages as int),
    {
        proof {
            lemma_first_fit_from(self.bits(), num_pages as int, 0);
        }
        let ghost j0 = first_fit(self.bits(), num_pages as int).unwrap();

        let mut i: usize = 0;
        let mut start: usize = 0;
        let mut found: usize = 0;

        while found < num_pages
            invariant
                self.wf(),
                0 < num_pages,
                first_fit(self.bits(), num_pages as int) == Some(j0),
                fits_at(self.bits(), j0, num_pages as int),
                i == start + found,
                found <= num_pages,
                run_free(self.bits(), start as int, found as int),
                forall|m: int| 0 <= m < start ==> !fits_at(self.bits(), m, num_pages as int),
            decreases PAGE_COUNT - i,
        {
            proof {
                // the candidate run cannot start past the known first fit
                if start > j0 {
                    assert(!fits_at(self.bits(), j0, num_pages as int));
                }
                assert(i < PAGE_COUNT);
            }
            if self.bitmap.get(i) {
                proof {
                    let old_start = start as int;
                    let old_i = i as int;
                    assert forall|m: int|
                        0 <= m < old_i + 1 implies !fits_at(
                        self.bits(),
                        m,
                        num_pages as int,
                    ) by {
                        if m >= old_start {
                            if m + num_pages <= old_i {
                                assert(num_pages <= old_i - m <= old_i - old_start);
                            } else {
                                assert(m <= old_i < m + num_pages);
                                assert(self.bits()[old_i]);
                            }
                        }
                    }
                }
                start = i + 1;
                found = 0;
            } else {
                found = found + 1;
            }
            i = i + 1;
        }

        proof {
            assert(fits_at(self.bits(), start as int, num_pages as int));
            lemma_first_fit_exact(self.bits(), num_pages as int, start as int);
        }
        start
    }

    /// Allocate `num_pages` contiguous pages: mark the first free run that
    /// holds them and return the address of its first page. Callers must
    /// know a run fits; running out of physical memory has no recovery at
    /// this layer.
    pub fn allocate(&mut self, num_pages: usize) -> (r: usize)
        requires
            old(self).wf(),
            0 < num_pages,
            first_fit(old(self).bits(), num_pages as int) is Some,
        ensures
            final(self).wf(),
            final(self).base_addr() == old(self).base_addr(),
            ({
                let start = first_fit(old(self).bits(), num_pages as int).unwrap();
                &&& fits_at(old(self).bits(), start, num_pages as int)
                &&& r == old(self).page_addr(start)
                &&& r as int % PAGE_SIZE as int == 0
                &&& final(self).bits() == set_run(old(self).bits(), start, num_pages as int, true)
                &&& free_count(final(self).bits()) + num_pages == free_count(old(self).bits())
            }),
    {
        let start = self.find_first_fit(num_pages);

        let mut k: usize = 0;
        while k < num_pages
            invariant
                self.bitmap.wf(),
                self.base == old(self).base,
                old(self).wf(),
                k <= num_pages,
                fits_at(old(self).bits(), start as int, num_pages as int),
                self.bits() =~= set_run(old(self).bits(), start as int, k as int, true),
                free_count(self.bits()) + k == free_count(old(self).bits()),
            decreases num_pages - k,
        {
            let ghost pre = self.bits();
            self.bitmap.put(start + k, true);
            proof {
                assert(self.bits() =~= pre.update(start + k, true));
                assert(!pre[start + k as int]);
                lemma_free_count_update(pre, start + k as int, true);
                assert(self.bits() =~= set_run(old(self).bits(), start as int, k + 1, true));
            }
            k = k + 1;
        }

        proof {
            assert(self.bits() =~= set_run(
                old(self).bits(),
                start as int,
                num_pages as int,
                true,
            ));
        }
        self.base + PAGE_SIZE + PAGE_SIZE * start
    }

    /// Free `num_pages` pages starting at `addr`, which must lie on a page
    /// boundary of this allocator and be entirely allocated; the pages
    /// become free and nothing else changes.
    pub fn free(&mut self, addr: usize, num_pages: usize)
        requires
            old(self).wf(),
            0 < num_pages,
            addr >= old(self).base_addr() + PAGE_SIZE,
            (addr - old(self).base_addr()) % PAGE_SIZE as int == 0,
            ({
                let idx = (addr - old(self).base_addr() - PAGE_SIZE) / PAGE_SIZE as int;
                &&& idx + num_pages <= PAGE_COUNT
                &&& forall|k: int| idx <= k < idx + num_pages ==> old(self).bits()[k]
            }),
        ensures
            final(self).wf(),
            final(self).base_addr() == old(self).base_addr(),
            ({
                let idx = (addr - old(self).base_addr() - PAGE_SIZE) / PAGE_SIZE as int;
                &&& final(self).bits() == set_run(old(self).bits(), idx, num_pages as int, false)
                &&& free_count(final(self).bits()) == free_count(old(self).bits()) + num_pages
            }),
    {
        let base_addr = self.base + PAGE_SIZE;
        let idx = (addr - base_addr) / PAGE_SIZE;

        let mut k: usize = 0;
        while k < num_pages
            invariant
                self.bitmap.wf(),
                self.base == old(self).base,
                old(self).wf(),
                k <= num_pages,
                idx == (addr - old(self).base_addr() - PAGE_SIZE) / PAGE_SIZE as int,
                idx + num_pages <= PAGE_COUNT,
                forall|j: int| idx <= j < idx + num_pages ==> old(self).bits()[j],
                self.bits() =~= set_run(old(self).bits(), idx as int, k as int, false),
                free_count(self.bits()) == free_count(old(self).bits()) + k,
            decreases num_pages - k,
        {
            let ghost pre = self.bits();
            self.bitmap.put(idx + k, false);
            proof {
                assert(self.bits() =~= pre.update(idx + k, false));
                assert(pre[idx + k as int]);
                lemma_free_count_update(pre, idx + k as int, false);
                assert(self.bits() =~= set_run(old(self).bits(), idx as int, k + 1, false));
            }
            k = k + 1;
        }

        proof {
            assert(self.bits() =~= set_run(
                old(self).bits(),
                idx as int,
                num_pages as int,
                false,
            ));
        }
    }

    /// Total number of bytes the allocator's pages cover.
    pub fn maximum(&self) -> (r: usize)
        requires
            self.wf(),
        ensures
            r == PAGE_SIZE * PAGE_COUNT,
    {
        PAGE_SIZE * self.bitmap.len()
    }

    /// Number of pages currently free.
    pub fn free_pages(&self) -> (r: usize)
        requires
            self.wf(),
        ensures
            r == free_count(self.bits()),
    {
        let mut count: usize = 0;
        let mut i: usize = 0;
        while i < PAGE_COUNT
            invariant
                self.wf(),
                i <= PAGE_COUNT,
                count == free_count(self.bits().take(i as int)),
                count <= i,
            decreases PAGE_COUNT - i,
        {
            let ghost pre = self.bits().take(i as int);
            let taken = self.bitmap.get(i);
            proof {
                assert(self.bits().take(i + 1).drop_last() =~= pre);
                assert(self.bits().take(i + 1).last() == self.bits()[i as int]);
            }
            if !taken {
                count = count + 1;
            }
            i = i + 1;
        }
        proof {
            assert(self.bits().take(PAGE_COUNT as int) =~= self.bits());
        }
        count
    }
}

/// Errors of the coarser allocators built beside the bitmap allocator.
#[derive(Debug, PartialEq, Eq, Structural)]
pub enum AllocatorError {
    /// The address was not aligned to the required boundary.
    AddrNotAligned { addr: usize, align: usize },
    /// The requested size cannot be allocated.
    InvalidSize { size: usize },
}

} // verus!
