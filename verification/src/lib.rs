//! Core of a small RISC-V (Sv39) kernel: a bitmap-based physical page
//! allocator and the page-table mapper built on top of it, together with the
//! pure decoding logic of the PCI(e) and SBI layers that surround them.
//!
//! Everything that touches raw physical memory, device registers or CSRs is
//! kept outside this crate; the library works on plain values and owned
//! buffers and states exactly what each operation does to them.

use vstd::arithmetic::div_mod::lemma_mod_breakdown;
use vstd::prelude::*;

pub mod allocator;
pub mod bitmap;
pub mod drivers;
pub mod pci;
pub mod riscv;
pub mod sbi;
pub mod pci_system;
pub mod tiered;
pub mod virtio;
pub mod vmem;

verus! {

/// Size of one physical page in bytes.
pub const PAGE_SIZE: usize = 0x1000;

/// `v` is a power of two.
pub open spec fn is_pow2(v: usize) -> bool {
    v != 0 && v & ((v - 1) as usize) == 0
}

/// Round `input` up to the next multiple of `alignment` (a power of two).
pub fn round_up_by(input: usize, alignment: usize) -> (r: usize)
    requires
        is_pow2(alignment),
        input + alignment <= usize::MAX,
    ensures
        r % alignment == 0,
        input <= r < input + alignment,
{
    let boundry = alignment - 1;
    let sum = input + boundry;
    let r = sum & !boundry;
    proof {
        lemma_mask_split(sum, boundry);
        lemma_and_pow2_is_mod(r, alignment);
    }
    r
}

/// Round `input` down to the previous multiple of `alignment` (a power of two).
pub fn round_down_by(input: usize, alignment: usize) -> (r: usize)
    requires
        is_pow2(alignment),
    ensures
        r % alignment == 0,
        r <= input < r + alignment,
{
    let boundry = alignment - 1;
    let r = input & !boundry;
    proof {
        lemma_mask_split(input, boundry);
        lemma_and_pow2_is_mod(r, alignment);
    }
    r
}

/// Any value splits exactly into its bits inside and outside a mask.
proof fn lemma_mask_split(y: usize, m: usize)
    by (bit_vector)
    ensures
        ((y & !m) & m) == 0,
        (y & !m) + (y & m) == y,
        (y & m) <= m,
{
}

/// For a power of two `a`, masking with `a - 1` is the remainder modulo `a`.
pub proof fn lemma_and_pow2_is_mod(x: usize, a: usize)
    requires
        is_pow2(a),
    ensures
        x & ((a - 1) as usize) == x % a,
    decreases a,
{
    if a == 1 {
        assert(x & 0 == 0) by (bit_vector);
    } else {
        assert(a % 2 == 0 && is_pow2(a / 2)) by (bit_vector)
            requires
                a != 0 && a & ((a - 1) as usize) == 0 && a != 1,
        ;
        lemma_and_pow2_is_mod(x / 2, a / 2);
        assert(x & ((a - 1) as usize) == 2 * ((x / 2) & (((a / 2) - 1) as usize)) + x % 2)
            by (bit_vector)
            requires
                a != 0 && a & ((a - 1) as usize) == 0 && a != 1,
        ;
        lemma_mod_breakdown(x as int, 2, a as int / 2);
    }
}

} // verus!
