//! The PCI(e) subsystem: the ECAM window and per-device handles, the decoded
//! device header, and the bookkeeping that parcels out MMIO memory for
//! device BARs and maps the subsystem's physical ranges into the kernel's
//! address space. The volatile configuration-space accesses themselves live
//! outside the library; everything here computes over plain values.

use crate::allocator::{free_count, BitMapAlloc, PAGE_COUNT};
use crate::vmem::{
    lemma_vpn_eq_same_page, page_va, spec_leaf_pte, va_limit, vpn_eq, Mapper, Perms,
};
use crate::{is_pow2, round_down_by, round_up_by, PAGE_SIZE};
use vstd::prelude::*;

verus! {

/// The memory-mapped PCIe configuration window of this subsystem revision.
#[derive(Debug, Clone, Copy, PartialEq, Eq, Structural)]
pub struct Ecam {
    base_addr: usize,
}

impl Ecam {
    /// The base address of the window.
    pub closed spec fn base(self) -> usize {
        self.base_addr
    }

    /// The window at `base_addr`.
    pub fn init(base_addr: usize) -> (r: Self)
        ensures
            r.base() == base_addr,
    {
        Self { base_addr }
    }

    /// Address of byte `offset` of the configuration space of one function.
    pub fn address(&self, bus: u8, device: u8, func: u8, offset: u8) -> (r: usize)
        requires
            self.base() + 0x2000_0000 <= usize::MAX,
        ensures
            r == self.base() + bus * 0x10_0000 + device * 0x8000 + func * 0x1000 + offset,
    {
        proof {
            lemma_ecam_slice_shifts(bus, device, func);
        }
        self.base_addr + ((bus as usize) << 20) + ((device as usize) << 15) + ((func as usize)
            << 12) + offset as usize
    }
}

/// The ECAM address slices are multiplications by their bit weight.
proof fn lemma_ecam_slice_shifts(bus: u8, device: u8, func: u8)
    ensures
        ((bus as usize) << 20usize) == bus * 0x10_0000,
        ((device as usize) << 15usize) == device * 0x8000,
        ((func as usize) << 12usize) == func * 0x1000,
{
    assert(((bus as usize) << 20usize) == (bus as usize) * 0x10_0000 && ((device as usize)
        << 15usize) == (device as usize) * 0x8000 && ((func as usize) << 12usize) == (
    func as usize) * 0x1000) by (bit_vector);
}

/// One function's configuration space: the window plus the fixed
/// bus/device/function triple, so a driver can only reach its own device.
#[derive(Debug, Clone, Copy, PartialEq, Eq, Structural)]
pub struct EcamLocked {
    ecam: Ecam,
    bus: u8,
    device: u8,
    func: u8,
}

impl EcamLocked {
    /// The window this handle selects into.
    pub closed spec fn ecam(self) -> Ecam {
        self.ecam
    }

    /// The bus/device/function triple of the handle.
    pub closed spec fn triple(self) -> (u8, u8, u8) {
        (self.bus, self.device, self.func)
    }

    /// A handle for one function of the window.
    pub fn init(ecam: Ecam, bus: u8, device: u8, func: u8) -> (r: Self)
        ensures
            r.ecam() == ecam,
            r.triple() == (bus, device, func),
    {
        Self { ecam, bus, device, func }
    }

    /// Address of byte `offset` of this function's configuration space.
    pub fn address(&self, offset: u8) -> (r: usize)
        requires
            self.ecam().base() + 0x2000_0000 <= usize::MAX,
        ensures
            r == self.ecam().base() + self.triple().0 * 0x10_0000 + self.triple().1 * 0x8000
                + self.triple().2 * 0x1000 + offset,
    {
        self.ecam.address(self.bus, self.device, self.func, offset)
    }
}

/// Header type byte of a configuration header.
#[derive(Debug, Clone, Copy, PartialEq, Eq, Structural)]
pub enum HeaderType {
    GeneralDevice,
    Pci2Pci,
    Pci2Cardbus,
}

impl HeaderType {
    /// The header type byte this variant stands for.
    pub open spec fn spec_code(self) -> u8 {
        match self {
            HeaderType::GeneralDevice => 0,
            HeaderType::Pci2Pci => 1,
            HeaderType::Pci2Cardbus => 2,
        }
    }

    /// The header type byte this variant stands for.
    pub fn code(self) -> (r: u8)
        ensures
            r == self.spec_code(),
    {
        match self {
            HeaderType::GeneralDevice => 0,
            HeaderType::Pci2Pci => 1,
            HeaderType::Pci2Cardbus => 2,
        }
    }

    /// The variant for a header type byte, if it names one.
    pub fn from_code(code: u8) -> (r: Option<HeaderType>)
        ensures
            match r {
                Some(v) => v.spec_code() == code,
                None => code > 2,
            },
    {
        match code {
            0 => Some(HeaderType::GeneralDevice),
            1 => Some(HeaderType::Pci2Pci),
            2 => Some(HeaderType::Pci2Cardbus),
            _ => None,
        }
    }
}

/// The common PCI configuration header, decoded to plain fields.
#[derive(Debug, Clone, Copy, PartialEq, Eq, Structural)]
pub struct DeviceHeader {
    pub vendor_id: u16,
    pub device_id: u16,
    pub command: u16,
    pub status: u16,
    pub revision_id: u8,
    pub prog_if: u8,
    pub subclass: u8,
    pub class_code: u8,
    pub cache_line_size: u8,
    pub latency_timer: u8,
    pub header_type: HeaderType,
    pub bist: u8,
}

/// One discovered PCI function: its configuration-space handle and header.
#[derive(Debug, Clone, Copy, PartialEq, Eq, Structural)]
pub struct Device {
    pub ecam: EcamLocked,
    pub header: DeviceHeader,
}

/// Offsets of the six 32-bit base-address registers.
pub open spec fn spec_bar_offset(bar_nr: int) -> u8 {
    (0x10 + 4 * bar_nr) as u8
}

/// Offset of base-address register `bar_nr` in the configuration header.
pub fn bar_offset(bar_nr: u8) -> (r: u8)
    requires
        bar_nr < 6,
    ensures
        r == spec_bar_offset(bar_nr as int),
{
    0x10 + 4 * bar_nr
}

impl Device {
    /// A device from a handle and a decoded header; a vendor id of 0xFFFF
    /// means nothing answers at the function and no device exists.
    pub fn from_header(ecam: EcamLocked, header: DeviceHeader) -> (r: Option<Device>)
        ensures
            match r {
                None => header.vendor_id == 0xFFFF,
                Some(d) => header.vendor_id != 0xFFFF && d == (Device { ecam, header }),
            },
    {
        match header.vendor_id {
            0xFFFF => None,
            _ => Some(Device { ecam, header }),
        }
    }

    /// The vendor id of the device.
    pub fn vendor_id(&self) -> (r: u16)
        ensures
            r == self.header.vendor_id,
    {
        self.header.vendor_id
    }

    /// The device id of the device.
    pub fn device_id(&self) -> (r: u16)
        ensures
            r == self.header.device_id,
    {
        self.header.device_id
    }

    /// The header type of the device.
    pub fn header_type(&self) -> (r: HeaderType)
        ensures
            r == self.header.header_type,
    {
        self.header.header_type
    }
}

/// Decode the word a BAR reads back after all-ones was written to it: bit 0
/// must be clear (port I/O BARs do not exist on this architecture), bits 2:1
/// pick 32- or 64-bit addressing, and the high bits give the region size.
pub fn decode_bar_size(new_value: u32) -> (r: (bool, u32))
    requires
        new_value & 1 == 0,
        (new_value >> 1) & 0b11 == 0 || (new_value >> 1) & 0b11 == 2,
        new_value & 0xFFFF_FFF0 != 0,
    ensures
        r.0 == ((new_value >> 1) & 0b11 == 2),
        r.1 == !(new_value & 0xFFFF_FFF0) + 1,
{
    let type_bits = (new_value >> 1) & 0b11;
    let is_64_bits = type_bits == 2;

    proof {
        lemma_bar_size_pow2(new_value);
    }
    let size = !(new_value & 0xFFFFFFF0) + 1;
    (is_64_bits, size)
}

/// Complementing a non-zero masked value leaves room for the final add.
proof fn lemma_bar_size_pow2(v: u32)
    by (bit_vector)
    requires
        v & 0xFFFF_FFF0u32 != 0,
    ensures
        !(v & 0xFFFF_FFF0u32) + 1 <= u32::MAX,
{
}

} // verus!

verus! {

/// One entry of the PCI host bridge's ranges property: the high cell of the
/// child bus address (whose bits 25:24 name the address space), the child
/// bus address and the range size.
#[derive(Debug, Clone, Copy, PartialEq, Eq, Structural)]
pub struct RangeEntry {
    pub child_bus_address_hi: u32,
    pub child_bus_address: usize,
    pub size: usize,
}

/// The address-space code of a range entry.
pub open spec fn range_code(r: RangeEntry) -> u32 {
    (r.child_bus_address_hi >> 24) & 0b11
}

/// The last entry of `rs` carrying address-space code `code`, if any: later
/// entries overwrite earlier ones of the same space.
pub open spec fn last_range(rs: Seq<RangeEntry>, code: u32) -> Option<RangeEntry>
    decreases rs.len(),
{
    if rs.len() == 0 {
        None
    } else if range_code(rs.last()) == code {
        Some(rs.last())
    } else {
        last_range(rs.drop_last(), code)
    }
}

/// `a` is a multiple of `size`.
pub open spec fn aligned_to(a: int, size: int) -> bool {
    a % size == 0
}

/// Two multiples of `size` within `size` of each other are the same.
proof fn lemma_multiple_unique(a: int, b: int, size: int)
    requires
        size > 0,
        a % size == 0,
        b % size == 0,
        a < b,
    ensures
        a + size <= b,
{
    vstd::arithmetic::div_mod::lemma_fundamental_div_mod(a, size);
    vstd::arithmetic::div_mod::lemma_fundamental_div_mod(b, size);
    assert(a == size * (a / size) && b == size * (b / size));
    assert(a / size < b / size) by (nonlinear_arith)
        requires
            size > 0 && a < b && a == size * (a / size) && b == size * (b / size),
    ;
    assert(size * (a / size + 1) <= size * (b / size)) by (nonlinear_arith)
        requires
            size > 0 && a / size + 1 <= b / size,
    ;
    assert(size * (a / size + 1) == size * (a / size) + size) by (nonlinear_arith);
}

/// Handles allocation of physical memory for PCI(e) devices, parceled from
/// the 32-bit and 64-bit MMIO windows the hardware description names.
#[derive(Debug, Clone, Copy, PartialEq, Eq, Structural)]
pub struct PciMemory {
    base_address: usize,
    base_address_size: usize,
    mmio_32_bit: Option<usize>,
    mmio_max_32_bit: Option<usize>,
    mmio_64_bit: Option<usize>,
    mmio_max_64_bit: Option<usize>,
}

impl PciMemory {
    /// Base address of the configuration window.
    pub closed spec fn base_address(self) -> usize {
        self.base_address
    }

    /// Size of the configuration window in bytes.
    pub closed spec fn base_address_size(self) -> usize {
        self.base_address_size
    }

    /// Next free address of the 32-bit MMIO window.
    pub closed spec fn mmio_32(self) -> Option<usize> {
        self.mmio_32_bit
    }

    /// One past the last address of the 32-bit MMIO window.
    pub closed spec fn mmio_max_32(self) -> Option<usize> {
        self.mmio_max_32_bit
    }

    /// Next free address of the 64-bit MMIO window.
    pub closed spec fn mmio_64(self) -> Option<usize> {
        self.mmio_64_bit
    }

    /// One past the last address of the 64-bit MMIO window.
    pub closed spec fn mmio_max_64(self) -> Option<usize> {
        self.mmio_max_64_bit
    }

    /// Build the bookkeeping from the window location and the parsed ranges.
    /// Port I/O and configuration ranges allocate nothing and are ignored;
    /// of several ranges of one space code the last wins. The space codes
    /// fill the fields exactly as the kernel always has: code 0b10 the
    /// 32-bit pair, code 0b11 the 64-bit pair.
    pub fn from_ranges(base_address: usize, base_address_size: usize, ranges: &Vec<RangeEntry>)
        -> (r: PciMemory)
        requires
            forall|i: int|
                0 <= i < ranges@.len() ==> (#[trigger] ranges@[i]).child_bus_address
                    + ranges@[i].size <= usize::MAX,
        ensures
            r.base_address() == base_address,
            r.base_address_size() == base_address_size,
            match last_range(ranges@, 2) {
                Some(e) => r.mmio_32() == Some(e.child_bus_address) && r.mmio_max_32() == Some(
                    (e.child_bus_address + e.size) as usize,
                ),
                None => r.mmio_32() is None && r.mmio_max_32() is None,
            },
            match last_range(ranges@, 3) {
                Some(e) => r.mmio_64() == Some(e.child_bus_address) && r.mmio_max_64() == Some(
                    (e.child_bus_address + e.size) as usize,
                ),
                None => r.mmio_64() is None && r.mmio_max_64() is None,
            },
    {
        let mut mmio_32_bit: Option<usize> = None;
        let mut mmio_max_32_bit: Option<usize> = None;
        let mut mmio_64_bit: Option<usize> = None;
        let mut mmio_max_64_bit: Option<usize> = None;

        let mut i: usize = 0;
        while i < ranges.len()
            invariant
                i <= ranges@.len(),
                forall|k: int|
                    0 <= k < ranges@.len() ==> (#[trigger] ranges@[k]).child_bus_address
                        + ranges@[k].size <= usize::MAX,
                match last_range(ranges@.take(i as int), 2) {
                    Some(e) => mmio_32_bit == Some(e.child_bus_address) && mmio_max_32_bit
                        == Some((e.child_bus_address + e.size) as usize),
                    None => mmio_32_bit is None && mmio_max_32_bit is None,
                },
                match last_range(ranges@.take(i as int), 3) {
                    Some(e) => mmio_64_bit == Some(e.child_bus_address) && mmio_max_64_bit
                        == Some((e.child_bus_address + e.size) as usize),
                    None => mmio_64_bit is None && mmio_max_64_bit is None,
                },
            decreases ranges@.len() - i,
        {
            let range = ranges[i];
            let hi = range.child_bus_address_hi;
            let space_code = (hi >> 24) & 0b11;

            proof {
                assert(ranges@.take(i + 1).drop_last() =~= ranges@.take(i as int));
                assert(ranges@.take(i + 1).last() == ranges@[i as int]);
            }
            if space_code == 2 {
                mmio_32_bit = Some(range.child_bus_address);
                mmio_max_32_bit = Some(range.child_bus_address + range.size);
            } else if space_code == 3 {
                mmio_64_bit = Some(range.child_bus_address);
                mmio_max_64_bit = Some(range.child_bus_address + range.size);
            } else {
                // port I/O and configuration space: nothing to allocate from
            }
            i = i + 1;
        }
        proof {
            assert(ranges@.take(ranges@.len() as int) =~= ranges@);
        }
        PciMemory {
            base_address,
            base_address_size,
            mmio_32_bit,
            mmio_max_32_bit,
            mmio_64_bit,
            mmio_max_64_bit,
        }
    }

    /// Allocate `size` bytes of MMIO space, aligned to `size`, from the
    /// 32- or 64-bit window. `None` when the window is absent or the aligned
    /// block does not fit below the window's limit. On success the cursor of
    /// the window allocated from advances past the block, so later
    /// allocations never overlap it.
    pub fn allocate(&mut self, size: usize, is_64_bits: bool) -> (r: Option<usize>)
        requires
            size > 0,
            is_pow2(size),
            ({
                let cursor = if is_64_bits {
                    old(self).mmio_64()
                } else {
                    old(self).mmio_32()
                };
                cursor is Some ==> cursor.unwrap() + 2 * size <= usize::MAX
            }),
        ensures
            ({
                let cursor = if is_64_bits {
                    old(self).mmio_64()
                } else {
                    old(self).mmio_32()
                };
                let limit = if is_64_bits {
                    old(self).mmio_max_64()
                } else {
                    old(self).mmio_max_32()
                };
                match r {
                    None => *final(self) == *old(self) && (cursor is None || limit is None || (
                    forall|a: int|
                        #[trigger] aligned_to(a, size as int) && cursor.unwrap() <= a
                            < cursor.unwrap() + size ==> a + size >= limit.unwrap())),
                    Some(address) => {
                        &&& cursor is Some
                        &&& limit is Some
                        &&& address as int % (size as int) == 0
                        &&& cursor.unwrap() <= address < cursor.unwrap() + size
                        &&& address + size < limit.unwrap()
                        &&& final(self).mmio_64() == (if is_64_bits {
                            Some((address + size) as usize)
                        } else {
                            old(self).mmio_64()
                        })
                        &&& final(self).mmio_32() == (if is_64_bits {
                            old(self).mmio_32()
                        } else {
                            Some((address + size) as usize)
                        })
                        &&& final(self).mmio_max_32() == old(self).mmio_max_32()
                        &&& final(self).mmio_max_64() == old(self).mmio_max_64()
                        &&& final(self).base_address() == old(self).base_address()
                        &&& final(self).base_address_size() == old(self).base_address_size()
                    },
                }
            }),
    {
        let pair = if is_64_bits {
            (self.mmio_64_bit, self.mmio_max_64_bit)
        } else {
            (self.mmio_32_bit, self.mmio_max_32_bit)
        };
        let (address_base, addr_max) = match pair {
            (Some(b), Some(m)) => (b, m),
            _ => {
                return None;
            },
        };

        let address = round_up_by(address_base, size);

        let next_addr = address + size;

        if next_addr < addr_max {
            if is_64_bits {
                self.mmio_64_bit = Some(next_addr);
            } else {
                self.mmio_32_bit = Some(next_addr);
            }
            Some(address)
        } else {
            proof {
                assert forall|a: int|
                    #[trigger] aligned_to(a, size as int) && address_base <= a < address_base
                        + size implies a + size >= addr_max by {
                    if a < address {
                        lemma_multiple_unique(a, address as int, size as int);
                    } else if a > address {
                        lemma_multiple_unique(address as int, a, size as int);
                    }
                }
            }
            None
        }
    }
}

} // verus!

verus! {

/// Pages a byte range covers after rounding down to whole pages.
pub open spec fn span_pages(size_bytes: usize) -> int {
    size_bytes as int / PAGE_SIZE as int
}

/// The conditions under which an identity range can be installed: aligned
/// base, at least one whole page, inside the Sv39 space, and every page of
/// it still unmapped.
pub open spec fn range_mappable(m: Mapper, addr: usize, size_bytes: usize) -> bool {
    &&& addr % PAGE_SIZE == 0
    &&& PAGE_SIZE <= size_bytes
    &&& addr + size_bytes <= va_limit()
    &&& addr + size_bytes <= usize::MAX
    &&& forall|k: int| 0 <= k < span_pages(size_bytes) ==> m.pte_for(#[trigger] page_va(addr, k)) is None
}

/// Every page of the range is identity mapped read-write.
pub open spec fn range_mapped(m: Mapper, addr: usize, size_bytes: usize) -> bool {
    forall|k: int|
        0 <= k < span_pages(size_bytes) ==> m.pte_for(#[trigger] page_va(addr, k)) == Some(
            spec_leaf_pte(page_va(addr, k), 6),
        )
}

/// `va` shares no virtual page with the range at `addr`.
pub open spec fn outside_range(va: usize, addr: usize, size_bytes: usize) -> bool {
    forall|k: int| 0 <= k < span_pages(size_bytes) ==> !vpn_eq(va, #[trigger] page_va(addr, k))
}

/// Read-write permission bits make a well-formed leaf.
proof fn lemma_rw_perm_bits()
    ensures
        crate::vmem::perm_bits_wf(6),
        crate::vmem::perm_bits_leaf(6),
{
    assert(6usize == 6usize & 0x1eusize && 6usize & 4usize != 0 && 6usize & 2usize != 0
        && 6usize & 0xeusize != 0) by (bit_vector);
}

/// Identity map one physical range read-write, whole pages only.
fn map_identity(mapper: &mut Mapper, balloc: &mut BitMapAlloc, addr: usize, size_bytes: usize)
    requires
        old(mapper).wf(),
        old(balloc).wf(),
        old(mapper).coherent(*old(balloc)),
        range_mappable(*old(mapper), addr, size_bytes),
        free_count(old(balloc).bits()) >= 2 * span_pages(size_bytes),
    ensures
        final(mapper).wf(),
        final(balloc).wf(),
        final(mapper).coherent(*final(balloc)),
        final(balloc).base_addr() == old(balloc).base_addr(),
        final(mapper).root() == old(mapper).root(),
        forall|k: int|
            0 <= k < PAGE_COUNT && old(balloc).bits()[k] ==> final(balloc).bits()[k],
        free_count(final(balloc).bits()) + 2 * span_pages(size_bytes) >= free_count(
            old(balloc).bits(),
        ),
        range_mapped(*final(mapper), addr, size_bytes),
        forall|va2: usize|
            outside_range(va2, addr, size_bytes) ==> final(mapper).pte_for(va2) == old(
                mapper,
            ).pte_for(va2),
{
    proof {
        lemma_page_size_pow2();
    }
    let rd = round_down_by(size_bytes, PAGE_SIZE);
    let pages = rd / PAGE_SIZE;
    proof {
        vstd::arithmetic::div_mod::lemma_fundamental_div_mod(rd as int, PAGE_SIZE as int);
        vstd::arithmetic::div_mod::lemma_fundamental_div_mod_converse_div(
            size_bytes as int,
            PAGE_SIZE as int,
            rd as int / PAGE_SIZE as int,
            size_bytes - rd,
        );
        assert(pages == span_pages(size_bytes));
        lemma_rw_perm_bits();
    }
    let result = mapper.map(balloc, addr, addr, Perms::read_write(), pages);
    proof {
        if result is Err {
            let f = choose|f: int|
                {
                    &&& 0 <= f < pages
                    &&& old(mapper).pte_for(page_va(addr, f)) is Some
                    &&& final(mapper).pte_for(page_va(addr, f)) == old(mapper).pte_for(
                        page_va(addr, f),
                    )
                    &&& forall|k: int|
                        0 <= k < f ==> old(mapper).pte_for(page_va(addr, k)) is None
                    &&& forall|k: int|
                        0 <= k < f ==> final(mapper).pte_for(page_va(addr, k)) == Some(
                            spec_leaf_pte(page_va(addr, k), 6),
                        )
                    &&& forall|va2: usize|
                        (forall|k: int| 0 <= k < f ==> !vpn_eq(va2, page_va(addr, k)))
                            ==> final(mapper).pte_for(va2) == old(mapper).pte_for(va2)
                };
            assert(old(mapper).pte_for(page_va(addr, f)) is None);
        }
    }
}

/// The page size is a power of two.
proof fn lemma_page_size_pow2()
    ensures
        is_pow2(PAGE_SIZE),
{
    assert(4096usize != 0 && 4096usize & 4095usize == 0) by (bit_vector);
}

} // verus!

verus! {

/// Page `k` of a range lies inside it, keeps its alignment, and its address
/// arithmetic stays in machine range.
proof fn lemma_page_va_in_range(a: usize, s: usize, k: int)
    requires
        0 <= k < span_pages(s),
        a + s <= usize::MAX,
    ensures
        a + k * PAGE_SIZE + PAGE_SIZE <= a + s,
        page_va(a, k) == a + k * PAGE_SIZE,
        a % PAGE_SIZE == 0 ==> page_va(a, k) % PAGE_SIZE == 0,
{
    vstd::arithmetic::div_mod::lemma_fundamental_div_mod(s as int, PAGE_SIZE as int);
    assert((k + 1) * PAGE_SIZE <= (s as int / PAGE_SIZE as int) * PAGE_SIZE) by (nonlinear_arith)
        requires
            k + 1 <= s as int / PAGE_SIZE as int && PAGE_SIZE > 0,
    ;
    vstd::arithmetic::div_mod::lemma_mod_multiples_vanish(k, a as int, PAGE_SIZE as int);
}

/// Every page of the range at `b` lies outside the disjoint range at `a`.
proof fn lemma_disjoint_ranges_outside(a: usize, sa: usize, b: usize, sb: usize, k: int)
    requires
        a % PAGE_SIZE == 0,
        b % PAGE_SIZE == 0,
        a + sa <= va_limit(),
        a + sa <= usize::MAX,
        b + sb <= va_limit(),
        b + sb <= usize::MAX,
        a + sa <= b || b + sb <= a,
        0 <= k < span_pages(sb),
    ensures
        outside_range(page_va(b, k), a, sa),
{
    lemma_page_va_in_range(b, sb, k);
    assert forall|k2: int| 0 <= k2 < span_pages(sa) implies !vpn_eq(
        page_va(b, k),
        #[trigger] page_va(a, k2),
    ) by {
        lemma_page_va_in_range(a, sa, k2);
        if vpn_eq(page_va(b, k), page_va(a, k2)) {
            lemma_vpn_eq_same_page(page_va(b, k), page_va(a, k2));
        }
    }
}

/// A frame condition of one range keeps a disjoint range's pages unmapped.
proof fn lemma_range_still_unmapped(m_old: Mapper, m_new: Mapper, a_done: usize, s_done: usize,
    a: usize, s: usize)
    requires
        a_done % PAGE_SIZE == 0,
        a % PAGE_SIZE == 0,
        a_done + s_done <= va_limit(),
        a_done + s_done <= usize::MAX,
        a + s <= va_limit(),
        a + s <= usize::MAX,
        a_done + s_done <= a || a + s <= a_done,
        forall|va2: usize|
            outside_range(va2, a_done, s_done) ==> m_new.pte_for(va2) == m_old.pte_for(va2),
        forall|k: int| 0 <= k < span_pages(s) ==> m_old.pte_for(#[trigger] page_va(a, k)) is None,
    ensures
        forall|k: int| 0 <= k < span_pages(s) ==> m_new.pte_for(#[trigger] page_va(a, k)) is None,
{
    assert forall|k: int|
        0 <= k < span_pages(s) implies m_new.pte_for(#[trigger] page_va(a, k)) is None by {
        lemma_disjoint_ranges_outside(a_done, s_done, a, s, k);
    }
}

/// A frame condition of one range keeps a disjoint range's mappings intact.
proof fn lemma_range_still_mapped(m_old: Mapper, m_new: Mapper, a_done: usize, s_done: usize,
    a: usize, s: usize)
    requires
        a_done % PAGE_SIZE == 0,
        a % PAGE_SIZE == 0,
        a_done + s_done <= va_limit(),
        a_done + s_done <= usize::MAX,
        a + s <= va_limit(),
        a + s <= usize::MAX,
        a_done + s_done <= a || a + s <= a_done,
        forall|va2: usize|
            outside_range(va2, a_done, s_done) ==> m_new.pte_for(va2) == m_old.pte_for(va2),
        range_mapped(m_old, a, s),
    ensures
        range_mapped(m_new, a, s),
{
    assert forall|k: int|
        0 <= k < span_pages(s) implies m_new.pte_for(#[trigger] page_va(a, k)) == Some(
        spec_leaf_pte(page_va(a, k), 6),
    ) by {
        lemma_disjoint_ranges_outside(a_done, s_done, a, s, k);
    }
}

/// Identity map the subsystem's base window and whichever MMIO windows the
/// hardware description supplied, all read-write.
#[verifier::rlimit(50)]
fn map_ranges(mapper: &mut Mapper, balloc: &mut BitMapAlloc, base_addr: usize, base_size: usize,
    m64: Option<usize>, max64: Option<usize>, m32: Option<usize>, max32: Option<usize>)
    requires
        old(mapper).wf(),
        old(balloc).wf(),
        old(mapper).coherent(*old(balloc)),
        range_mappable(*old(mapper), base_addr, base_size),
        m64 is Some && max64 is Some ==> m64.unwrap() % PAGE_SIZE == 0 && m64.unwrap()
            + PAGE_SIZE <= max64.unwrap() && max64.unwrap() <= va_limit() && max64.unwrap()
            <= usize::MAX && range_mappable(
            *old(mapper),
            m64.unwrap(),
            (max64.unwrap() - m64.unwrap()) as usize,
        ) && (base_addr + base_size <= m64.unwrap() || max64.unwrap() <= base_addr),
        m32 is Some && max32 is Some ==> m32.unwrap() % PAGE_SIZE == 0 && m32.unwrap()
            + PAGE_SIZE <= max32.unwrap() && max32.unwrap() <= va_limit() && max32.unwrap()
            <= usize::MAX && range_mappable(
            *old(mapper),
            m32.unwrap(),
            (max32.unwrap() - m32.unwrap()) as usize,
        ) && (base_addr + base_size <= m32.unwrap() || max32.unwrap() <= base_addr),
        m64 is Some && max64 is Some && m32 is Some && max32 is Some ==> max64.unwrap()
            <= m32.unwrap() || max32.unwrap() <= m64.unwrap(),
        free_count(old(balloc).bits()) >= 2 * (span_pages(base_size) + (if m64 is Some && max64
            is Some {
            span_pages((max64.unwrap() - m64.unwrap()) as usize)
        } else {
            0
        }) + (if m32 is Some && max32 is Some {
            span_pages((max32.unwrap() - m32.unwrap()) as usize)
        } else {
            0
        })),
    ensures
        final(mapper).wf(),
        final(balloc).wf(),
        final(mapper).coherent(*final(balloc)),
        final(balloc).base_addr() == old(balloc).base_addr(),
        final(mapper).root() == old(mapper).root(),
        forall|k: int|
            0 <= k < PAGE_COUNT && old(balloc).bits()[k] ==> final(balloc).bits()[k],
        range_mapped(*final(mapper), base_addr, base_size),
        m64 is Some && max64 is Some ==> range_mapped(
            *final(mapper),
            m64.unwrap(),
            (max64.unwrap() - m64.unwrap()) as usize,
        ),
        m32 is Some && max32 is Some ==> range_mapped(
            *final(mapper),
            m32.unwrap(),
            (max32.unwrap() - m32.unwrap()) as usize,
        ),
        forall|va2: usize|
            outside_range(va2, base_addr, base_size) && (m64 is Some && max64 is Some
                ==> outside_range(va2, m64.unwrap(), (max64.unwrap() - m64.unwrap()) as usize))
                && (m32 is Some && max32 is Some ==> outside_range(
                va2,
                m32.unwrap(),
                (max32.unwrap() - m32.unwrap()) as usize,
            )) ==> #[trigger] final(mapper).pte_for(va2) == old(mapper).pte_for(va2),
{
    map_identity(mapper, balloc, base_addr, base_size);
    let ghost m_after_base = *mapper;

    if let (Some(mmio_addr), Some(mmio_max)) = (m64, max64) {
        let mmio_size = mmio_max - mmio_addr;
        proof {
            lemma_range_still_unmapped(
                *old(mapper),
                m_after_base,
                base_addr,
                base_size,
                mmio_addr,
                mmio_size,
            );
        }
        map_identity(mapper, balloc, mmio_addr, mmio_size);
        proof {
            lemma_range_still_mapped(
                m_after_base,
                *mapper,
                mmio_addr,
                mmio_size,
                base_addr,
                base_size,
            );
        }
    }
    let ghost m_after_64 = *mapper;

    if let (Some(mmio_addr), Some(mmio_max)) = (m32, max32) {
        let mmio_size = mmio_max - mmio_addr;
        proof {
            lemma_range_still_unmapped(
                *old(mapper),
                m_after_base,
                base_addr,
                base_size,
                mmio_addr,
                mmio_size,
            );
            if m64 is Some && max64 is Some {
                lemma_range_still_unmapped(
                    m_after_base,
                    m_after_64,
                    m64.unwrap(),
                    (max64.unwrap() - m64.unwrap()) as usize,
                    mmio_addr,
                    mmio_size,
                );
            }
        }
        map_identity(mapper, balloc, mmio_addr, mmio_size);
        proof {
            lemma_range_still_mapped(
                m_after_64,
                *mapper,
                mmio_addr,
                mmio_size,
                base_addr,
                base_size,
            );
            if m64 is Some && max64 is Some {
                lemma_range_still_mapped(
                    m_after_64,
                    *mapper,
                    mmio_addr,
                    mmio_size,
                    m64.unwrap(),
                    (max64.unwrap() - m64.unwrap()) as usize,
                );
            }
        }
    }
}

} // verus!

verus! {

/// The MMIO window pair (`cursor`, `limit`) is absent or names a usable
/// page-aligned span inside the Sv39 space.
pub open spec fn window_ok(cursor: Option<usize>, limit: Option<usize>) -> bool {
    cursor is Some && limit is Some ==> cursor.unwrap() % PAGE_SIZE == 0 && cursor.unwrap()
        + PAGE_SIZE <= limit.unwrap() && limit.unwrap() <= va_limit() && limit.unwrap()
        <= usize::MAX
}

/// Size in bytes of the window pair, zero when absent.
pub open spec fn window_size(cursor: Option<usize>, limit: Option<usize>) -> usize {
    if cursor is Some && limit is Some {
        (limit.unwrap() - cursor.unwrap()) as usize
    } else {
        0
    }
}

/// Pages of the window pair, zero when absent.
pub open spec fn window_pages(cursor: Option<usize>, limit: Option<usize>) -> int {
    if cursor is Some && limit is Some {
        span_pages(window_size(cursor, limit))
    } else {
        0
    }
}

impl PciMemory {
    /// Identity map the configuration window and both MMIO windows
    /// read-write, so the subsystem can reach its devices once paging is on.
    pub fn map_memory(&self, mapper: &mut Mapper, balloc: &mut BitMapAlloc)
        requires
            old(mapper).wf(),
            old(balloc).wf(),
            old(mapper).coherent(*old(balloc)),
            range_mappable(*old(mapper), self.base_address(), self.base_address_size()),
            window_ok(self.mmio_64(), self.mmio_max_64()),
            window_ok(self.mmio_32(), self.mmio_max_32()),
            self.mmio_64() is Some && self.mmio_max_64() is Some ==> range_mappable(
                *old(mapper),
                self.mmio_64().unwrap(),
                window_size(self.mmio_64(), self.mmio_max_64()),
            ) && (self.base_address() + self.base_address_size() <= self.mmio_64().unwrap()
                || self.mmio_max_64().unwrap() <= self.base_address()),
            self.mmio_32() is Some && self.mmio_max_32() is Some ==> range_mappable(
                *old(mapper),
                self.mmio_32().unwrap(),
                window_size(self.mmio_32(), self.mmio_max_32()),
            ) && (self.base_address() + self.base_address_size() <= self.mmio_32().unwrap()
                || self.mmio_max_32().unwrap() <= self.base_address()),
            self.mmio_64() is Some && self.mmio_max_64() is Some && self.mmio_32() is Some
                && self.mmio_max_32() is Some ==> self.mmio_max_64().unwrap()
                <= self.mmio_32().unwrap() || self.mmio_max_32().unwrap()
                <= self.mmio_64().unwrap(),
            free_count(old(balloc).bits()) >= 2 * (span_pages(self.base_address_size())
                + window_pages(self.mmio_64(), self.mmio_max_64()) + window_pages(
                self.mmio_32(),
                self.mmio_max_32(),
            )),
        ensures
            final(mapper).wf(),
            final(balloc).wf(),
            final(mapper).coherent(*final(balloc)),
            final(balloc).base_addr() == old(balloc).base_addr(),
            final(mapper).root() == old(mapper).root(),
            range_mapped(*final(mapper), self.base_address(), self.base_address_size()),
            self.mmio_64() is Some && self.mmio_max_64() is Some ==> range_mapped(
                *final(mapper),
                self.mmio_64().unwrap(),
                window_size(self.mmio_64(), self.mmio_max_64()),
            ),
            self.mmio_32() is Some && self.mmio_max_32() is Some ==> range_mapped(
                *final(mapper),
                self.mmio_32().unwrap(),
                window_size(self.mmio_32(), self.mmio_max_32()),
            ),
            forall|va2: usize|
                outside_range(va2, self.base_address(), self.base_address_size()) && (self.mmio_64()
                    is Some && self.mmio_max_64() is Some ==> outside_range(
                    va2,
                    self.mmio_64().unwrap(),
                    window_size(self.mmio_64(), self.mmio_max_64()),
                )) && (self.mmio_32() is Some && self.mmio_max_32() is Some ==> outside_range(
                    va2,
                    self.mmio_32().unwrap(),
                    window_size(self.mmio_32(), self.mmio_max_32()),
                )) ==> #[trigger] final(mapper).pte_for(va2) == old(mapper).pte_for(va2),
    {
        map_ranges(
            mapper,
            balloc,
            self.base_address,
            self.base_address_size,
            self.mmio_64_bit,
            self.mmio_max_64_bit,
            self.mmio_32_bit,
            self.mmio_max_32_bit,
        );
    }
}

/// The earlier revision of the MMIO bookkeeping: two bump cursors with no
/// alignment rounding.
#[derive(Debug, Clone, Copy, PartialEq, Eq, Structural)]
pub struct PcieMemory {
    base_address: usize,
    base_address_size: usize,
    mmio_32_bit: Option<usize>,
    mmio_max_32_bit: Option<usize>,
    mmio_64_bit: Option<usize>,
    mmio_max_64_bit: Option<usize>,
}

impl PcieMemory {
    /// Base address of the configuration window.
    pub closed spec fn base_address(self) -> usize {
        self.base_address
    }

    /// Size of the configuration window in bytes.
    pub closed spec fn base_address_size(self) -> usize {
        self.base_address_size
    }

    /// Next free address of the 32-bit MMIO window.
    pub closed spec fn mmio_32(self) -> Option<usize> {
        self.mmio_32_bit
    }

    /// One past the last address of the 32-bit MMIO window.
    pub closed spec fn mmio_max_32(self) -> Option<usize> {
        self.mmio_max_32_bit
    }

    /// Next free address of the 64-bit MMIO window.
    pub closed spec fn mmio_64(self) -> Option<usize> {
        self.mmio_64_bit
    }

    /// One past the last address of the 64-bit MMIO window.
    pub closed spec fn mmio_max_64(self) -> Option<usize> {
        self.mmio_max_64_bit
    }

    /// Build the bookkeeping from the window location and the parsed ranges,
    /// exactly as `PciMemory::from_ranges` does.
    pub fn from_ranges(base_address: usize, base_address_size: usize, ranges: &Vec<RangeEntry>)
        -> (r: PcieMemory)
        requires
            forall|i: int|
                0 <= i < ranges@.len() ==> (#[trigger] ranges@[i]).child_bus_address
                    + ranges@[i].size <= usize::MAX,
        ensures
            r.base_address() == base_address,
            r.base_address_size() == base_address_size,
            match last_range(ranges@, 2) {
                Some(e) => r.mmio_32() == Some(e.child_bus_address) && r.mmio_max_32() == Some(
                    (e.child_bus_address + e.size) as usize,
                ),
                None => r.mmio_32() is None && r.mmio_max_32() is None,
            },
            match last_range(ranges@, 3) {
                Some(e) => r.mmio_64() == Some(e.child_bus_address) && r.mmio_max_64() == Some(
                    (e.child_bus_address + e.size) as usize,
                ),
                None => r.mmio_64() is None && r.mmio_max_64() is None,
            },
    {
        let m = PciMemory::from_ranges(base_address, base_address_size, ranges);
        let (mmio_32_bit, mmio_max_32_bit) = m.window_32();
        let (mmio_64_bit, mmio_max_64_bit) = m.window_64();
        PcieMemory {
            base_address,
            base_address_size,
            mmio_32_bit,
            mmio_max_32_bit,
            mmio_64_bit,
            mmio_max_64_bit,
        }
    }

    /// Bump-allocate `size` bytes from the 64-bit MMIO window; `None` when
    /// the window is absent or too full.
    pub fn allocate_64bit(&mut self, size: usize) -> (r: Option<usize>)
        requires
            old(self).mmio_64() is Some ==> old(self).mmio_64().unwrap() + size <= usize::MAX,
        ensures
            match r {
                None => *final(self) == *old(self) && (old(self).mmio_64() is None || old(
                    self,
                ).mmio_max_64() is None || old(self).mmio_64().unwrap() + size >= old(
                    self,
                ).mmio_max_64().unwrap()),
                Some(addr) => {
                    &&& old(self).mmio_64() == Some(addr)
                    &&& old(self).mmio_max_64() is Some
                    &&& addr + size < old(self).mmio_max_64().unwrap()
                    &&& final(self).mmio_64() == Some((addr + size) as usize)
                    &&& final(self).mmio_max_64() == old(self).mmio_max_64()
                    &&& final(self).mmio_32() == old(self).mmio_32()
                    &&& final(self).mmio_max_32() == old(self).mmio_max_32()
                    &&& final(self).base_address() == old(self).base_address()
                    &&& final(self).base_address_size() == old(self).base_address_size()
                },
            },
    {
        let addr = match self.mmio_64_bit {
            Some(a) => a,
            None => {
                return None;
            },
        };
        let addr_max = match self.mmio_max_64_bit {
            Some(m) => m,
            None => {
                return None;
            },
        };

        let next_addr = addr + size;

        if next_addr < addr_max {
            self.mmio_64_bit = Some(next_addr);
            Some(addr)
        } else {
            None
        }
    }

    /// Bump-allocate `size` bytes from the 32-bit MMIO window; `None` when
    /// the window is absent or too full.
    pub fn allocate_32bit(&mut self, size: usize) -> (r: Option<usize>)
        requires
            old(self).mmio_32() is Some ==> old(self).mmio_32().unwrap() + size <= usize::MAX,
        ensures
            match r {
                None => *final(self) == *old(self) && (old(self).mmio_32() is None || old(
                    self,
                ).mmio_max_32() is None || old(self).mmio_32().unwrap() + size >= old(
                    self,
                ).mmio_max_32().unwrap()),
                Some(addr) => {
                    &&& old(self).mmio_32() == Some(addr)
                    &&& old(self).mmio_max_32() is Some
                    &&& addr + size < old(self).mmio_max_32().unwrap()
                    &&& final(self).mmio_32() == Some((addr + size) as usize)
                    &&& final(self).mmio_max_32() == old(self).mmio_max_32()
                    &&& final(self).mmio_64() == old(self).mmio_64()
                    &&& final(self).mmio_max_64() == old(self).mmio_max_64()
                    &&& final(self).base_address() == old(self).base_address()
                    &&& final(self).base_address_size() == old(self).base_address_size()
                },
            },
    {
        let addr = match self.mmio_32_bit {
            Some(a) => a,
            None => {
                return None;
            },
        };
        let addr_max = match self.mmio_max_32_bit {
            Some(m) => m,
            None => {
                return None;
            },
        };

        let next_addr = addr + size;

        if next_addr < addr_max {
            self.mmio_32_bit = Some(next_addr);
            Some(addr)
        } else {
            None
        }
    }

    /// Identity map the configuration window and both MMIO windows
    /// read-write, as `PciMemory::map_memory` does.
    pub fn map_memory(&self, mapper: &mut Mapper, balloc: &mut BitMapAlloc)
        requires
            old(mapper).wf(),
            old(balloc).wf(),
            old(mapper).coherent(*old(balloc)),
            range_mappable(*old(mapper), self.base_address(), self.base_address_size()),
            window_ok(self.mmio_64(), self.mmio_max_64()),
            window_ok(self.mmio_32(), self.mmio_max_32()),
            self.mmio_64() is Some && self.mmio_max_64() is Some ==> range_mappable(
                *old(mapper),
                self.mmio_64().unwrap(),
                window_size(self.mmio_64(), self.mmio_max_64()),
            ) && (self.base_address() + self.base_address_size() <= self.mmio_64().unwrap()
                || self.mmio_max_64().unwrap() <= self.base_address()),
            self.mmio_32() is Some && self.mmio_max_32() is Some ==> range_mappable(
                *old(mapper),
                self.mmio_32().unwrap(),
                window_size(self.mmio_32(), self.mmio_max_32()),
            ) && (self.base_address() + self.base_address_size() <= self.mmio_32().unwrap()
                || self.mmio_max_32().unwrap() <= self.base_address()),
            self.mmio_64() is Some && self.mmio_max_64() is Some && self.mmio_32() is Some
                && self.mmio_max_32() is Some ==> self.mmio_max_64().unwrap()
                <= self.mmio_32().unwrap() || self.mmio_max_32().unwrap()
                <= self.mmio_64().unwrap(),
            free_count(old(balloc).bits()) >= 2 * (span_pages(self.base_address_size())
                + window_pages(self.mmio_64(), self.mmio_max_64()) + window_pages(
                self.mmio_32(),
                self.mmio_max_32(),
            )),
        ensures
            final(mapper).wf(),
            final(balloc).wf(),
            final(mapper).coherent(*final(balloc)),
            final(balloc).base_addr() == old(balloc).base_addr(),
            final(mapper).root() == old(mapper).root(),
            range_mapped(*final(mapper), self.base_address(), self.base_address_size()),
            self.mmio_64() is Some && self.mmio_max_64() is Some ==> range_mapped(
                *final(mapper),
                self.mmio_64().unwrap(),
                window_size(self.mmio_64(), self.mmio_max_64()),
            ),
            self.mmio_32() is Some && self.mmio_max_32() is Some ==> range_mapped(
                *final(mapper),
                self.mmio_32().unwrap(),
                window_size(self.mmio_32(), self.mmio_max_32()),
            ),
            forall|va2: usize|
                outside_range(va2, self.base_address(), self.base_address_size()) && (self.mmio_64()
                    is Some && self.mmio_max_64() is Some ==> outside_range(
                    va2,
                    self.mmio_64().unwrap(),
                    window_size(self.mmio_64(), self.mmio_max_64()),
                )) && (self.mmio_32() is Some && self.mmio_max_32() is Some ==> outside_range(
                    va2,
                    self.mmio_32().unwrap(),
                    window_size(self.mmio_32(), self.mmio_max_32()),
                )) ==> #[trigger] final(mapper).pte_for(va2) == old(mapper).pte_for(va2),
    {
        map_ranges(
            mapper,
            balloc,
            self.base_address,
            self.base_address_size,
            self.mmio_64_bit,
            self.mmio_max_64_bit,
            self.mmio_32_bit,
            self.mmio_max_32_bit,
        );
    }
}

impl PciMemory {
    /// The configuration window: its base address and size in bytes.
    pub fn base_window(&self) -> (r: (usize, usize))
        ensures
            r == (self.base_address(), self.base_address_size()),
    {
        (self.base_address, self.base_address_size)
    }

    /// The 32-bit MMIO window: its cursor and limit.
    pub fn window_32(&self) -> (r: (Option<usize>, Option<usize>))
        ensures
            r == (self.mmio_32(), self.mmio_max_32()),
    {
        (self.mmio_32_bit, self.mmio_max_32_bit)
    }

    /// The 64-bit MMIO window: its cursor and limit.
    pub fn window_64(&self) -> (r: (Option<usize>, Option<usize>))
        ensures
            r == (self.mmio_64(), self.mmio_max_64()),
    {
        (self.mmio_64_bit, self.mmio_max_64_bit)
    }
}

/// The assembled PCI subsystem: its memory bookkeeping, the configuration
/// window and the devices found on the bus.
pub struct PciSubsystem {
    pub mem: PciMemory,
    pub ecam: Ecam,
    devices: Vec<Device>,
}

impl PciSubsystem {
    /// The devices not yet claimed by a driver.
    pub closed spec fn devices(self) -> Seq<Device> {
        self.devices@
    }

    /// The memory bookkeeping of the subsystem.
    pub closed spec fn memory(self) -> PciMemory {
        self.mem
    }

    /// The configuration window of the subsystem.
    pub closed spec fn window(self) -> Ecam {
        self.ecam
    }

    /// The subsystem over an enumerated device list. The list keeps every
    /// device found, so several devices sharing one vendor/device id pair
    /// are handed to drivers one per claim, in discovery order.
    pub fn new(mem: PciMemory, ecam: Ecam, devices: Vec<Device>) -> (r: Self)
        ensures
            r.memory() == mem,
            r.window() == ecam,
            r.devices() == devices@,
    {
        Self { mem, ecam, devices }
    }

    /// Take the device with the given vendor/device id pair out of the
    /// subsystem, if one was found; later drivers cannot claim it again. Of
    /// several matching devices the first found leaves; the rest keep their
    /// order.
    pub fn take_device(&mut self, id: (u16, u16)) -> (r: Option<Device>)
        ensures
            final(self).memory() == old(self).memory(),
            final(self).window() == old(self).window(),
            match r {
                Some(d) => {
                    &&& d.header.vendor_id == id.0 && d.header.device_id == id.1
                    &&& exists|i: int|
                        {
                            &&& 0 <= i < old(self).devices().len()
                            &&& old(self).devices()[i] == d
                            &&& #[trigger] final(self).devices() == old(self).devices().remove(i)
                            &&& forall|k: int|
                                0 <= k < i ==> !((#[trigger] old(
                                    self,
                                ).devices()[k]).header.vendor_id == id.0 && old(
                                    self,
                                ).devices()[k].header.device_id == id.1)
                        }
                },
                None => *final(self) == *old(self) && forall|i: int|
                    0 <= i < old(self).devices().len() ==> !((#[trigger] old(
                        self,
                    ).devices()[i]).header.vendor_id == id.0 && old(
                        self,
                    ).devices()[i].header.device_id == id.1),
            },
    {
        let mut i: usize = 0;
        while i < self.devices.len()
            invariant
                i <= self.devices@.len(),
                self == old(self),
                forall|k: int|
                    0 <= k < i ==> !((#[trigger] self.devices@[k]).header.vendor_id == id.0
                        && self.devices@[k].header.device_id == id.1),
            decreases self.devices@.len() - i,
        {
            let d = self.devices[i];
            if d.header.vendor_id == id.0 && d.header.device_id == id.1 {
                let d = self.devices.remove(i);
                return Some(d);
            }
            i = i + 1;
        }
        None
    }

    /// Hand the device with the given id pair to its driver's setup
    /// function, if one was found: the first matching device leaves the
    /// list and the setup function runs once on it, so a second call with
    /// the same id finds nothing. Without a match nothing changes and the
    /// setup function never runs.
    pub fn init_driver<F: FnOnce(Device)>(&mut self, id: (u16, u16), init_fn: F)
        requires
            forall|d: Device| #[trigger] call_requires(init_fn, (d,)),
        ensures
            final(self).memory() == old(self).memory(),
            final(self).window() == old(self).window(),
            (forall|i: int|
                0 <= i < old(self).devices().len() ==> !((#[trigger] old(
                    self,
                ).devices()[i]).header.vendor_id == id.0 && old(self).devices()[i].header.device_id
                    == id.1)) ==> *final(self) == *old(self),
            (exists|i: int|
                0 <= i < old(self).devices().len() && (#[trigger] old(
                    self,
                ).devices()[i]).header.vendor_id == id.0 && old(self).devices()[i].header.device_id
                    == id.1) ==> exists|i: int|
                {
                    &&& 0 <= i < old(self).devices().len()
                    &&& (#[trigger] old(self).devices()[i]).header.vendor_id == id.0
                    &&& old(self).devices()[i].header.device_id == id.1
                    &&& forall|k: int|
                        0 <= k < i ==> !((#[trigger] old(self).devices()[k]).header.vendor_id
                            == id.0 && old(self).devices()[k].header.device_id == id.1)
                    &&& final(self).devices() == old(self).devices().remove(i)
                    &&& call_ensures(init_fn, (old(self).devices()[i],), ())
                },
    {
        if let Some(device) = self.take_device(id) {
            init_fn(device);
        }
    }
}

} // verus!
