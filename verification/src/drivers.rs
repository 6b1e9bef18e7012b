//! What device drivers share: their error type, the shape of a memory
//! region handed over by the hardware description, the serial driver's
//! handle, the early PCI prober's decoding, and the assignment of MMIO
//! addresses to the base-address registers of a device.

use crate::pci_system::{aligned_to, PciMemory};
use crate::vmem::MapError;
use crate::is_pow2;
use vstd::prelude::*;

verus! {

/// Everything that can go wrong while bringing a driver up.
#[derive(Debug, Clone, Copy, PartialEq, Eq)]
pub enum DriverError {
    /// No device the driver can serve was found.
    DeviceNotFound,
    /// A device was found but cannot be used.
    InvalidDevice { reason: &'static str },
    /// The driver was used before its setup ran.
    DriverUninitialised,
    /// The PCI(e) MMIO windows have no room left.
    OutOfMemoryPci,
    /// The driver's setup ran twice.
    AlreadyInitialised,
    /// The driver does not implement what was asked of it.
    Unimplimented,
    /// Mapping the device's memory failed.
    MapError { error: MapError },
    /// Any other failure, described in words.
    OtherError(&'static str),
}

impl From<MapError> for DriverError {
    /// A mapping failure, carried upward unchanged.
    fn from(error: MapError) -> (r: DriverError) {
        DriverError::MapError { error }
    }
}

impl vstd::std_specs::convert::FromSpecImpl<MapError> for DriverError {
    open spec fn obeys_from_spec() -> bool {
        true
    }

    open spec fn from_spec(error: MapError) -> DriverError {
        DriverError::MapError { error }
    }
}

/// A physical memory region as the hardware description names it.
#[derive(Debug, Clone, Copy, PartialEq, Eq, Structural)]
pub struct MemoryRange {
    pub addr: usize,
    pub size_bytes: usize,
}

/// Character device driver for 16550A-compatible UART devices: the device's
/// register window. The volatile register accesses live outside the library.
#[derive(Debug, Clone, Copy, PartialEq, Eq, Structural)]
pub struct CharDriver {
    pub base_addr: usize,
}

impl CharDriver {
    /// The driver handle over the device's register window.
    pub fn new(base_addr: usize) -> (r: Self)
        ensures
            r.base_addr == base_addr,
    {
        CharDriver { base_addr }
    }
}

/// The early PCI prober, reading 16-bit fields out of configuration space.
pub struct Pci {}

/// A device as the early prober records it.
#[derive(Debug, Clone, Copy, PartialEq, Eq, Structural)]
pub struct Device {
    pub device: u8,
    pub vendor_id: u16,
    pub class_code: u16,
    pub device_id: u16,
    pub header_type: u16,
}

impl Pci {
    /// The 16-bit half of a configuration word that `offset` selects: bit 1
    /// of the offset picks the upper half.
    pub fn halfword(value: u32, offset: u8) -> (r: u16)
        ensures
            r == if offset & 2 == 0 {
                value as u16
            } else {
                (value >> 16) as u16
            },
    {
        proof {
            assert((value & 0xFFFF) as u16 == value as u16 && ((value >> 16) & 0xFFFF) as u16 == (
            value >> 16) as u16) by (bit_vector);
        }
        if (offset & 2) == 0 {
            (value & 0xFFFF) as u16
        } else {
            ((value >> 16) & 0xFFFF) as u16
        }
    }

    /// Record a device from its probed fields; a vendor id of 0xFFFF means
    /// nothing answers at the slot.
    pub fn check_device(device: u8, vendor_id: u16, device_id: u16, class_code: u16,
        header_type: u16) -> (r: Option<Device>)
        ensures
            match r {
                None => vendor_id == 0xFFFF,
                Some(d) => vendor_id != 0xFFFF && d == (Device {
                    device,
                    vendor_id,
                    class_code,
                    device_id,
                    header_type,
                }),
            },
    {
        if vendor_id == 0xFFFF {
            return None;
        }

        Some(Device { device, vendor_id, class_code, device_id, header_type })
    }
}

/// One successful BAR allocation step: `addr` serves a BAR of `size` bytes
/// (64-bit addressing when `is_64`) and `m1` is the bookkeeping afterwards.
/// This is exactly the success case of `PciMemory::allocate`.
pub open spec fn bar_alloc_step(m0: PciMemory, size: u32, is_64: bool, addr: usize,
    m1: PciMemory) -> bool {
    let cursor = if is_64 {
        m0.mmio_64()
    } else {
        m0.mmio_32()
    };
    let limit = if is_64 {
        m0.mmio_max_64()
    } else {
        m0.mmio_max_32()
    };
    &&& cursor is Some
    &&& limit is Some
    &&& aligned_to(addr as int, size as int)
    &&& cursor.unwrap() <= addr < cursor.unwrap() + size
    &&& addr + size < limit.unwrap()
    &&& m1.mmio_64() == (if is_64 {
        Some((addr + size) as usize)
    } else {
        m0.mmio_64()
    })
    &&& m1.mmio_32() == (if is_64 {
        m0.mmio_32()
    } else {
        Some((addr + size) as usize)
    })
    &&& m1.mmio_max_32() == m0.mmio_max_32()
    &&& m1.mmio_max_64() == m0.mmio_max_64()
    &&& m1.base_address() == m0.base_address()
    &&& m1.base_address_size() == m0.base_address_size()
}

/// No block of `size` bytes fits the window that the BAR asks of `m`.
pub open spec fn bar_alloc_fails(m: PciMemory, size: u32, is_64: bool) -> bool {
    let cursor = if is_64 {
        m.mmio_64()
    } else {
        m.mmio_32()
    };
    let limit = if is_64 {
        m.mmio_max_64()
    } else {
        m.mmio_max_32()
    };
    cursor is None || limit is None || (forall|a: int|
        #[trigger] aligned_to(a, size as int) && cursor.unwrap() <= a < cursor.unwrap() + size
            ==> a + size >= limit.unwrap())
}

/// The addresses `out` were assigned to the BARs `bars` one after the other,
/// turning the bookkeeping `m0` into `m1`.
pub open spec fn bars_allocated(m0: PciMemory, bars: Seq<(u8, bool, u32)>,
    out: Seq<(u8, usize)>, m1: PciMemory) -> bool
    decreases bars.len(),
{
    if bars.len() == 0 {
        out.len() == 0 && m1 == m0
    } else {
        exists|addr: usize, mid: PciMemory|
            {
                &&& #[trigger] bar_alloc_step(m0, bars[0].2, bars[0].1, addr, mid)
                &&& out.len() >= 1
                &&& out[0] == (bars[0].0, addr)
                &&& bars_allocated(mid, bars.skip(1), out.skip(1), m1)
            }
    }
}

/// Extending an allocation chain by one successful step.
proof fn lemma_bars_allocated_push(m0: PciMemory, bars: Seq<(u8, bool, u32)>,
    out: Seq<(u8, usize)>, mid: PciMemory, bar: (u8, bool, u32), addr: usize, m1: PciMemory)
    requires
        bars_allocated(m0, bars, out, mid),
        bar_alloc_step(mid, bar.2, bar.1, addr, m1),
    ensures
        bars_allocated(m0, bars.push(bar), out.push((bar.0, addr)), m1),
    decreases bars.len(),
{
    if bars.len() == 0 {
        assert(bars.push(bar)[0] == bar);
        assert(bars.push(bar).skip(1) =~= Seq::<(u8, bool, u32)>::empty());
        assert(out.push((bar.0, addr)).skip(1) =~= Seq::<(u8, usize)>::empty());
        assert(bars_allocated(m1, bars.push(bar).skip(1), out.push((bar.0, addr)).skip(1), m1));
    } else {
        let (addr0, mid0) = choose|addr0: usize, mid0: PciMemory|
            {
                &&& #[trigger] bar_alloc_step(m0, bars[0].2, bars[0].1, addr0, mid0)
                &&& out.len() >= 1
                &&& out[0] == (bars[0].0, addr0)
                &&& bars_allocated(mid0, bars.skip(1), out.skip(1), mid)
            };
        lemma_bars_allocated_push(mid0, bars.skip(1), out.skip(1), mid, bar, addr, m1);
        assert(bars.push(bar).skip(1) =~= bars.skip(1).push(bar));
        assert(out.push((bar.0, addr)).skip(1) =~= out.skip(1).push((bar.0, addr)));
        assert(bars.push(bar)[0] == bars[0]);
        assert(out.push((bar.0, addr))[0] == out[0]);
    }
}

/// Assign an MMIO address to each base-address register in `bars`, given as
/// `(bar number, needs 64-bit addressing, size in bytes)` with the sizes
/// already probed. Runs the window bookkeeping dry on the first BAR that no
/// longer fits; the BARs before it keep their assignments in the
/// bookkeeping. Writing the addresses into the device happens outside the
/// library.
pub fn allocate_bar_addrs(bars: &Vec<(u8, bool, u32)>, mem: &mut PciMemory) -> (r: Result<
    Vec<(u8, usize)>,
    DriverError,
>)
    requires
        forall|k: int|
            0 <= k < bars@.len() ==> (#[trigger] bars@[k]).2 > 0 && is_pow2(bars@[k].2 as usize)
                && bars@[k].2 <= 0x8000_0000,
        old(mem).mmio_64() is Some ==> old(mem).mmio_64().unwrap() + 0x1_0000_0000
            <= usize::MAX,
        old(mem).mmio_max_64() is Some ==> old(mem).mmio_max_64().unwrap() + 0x1_0000_0000
            <= usize::MAX,
        old(mem).mmio_32() is Some ==> old(mem).mmio_32().unwrap() + 0x1_0000_0000
            <= usize::MAX,
        old(mem).mmio_max_32() is Some ==> old(mem).mmio_max_32().unwrap() + 0x1_0000_0000
            <= usize::MAX,
    ensures
        match r {
            Ok(v) => bars_allocated(*old(mem), bars@, v@, *final(mem)),
            Err(e) => {
                &&& e == DriverError::OutOfMemoryPci
                &&& exists|k: int, out: Seq<(u8, usize)>|
                    {
                        &&& 0 <= k < bars@.len()
                        &&& #[trigger] bars_allocated(*old(mem), bars@.take(k), out, *final(mem))
                        &&& bar_alloc_fails(*final(mem), bars@[k].2, bars@[k].1)
                    }
            },
        },
{
    let mut bar_addrs: Vec<(u8, usize)> = Vec::new();
    let mut i: usize = 0;
    while i < bars.len()
        invariant
            i <= bars@.len(),
            forall|k: int|
                0 <= k < bars@.len() ==> (#[trigger] bars@[k]).2 > 0 && is_pow2(
                    bars@[k].2 as usize,
                ) && bars@[k].2 <= 0x8000_0000,
            bars_allocated(*old(mem), bars@.take(i as int), bar_addrs@, *mem),
            mem.mmio_64() is Some ==> mem.mmio_64().unwrap() + 0x1_0000_0000 <= usize::MAX,
            mem.mmio_32() is Some ==> mem.mmio_32().unwrap() + 0x1_0000_0000 <= usize::MAX,
            mem.mmio_max_64() == old(mem).mmio_max_64(),
            mem.mmio_max_32() == old(mem).mmio_max_32(),
            old(mem).mmio_max_32() is Some ==> old(mem).mmio_max_32().unwrap() + 0x1_0000_0000
                <= usize::MAX,
            old(mem).mmio_max_64() is Some ==> old(mem).mmio_max_64().unwrap() + 0x1_0000_0000
                <= usize::MAX,
        decreases bars@.len() - i,
    {
        let (bar_nr, is_64_bits, size) = bars[i];

        let ghost pre = *mem;
        let address = mem.allocate(size as usize, is_64_bits);
        let address = match address {
            Some(a) => a,
            None => {
                proof {
                    let k = i as int;
                    let out = bar_addrs@;
                    assert(bars_allocated(*old(mem), bars@.take(k), out, *mem));
                    assert(bar_alloc_fails(*mem, bars@[k].2, bars@[k].1));
                }
                return Err(DriverError::OutOfMemoryPci);
            },
        };

        let ghost out_pre = bar_addrs@;
        bar_addrs.push((bar_nr, address));
        proof {
            assert(bar_alloc_step(pre, bars@[i as int].2, bars@[i as int].1, address, *mem));
            lemma_bars_allocated_push(
                *old(mem),
                bars@.take(i as int),
                out_pre,
                pre,
                bars@[i as int],
                address,
                *mem,
            );
            assert(bars@.take(i + 1) =~= bars@.take(i as int).push(bars@[i as int]));
            assert(bar_addrs@ =~= out_pre.push((bar_nr, address)));
        }
        i = i + 1;
    }
    proof {
        assert(bars@.take(bars@.len() as int) =~= bars@);
    }
    Ok(bar_addrs)
}

} // verus!
