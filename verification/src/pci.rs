//! PCIe configuration-space decoding over the ECAM window: address
//! computation for bus/device/function triples and the layout of the common
//! configuration header. Reading the memory-mapped registers themselves
//! happens outside the library; these functions compute addresses and take
//! raw register words apart.

use vstd::prelude::*;

verus! {

/// The memory-mapped PCIe configuration window, located by its base address.
#[derive(Debug, Clone, Copy, PartialEq, Eq, Structural)]
pub struct PcieEcam {
    base_addr: usize,
}

impl PcieEcam {
    /// The base address of the window.
    pub closed spec fn base(self) -> usize {
        self.base_addr
    }

    /// An ECAM window at `base_addr`.
    pub fn new(base_addr: usize) -> (r: Self)
        ensures
            r.base() == base_addr,
    {
        PcieEcam { base_addr }
    }

    /// Address of the configuration space of one function: the bus number
    /// at bit 20, the device at bit 15, the function at bit 12.
    pub fn address(self, bus: u8, device: u8, func: u8) -> (r: usize)
        requires
            self.base() + 0x2000_0000 <= usize::MAX,
        ensures
            r == self.base() + bus * 0x10_0000 + device * 0x8000 + func * 0x1000,
    {
        proof {
            lemma_ecam_shifts(bus, device, func);
        }
        self.base_addr + ((bus as usize) << 20) + ((device as usize) << 15) + ((func as usize)
            << 12)
    }

    /// Address of the 32-bit word that holds `offset`, which is read whole:
    /// the low two bits of `offset` are dropped.
    pub fn word_address(self, bus: u8, device: u8, func: u8, offset: u8) -> (r: usize)
        requires
            self.base() + 0x2000_0000 <= usize::MAX,
        ensures
            r == self.base() + bus * 0x10_0000 + device * 0x8000 + func * 0x1000 + (offset
                & 0xfc),
    {
        self.address(bus, device, func) + ((offset & 0xFC) as usize)
    }

    /// Decode the first four configuration registers of `(bus, device)` into
    /// the common header. A vendor id of 0xFFFF means no device answers
    /// there, and nothing is decoded.
    pub fn get_common_dev_info(self, bus: u8, device: u8, reg0: u32, reg1: u32, reg2: u32,
        reg3: u32) -> (r: Option<PcieEcamHeader>)
        ensures
            match r {
                None => reg0 as u16 == 0xFFFF,
                Some(h) => reg0 as u16 != 0xFFFF && h == (PcieEcamHeader {
                    vendor_id: reg0 as u16,
                    device_id: (reg0 >> 16) as u16,
                    status: (reg1 >> 16) as u16,
                    command: reg1 as u16,
                    class_code: (reg2 >> 24) as u8,
                    subclass: (reg2 >> 16) as u8,
                    progif: (reg2 >> 8) as u8,
                    revision: reg2 as u8,
                    bist: (reg3 >> 24) as u8,
                    header_type: (reg3 >> 16) as u8,
                    latency_timer: (reg3 >> 8) as u8,
                    cache_line_size: reg3 as u8,
                    bus_nr: bus,
                    device_nr: device,
                }),
            },
    {
        let vendor_id = reg0 as u16;

        if vendor_id == 0xFFFF {
            return None;
        }

        let device_id = (reg0 >> 16) as u16;

        let status = (reg1 >> 16) as u16;
        let command = reg1 as u16;

        let class_code = (reg2 >> 24) as u8;
        let subclass = (reg2 >> 16) as u8;
        let progif = (reg2 >> 8) as u8;
        let revision = reg2 as u8;

        let bist = (reg3 >> 24) as u8;
        let header_type = (reg3 >> 16) as u8;
        let latency_timer = (reg3 >> 8) as u8;
        let cache_line_size = reg3 as u8;

        Some(
            PcieEcamHeader {
                vendor_id,
                device_id,
                status,
                command,
                class_code,
                subclass,
                progif,
                revision,
                bist,
                header_type,
                latency_timer,
                cache_line_size,
                bus_nr: bus,
                device_nr: device,
            },
        )
    }
}

/// The ECAM address slices are multiplications by their bit weight.
proof fn lemma_ecam_shifts(bus: u8, device: u8, func: u8)
    ensures
        ((bus as usize) << 20usize) == bus * 0x10_0000,
        ((device as usize) << 15usize) == device * 0x8000,
        ((func as usize) << 12usize) == func * 0x1000,
{
    assert(((bus as usize) << 20usize) == (bus as usize) * 0x10_0000 && ((device as usize)
        << 15usize) == (device as usize) * 0x8000 && ((func as usize) << 12usize) == (
    func as usize) * 0x1000) by (bit_vector);
}

/// The configuration header common to every PCIe device.
#[derive(Debug, Clone, Copy, PartialEq, Eq, Structural)]
pub struct PcieEcamHeader {
    pub vendor_id: u16,
    pub device_id: u16,
    pub status: u16,
    pub command: u16,
    pub class_code: u8,
    pub subclass: u8,
    pub progif: u8,
    pub revision: u8,
    pub bist: u8,
    pub header_type: u8,
    pub latency_timer: u8,
    pub cache_line_size: u8,
    pub bus_nr: u8,
    pub device_nr: u8,
}

/// The fields of a general device's registers 4 to 15: `g` is exactly what
/// the register window `regs` spells out.
pub open spec fn general_dev_info_ok(g: GeneralDevInfo, regs: Seq<u32>) -> bool {
    &&& forall|i: int| 0 <= i < 6 ==> #[trigger] g.base_addrs@[i] == regs[4 + i]
    &&& g.cardbus_cis_ptr == regs[10]
    &&& g.subsystem_id == (regs[11] >> 16) as u16
    &&& g.subsystem_vendor_id == regs[11] as u16
    &&& g.exp_rom_base_addr == regs[12]
    &&& g.capabilities_ptr == regs[13] as u8
    &&& g.max_latency == (regs[15] >> 24) as u8
    &&& g.min_grant == (regs[15] >> 16) as u8
    &&& g.interrupt_pin == (regs[15] >> 8) as u8
    &&& g.interrupt_line == regs[15] as u8
}

impl PcieEcamHeader {
    /// The capabilities-list flag, bit 4 of the status register. Bit 15 must
    /// be clear: the extraction masks both bits, and with bit 15 set it
    /// would not yield a single bit.
    pub fn status_capabilities_list(self) -> (r: bool)
        requires
            self.status & 0x8000 == 0,
        ensures
            r == ((self.status >> 4) & 1 == 1),
    {
        let mask = 0b1000000000010000;
        let bit = (self.status & mask) >> 4;
        proof {
            lemma_status_bit(self.status);
        }
        bit == 1
    }

    /// Decode registers 4 to 15 of a general (header type 0) device.
    pub fn read_general_dev_info(self, regs: &[u32; 16]) -> (r: GeneralDevInfo)
        ensures
            general_dev_info_ok(r, regs@),
    {
        let base_addrs = [regs[4], regs[5], regs[6], regs[7], regs[8], regs[9]];

        let cardbus_cis_ptr = regs[10];

        let cache = regs[11];
        let subsystem_id = (cache >> 16) as u16;
        let subsystem_vendor_id = cache as u16;

        let exp_rom_base_addr = regs[12];

        let capabilities_ptr = regs[13] as u8;

        let cache = regs[15];
        let max_latency = (cache >> 24) as u8;
        let min_grant = (cache >> 16) as u8;
        let interrupt_pin = (cache >> 8) as u8;
        let interrupt_line = cache as u8;

        GeneralDevInfo {
            base_addrs,
            cardbus_cis_ptr,
            subsystem_id,
            subsystem_vendor_id,
            exp_rom_base_addr,
            capabilities_ptr,
            max_latency,
            min_grant,
            interrupt_pin,
            interrupt_line,
        }
    }

    /// Decode the device-specific registers according to the header type;
    /// only type 0 carries fields this kernel reads.
    pub fn get_more_dev_info(self, regs: &[u32; 16]) -> (r: MoreDevInfo)
        requires
            self.header_type <= 2,
        ensures
            match r {
                MoreDevInfo::GeneralDev(g) => self.header_type == 0 && general_dev_info_ok(
                    g,
                    regs@,
                ),
                MoreDevInfo::Pci2PciBridge => self.header_type == 1,
                MoreDevInfo::Pci2CardBusBridge => self.header_type == 2,
            },
    {
        if self.header_type == 0 {
            MoreDevInfo::GeneralDev(self.read_general_dev_info(regs))
        } else if self.header_type == 1 {
            MoreDevInfo::Pci2PciBridge
        } else {
            MoreDevInfo::Pci2CardBusBridge
        }
    }
}

/// With status bit 15 clear, masking bits 15 and 4 and shifting by 4 leaves
/// exactly the capabilities-list bit.
proof fn lemma_status_bit(status: u16)
    by (bit_vector)
    requires
        status & 0x8000 == 0,
    ensures
        ((status & 0b1000000000010000) >> 4) == ((status >> 4) & 1),
        ((status >> 4) & 1) <= 1,
{
}

/// What registers 4 to 15 of a general device hold.
#[derive(Debug, Clone, Copy, PartialEq, Eq)]
pub struct GeneralDevInfo {
    pub base_addrs: [u32; 6],
    pub subsystem_id: u16,
    pub cardbus_cis_ptr: u32,
    pub subsystem_vendor_id: u16,
    pub exp_rom_base_addr: u32,
    pub capabilities_ptr: u8,
    pub max_latency: u8,
    pub min_grant: u8,
    pub interrupt_pin: u8,
    pub interrupt_line: u8,
}

/// The device-specific part of a configuration header, by header type.
#[derive(Debug, Clone, Copy, PartialEq, Eq)]
pub enum MoreDevInfo {
    GeneralDev(GeneralDevInfo),
    Pci2PciBridge,
    Pci2CardBusBridge,
}

/// The kind of structure a VirtIO capability points at.
#[derive(Debug, Clone, Copy, PartialEq, Eq, Structural)]
pub enum VirtioPciCapCfg {
    /// Common configuration
    Common,
    /// Notifications
    Notify,
    /// ISR Status
    Isr,
    /// Device specific configuration
    Device,
    /// PCI configuration access
    Pci,
    /// Shared memory region
    SharedMem,
    /// Vendor-specific data
    Vendor,
}

impl VirtioPciCapCfg {
    /// The capability type byte this variant stands for.
    pub open spec fn spec_code(self) -> u8 {
        match self {
            VirtioPciCapCfg::Common => 1,
            VirtioPciCapCfg::Notify => 2,
            VirtioPciCapCfg::Isr => 3,
            VirtioPciCapCfg::Device => 4,
            VirtioPciCapCfg::Pci => 5,
            VirtioPciCapCfg::SharedMem => 8,
            VirtioPciCapCfg::Vendor => 9,
        }
    }

    /// The capability type byte this variant stands for.
    pub fn code(self) -> (r: u8)
        ensures
            r == self.spec_code(),
    {
        match self {
            VirtioPciCapCfg::Common => 1,
            VirtioPciCapCfg::Notify => 2,
            VirtioPciCapCfg::Isr => 3,
            VirtioPciCapCfg::Device => 4,
            VirtioPciCapCfg::Pci => 5,
            VirtioPciCapCfg::SharedMem => 8,
            VirtioPciCapCfg::Vendor => 9,
        }
    }

    /// The variant for a capability type byte, if it names one.
    pub fn from_code(code: u8) -> (r: Option<VirtioPciCapCfg>)
        ensures
            match r {
                Some(v) => v.spec_code() == code,
                None => code != 1 && code != 2 && code != 3 && code != 4 && code != 5 && code != 8
                    && code != 9,
            },
    {
        match code {
            1 => Some(VirtioPciCapCfg::Common),
            2 => Some(VirtioPciCapCfg::Notify),
            3 => Some(VirtioPciCapCfg::Isr),
            4 => Some(VirtioPciCapCfg::Device),
            5 => Some(VirtioPciCapCfg::Pci),
            8 => Some(VirtioPciCapCfg::SharedMem),
            9 => Some(VirtioPciCapCfg::Vendor),
            _ => None,
        }
    }
}

/// A VirtIO capability as laid out in PCI configuration space.
#[derive(Debug, Clone, Copy, PartialEq, Eq)]
pub struct VirtioPciCap {
    pub cap_vndr: u8,
    pub cap_next: u8,
    pub cap_len: u8,
    pub cfg_type: VirtioPciCapCfg,
    pub bar: u8,
    pub id: u8,
    pub _padding: [u8; 2],
    pub offset_le: u32,
    pub length_le: u32,
}

impl VirtioPciCap {
    /// A capability record with the given fields; the padding bytes are zero.
    pub fn new(cap_vndr: u8, cap_next: u8, cap_len: u8, cfg_type: VirtioPciCapCfg, bar: u8,
        id: u8, offset_le: u32, length_le: u32) -> (r: Self)
        ensures
            r.cap_vndr == cap_vndr,
            r.cap_next == cap_next,
            r.cap_len == cap_len,
            r.cfg_type == cfg_type,
            r.bar == bar,
            r.id == id,
            r.offset_le == offset_le,
            r.length_le == length_le,
    {
        VirtioPciCap {
            cap_vndr,
            cap_next,
            cap_len,
            cfg_type,
            bar,
            id,
            _padding: [0, 0],
            offset_le,
            length_le,
        }
    }
}

} // verus!
