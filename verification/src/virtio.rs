//! VirtIO over PCI: the capability records a device advertises, the
//! selection of the five records the driver needs, and the layout of the
//! virtqueue rings. Device register traffic happens outside the library.

use vstd::prelude::*;

verus! {

/// Vendor/device id pair of a VirtIO block device.
pub const BLK_ID_VENDOR: u16 = 0x1af4;

/// Device id of a VirtIO block device.
pub const BLK_ID_DEVICE: u16 = 0x1001;

/// What a VirtIO capability record describes.
#[derive(Debug, Clone, Copy, PartialEq, Eq, Structural)]
pub enum CapDataType {
    Common,
    Notify,
    Isr,
    Device,
    Pci,
    SharedMemory,
    Vendor,
}

impl CapDataType {
    /// The configuration type byte this variant stands for.
    pub open spec fn spec_code(self) -> u8 {
        match self {
            CapDataType::Common => 1,
            CapDataType::Notify => 2,
            CapDataType::Isr => 3,
            CapDataType::Device => 4,
            CapDataType::Pci => 5,
            CapDataType::SharedMemory => 8,
            CapDataType::Vendor => 9,
        }
    }

    /// The configuration type byte this variant stands for.
    pub fn code(self) -> (r: u8)
        ensures
            r == self.spec_code(),
    {
        match self {
            CapDataType::Common => 1,
            CapDataType::Notify => 2,
            CapDataType::Isr => 3,
            CapDataType::Device => 4,
            CapDataType::Pci => 5,
            CapDataType::SharedMemory => 8,
            CapDataType::Vendor => 9,
        }
    }

    /// The variant for a configuration type byte, if it names one.
    pub fn from_code(code: u8) -> (r: Option<CapDataType>)
        ensures
            match r {
                Some(v) => v.spec_code() == code,
                None => code != 1 && code != 2 && code != 3 && code != 4 && code != 5 && code != 8
                    && code != 9,
            },
    {
        match code {
            1 => Some(CapDataType::Common),
            2 => Some(CapDataType::Notify),
            3 => Some(CapDataType::Isr),
            4 => Some(CapDataType::Device),
            5 => Some(CapDataType::Pci),
            8 => Some(CapDataType::SharedMemory),
            9 => Some(CapDataType::Vendor),
            _ => None,
        }
    }
}

/// One VirtIO capability record, decoded to plain fields.
#[derive(Debug, Clone, Copy, PartialEq, Eq)]
pub struct CapData {
    pub len: u8,
    pub typ: CapDataType,
    pub bar: u8,
    pub id: u8,
    pub _padding: [u8; 2],
    pub offset: u32,
    pub length: u32,
}

/// The five capability records a VirtIO PCI driver needs.
#[derive(Debug, Clone, Copy, PartialEq, Eq)]
pub struct Data {
    pub common: CapData,
    pub notify: CapData,
    pub isr: CapData,
    pub device: CapData,
    pub pci: CapData,
}

/// The last record in `s` of type `t`, if any: a later record of the same
/// type overrides an earlier one.
pub open spec fn last_cap(s: Seq<CapData>, t: CapDataType) -> Option<CapData>
    decreases s.len(),
{
    if s.len() == 0 {
        None
    } else if s.last().typ == t {
        Some(s.last())
    } else {
        last_cap(s.drop_last(), t)
    }
}

/// Pick the five records the driver needs out of a device's capability
/// list; of several records of one type the last wins. `None` when any of
/// the five is missing.
pub fn read_cap_data(cap: &[CapData]) -> (r: Option<Data>)
    ensures
        match r {
            Some(d) => {
                &&& Some(d.common) == last_cap(cap@, CapDataType::Common)
                &&& Some(d.notify) == last_cap(cap@, CapDataType::Notify)
                &&& Some(d.isr) == last_cap(cap@, CapDataType::Isr)
                &&& Some(d.device) == last_cap(cap@, CapDataType::Device)
                &&& Some(d.pci) == last_cap(cap@, CapDataType::Pci)
            },
            None => last_cap(cap@, CapDataType::Common) is None || last_cap(
                cap@,
                CapDataType::Notify,
            ) is None || last_cap(cap@, CapDataType::Isr) is None || last_cap(
                cap@,
                CapDataType::Device,
            ) is None || last_cap(cap@, CapDataType::Pci) is None,
        },
{
    let mut common: Option<CapData> = None;
    let mut notify: Option<CapData> = None;
    let mut isr: Option<CapData> = None;
    let mut device: Option<CapData> = None;
    let mut pci: Option<CapData> = None;

    let mut i: usize = 0;
    while i < cap.len()
        invariant
            i <= cap@.len(),
            common == last_cap(cap@.take(i as int), CapDataType::Common),
            notify == last_cap(cap@.take(i as int), CapDataType::Notify),
            isr == last_cap(cap@.take(i as int), CapDataType::Isr),
            device == last_cap(cap@.take(i as int), CapDataType::Device),
            pci == last_cap(cap@.take(i as int), CapDataType::Pci),
        decreases cap@.len() - i,
    {
        let c = cap[i];
        proof {
            assert(cap@.take(i + 1).drop_last() =~= cap@.take(i as int));
            assert(cap@.take(i + 1).last() == cap@[i as int]);
        }
        match c.typ {
            CapDataType::Common => common = Some(c),
            CapDataType::Notify => notify = Some(c),
            CapDataType::Isr => isr = Some(c),
            CapDataType::Device => device = Some(c),
            CapDataType::Pci => pci = Some(c),
            _ => {
                // shared-memory and vendor records are not needed
            },
        }
        i = i + 1;
    }
    proof {
        assert(cap@.take(cap@.len() as int) =~= cap@);
    }

    let common = match common {
        Some(c) => c,
        None => {
            return None;
        },
    };
    let notify = match notify {
        Some(c) => c,
        None => {
            return None;
        },
    };
    let isr = match isr {
        Some(c) => c,
        None => {
            return None;
        },
    };
    let device = match device {
        Some(c) => c,
        None => {
            return None;
        },
    };
    let pci = match pci {
        Some(c) => c,
        None => {
            return None;
        },
    };

    Some(Data { common, notify, isr, device, pci })
}

/// Some record of `caps` selects BAR `bar`.
pub open spec fn caps_use_bar(caps: Seq<CapData>, bar: u8) -> bool {
    exists|j: int| 0 <= j < caps.len() && (#[trigger] caps[j]).bar == bar
}

/// Whether any record of `caps` selects BAR `bar`.
fn contains_bar(caps: &[CapData], bar: u8) -> (r: bool)
    ensures
        r == caps_use_bar(caps@, bar),
{
    let mut j: usize = 0;
    while j < caps.len()
        invariant
            j <= caps@.len(),
            forall|k: int| 0 <= k < j ==> (#[trigger] caps@[k]).bar != bar,
        decreases caps@.len() - j,
    {
        if caps[j].bar == bar {
            return true;
        }
        j = j + 1;
    }
    false
}

/// The base-address registers the capability list relies on, in rising
/// order, each once. BAR 0 is reserved for port I/O on this architecture
/// and left out.
pub fn bars_from_caps(caps: &[CapData]) -> (r: Vec<u8>)
    ensures
        forall|i: int, j: int| 0 <= i < j < r@.len() ==> r@[i] < r@[j],
        forall|i: int| 0 <= i < r@.len() ==> caps_use_bar(caps@, #[trigger] r@[i]),
        forall|b: u8| b > 0 && caps_use_bar(caps@, b) ==> r@.contains(b),
{
    let mut r: Vec<u8> = Vec::new();
    let mut v: usize = 1;
    while v <= 255
        invariant
            1 <= v <= 256,
            forall|i: int, j: int| 0 <= i < j < r@.len() ==> r@[i] < r@[j],
            forall|i: int| 0 <= i < r@.len() ==> 0 < (#[trigger] r@[i]) < v,
            forall|i: int| 0 <= i < r@.len() ==> caps_use_bar(caps@, #[trigger] r@[i]),
            forall|b: u8| 0 < b < v && caps_use_bar(caps@, b) ==> r@.contains(b),
        decreases 256 - v,
    {
        let b = v as u8;
        if contains_bar(caps, b) {
            let ghost pre = r@;
            r.push(b);
            proof {
                assert forall|bb: u8| 0 < bb < v + 1 && caps_use_bar(caps@, bb) implies r@.contains(
                    bb,
                ) by {
                    if bb < v {
                        assert(pre.contains(bb));
                        let k = choose|k: int| 0 <= k < pre.len() && pre[k] == bb;
                        assert(r@[k] == bb);
                    } else {
                        assert(r@[r@.len() - 1] == bb);
                    }
                }
            }
        }
        v = v + 1;
    }
    r
}

/// One descriptor of a virtqueue's descriptor table.
#[derive(Debug, Clone, Copy, PartialEq, Eq, Structural)]
pub struct VirtQDesc {
    pub addr: u64,
    pub len: u32,
    pub flags: u16,
    /// next field if flags contain `VIRTQ_DESC_F_NEXT`
    pub next: u16,
}

/// Descriptor flag: the buffer continues in the descriptor named by `next`.
pub const VIRTQ_DESC_F_NEXT: u16 = 1;

/// Descriptor flag: the buffer is written by the device, not read.
pub const VIRTQ_DESC_F_WRITE: u16 = 2;

/// Descriptor flag: the buffer holds a list of buffer descriptors.
pub const VIRTQ_DESC_F_INDIRECT: u16 = 4;

/// The ring on which the driver offers buffers to the device.
pub struct VirtQAvail<const N: usize> {
    pub flags: u16,
    pub idx: u16,
    pub ring: [u16; N],
    pub used_event: u16,
}

/// Available-ring flag: the driver asks for no interrupt on consumption.
pub const VIRTQ_AVAIL_F_NO_INTERRUPT: u16 = 1;

/// The ring on which the device returns consumed buffers.
pub struct VirtQUsed<const N: usize> {
    pub flags: u16,
    pub idx: u16,
    pub ring: [VirtQUsedElem; N],
    pub avail_event: u16,
}

/// Used-ring flag: the device asks for no notification on new buffers.
pub const VIRTQ_USED_F_NO_NOTIFY: u16 = 1;

/// One element of the used ring.
#[derive(Debug, Clone, Copy, PartialEq, Eq, Structural)]
pub struct VirtQUsedElem {
    pub id: u32,
    pub len: u32,
}

/// Bytes of the descriptor table of a virtqueue with `queue_size` entries:
/// sixteen bytes per descriptor.
pub fn desc_table_size(queue_size: u16) -> (r: usize)
    ensures
        r == 16 * queue_size,
{
    16 * (queue_size as usize)
}

/// Bytes of the available ring: the two leading fields, one ring slot per
/// entry, and the used-event trailer.
pub fn avail_ring_size(queue_size: u16) -> (r: usize)
    ensures
        r == 6 + 2 * queue_size,
{
    6 + 2 * (queue_size as usize)
}

/// Bytes of the used ring: the two leading fields, one eight-byte element
/// per entry, and the avail-event trailer.
pub fn used_ring_size(queue_size: u16) -> (r: usize)
    ensures
        r == 6 + 8 * queue_size,
{
    6 + 8 * (queue_size as usize)
}

} // verus!

verus! {

/// Decode one sixteen-byte VirtIO capability record, given as the four
/// configuration words it occupies: the record type lives in the top byte
/// of the first word, the BAR selector and id in the second, the offset and
/// length in the last two. `None` when the type byte names no record kind.
pub fn decode_cap_record(w0: u32, w1: u32, w2: u32, w3: u32) -> (r: Option<CapData>)
    ensures
        match r {
            Some(c) => {
                &&& c.typ.spec_code() == (w0 >> 24) as u8
                &&& c.len == (w0 >> 16) as u8
                &&& c.bar == w1 as u8
                &&& c.id == (w1 >> 8) as u8
                &&& c.offset == w2
                &&& c.length == w3
            },
            None => {
                let code = (w0 >> 24) as u8;
                code != 1 && code != 2 && code != 3 && code != 4 && code != 5 && code != 8
                    && code != 9
            },
        },
{
    let typ = match CapDataType::from_code((w0 >> 24) as u8) {
        Some(typ) => typ,
        None => {
            return None;
        },
    };
    Some(
        CapData {
            len: (w0 >> 16) as u8,
            typ,
            bar: w1 as u8,
            id: (w1 >> 8) as u8,
            _padding: [0, 0],
            offset: w2,
            length: w3,
        },
    )
}

} // verus!
