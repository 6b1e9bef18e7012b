//! A fixed-capacity bit store: `SIZE` bytes holding `SIZE * 8` single-bit
//! flags, addressed by bit position. It backs the physical page allocator,
//! where bit `i` records whether page `i` is taken.

use vstd::prelude::*;

verus! {

/// Value of bit `off` of the byte `b`.
pub open spec fn bit_of_byte(b: u8, off: u8) -> bool {
    (b >> off) & 1 == 1
}

/// A buffer of `SIZE` bytes storing `SIZE * 8` bits, bit `pos` living at
/// bit `pos % 8` of byte `pos / 8`.
pub struct BitMap<const SIZE: usize> {
    inner: Vec<u8>,
}

impl<const SIZE: usize> BitMap<SIZE> {
    /// The buffer holds exactly `SIZE` bytes and every bit position fits in
    /// a `usize`.
    pub closed spec fn wf(self) -> bool {
        self.inner@.len() == SIZE && SIZE * 8 <= usize::MAX
    }

    /// The raw bytes of the store.
    pub closed spec fn bytes(self) -> Seq<u8> {
        self.inner@
    }

    /// Value of the bit at position `pos`.
    pub open spec fn bit(self, pos: int) -> bool {
        bit_of_byte(self.bytes()[pos / 8], (pos % 8) as u8)
    }

    /// Number of bits the store can hold.
    pub fn len(&self) -> (r: usize)
        requires
            self.wf(),
        ensures
            r == SIZE * 8,
    {
        SIZE * 8
    }

    /// A fresh store with every bit clear.
    pub fn zeroed() -> (r: Self)
        requires
            SIZE * 8 <= usize::MAX,
        ensures
            r.wf(),
            forall|i: int| 0 <= i < SIZE ==> r.bytes()[i] == 0,
            forall|pos: int| 0 <= pos < SIZE * 8 ==> !r.bit(pos),
    {
        let mut inner: Vec<u8> = Vec::new();
        let mut i: usize = 0;
        while i < SIZE
            invariant
                i <= SIZE,
                inner@.len() == i,
                forall|j: int| 0 <= j < i ==> inner@[j] == 0,
            decreases SIZE - i,
        {
            inner.push(0);
            i = i + 1;
        }
        let r = BitMap { inner };
        proof {
            assert forall|pos: int| 0 <= pos < SIZE * 8 implies !r.bit(pos) by {
                let off = (pos % 8) as u8;
                assert((0u8 >> off) & 1 == 0) by (bit_vector);
            }
        }
        r
    }

    /// Read the bit at position `pos`.
    pub fn get(&self, pos: usize) -> (r: bool)
        requires
            self.wf(),
            pos < SIZE * 8,
        ensures
            r == self.bit(pos as int),
    {
        let index = pos / 8;
        let offset: u8 = (pos % 8) as u8;

        let value = (self.inner[index] >> offset) & 1;
        value == 1
    }

    /// Write `value` to the bit at position `pos`; every other bit keeps its
    /// value, and no byte outside `pos / 8` is touched.
    pub fn put(&mut self, pos: usize, value: bool)
        requires
            old(self).wf(),
            pos < SIZE * 8,
        ensures
            final(self).wf(),
            final(self).bit(pos as int) == value,
            forall|p: int|
                0 <= p < SIZE * 8 && p != pos ==> final(self).bit(p) == old(self).bit(p),
            forall|i: int|
                0 <= i < SIZE && i != pos / 8 ==> final(self).bytes()[i] == old(self).bytes()[i],
    {
        let index = pos / 8;
        let offset: u8 = (pos % 8) as u8;

        let b = self.inner[index];
        let nb = if value {
            b | (1u8 << offset)
        } else {
            b & !(1u8 << offset)
        };
        self.inner.set(index, nb);

        proof {
            assert forall|p: int|
                0 <= p < SIZE * 8 && p != pos implies final(self).bit(p) == old(self).bit(p) by {
                if p / 8 == pos / 8 {
                    let j = (p % 8) as u8;
                    lemma_byte_put_bit(b, offset, j, value);
                    assert(p == 8 * (p / 8) + p % 8);
                    assert(pos == 8 * (pos as int / 8) + pos as int % 8);
                }
            }
            lemma_byte_put_bit(b, offset, offset, value);
        }
    }
}

/// Setting or clearing one bit of a byte changes exactly that bit.
proof fn lemma_byte_put_bit(b: u8, off: u8, j: u8, value: bool)
    by (bit_vector)
    requires
        off < 8,
        j < 8,
    ensures
        value ==> bit_of_byte(b | (1u8 << off), j) == if j == off {
            true
        } else {
            bit_of_byte(b, j)
        },
        !value ==> bit_of_byte(b & !(1u8 << off), j) == if j == off {
            false
        } else {
            bit_of_byte(b, j)
        },
{
}

} // verus!
