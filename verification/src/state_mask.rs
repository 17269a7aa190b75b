//! The per-instance set of property indices that changed since the last
//! successful send, and its packed form on the wire.

use crate::wire::{take_u8, PacketReader};
use vstd::prelude::*;

verus! {

/// The most properties that one variant may have.
pub const MAX_PROPERTIES: usize = 255;

/// 1 where bit `i` of `bits` is set, else 0; 0 beyond the end.
pub open spec fn bit_value(bits: Seq<bool>, i: int) -> int {
    if 0 <= i < bits.len() && bits[i] {
        1
    } else {
        0
    }
}

/// The byte that packs bits `8 * k .. 8 * k + 8`, the lowest index in the
/// lowest place.
pub open spec fn packed_byte(bits: Seq<bool>, k: int) -> int {
    bit_value(bits, 8 * k) + 2 * bit_value(bits, 8 * k + 1) + 4 * bit_value(bits, 8 * k + 2) + 8
        * bit_value(bits, 8 * k + 3) + 16 * bit_value(bits, 8 * k + 4) + 32 * bit_value(
        bits,
        8 * k + 5,
    ) + 64 * bit_value(bits, 8 * k + 6) + 128 * bit_value(bits, 8 * k + 7)
}

/// The number of bytes that pack `count` bits.
pub open spec fn packed_len(count: int) -> int {
    (count + 7) / 8
}

/// The packed form of a mask: one byte for every eight bits.
pub open spec fn packed(bits: Seq<bool>) -> Seq<u8> {
    Seq::new(packed_len(bits.len() as int) as nat, |k: int| packed_byte(bits, k) as u8)
}

/// The place value of bit `j` of a byte.
pub open spec fn place(j: int) -> int {
    if j == 0 {
        1
    } else if j == 1 {
        2
    } else if j == 2 {
        4
    } else if j == 3 {
        8
    } else if j == 4 {
        16
    } else if j == 5 {
        32
    } else if j == 6 {
        64
    } else {
        128
    }
}

/// Bit `i` of a packed mask.
pub open spec fn unpacked_bit(bytes: Seq<u8>, i: int) -> bool {
    (bytes[i / 8] as int / place(i % 8)) % 2 == 1
}

/// The mask of `count` bits that the bytes at `pos` pack, with the position
/// after them.
pub open spec fn take_mask(bytes: Seq<u8>, pos: int, count: int) -> Option<(Seq<bool>, int)> {
    if 0 <= pos && 0 <= count && pos + packed_len(count) <= bytes.len() {
        Some(
            (
                Seq::new(
                    count as nat,
                    |i: int| unpacked_bit(bytes.subrange(pos, pos + packed_len(count)), i),
                ),
                pos + packed_len(count),
            ),
        )
    } else {
        None
    }
}

/// Unpacking a packed byte gives each bit back.
pub proof fn lemma_packed_bit(bits: Seq<bool>, i: int)
    requires
        0 <= i < bits.len(),
    ensures
        0 <= packed_byte(bits, i / 8) < 256,
        (packed_byte(bits, i / 8) / place(i % 8)) % 2 == 1 <==> bits[i],
{
    let k = i / 8;
    let j = i % 8;
    assert(i == 8 * k + j);
    let b0 = bit_value(bits, 8 * k);
    let b1 = bit_value(bits, 8 * k + 1);
    let b2 = bit_value(bits, 8 * k + 2);
    let b3 = bit_value(bits, 8 * k + 3);
    let b4 = bit_value(bits, 8 * k + 4);
    let b5 = bit_value(bits, 8 * k + 5);
    let b6 = bit_value(bits, 8 * k + 6);
    let b7 = bit_value(bits, 8 * k + 7);
    let v = packed_byte(bits, k);
    assert(v == b0 + 2 * b1 + 4 * b2 + 8 * b3 + 16 * b4 + 32 * b5 + 64 * b6 + 128 * b7);
    assert(bit_value(bits, i) == 1 <==> bits[i]);
    if j == 0 {
        assert(v % 2 == b0);
    } else if j == 1 {
        assert((v / 2) % 2 == b1);
    } else if j == 2 {
        assert((v / 4) % 2 == b2);
    } else if j == 3 {
        assert((v / 8) % 2 == b3);
    } else if j == 4 {
        assert((v / 16) % 2 == b4);
    } else if j == 5 {
        assert((v / 32) % 2 == b5);
    } else if j == 6 {
        assert((v / 64) % 2 == b6);
    } else {
        assert((v / 128) % 2 == b7);
    }
}

/// Reading back a packed mask gives the mask.
pub proof fn lemma_mask_round_trip(bits: Seq<bool>, bytes: Seq<u8>, pos: int)
    requires
        0 <= pos,
        pos + packed_len(bits.len() as int) <= bytes.len(),
        bytes.subrange(pos, pos + packed_len(bits.len() as int)) == packed(bits),
    ensures
        take_mask(bytes, pos, bits.len() as int) == Some(
            (bits, pos + packed_len(bits.len() as int)),
        ),
{
    let n = bits.len() as int;
    let part = bytes.subrange(pos, pos + packed_len(n));
    let got = Seq::new(n as nat, |i: int| unpacked_bit(part, i));
    assert forall|i: int| 0 <= i < n implies got[i] == bits[i] by {
        lemma_packed_bit(bits, i);
        assert(part[i / 8] == packed_byte(bits, i / 8) as u8);
    }
    assert(got =~= bits);
}

/// A set of property indices below a fixed count.
pub struct StateMask {
    bits: Vec<bool>,
}

impl View for StateMask {
    type V = Seq<bool>;

    closed spec fn view(&self) -> Seq<bool> {
        self.bits@
    }
}

/// No bit of the mask is set.
pub open spec fn all_clear(bits: Seq<bool>) -> bool {
    forall|i: int| 0 <= i < bits.len() ==> !#[trigger] bits[i]
}

/// The mask of `count` bits with none set.
pub open spec fn clear_mask(count: nat) -> Seq<bool> {
    Seq::new(count, |i: int| false)
}

/// The mask of `count` bits with all set.
pub open spec fn full_mask(count: nat) -> Seq<bool> {
    Seq::new(count, |i: int| true)
}

/// The bits set in either mask; the length is that of `a`.
pub open spec fn mask_or(a: Seq<bool>, b: Seq<bool>) -> Seq<bool> {
    Seq::new(a.len(), |i: int| a[i] || (i < b.len() && b[i]))
}

/// The bits of `a` that are not set in `b`; the length is that of `a`.
pub open spec fn mask_without(a: Seq<bool>, b: Seq<bool>) -> Seq<bool> {
    Seq::new(a.len(), |i: int| a[i] && !(i < b.len() && b[i]))
}

impl StateMask {
    /// The mask is short enough to pack.
    pub open spec fn wf(&self) -> bool {
        self@.len() <= MAX_PROPERTIES
    }

    /// A mask of `count` bits, none set.
    pub fn new(count: u8) -> (m: Self)
        ensures
            m.wf(),
            m@ == clear_mask(count as nat),
    {
        let mut bits: Vec<bool> = Vec::new();
        let mut i: u8 = 0;
        while i < count
            invariant
                i <= count,
                bits@ == clear_mask(i as nat),
            decreases count - i,
        {
            bits.push(false);
            i += 1;
            assert(bits@ =~= clear_mask(i as nat));
        }
        StateMask { bits }
    }

    /// A mask of `count` bits, all set.
    pub fn full(count: u8) -> (m: Self)
        ensures
            m.wf(),
            m@ == full_mask(count as nat),
    {
        let mut bits: Vec<bool> = Vec::new();
        let mut i: u8 = 0;
        while i < count
            invariant
                i <= count,
                bits@ == full_mask(i as nat),
            decreases count - i,
        {
            bits.push(true);
            i += 1;
            assert(bits@ =~= full_mask(i as nat));
        }
        StateMask { bits }
    }

    pub fn len(&self) -> (n: usize)
        ensures
            n == self@.len(),
    {
        self.bits.len()
    }

    /// Whether bit `index` is set; bits beyond the end are not.
    pub fn get_bit(&self, index: usize) -> (b: bool)
        ensures
            b == (index < self@.len() && self@[index as int]),
    {
        index < self.bits.len() && self.bits[index]
    }

    /// Sets bit `index`; an index beyond the end changes nothing.
    pub fn set_bit(&mut self, index: usize)
        ensures
            index < old(self)@.len() ==> final(self)@ == old(self)@.update(index as int, true),
            index >= old(self)@.len() ==> final(self)@ == old(self)@,
    {
        if index < self.bits.len() {
            self.bits.set(index, true);
        }
    }

    /// Whether no bit is set.
    pub fn is_clear(&self) -> (b: bool)
        ensures
            b == all_clear(self@),
    {
        let mut i: usize = 0;
        while i < self.bits.len()
            invariant
                i <= self.bits.len(),
                forall|j: int| 0 <= j < i ==> !#[trigger] self@[j],
            decreases self.bits.len() - i,
        {
            if self.bits[i] {
                return false;
            }
            i += 1;
        }
        true
    }

    /// Unsets every bit.
    pub fn clear(&mut self)
        ensures
            final(self)@ == clear_mask(old(self)@.len()),
    {
        let n = self.bits.len();
        let mut i: usize = 0;
        while i < n
            invariant
                i <= n,
                self@.len() == n,
                forall|j: int| 0 <= j < i ==> !#[trigger] self@[j],
            decreases n - i,
        {
            self.bits.set(i, false);
            i += 1;
        }
        assert(self@ =~= clear_mask(old(self)@.len()));
    }

    /// Sets the bits that are set in `other`.
    pub fn or(&mut self, other: &StateMask)
        ensures
            final(self)@ == mask_or(old(self)@, other@),
    {
        let n = self.bits.len();
        let mut i: usize = 0;
        while i < n
            invariant
                i <= n,
                self@.len() == n,
                n == old(self)@.len(),
                forall|j: int| 0 <= j < i ==> #[trigger] self@[j] == mask_or(old(self)@, other@)[j],
                forall|j: int| i <= j < n ==> #[trigger] self@[j] == old(self)@[j],
            decreases n - i,
        {
            if other.get_bit(i) {
                self.bits.set(i, true);
            }
            i += 1;
        }
        assert(self@ =~= mask_or(old(self)@, other@));
    }

    /// Unsets the bits that are set in `other`.
    pub fn nand(&mut self, other: &StateMask)
        ensures
            final(self)@ == mask_without(old(self)@, other@),
    {
        let n = self.bits.len();
        let mut i: usize = 0;
        while i < n
            invariant
                i <= n,
                self@.len() == n,
                n == old(self)@.len(),
                forall|j: int|
                    0 <= j < i ==> #[trigger] self@[j] == mask_without(old(self)@, other@)[j],
                forall|j: int| i <= j < n ==> #[trigger] self@[j] == old(self)@[j],
            decreases n - i,
        {
            if other.get_bit(i) {
                self.bits.set(i, false);
            }
            i += 1;
        }
        assert(self@ =~= mask_without(old(self)@, other@));
    }

    /// A copy of the mask.
    pub fn copy(&self) -> (m: StateMask)
        ensures
            m@ == self@,
    {
        let mut bits: Vec<bool> = Vec::new();
        let mut i: usize = 0;
        while i < self.bits.len()
            invariant
                i <= self.bits.len(),
                bits@ == self@.subrange(0, i as int),
            decreases self.bits.len() - i,
        {
            bits.push(self.bits[i]);
            i += 1;
            assert(bits@ =~= self@.subrange(0, i as int));
        }
        assert(self@.subrange(0, i as int) =~= self@);
        StateMask { bits }
    }

    fn pack_byte(&self, k: usize) -> (v: u8)
        requires
            self.wf(),
            k < 32,
        ensures
            v == packed_byte(self@, k as int),
    {
        let base = 8 * k;
        let mut v: u8 = 0;
        if self.get_bit(base) {
            v += 1;
        }
        if self.get_bit(base + 1) {
            v += 2;
        }
        if self.get_bit(base + 2) {
            v += 4;
        }
        if self.get_bit(base + 3) {
            v += 8;
        }
        if self.get_bit(base + 4) {
            v += 16;
        }
        if self.get_bit(base + 5) {
            v += 32;
        }
        if self.get_bit(base + 6) {
            v += 64;
        }
        if self.get_bit(base + 7) {
            v += 128;
        }
        v
    }

    /// Appends the packed mask.
    pub fn write(&self, out: &mut Vec<u8>)
        requires
            self.wf(),
        ensures
            final(out)@ == old(out)@ + packed(self@),
    {
        let count = (self.bits.len() + 7) / 8;
        let mut k: usize = 0;
        while k < count
            invariant
                self.wf(),
                k <= count,
                count == packed_len(self@.len() as int),
                out@ == old(out)@ + packed(self@).subrange(0, k as int),
            decreases count - k,
        {
            let v = self.pack_byte(k);
            out.push(v);
            k += 1;
            assert(out@ =~= old(out)@ + packed(self@).subrange(0, k as int));
        }
        assert(packed(self@).subrange(0, k as int) =~= packed(self@));
    }

    /// Reads a packed mask of `count` bits.
    pub fn read(reader: &mut PacketReader, count: u8) -> (r: Option<StateMask>)
        requires
            old(reader).wf(),
        ensures
            final(reader).wf(),
            final(reader).data() == old(reader).data(),
            match take_mask(old(reader).data(), old(reader).pos(), count as int) {
                Some((bits, pos)) => r is Some && r.unwrap()@ == bits && r.unwrap().wf() && final(reader).pos() == pos,
                None => r is None && final(reader).pos() == old(reader).pos(),
            },
    {
        let byte_count: usize = (count as usize + 7) / 8;
        match reader.read_bytes(byte_count) {
            None => None,
            Some(bytes) => {
                let mut bits: Vec<bool> = Vec::new();
                let mut i: usize = 0;
                while i < count as usize
                    invariant
                        i <= count,
                        bytes@.len() == packed_len(count as int),
                        bits@.len() == i,
                        forall|j: int| 0 <= j < i ==> #[trigger] bits@[j] == unpacked_bit(bytes@, j),
                    decreases count - i,
                {
                    let byte = bytes[i / 8];
                    let j = i % 8;
                    let shifted: u8 = if j == 0 {
                        byte
                    } else if j == 1 {
                        byte / 2
                    } else if j == 2 {
                        byte / 4
                    } else if j == 3 {
                        byte / 8
                    } else if j == 4 {
                        byte / 16
                    } else if j == 5 {
                        byte / 32
                    } else if j == 6 {
                        byte / 64
                    } else {
                        byte / 128
                    };
                    bits.push(shifted % 2 == 1);
                    i += 1;
                }
                let m = StateMask { bits };
                proof {
                    let expected = take_mask(old(reader).data(), old(reader).pos(), count as int);
                    assert(m@ =~= expected.unwrap().0);
                }
                Some(m)
            },
        }
    }
}

} // verus!
