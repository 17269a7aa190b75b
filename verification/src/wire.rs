//! Reading and writing the primitive fields of a packet: bytes, big-endian
//! 16- and 32-bit integers and byte strings. What a parser accepts is stated
//! by the `take_*` functions over a byte sequence and a position.

use vstd::prelude::*;

verus! {

/// The usable payload of one datagram.
pub const DATAGRAM_SIZE: usize = 508;

/// The byte at `pos`, with the position after it.
pub open spec fn take_u8(bytes: Seq<u8>, pos: int) -> Option<(u8, int)> {
    if 0 <= pos < bytes.len() {
        Some((bytes[pos], pos + 1))
    } else {
        None
    }
}

/// The value of two bytes, the high one first.
pub open spec fn u16_of(hi: u8, lo: u8) -> u16 {
    (hi as int * 256 + lo as int) as u16
}

/// The big-endian 16-bit integer at `pos`, with the position after it.
pub open spec fn take_u16(bytes: Seq<u8>, pos: int) -> Option<(u16, int)> {
    if 0 <= pos && pos + 2 <= bytes.len() {
        Some((u16_of(bytes[pos], bytes[pos + 1]), pos + 2))
    } else {
        None
    }
}

/// The value of four bytes, the highest one first.
pub open spec fn u32_of(b0: u8, b1: u8, b2: u8, b3: u8) -> u32 {
    (b0 as int * 16777216 + b1 as int * 65536 + b2 as int * 256 + b3 as int) as u32
}

/// The big-endian 32-bit integer at `pos`, with the position after it.
pub open spec fn take_u32(bytes: Seq<u8>, pos: int) -> Option<(u32, int)> {
    if 0 <= pos && pos + 4 <= bytes.len() {
        Some((u32_of(bytes[pos], bytes[pos + 1], bytes[pos + 2], bytes[pos + 3]), pos + 4))
    } else {
        None
    }
}

/// The `count` bytes at `pos`, with the position after them.
pub open spec fn take_bytes(bytes: Seq<u8>, pos: int, count: int) -> Option<(Seq<u8>, int)> {
    if 0 <= pos && 0 <= count && pos + count <= bytes.len() {
        Some((bytes.subrange(pos, pos + count), pos + count))
    } else {
        None
    }
}

/// A parse result with the items parsed before it put in front.
pub open spec fn extended<T>(done: Seq<T>, more: Option<(Seq<T>, int)>) -> Option<(Seq<T>, int)> {
    match more {
        Some((rest, end)) => Some((done + rest, end)),
        None => None,
    }
}

/// `count` items in a row, each parsed by `item`, with the position after
/// the last one.
pub open spec fn take_many<T>(
    item: spec_fn(Seq<u8>, int) -> Option<(T, int)>,
    bytes: Seq<u8>,
    pos: int,
    count: nat,
) -> Option<(Seq<T>, int)>
    decreases count,
{
    if count == 0 {
        Some((Seq::empty(), pos))
    } else {
        match item(bytes, pos) {
            Some((value, next)) => extended(
                seq![value],
                take_many(item, bytes, next, (count - 1) as nat),
            ),
            None => None,
        }
    }
}

/// Parsing one more item carries a repeated parse one step on.
pub proof fn lemma_take_many_step<T>(
    item: spec_fn(Seq<u8>, int) -> Option<(T, int)>,
    bytes: Seq<u8>,
    done: Seq<T>,
    pos: int,
    left: nat,
)
    requires
        left > 0,
    ensures
        extended(done, take_many(item, bytes, pos, left)) == match item(bytes, pos) {
            Some((value, next)) => extended(
                done.push(value),
                take_many(item, bytes, next, (left - 1) as nat),
            ),
            None => None,
        },
{
    match item(bytes, pos) {
        Some((value, next)) => {
            match take_many(item, bytes, next, (left - 1) as nat) {
                Some((rest, end)) => {
                    assert(done + (seq![value] + rest) =~= done.push(value) + rest);
                },
                None => {},
            }
        },
        None => {},
    }
}

/// A repeated parse that has nothing left to parse has parsed `done`.
pub proof fn lemma_take_many_done<T>(
    item: spec_fn(Seq<u8>, int) -> Option<(T, int)>,
    bytes: Seq<u8>,
    done: Seq<T>,
    pos: int,
)
    ensures
        extended(done, take_many(item, bytes, pos, 0)) == Some((done, pos)),
        extended(Seq::<T>::empty(), take_many(item, bytes, pos, 0)) == Some(
            (Seq::<T>::empty(), pos),
        ),
{
    assert(done + Seq::<T>::empty() =~= done);
    assert(Seq::<T>::empty() + Seq::<T>::empty() =~= Seq::<T>::empty());
}

/// A repeated parse is itself with nothing put in front.
pub proof fn lemma_take_many_start<T>(
    item: spec_fn(Seq<u8>, int) -> Option<(T, int)>,
    bytes: Seq<u8>,
    pos: int,
    count: nat,
)
    ensures
        extended(Seq::<T>::empty(), take_many(item, bytes, pos, count)) == take_many(
            item,
            bytes,
            pos,
            count,
        ),
{
    match take_many(item, bytes, pos, count) {
        Some((rest, end)) => {
            assert(Seq::<T>::empty() + rest =~= rest);
        },
        None => {},
    }
}

/// The two bytes of a 16-bit integer, the high one first.
pub open spec fn u16_bytes(value: u16) -> Seq<u8> {
    seq![(value / 256) as u8, (value % 256) as u8]
}

/// The four bytes of a 32-bit integer, the highest one first.
pub open spec fn u32_bytes(value: u32) -> Seq<u8> {
    seq![
        (value / 16777216) as u8,
        ((value / 65536) % 256) as u8,
        ((value / 256) % 256) as u8,
        (value % 256) as u8,
    ]
}

/// Reading back what `u16_bytes` wrote gives the value.
pub proof fn lemma_u16_round_trip(value: u16, bytes: Seq<u8>, pos: int)
    requires
        0 <= pos,
        pos + 2 <= bytes.len(),
        bytes.subrange(pos, pos + 2) == u16_bytes(value),
    ensures
        take_u16(bytes, pos) == Some((value, pos + 2)),
{
    let part = bytes.subrange(pos, pos + 2);
    assert(part[0] == bytes[pos]);
    assert(part[1] == bytes[pos + 1]);
    assert(u16_bytes(value)[0] == (value / 256) as u8);
    assert(u16_bytes(value)[1] == (value % 256) as u8);
}

/// A 32-bit integer is the value of its four bytes.
pub proof fn lemma_u32_of_its_bytes(value: u32)
    ensures
        u32_of(
            (value / 16777216) as u8,
            ((value / 65536) % 256) as u8,
            ((value / 256) % 256) as u8,
            (value % 256) as u8,
        ) == value,
{
    let v = value as int;
    let q1 = v / 256;
    let q2 = q1 / 256;
    let q3 = q2 / 256;
    assert(v == q1 * 256 + v % 256);
    assert(q1 == q2 * 256 + q1 % 256);
    assert(q2 == q3 * 256 + q2 % 256);
    assert(v / 65536 == q2);
    assert(v / 16777216 == q3);
    assert(0 <= q3 < 256);
}

/// Reading back what `u32_bytes` wrote gives the value.
#[verifier::rlimit(50)]
pub proof fn lemma_u32_round_trip(value: u32, bytes: Seq<u8>, pos: int)
    requires
        0 <= pos,
        pos + 4 <= bytes.len(),
        bytes.subrange(pos, pos + 4) == u32_bytes(value),
    ensures
        take_u32(bytes, pos) == Some((value, pos + 4)),
{
    let part = bytes.subrange(pos, pos + 4);
    assert(part[0] == bytes[pos]);
    assert(part[1] == bytes[pos + 1]);
    assert(part[2] == bytes[pos + 2]);
    assert(part[3] == bytes[pos + 3]);
    assert(u32_bytes(value)[0] == (value / 16777216) as u8);
    assert(u32_bytes(value)[1] == ((value / 65536) % 256) as u8);
    assert(u32_bytes(value)[2] == ((value / 256) % 256) as u8);
    assert(u32_bytes(value)[3] == (value % 256) as u8);
    lemma_u32_of_its_bytes(value);
}

/// Appends a 16-bit integer, the high byte first.
pub fn write_u16(out: &mut Vec<u8>, value: u16)
    ensures
        final(out)@ == old(out)@ + u16_bytes(value),
{
    out.push((value / 256) as u8);
    out.push((value % 256) as u8);
    assert(out@ =~= old(out)@ + u16_bytes(value));
}

/// Appends a 32-bit integer, the highest byte first.
pub fn write_u32(out: &mut Vec<u8>, value: u32)
    ensures
        final(out)@ == old(out)@ + u32_bytes(value),
{
    out.push((value / 16777216) as u8);
    out.push(((value / 65536) % 256) as u8);
    out.push(((value / 256) % 256) as u8);
    out.push((value % 256) as u8);
    assert(out@ =~= old(out)@ + u32_bytes(value));
}

/// Appends a copy of `bytes`.
pub fn write_bytes(out: &mut Vec<u8>, bytes: &Vec<u8>)
    ensures
        final(out)@ == old(out)@ + bytes@,
{
    let mut i: usize = 0;
    while i < bytes.len()
        invariant
            i <= bytes.len(),
            out@ == old(out)@ + bytes@.subrange(0, i as int),
        decreases bytes.len() - i,
    {
        out.push(bytes[i]);
        i += 1;
        assert(out@ =~= old(out)@ + bytes@.subrange(0, i as int));
    }
    assert(bytes@.subrange(0, i as int) =~= bytes@);
}

/// A copy of a byte string.
pub fn copy_bytes(bytes: &Vec<u8>) -> (copy: Vec<u8>)
    ensures
        copy@ == bytes@,
{
    let mut copy: Vec<u8> = Vec::new();
    write_bytes(&mut copy, bytes);
    assert(copy@ =~= bytes@);
    copy
}

/// A cursor over the bytes of one received packet.
pub struct PacketReader<'a> {
    buffer: &'a [u8],
    cursor: usize,
}

/// What a read leaves behind: on success the value and the cursor after it,
/// on failure nothing and the cursor where it was. The bytes never change.
pub open spec fn read_outcome<T>(
    before: PacketReader,
    after: PacketReader,
    expected: Option<(T, int)>,
    got: Option<T>,
) -> bool {
    &&& after.data() == before.data()
    &&& after.wf()
    &&& match expected {
        Some((value, pos)) => got == Some(value) && after.pos() == pos,
        None => got is None && after.pos() == before.pos(),
    }
}

impl<'a> PacketReader<'a> {
    /// All bytes of the packet.
    pub closed spec fn data(&self) -> Seq<u8> {
        self.buffer@
    }

    /// The position of the next byte to read.
    pub closed spec fn pos(&self) -> int {
        self.cursor as int
    }

    pub open spec fn wf(&self) -> bool {
        0 <= self.pos() <= self.data().len()
    }

    pub fn new(buffer: &'a [u8]) -> (r: Self)
        ensures
            r.wf(),
            r.data() == buffer@,
            r.pos() == 0,
    {
        PacketReader { buffer, cursor: 0 }
    }

    /// Whether any byte is left to read.
    pub fn has_more(&self) -> (b: bool)
        requires
            self.wf(),
        ensures
            b == (self.pos() < self.data().len()),
    {
        self.cursor < self.buffer.len()
    }

    /// The position of the next byte to read.
    pub fn get_cursor(&self) -> (c: usize)
        ensures
            c == self.pos(),
    {
        self.cursor
    }

    /// Moves the cursor to another position.
    pub fn rewind(&mut self, cursor: usize)
        requires
            cursor <= old(self).data().len(),
        ensures
            final(self).wf(),
            final(self).data() == old(self).data(),
            final(self).pos() == cursor,
    {
        self.cursor = cursor;
    }

    pub fn read_u8(&mut self) -> (r: Option<u8>)
        requires
            old(self).wf(),
        ensures
            read_outcome(*old(self), *final(self), take_u8(old(self).data(), old(self).pos()), r),
    {
        if self.cursor < self.buffer.len() {
            let value = self.buffer[self.cursor];
            self.cursor += 1;
            Some(value)
        } else {
            None
        }
    }

    pub fn read_u16(&mut self) -> (r: Option<u16>)
        requires
            old(self).wf(),
        ensures
            read_outcome(*old(self), *final(self), take_u16(old(self).data(), old(self).pos()), r),
    {
        if self.buffer.len() - self.cursor >= 2 {
            let hi: u16 = self.buffer[self.cursor] as u16;
            let lo: u16 = self.buffer[self.cursor + 1] as u16;
            self.cursor += 2;
            Some(hi * 256 + lo)
        } else {
            None
        }
    }

    pub fn read_u32(&mut self) -> (r: Option<u32>)
        requires
            old(self).wf(),
        ensures
            read_outcome(*old(self), *final(self), take_u32(old(self).data(), old(self).pos()), r),
    {
        if self.buffer.len() - self.cursor >= 4 {
            let b0: u32 = self.buffer[self.cursor] as u32;
            let b1: u32 = self.buffer[self.cursor + 1] as u32;
            let b2: u32 = self.buffer[self.cursor + 2] as u32;
            let b3: u32 = self.buffer[self.cursor + 3] as u32;
            self.cursor += 4;
            Some(b0 * 16777216 + b1 * 65536 + b2 * 256 + b3)
        } else {
            None
        }
    }

    /// Reads the next `count` bytes.
    pub fn read_bytes(&mut self, count: usize) -> (r: Option<Vec<u8>>)
        requires
            old(self).wf(),
        ensures
            final(self).data() == old(self).data(),
            final(self).wf(),
            match take_bytes(old(self).data(), old(self).pos(), count as int) {
                Some((bytes, pos)) => r is Some && r.unwrap()@ == bytes && final(self).pos() == pos,
                None => r is None && final(self).pos() == old(self).pos(),
            },
    {
        if self.buffer.len() - self.cursor >= count {
            let mut out: Vec<u8> = Vec::new();
            let start = self.cursor;
            let total = self.buffer.len();
            let mut i: usize = 0;
            while i < count
                invariant
                    i <= count,
                    start + count <= total,
                    total == self.buffer@.len(),
                    out@ == self.buffer@.subrange(start as int, start + i),
                decreases count - i,
            {
                out.push(self.buffer[start + i]);
                i += 1;
                assert(out@ =~= self.buffer@.subrange(start as int, start + i));
            }
            self.cursor = start + count;
            Some(out)
        } else {
            None
        }
    }
}

} // verus!
