//! A chunked byte accumulator.
//!
//! Bytes are staged in chunks of a fixed size and handed on as a list of chunks,
//! so that a large sheet is never copied into one allocation.

use vstd::prelude::*;
use crate::biff12::append_bytes;
use crate::text::chars_of;
use crate::utf16::utf16_units;

verus! {

/// The bytes of a list of chunks.
pub open spec fn flat(chunks: Seq<Seq<u8>>) -> Seq<u8>
    decreases chunks.len(),
{
    if chunks.len() == 0 {
        Seq::empty()
    } else {
        flat(chunks.drop_last()) + chunks.last()
    }
}

/// The contents of a list of byte vectors.
pub open spec fn chunk_views(chunks: Seq<Vec<u8>>) -> Seq<Seq<u8>> {
    Seq::new(chunks.len(), |i: int| chunks[i]@)
}

/// The four bytes of a number, low byte first.
pub open spec fn le32(n: u32) -> Seq<u8> {
    seq![
        (n % 256) as u8,
        (n / 0x100 % 256) as u8,
        (n / 0x1_0000 % 256) as u8,
        (n / 0x100_0000) as u8,
    ]
}

/// The eight bytes of a number, low byte first.
pub open spec fn le64(n: u64) -> Seq<u8> {
    le32((n % 0x1_0000_0000) as u32) + le32((n / 0x1_0000_0000) as u32)
}

/// A signed number as 32 bits in two's complement.
pub open spec fn bits32(n: i32) -> u32 {
    if n < 0 {
        (n + 0x1_0000_0000) as u32
    } else {
        n as u32
    }
}

/// What a buffer stands for: the chunks that are full, and the one being filled.
pub struct Chunked {
    pub chunk_size: int,
    pub chunks: Seq<Seq<u8>>,
    pub current: Seq<u8>,
}

impl Chunked {
    pub open spec fn wf(self) -> bool {
        8 <= self.chunk_size <= usize::MAX && self.current.len() <= self.chunk_size
    }

    /// All bytes written so far.
    pub open spec fn bytes(self) -> Seq<u8> {
        flat(self.chunks) + self.current
    }

    /// The chunk being filled is closed, unless it is empty.
    pub open spec fn flushed(self) -> Chunked {
        if self.current.len() > 0 {
            Chunked { chunks: self.chunks.push(self.current), current: Seq::empty(), ..self }
        } else {
            self
        }
    }

    /// The chunk being filled has room for `size` more bytes. Where no chunk has
    /// that room, chunks grow to `size`.
    pub open spec fn with_room(self, size: int) -> Chunked {
        if size > self.chunk_size {
            Chunked { chunk_size: size, ..self.flushed() }
        } else if self.current.len() + size > self.chunk_size {
            self.flushed()
        } else {
            self
        }
    }

    /// The bytes are added to the chunk being filled.
    pub open spec fn adding(self, bytes: Seq<u8>) -> Chunked {
        Chunked { current: self.current + bytes, ..self }
    }

    /// The bytes are spread over as many chunks as they need.
    pub open spec fn spreading(self, bytes: Seq<u8>) -> Chunked
        decreases bytes.len(),
        when self.wf()
    {
        if bytes.len() == 0 {
            self
        } else {
            let b = if self.current.len() == self.chunk_size {
                self.flushed()
            } else {
                self
            };
            let room = b.chunk_size - b.current.len();
            let n = if bytes.len() < room {
                bytes.len() as int
            } else {
                room
            };
            b.adding(bytes.take(n)).spreading(bytes.skip(n))
        }
    }

    /// The bytes are kept together: in the chunk being filled, in a new one, or,
    /// where they fit no chunk, as a chunk of their own.
    pub open spec fn keeping_together(self, bytes: Seq<u8>) -> Chunked {
        if self.current.len() + bytes.len() <= self.chunk_size {
            self.adding(bytes)
        } else if bytes.len() > self.chunk_size {
            let b = self.flushed();
            Chunked { chunks: b.chunks.push(bytes), ..b }
        } else {
            self.flushed().adding(bytes)
        }
    }

    /// The code units are added one by one, none of them split.
    pub open spec fn adding_units(self, units: Seq<u16>) -> Chunked
        decreases units.len(),
    {
        if units.len() == 0 {
            self
        } else {
            self.adding_units(units.drop_last()).with_room(2).adding(
                crate::utf16::le_bytes(seq![units.last()]),
            )
        }
    }
}

proof fn lemma_flushed(b: Chunked)
    requires
        b.wf(),
    ensures
        b.flushed().wf(),
        b.flushed().bytes() == b.bytes(),
        b.flushed().current.len() == 0,
{
    if b.current.len() > 0 {
        assert(b.chunks.push(b.current).drop_last() =~= b.chunks);
        assert(b.flushed().bytes() =~= b.bytes());
    }
}

proof fn lemma_with_room(b: Chunked, size: int)
    requires
        b.wf(),
        0 <= size <= usize::MAX,
    ensures
        b.with_room(size).wf(),
        b.with_room(size).bytes() == b.bytes(),
        b.with_room(size).current.len() + size <= b.with_room(size).chunk_size,
{
    lemma_flushed(b);
    assert(b.with_room(size).bytes() =~= b.bytes());
}

proof fn lemma_adding(b: Chunked, bytes: Seq<u8>)
    ensures
        b.adding(bytes).bytes() == b.bytes() + bytes,
{
    assert(b.adding(bytes).bytes() =~= b.bytes() + bytes);
}

/// Bytes for which there is room in the chunk being filled are not split.
pub proof fn lemma_spreading_fits(b: Chunked, bytes: Seq<u8>)
    requires
        b.wf(),
        b.current.len() + bytes.len() <= b.chunk_size,
    ensures
        b.spreading(bytes) == b.adding(bytes),
{
    if bytes.len() == 0 {
        assert(b.current + bytes =~= b.current);
    } else {
        let n = bytes.len() as int;
        assert(bytes.take(n) =~= bytes);
        assert(bytes.skip(n) =~= Seq::<u8>::empty());
        assert(b.adding(bytes).spreading(Seq::empty()) == b.adding(bytes));
    }
}

/// Whatever way bytes are added, the buffer then holds what it held before,
/// followed by them.
pub proof fn law_writes_append(b: Chunked, bytes: Seq<u8>, units: Seq<u16>)
    requires
        b.wf(),
    ensures
        b.spreading(bytes).bytes() == b.bytes() + bytes,
        b.spreading(bytes).wf(),
        b.keeping_together(bytes).bytes() == b.bytes() + bytes,
        b.keeping_together(bytes).wf(),
        b.adding_units(units).bytes() == b.bytes() + crate::utf16::le_bytes(units),
        b.adding_units(units).wf(),
{
    lemma_spreading(b, bytes);
    lemma_keeping_together(b, bytes);
    lemma_adding_units(b, units);
}

proof fn lemma_spreading(b: Chunked, bytes: Seq<u8>)
    requires
        b.wf(),
    ensures
        b.spreading(bytes).bytes() == b.bytes() + bytes,
        b.spreading(bytes).wf(),
    decreases bytes.len(),
{
    if bytes.len() == 0 {
        assert(b.bytes() + bytes =~= b.bytes());
    } else {
        lemma_flushed(b);
        let c = if b.current.len() == b.chunk_size {
            b.flushed()
        } else {
            b
        };
        let room = c.chunk_size - c.current.len();
        let n = if bytes.len() < room {
            bytes.len() as int
        } else {
            room
        };
        lemma_adding(c, bytes.take(n));
        lemma_spreading(c.adding(bytes.take(n)), bytes.skip(n));
        assert(b.bytes() + bytes.take(n) + bytes.skip(n) =~= b.bytes() + bytes);
    }
}

proof fn lemma_keeping_together(b: Chunked, bytes: Seq<u8>)
    requires
        b.wf(),
    ensures
        b.keeping_together(bytes).bytes() == b.bytes() + bytes,
        b.keeping_together(bytes).wf(),
{
    lemma_flushed(b);
    lemma_adding(b, bytes);
    lemma_adding(b.flushed(), bytes);
    let c = b.flushed();
    assert(c.chunks.push(bytes).drop_last() =~= c.chunks);
    assert(flat(c.chunks) + bytes + c.current =~= flat(c.chunks) + c.current + bytes);
}

proof fn lemma_adding_units(b: Chunked, units: Seq<u16>)
    requires
        b.wf(),
    ensures
        b.adding_units(units).bytes() == b.bytes() + crate::utf16::le_bytes(units),
        b.adding_units(units).wf(),
    decreases units.len(),
{
    if units.len() == 0 {
        assert(b.bytes() + crate::utf16::le_bytes(units) =~= b.bytes());
    } else {
        lemma_adding_units(b, units.drop_last());
        let c = b.adding_units(units.drop_last());
        let last = crate::utf16::le_bytes(seq![units.last()]);
        lemma_with_room(c, 2);
        lemma_adding(c.with_room(2), last);
        assert(crate::utf16::le_bytes(units) =~= crate::utf16::le_bytes(units.drop_last()) + last);
        assert(b.bytes() + crate::utf16::le_bytes(units) =~= b.bytes() + crate::utf16::le_bytes(
            units.drop_last(),
        ) + last);
    }
}

/// A chunked byte accumulator.
#[derive(Debug)]
pub struct BigBuffer {
    chunk_size: usize,
    chunks: Vec<Vec<u8>>,
    current: Vec<u8>,
}

impl View for BigBuffer {
    type V = Chunked;

    closed spec fn view(&self) -> Chunked {
        Chunked {
            chunk_size: self.chunk_size as int,
            chunks: chunk_views(self.chunks@),
            current: self.current@,
        }
    }
}

impl BigBuffer {
    /// A buffer with chunks of `chunk_size` bytes, eight at least.
    pub fn new(chunk_size: usize) -> (r: Self)
        ensures
            r@.wf(),
            r@ == (Chunked {
                chunk_size: if chunk_size < 8 {
                    8
                } else {
                    chunk_size as int
                },
                chunks: Seq::empty(),
                current: Seq::empty(),
            }),
            r@.bytes() == Seq::<u8>::empty(),
    {
        let chunk_size: usize = if chunk_size < 8 {
            8
        } else {
            chunk_size
        };
        let r = BigBuffer { chunk_size, chunks: Vec::new(), current: Vec::new() };
        assert(r@.chunks =~= Seq::<Seq<u8>>::empty());
        assert(r@.bytes() =~= Seq::<u8>::empty());
        r
    }

    fn flush(&mut self)
        requires
            old(self)@.wf(),
        ensures
            final(self)@ == old(self)@.flushed(),
            final(self)@.wf(),
            final(self)@.bytes() == old(self)@.bytes(),
    {
        proof {
            lemma_flushed(self@);
        }
        let ghost before = self@;
        if self.current.len() > 0 {
            let mut filled: Vec<u8> = Vec::new();
            core::mem::swap(&mut filled, &mut self.current);
            self.chunks.push(filled);
            assert(self@.chunks =~= before.chunks.push(before.current));
        }
    }

    /// Makes room for `size` bytes in the chunk being filled.
    pub fn ensure_capacity(&mut self, size: usize)
        requires
            old(self)@.wf(),
        ensures
            final(self)@ == old(self)@.with_room(size as int),
            final(self)@.wf(),
            final(self)@.bytes() == old(self)@.bytes(),
            final(self)@.current.len() + size <= final(self)@.chunk_size,
    {
        proof {
            lemma_with_room(self@, size as int);
        }
        if size > self.chunk_size {
            self.flush();
            self.chunk_size = size;
            return;
        }
        if size > self.chunk_size - self.current.len() {
            self.flush();
        }
    }

    fn add(&mut self, bytes: &[u8])
        ensures
            final(self)@ == old(self)@.adding(bytes@),
            final(self)@.bytes() == old(self)@.bytes() + bytes@,
    {
        proof {
            lemma_adding(self@, bytes@);
        }
        append_bytes(&mut self.current, bytes);
    }

    /// Writes bytes, splitting them over chunks where needed.
    pub fn write(&mut self, buf: &[u8])
        requires
            old(self)@.wf(),
        ensures
            final(self)@ == old(self)@.spreading(buf@),
            final(self)@.wf(),
            final(self)@.bytes() == old(self)@.bytes() + buf@,
    {
        proof {
            lemma_spreading(self@, buf@);
        }
        let ghost start = self@;
        let mut offset: usize = 0;
        assert(buf@.skip(0) =~= buf@);
        while offset < buf.len()
            invariant
                offset <= buf.len(),
                self@.wf(),
                start.spreading(buf@) == self@.spreading(buf@.skip(offset as int)),
            decreases buf.len() - offset,
        {
            let ghost rest = buf@.skip(offset as int);
            if self.chunk_size == self.current.len() {
                self.flush();
            }
            let room: usize = self.chunk_size - self.current.len();
            let left: usize = buf.len() - offset;
            let n: usize = if left < room {
                left
            } else {
                room
            };
            self.add(vstd::slice::slice_subrange(buf, offset, offset + n));
            assert(rest.take(n as int) =~= buf@.subrange(offset as int, offset + n));
            assert(rest.skip(n as int) =~= buf@.skip(offset + n));
            offset += n;
        }
        assert(buf@.skip(offset as int) =~= Seq::<u8>::empty());
    }

    pub fn write_byte(&mut self, val: u8)
        requires
            old(self)@.wf(),
        ensures
            final(self)@ == old(self)@.with_room(1).adding(seq![val]),
            final(self)@.wf(),
            final(self)@.bytes() == old(self)@.bytes() + seq![val],
    {
        self.ensure_capacity(1);
        self.write_unsafe_byte(val);
    }

    /// Writes a byte for which there is room in the chunk being filled.
    pub fn write_unsafe_byte(&mut self, val: u8)
        requires
            old(self)@.wf(),
            old(self)@.current.len() + 1 <= old(self)@.chunk_size,
        ensures
            final(self)@ == old(self)@.adding(seq![val]),
            final(self)@.wf(),
            final(self)@.bytes() == old(self)@.bytes() + seq![val],
    {
        proof {
            lemma_adding(self@, seq![val]);
        }
        let ghost before = self@;
        self.current.push(val);
        assert(self@.current =~= before.current + seq![val]);
    }

    pub fn write_i32_le(&mut self, val: i32)
        requires
            old(self)@.wf(),
        ensures
            final(self)@ == old(self)@.with_room(4).adding(le32(bits32(val))),
            final(self)@.wf(),
            final(self)@.bytes() == old(self)@.bytes() + le32(bits32(val)),
    {
        self.ensure_capacity(4);
        self.write_unsafe_i32_le(val);
    }

    /// Writes a number for which there is room in the chunk being filled.
    pub fn write_unsafe_i32_le(&mut self, val: i32)
        requires
            old(self)@.wf(),
            old(self)@.current.len() + 4 <= old(self)@.chunk_size,
        ensures
            final(self)@ == old(self)@.adding(le32(bits32(val))),
            final(self)@.wf(),
            final(self)@.bytes() == old(self)@.bytes() + le32(bits32(val)),
    {
        let n: u32 = to_bits32(val);
        self.add_u32(n);
    }

    fn add_u32(&mut self, n: u32)
        requires
            old(self)@.wf(),
            old(self)@.current.len() + 4 <= old(self)@.chunk_size,
        ensures
            final(self)@ == old(self)@.adding(le32(n)),
            final(self)@.wf(),
            final(self)@.bytes() == old(self)@.bytes() + le32(n),
    {
        proof {
            lemma_adding(self@, le32(n));
        }
        push_u32_le(&mut self.current, n);
    }

    pub fn write_u32_le(&mut self, val: u32)
        requires
            old(self)@.wf(),
        ensures
            final(self)@ == old(self)@.with_room(4).adding(le32(val)),
            final(self)@.wf(),
            final(self)@.bytes() == old(self)@.bytes() + le32(val),
    {
        self.ensure_capacity(4);
        self.add_u32(val);
    }

    /// Writes the double with the given bits.
    pub fn write_f64_le(&mut self, bits: u64)
        requires
            old(self)@.wf(),
        ensures
            final(self)@ == old(self)@.with_room(8).adding(le64(bits)),
            final(self)@.wf(),
            final(self)@.bytes() == old(self)@.bytes() + le64(bits),
    {
        self.ensure_capacity(8);
        self.write_unsafe_f64_le(bits);
    }

    /// Writes a double for which there is room in the chunk being filled.
    pub fn write_unsafe_f64_le(&mut self, bits: u64)
        requires
            old(self)@.wf(),
            old(self)@.current.len() + 8 <= old(self)@.chunk_size,
        ensures
            final(self)@ == old(self)@.adding(le64(bits)),
            final(self)@.wf(),
            final(self)@.bytes() == old(self)@.bytes() + le64(bits),
    {
        proof {
            lemma_adding(self@, le64(bits));
        }
        let ghost before = self@;
        self.add_u32((bits % 0x1_0000_0000) as u32);
        self.add_u32((bits / 0x1_0000_0000) as u32);
        assert(self@.current =~= before.adding(le64(bits)).current);
    }

    /// Writes the UTF-8 bytes of a text, kept together.
    pub fn write_str(&mut self, s: &str)
        requires
            old(self)@.wf(),
        ensures
            final(self)@ == old(self)@.keeping_together(vstd::utf8::encode_utf8(s@)),
            final(self)@.wf(),
            final(self)@.bytes() == old(self)@.bytes() + vstd::utf8::encode_utf8(s@),
    {
        let bytes = s.as_bytes();
        proof {
            lemma_keeping_together(self@, bytes@);
        }
        if bytes.len() <= self.chunk_size - self.current.len() {
            self.add(bytes);
            return;
        }
        self.flush();
        if bytes.len() > self.chunk_size {
            let ghost before = self@;
            self.chunks.push(vstd::slice::slice_to_vec(bytes));
            assert(self@.chunks =~= before.chunks.push(bytes@));
        } else {
            self.add(bytes);
        }
    }

    /// Writes the UTF-16LE bytes of a text.
    pub fn write_utf16le(&mut self, s: &str)
        requires
            old(self)@.wf(),
        ensures
            final(self)@ == old(self)@.adding_units(crate::utf16::encode_units(s@)),
            final(self)@.wf(),
            final(self)@.bytes() == old(self)@.bytes() + crate::utf16::le_bytes(
                crate::utf16::encode_units(s@),
            ),
    {
        let chars = chars_of(s);
        let units = utf16_units(&chars);
        let ghost start = self@;
        proof {
            lemma_adding_units(start, units@);
        }
        let mut i: usize = 0;
        while i < units.len()
            invariant
                i <= units.len(),
                self@.wf(),
                self@ == start.adding_units(units@.take(i as int)),
            decreases units.len() - i,
        {
            let unit: u16 = units[i];
            proof {
                assert(units@.take(i as int + 1).drop_last() =~= units@.take(i as int));
            }
            self.ensure_capacity(2);
            let ghost before = self@;
            self.write_unsafe_byte((unit % 256) as u8);
            self.write_unsafe_byte((unit / 256) as u8);
            assert(self@.current =~= before.adding(crate::utf16::le_bytes(seq![unit])).current);
            i += 1;
        }
        assert(units@.take(units@.len() as int) =~= units@);
    }

    /// Hands out the chunks and leaves the buffer empty.
    pub fn chunks_drain(&mut self) -> (r: Vec<Vec<u8>>)
        requires
            old(self)@.wf(),
        ensures
            chunk_views(r@) == old(self)@.flushed().chunks,
            flat(chunk_views(r@)) == old(self)@.bytes(),
            final(self)@ == (Chunked {
                chunk_size: old(self)@.chunk_size,
                chunks: Seq::empty(),
                current: Seq::empty(),
            }),
            final(self)@.wf(),
    {
        proof {
            lemma_flushed(self@);
        }
        self.flush();
        assert(self@.bytes() =~= flat(self@.chunks));
        assert(self@.current =~= Seq::<u8>::empty());
        let mut out: Vec<Vec<u8>> = Vec::new();
        core::mem::swap(&mut out, &mut self.chunks);
        assert(self@.chunks =~= Seq::<Seq<u8>>::empty());
        out
    }

    /// Drops all bytes written so far.
    pub fn reset(&mut self)
        requires
            old(self)@.wf(),
        ensures
            final(self)@ == (Chunked {
                chunk_size: old(self)@.chunk_size,
                chunks: Seq::empty(),
                current: Seq::empty(),
            }),
            final(self)@.wf(),
    {
        self.chunks.clear();
        self.current.clear();
        assert(self@.chunks =~= Seq::<Seq<u8>>::empty());
        assert(self@.current =~= Seq::<u8>::empty());
    }

    pub fn chunk_size(&self) -> (n: usize)
        ensures
            n == self@.chunk_size,
    {
        self.chunk_size
    }
}

impl Default for BigBuffer {
    fn default() -> (r: Self)
        ensures
            r@.wf(),
            r@ == (Chunked { chunk_size: 65536, chunks: Seq::empty(), current: Seq::empty() }),
            r@.bytes() == Seq::<u8>::empty(),
    {
        BigBuffer::new(65536)
    }
}

/// A signed number as 32 bits in two's complement.
pub fn to_bits32(val: i32) -> (n: u32)
    ensures
        n == bits32(val),
{
    if val < 0 {
        (val as i64 + 0x1_0000_0000) as u32
    } else {
        val as u32
    }
}

/// Appends the four bytes of a number, low byte first.
pub fn push_u32_le(out: &mut Vec<u8>, n: u32)
    ensures
        final(out)@ == old(out)@ + le32(n),
{
    let ghost before = out@;
    out.push((n % 256) as u8);
    out.push((n / 0x100 % 256) as u8);
    out.push((n / 0x1_0000 % 256) as u8);
    out.push((n / 0x100_0000) as u8);
    assert(out@ =~= before + le32(n));
}

/// Appends the eight bytes of a number, low byte first.
pub fn push_u64_le(out: &mut Vec<u8>, n: u64)
    ensures
        final(out)@ == old(out)@ + le64(n),
{
    let ghost before = out@;
    push_u32_le(out, (n % 0x1_0000_0000) as u32);
    push_u32_le(out, (n / 0x1_0000_0000) as u32);
    assert(out@ =~= before + le64(n));
}

/// The payload of one archive entry.
pub enum EntryData {
    /// One flat buffer.
    Bytes(Vec<u8>),
    /// The chunks of a [`BigBuffer`].
    Chunks(Vec<Vec<u8>>),
}

impl View for EntryData {
    type V = Seq<u8>;

    open spec fn view(&self) -> Seq<u8> {
        match *self {
            EntryData::Bytes(data) => data@,
            EntryData::Chunks(chunks) => flat(chunk_views(chunks@)),
        }
    }
}

impl EntryData {
    /// Appends the payload to `writer`, chunk by chunk.
    pub fn write_to(&self, writer: &mut Vec<u8>)
        ensures
            final(writer)@ == old(writer)@ + self@,
    {
        match self {
            EntryData::Bytes(data) => append_bytes(writer, data),
            EntryData::Chunks(chunks) => {
                let ghost before = writer@;
                let ghost views = chunk_views(chunks@);
                let mut i: usize = 0;
                assert(flat(views.take(0)) =~= Seq::<u8>::empty());
                assert(before + flat(views.take(0)) =~= before);
                while i < chunks.len()
                    invariant
                        i <= chunks.len(),
                        views == chunk_views(chunks@),
                        writer@ == before + flat(views.take(i as int)),
                    decreases chunks.len() - i,
                {
                    append_bytes(writer, &chunks[i]);
                    assert(views.take(i as int + 1).drop_last() =~= views.take(i as int));
                    assert(views.take(i as int + 1).last() == chunks@[i as int]@);
                    assert(writer@ =~= before + flat(views.take(i as int + 1)));
                    i += 1;
                }
                assert(views.take(views.len() as int) =~= views);
            },
        }
    }
}

impl vstd::std_specs::convert::FromSpecImpl<Vec<u8>> for EntryData {
    open spec fn obeys_from_spec() -> bool {
        true
    }

    open spec fn from_spec(data: Vec<u8>) -> EntryData {
        EntryData::Bytes(data)
    }
}

impl From<Vec<u8>> for EntryData {
    fn from(data: Vec<u8>) -> (r: Self) {
        EntryData::Bytes(data)
    }
}

} // verus!
