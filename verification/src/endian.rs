//! A reader and a writer over bytes in memory whose byte order can be
//! switched between calls.
use crate::byte_order::{
    as_signed, be_bytes_u16, be_bytes_u32, be_bytes_u64, be_read_u16, be_read_u32, be_read_u64,
    bytes_at, le_bytes_u16, le_bytes_u32, le_bytes_u64, le_read_u16, le_read_u32, le_read_u64,
    lemma_pow256_values, lemma_uint_round_trip, uint_at, uint_bytes,
};
use crate::error::{CpkError, ErrorKind, Result};
use crate::text::{decode_shift_jis, shift_jis_text};
use vstd::prelude::*;
use vstd::slice::*;
use vstd::string::*;

verus! {

/// Where a seek goes: to an absolute position, or relative to the end of
/// the data or to the current position.
#[derive(Debug, Clone, Copy)]
pub enum SeekFrom {
    Start(u64),
    End(i64),
    Current(i64),
}

/// The number of bytes of the string that starts at `at`: the bytes up to
/// the first NUL, the end of the data or `max` bytes, whichever comes first.
pub open spec fn cstring_len(data: Seq<u8>, at: int, max: nat) -> nat
    decreases max,
{
    if max == 0 || at < 0 || at >= data.len() || data[at] == 0 {
        0
    } else {
        1 + cstring_len(data, at + 1, (max - 1) as nat)
    }
}

/// The bytes of the string that starts at `at`.
pub open spec fn cstring_bytes(data: Seq<u8>, at: int, max: nat) -> Seq<u8> {
    bytes_at(data, at, cstring_len(data, at, max))
}

/// Where the cursor stands after the string that starts at `at` was read:
/// behind its bytes, and behind the NUL where one ended it.
pub open spec fn cstring_end(data: Seq<u8>, at: int, max: nat) -> int {
    let len = cstring_len(data, at, max) as int;
    if len < max && at + len < data.len() {
        at + len + 1
    } else {
        at + len
    }
}

/// After `count` bytes that are not NUL, the string goes on as the string
/// that starts behind them.
proof fn lemma_cstring_len_split(data: Seq<u8>, at: int, max: nat, count: nat)
    requires
        0 <= at,
        count <= max,
        at + count <= data.len(),
        forall|k: int| at <= k < at + count ==> data[k] != 0,
    ensures
        cstring_len(data, at, max) == count + cstring_len(
            data,
            at + count,
            (max - count) as nat,
        ),
    decreases count,
{
    if count > 0 {
        lemma_cstring_len_split(data, at + 1, (max - 1) as nat, (count - 1) as nat);
    }
}

/// The position that a seek leads to from the cursor `pos` in data of `len`
/// bytes, where that is a position.
pub open spec fn seek_position(len: int, pos: int, target: SeekFrom) -> int {
    match target {
        SeekFrom::Start(n) => n as int,
        SeekFrom::End(d) => len + d,
        SeekFrom::Current(d) => pos + d,
    }
}

/// The position that a seek leads to, or nothing where it leads before the
/// start of the data or beyond what a position can hold.
fn seek_from(len: u64, pos: u64, target: SeekFrom) -> (r: Option<u64>)
    ensures
        match r {
            Some(p) => p == seek_position(len as int, pos as int, target),
            None => !(0 <= seek_position(len as int, pos as int, target) <= u64::MAX),
        },
{
    let (base, delta): (u64, i64) = match target {
        SeekFrom::Start(n) => {
            return Some(n);
        },
        SeekFrom::End(d) => (len, d),
        SeekFrom::Current(d) => (pos, d),
    };
    if delta >= 0 {
        base.checked_add(delta as u64)
    } else {
        let back: u64 = (-(delta + 1)) as u64 + 1;
        base.checked_sub(back)
    }
}

/// What a reader is: the bytes it reads, its cursor and its byte order.
pub struct ReaderState {
    pub data: Seq<u8>,
    pub pos: int,
    pub little_endian: bool,
}

impl ReaderState {
    /// Whether `count` bytes can be read at the cursor.
    pub open spec fn can_read(self, count: int) -> bool {
        self.pos + count <= self.data.len()
    }

    /// The same reader with the cursor `count` bytes further.
    pub open spec fn advance(self, count: int) -> ReaderState {
        ReaderState { pos: self.pos + count, ..self }
    }

    /// The same reader with the cursor at `pos`.
    pub open spec fn at(self, pos: int) -> ReaderState {
        ReaderState { pos, ..self }
    }

    /// The same reader with the cursor at the end of the data, where a
    /// failed read leaves it.
    pub open spec fn at_end(self) -> ReaderState {
        ReaderState { pos: self.data.len() as int, ..self }
    }

    /// The unsigned number of `width` bytes at the cursor.
    pub open spec fn uint(self, width: int) -> nat {
        uint_at(self.data, self.pos, width, self.little_endian)
    }

    /// The position a seek leads to, if it is one.
    pub open spec fn seek_target(self, target: SeekFrom) -> int {
        seek_position(self.data.len() as int, self.pos, target)
    }
}

/// Reads numbers, bytes and strings from a slice of bytes, in a byte order
/// that can be switched at any time.
pub struct EndianReader<'a> {
    data: &'a [u8],
    pos: u64,
    is_little_endian: bool,
}

impl<'a> View for EndianReader<'a> {
    type V = ReaderState;

    closed spec fn view(&self) -> ReaderState {
        ReaderState {
            data: self.data@,
            pos: self.pos as int,
            little_endian: self.is_little_endian,
        }
    }
}

impl<'a> EndianReader<'a> {
    /// A reader at the start of `reader`.
    pub fn new(reader: &'a [u8], is_little_endian: bool) -> (r: Self)
        ensures
            r@ == (ReaderState { data: reader@, pos: 0, little_endian: is_little_endian }),
    {
        EndianReader { data: reader, pos: 0, is_little_endian }
    }

    /// Switches the byte order of the reads that follow.
    pub fn set_endian(&mut self, is_little_endian: bool)
        ensures
            final(self)@ == (ReaderState { little_endian: is_little_endian, ..old(self)@ }),
    {
        self.is_little_endian = is_little_endian;
    }

    /// The number of bytes of the data, read or not.
    pub fn len(&self) -> (n: u64)
        ensures
            n == self@.data.len(),
    {
        self.data.len() as u64
    }

    /// The cursor is a machine integer.
    pub proof fn lemma_cursor_range(&self)
        ensures
            0 <= self@.pos <= u64::MAX,
    {
    }

    /// The next `count` bytes, with the cursor moved behind them; or nothing,
    /// with the cursor moved to the end, where fewer are left.
    fn take(&mut self, count: usize) -> (taken: Option<&'a [u8]>)
        requires
            count > 0,
        ensures
            match taken {
                Some(bytes) => {
                    &&& old(self)@.can_read(count as int)
                    &&& bytes@ == old(self)@.data.subrange(old(self)@.pos, old(self)@.pos + count)
                    &&& final(self)@ == old(self)@.advance(count as int)
                },
                None => {
                    &&& !old(self)@.can_read(count as int)
                    &&& final(self)@ == old(self)@.at_end()
                },
            },
    {
        let len = self.data.len();
        if self.pos <= len as u64 && count as u64 <= len as u64 - self.pos {
            let start = self.pos as usize;
            let bytes = slice_subrange(self.data, start, start + count);
            self.pos = self.pos + count as u64;
            Some(bytes)
        } else {
            self.pos = len as u64;
            None
        }
    }

    /// The error of a read that ran over the end of the data.
    fn short_read() -> (e: CpkError)
        ensures
            e.kind() == ErrorKind::Io,
            e matches CpkError::Io(detail) && detail@ == "failed to fill whole buffer"@,
    {
        CpkError::Io(String::from_str("failed to fill whole buffer"))
    }

    /// Reads one byte.
    pub fn read_u8(&mut self) -> (r: Result<u8>)
        ensures
            match r {
                Ok(v) => {
                    &&& old(self)@.can_read(1)
                    &&& v == old(self)@.data[old(self)@.pos]
                    &&& final(self)@ == old(self)@.advance(1)
                },
                Err(e) => {
                    &&& !old(self)@.can_read(1)
                    &&& e.kind() == ErrorKind::Io
                    &&& final(self)@ == old(self)@.at_end()
                },
            },
    {
        match self.take(1) {
            Some(bytes) => Ok(bytes[0]),
            None => Err(Self::short_read()),
        }
    }

    /// Reads an unsigned number of two bytes in the current byte order.
    pub fn read_u16(&mut self) -> (r: Result<u16>)
        ensures
            match r {
                Ok(v) => {
                    &&& old(self)@.can_read(2)
                    &&& v as nat == old(self)@.uint(2)
                    &&& final(self)@ == old(self)@.advance(2)
                },
                Err(e) => {
                    &&& !old(self)@.can_read(2)
                    &&& e.kind() == ErrorKind::Io
                    &&& final(self)@ == old(self)@.at_end()
                },
            },
    {
        match self.take(2) {
            Some(bytes) => {
                assert(bytes@.subrange(0, 2) == bytes@);
                if self.is_little_endian {
                    Ok(le_read_u16(bytes))
                } else {
                    Ok(be_read_u16(bytes))
                }
            },
            None => Err(Self::short_read()),
        }
    }

    /// Reads an unsigned number of four bytes in the current byte order.
    pub fn read_u32(&mut self) -> (r: Result<u32>)
        ensures
            match r {
                Ok(v) => {
                    &&& old(self)@.can_read(4)
                    &&& v as nat == old(self)@.uint(4)
                    &&& final(self)@ == old(self)@.advance(4)
                },
                Err(e) => {
                    &&& !old(self)@.can_read(4)
                    &&& e.kind() == ErrorKind::Io
                    &&& final(self)@ == old(self)@.at_end()
                },
            },
    {
        match self.take(4) {
            Some(bytes) => {
                assert(bytes@.subrange(0, 4) == bytes@);
                if self.is_little_endian {
                    Ok(le_read_u32(bytes))
                } else {
                    Ok(be_read_u32(bytes))
                }
            },
            None => Err(Self::short_read()),
        }
    }

    /// Reads an unsigned number of eight bytes in the current byte order.
    pub fn read_u64(&mut self) -> (r: Result<u64>)
        ensures
            match r {
                Ok(v) => {
                    &&& old(self)@.can_read(8)
                    &&& v as nat == old(self)@.uint(8)
                    &&& final(self)@ == old(self)@.advance(8)
                },
                Err(e) => {
                    &&& !old(self)@.can_read(8)
                    &&& e.kind() == ErrorKind::Io
                    &&& final(self)@ == old(self)@.at_end()
                },
            },
    {
        match self.take(8) {
            Some(bytes) => {
                assert(bytes@.subrange(0, 8) == bytes@);
                if self.is_little_endian {
                    Ok(le_read_u64(bytes))
                } else {
                    Ok(be_read_u64(bytes))
                }
            },
            None => Err(Self::short_read()),
        }
    }

    /// Reads one byte as a signed number.
    pub fn read_i8(&mut self) -> (r: Result<i8>)
        ensures
            match r {
                Ok(v) => {
                    &&& old(self)@.can_read(1)
                    &&& v as int == as_signed(old(self)@.data[old(self)@.pos] as nat, 1)
                    &&& final(self)@ == old(self)@.advance(1)
                },
                Err(e) => {
                    &&& !old(self)@.can_read(1)
                    &&& e.kind() == ErrorKind::Io
                    &&& final(self)@ == old(self)@.at_end()
                },
            },
    {
        let byte = self.read_u8()?;
        let v = byte as i8;
        proof {
            lemma_pow256_values();
            assert(v as int == if byte >= 0x80 {
                byte as int - 0x100
            } else {
                byte as int
            }) by (bit_vector)
                requires
                    v == byte as i8,
            ;
        }
        Ok(v)
    }

    /// Reads a signed number of two bytes in the current byte order.
    pub fn read_i16(&mut self) -> (r: Result<i16>)
        ensures
            match r {
                Ok(v) => {
                    &&& old(self)@.can_read(2)
                    &&& v as int == as_signed(old(self)@.uint(2), 2)
                    &&& final(self)@ == old(self)@.advance(2)
                },
                Err(e) => {
                    &&& !old(self)@.can_read(2)
                    &&& e.kind() == ErrorKind::Io
                    &&& final(self)@ == old(self)@.at_end()
                },
            },
    {
        let raw = self.read_u16()?;
        let v = raw as i16;
        proof {
            lemma_pow256_values();
            assert(v as int == if raw >= 0x8000 {
                raw as int - 0x1_0000
            } else {
                raw as int
            }) by (bit_vector)
                requires
                    v == raw as i16,
            ;
        }
        Ok(v)
    }

    /// Reads a signed number of four bytes in the current byte order.
    pub fn read_i32(&mut self) -> (r: Result<i32>)
        ensures
            match r {
                Ok(v) => {
                    &&& old(self)@.can_read(4)
                    &&& v as int == as_signed(old(self)@.uint(4), 4)
                    &&& final(self)@ == old(self)@.advance(4)
                },
                Err(e) => {
                    &&& !old(self)@.can_read(4)
                    &&& e.kind() == ErrorKind::Io
                    &&& final(self)@ == old(self)@.at_end()
                },
            },
    {
        let raw = self.read_u32()?;
        let v = raw as i32;
        proof {
            lemma_pow256_values();
            assert(v as int == if raw >= 0x8000_0000 {
                raw as int - 0x1_0000_0000
            } else {
                raw as int
            }) by (bit_vector)
                requires
                    v == raw as i32,
            ;
        }
        Ok(v)
    }

    /// Reads a signed number of eight bytes in the current byte order.
    pub fn read_i64(&mut self) -> (r: Result<i64>)
        ensures
            match r {
                Ok(v) => {
                    &&& old(self)@.can_read(8)
                    &&& v as int == as_signed(old(self)@.uint(8), 8)
                    &&& final(self)@ == old(self)@.advance(8)
                },
                Err(e) => {
                    &&& !old(self)@.can_read(8)
                    &&& e.kind() == ErrorKind::Io
                    &&& final(self)@ == old(self)@.at_end()
                },
            },
    {
        let raw = self.read_u64()?;
        let v = raw as i64;
        proof {
            lemma_pow256_values();
            assert(v as int == if raw >= 0x8000_0000_0000_0000 {
                raw as int - 0x1_0000_0000_0000_0000
            } else {
                raw as int
            }) by (bit_vector)
                requires
                    v == raw as i64,
            ;
        }
        Ok(v)
    }

    /// Reads `count` bytes. Reading no bytes succeeds wherever the cursor is.
    pub fn read_bytes(&mut self, count: usize) -> (r: Result<Vec<u8>>)
        ensures
            match r {
                Ok(bytes) => {
                    &&& (count == 0 || old(self)@.can_read(count as int))
                    &&& bytes@ == bytes_at(old(self)@.data, old(self)@.pos, count as nat)
                    &&& final(self)@ == old(self)@.advance(count as int)
                },
                Err(e) => {
                    &&& count > 0
                    &&& !old(self)@.can_read(count as int)
                    &&& e.kind() == ErrorKind::Io
                    &&& final(self)@ == old(self)@.at_end()
                },
            },
    {
        if count == 0 {
            return Ok(Vec::new());
        }
        match self.take(count) {
            Some(bytes) => Ok(slice_to_vec(bytes)),
            None => Err(Self::short_read()),
        }
    }

    /// Reads a string: the bytes up to a NUL, which is consumed, up to the
    /// end of the data or up to `max_length` bytes (255 where none is given),
    /// decoded as Shift-JIS. Fails where not even one byte is left to read.
    pub fn read_cstring(&mut self, max_length: Option<usize>) -> (r: Result<String>)
        ensures
            ({
                let max = match max_length {
                    Some(m) => m as nat,
                    None => 255,
                };
                let before = old(self)@;
                match r {
                    Ok(text) => {
                        &&& (max == 0 || before.can_read(1))
                        &&& text@ == shift_jis_text(cstring_bytes(before.data, before.pos, max))
                        &&& final(self)@ == before.at(cstring_end(before.data, before.pos, max))
                    },
                    Err(e) => {
                        &&& max > 0
                        &&& !before.can_read(1)
                        &&& e.kind() == ErrorKind::Io
                        &&& final(self)@ == before.at_end()
                    },
                }
            }),
    {
        let max: usize = match max_length {
            Some(m) => m,
            None => 255,
        };
        let ghost before = self@;
        let mut bytes: Vec<u8> = Vec::new();
        let mut i: usize = 0;
        let mut terminated = false;
        while i < max && !terminated
            invariant
                i <= max,
                max == match max_length {
                    Some(m) => m,
                    None => 255usize,
                },
                before == old(self)@,
                self@.data == before.data,
                self@.little_endian == before.little_endian,
                0 <= before.pos,
                bytes@.len() <= i,
                bytes@ == bytes_at(before.data, before.pos, bytes@.len()),
                bytes@.len() > 0 ==> before.pos + bytes@.len() <= before.data.len(),
                forall|k: int| before.pos <= k < before.pos + bytes@.len() ==> before.data[k] != 0,
                (terminated || i > 0) ==> before.can_read(1),
                !terminated ==> bytes@.len() == i && self@.pos == before.pos + i,
                terminated ==> cstring_len(before.data, before.pos, max as nat) == bytes@.len()
                    && self@.pos == cstring_end(before.data, before.pos, max as nat),
            decreases max - i, if terminated { 0int } else { 1int },
        {
            let ghost at = before.pos + i;
            proof {
                if at <= before.data.len() {
                    lemma_cstring_len_split(before.data, before.pos, max as nat, i as nat);
                }
            }
            match self.read_u8() {
                Ok(byte) => {
                    if byte == 0 {
                        terminated = true;
                    } else {
                        bytes.push(byte);
                        i = i + 1;
                    }
                },
                Err(e) => {
                    if bytes.len() == 0 {
                        return Err(e);
                    }
                    terminated = true;
                },
            }
        }
        proof {
            if !terminated && before.pos + i <= before.data.len() {
                lemma_cstring_len_split(before.data, before.pos, max as nat, i as nat);
            }
        }
        let text = decode_shift_jis(bytes.as_slice());
        Ok(text)
    }

    /// Moves the cursor. A target before the start of the data, or beyond
    /// what a position can hold, is refused and leaves the cursor in place.
    pub fn seek(&mut self, pos: SeekFrom) -> (r: Result<u64>)
        ensures
            match r {
                Ok(p) => {
                    &&& p == old(self)@.seek_target(pos)
                    &&& final(self)@ == old(self)@.at(p as int)
                },
                Err(e) => {
                    &&& !(0 <= old(self)@.seek_target(pos) <= u64::MAX)
                    &&& e.kind() == ErrorKind::Io
                    &&& final(self)@ == old(self)@
                },
            },
    {
        match seek_from(self.data.len() as u64, self.pos, pos) {
            Some(p) => {
                self.pos = p;
                Ok(p)
            },
            None => Err(
                CpkError::Io(
                    String::from_str("invalid seek to a negative or overflowing position"),
                ),
            ),
        }
    }

    /// The position of the cursor.
    pub fn position(&mut self) -> (r: Result<u64>)
        ensures
            r matches Ok(p) && p == old(self)@.pos,
            final(self)@ == old(self)@,
    {
        Ok(self.pos)
    }
}

/// `data`, with zeros behind it where it is shorter than `len`.
pub open spec fn padded(data: Seq<u8>, len: int) -> Seq<u8> {
    if len > data.len() {
        data + Seq::new((len - data.len()) as nat, |i: int| 0u8)
    } else {
        data
    }
}

/// `data` with `bytes` written at `pos`: they replace what stood there and
/// lengthen the data where they run over its end. A gap between the end
/// of the data and `pos` is filled with zeros.
pub open spec fn overwritten(data: Seq<u8>, pos: int, bytes: Seq<u8>) -> Seq<u8> {
    let base = padded(data, pos + bytes.len());
    Seq::new(
        base.len(),
        |i: int|
            if pos <= i < pos + bytes.len() {
                bytes[i - pos]
            } else {
                base[i]
            },
    )
}

/// What a writer is: the bytes written so far, its cursor and its byte
/// order.
pub struct WriterState {
    pub data: Seq<u8>,
    pub pos: int,
    pub little_endian: bool,
}

impl WriterState {
    /// Whether `count` bytes can be written at the cursor: the data may not
    /// grow beyond what can be addressed.
    pub open spec fn can_write(self, count: int) -> bool {
        self.pos + count <= usize::MAX
    }

    /// The writer after `bytes` were written at the cursor.
    pub open spec fn write(self, bytes: Seq<u8>) -> WriterState {
        if bytes.len() == 0 {
            self
        } else {
            WriterState {
                data: overwritten(self.data, self.pos, bytes),
                pos: self.pos + bytes.len(),
                ..self
            }
        }
    }

    /// The position a seek leads to, if it is one.
    pub open spec fn seek_target(self, target: SeekFrom) -> int {
        seek_position(self.data.len() as int, self.pos, target)
    }
}

/// Writes numbers and bytes into a buffer in memory, in a byte order that
/// can be switched at any time.
pub struct EndianWriter {
    buffer: Vec<u8>,
    pos: u64,
    is_little_endian: bool,
}

impl View for EndianWriter {
    type V = WriterState;

    closed spec fn view(&self) -> WriterState {
        WriterState {
            data: self.buffer@,
            pos: self.pos as int,
            little_endian: self.is_little_endian,
        }
    }
}

impl EndianWriter {
    /// A writer behind the bytes of `writer`: what is written is appended
    /// to them. A seek leads back into them, where a write replaces them.
    pub fn new(writer: Vec<u8>, is_little_endian: bool) -> (w: Self)
        ensures
            w@ == (WriterState {
                data: writer@,
                pos: writer@.len() as int,
                little_endian: is_little_endian,
            }),
    {
        let pos = writer.len() as u64;
        EndianWriter { buffer: writer, pos, is_little_endian }
    }

    /// The bytes written so far.
    pub fn into_inner(self) -> (bytes: Vec<u8>)
        ensures
            bytes@ == self@.data,
    {
        self.buffer
    }

    /// Writes `data` at the cursor and moves the cursor behind it. Fails,
    /// and writes nothing, where the data would grow beyond what can be
    /// addressed.
    pub fn write_bytes(&mut self, data: &[u8]) -> (r: Result<()>)
        ensures
            match r {
                Ok(_) => {
                    &&& (data@.len() == 0 || old(self)@.can_write(data@.len() as int))
                    &&& final(self)@ == old(self)@.write(data@)
                },
                Err(e) => {
                    &&& data@.len() > 0
                    &&& !old(self)@.can_write(data@.len() as int)
                    &&& e.kind() == ErrorKind::Io
                    &&& final(self)@ == old(self)@
                },
            },
    {
        let count = data.len();
        if count == 0 {
            return Ok(());
        }
        if self.pos > (usize::MAX - count) as u64 {
            return Err(
                CpkError::Io(
                    String::from_str("cursor position exceeds maximum possible vector length"),
                ),
            );
        }
        let start = self.pos as usize;
        let ghost before = self.buffer@;
        while self.buffer.len() < start
            invariant
                self.buffer@ == padded(before, self.buffer@.len() as int),
                self.buffer@.len() <= start || self.buffer@.len() == before.len(),
                self.pos == old(self).pos,
                self.is_little_endian == old(self).is_little_endian,
            decreases start - self.buffer@.len(),
        {
            self.buffer.push(0);
        }
        let mut i: usize = 0;
        while i < count
            invariant
                i <= count,
                count == data@.len(),
                start + count <= usize::MAX,
                self.buffer@ == overwritten(before, start as int, data@.take(i as int)),
                self.pos == old(self).pos,
                self.is_little_endian == old(self).is_little_endian,
            decreases count - i,
        {
            if start + i < self.buffer.len() {
                self.buffer[start + i] = data[i];
            } else {
                self.buffer.push(data[i]);
            }
            i = i + 1;
        }
        assert(data@.take(count as int) =~= data@);
        self.pos = self.pos + count as u64;
        Ok(())
    }

    /// Writes one byte.
    pub fn write_u8(&mut self, value: u8) -> (r: Result<()>)
        ensures
            match r {
                Ok(_) => {
                    &&& old(self)@.can_write(1)
                    &&& final(self)@ == old(self)@.write(seq![value])
                },
                Err(e) => {
                    &&& !old(self)@.can_write(1)
                    &&& e.kind() == ErrorKind::Io
                    &&& final(self)@ == old(self)@
                },
            },
    {
        let bytes: Vec<u8> = vec![value];
        assert(bytes@ =~= seq![value]);
        self.write_bytes(bytes.as_slice())
    }

    /// Writes an unsigned number of two bytes in the current byte order.
    pub fn write_u16(&mut self, value: u16) -> (r: Result<()>)
        ensures
            match r {
                Ok(_) => {
                    &&& old(self)@.can_write(2)
                    &&& final(self)@ == old(self)@.write(
                        uint_bytes(value as nat, 2, old(self)@.little_endian),
                    )
                },
                Err(e) => {
                    &&& !old(self)@.can_write(2)
                    &&& e.kind() == ErrorKind::Io
                    &&& final(self)@ == old(self)@
                },
            },
    {
        proof {
            lemma_uint_round_trip(value as nat, 2, self@.little_endian);
        }
        let bytes = if self.is_little_endian {
            le_bytes_u16(value)
        } else {
            be_bytes_u16(value)
        };
        self.write_bytes(bytes.as_slice())
    }

    /// Writes an unsigned number of four bytes in the current byte order.
    pub fn write_u32(&mut self, value: u32) -> (r: Result<()>)
        ensures
            match r {
                Ok(_) => {
                    &&& old(self)@.can_write(4)
                    &&& final(self)@ == old(self)@.write(
                        uint_bytes(value as nat, 4, old(self)@.little_endian),
                    )
                },
                Err(e) => {
                    &&& !old(self)@.can_write(4)
                    &&& e.kind() == ErrorKind::Io
                    &&& final(self)@ == old(self)@
                },
            },
    {
        proof {
            lemma_uint_round_trip(value as nat, 4, self@.little_endian);
        }
        let bytes = if self.is_little_endian {
            le_bytes_u32(value)
        } else {
            be_bytes_u32(value)
        };
        self.write_bytes(bytes.as_slice())
    }

    /// Writes an unsigned number of eight bytes in the current byte order.
    pub fn write_u64(&mut self, value: u64) -> (r: Result<()>)
        ensures
            match r {
                Ok(_) => {
                    &&& old(self)@.can_write(8)
                    &&& final(self)@ == old(self)@.write(
                        uint_bytes(value as nat, 8, old(self)@.little_endian),
                    )
                },
                Err(e) => {
                    &&& !old(self)@.can_write(8)
                    &&& e.kind() == ErrorKind::Io
                    &&& final(self)@ == old(self)@
                },
            },
    {
        proof {
            lemma_uint_round_trip(value as nat, 8, self@.little_endian);
        }
        let bytes = if self.is_little_endian {
            le_bytes_u64(value)
        } else {
            be_bytes_u64(value)
        };
        self.write_bytes(bytes.as_slice())
    }

    /// Moves the cursor. A target before the start of the data, or beyond
    /// what a position can hold, is refused and leaves the cursor in place.
    pub fn seek(&mut self, pos: SeekFrom) -> (r: Result<u64>)
        ensures
            match r {
                Ok(p) => {
                    &&& p == old(self)@.seek_target(pos)
                    &&& final(self)@ == (WriterState { pos: p as int, ..old(self)@ })
                },
                Err(e) => {
                    &&& !(0 <= old(self)@.seek_target(pos) <= u64::MAX)
                    &&& e.kind() == ErrorKind::Io
                    &&& final(self)@ == old(self)@
                },
            },
    {
        match seek_from(self.buffer.len() as u64, self.pos, pos) {
            Some(p) => {
                self.pos = p;
                Ok(p)
            },
            None => Err(
                CpkError::Io(
                    String::from_str("invalid seek to a negative or overflowing position"),
                ),
            ),
        }
    }

    /// The position of the cursor.
    pub fn position(&mut self) -> (r: Result<u64>)
        ensures
            r matches Ok(p) && p == old(self)@.pos,
            final(self)@ == old(self)@,
    {
        Ok(self.pos)
    }
}

} // verus!
