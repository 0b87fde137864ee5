//! The stream cursor: an owned, growable byte buffer paired with a read
//! offset. Reads consume bytes at the offset and advance it; writes append
//! at the end and leave the offset alone, so one instance can serve as a
//! producer or a consumer over the same primitive.

use vstd::prelude::*;
use crate::binary::{
    Endian, BinaryError, val_of, bytes_of, u16_of_i16, i16_of_u16, u32_of_i32, i32_of_u32,
    u64_of_i64, i64_of_u64, read_short, read_unsigned_short, write_short, write_unsigned_short,
    read_unsigned_triad, write_unsigned_triad, read_int, read_unsigned_int, write_int,
    write_unsigned_int, read_long, read_unsigned_long, write_long, write_unsigned_long,
    read_var_int, read_unsigned_var_int, write_var_int, write_unsigned_var_int, read_var_long,
    read_unsigned_var_long, write_var_long, write_unsigned_var_long,
};
use crate::varint::{uvarint, uvarint_decode, zigzag_encode, zigzag_decode};

verus! {

/// The mathematical state of a stream: the buffer contents and the offset.
pub ghost struct StreamModel {
    pub bytes: Seq<u8>,
    pub offset: nat,
}

/// A cursor over an owned byte buffer. The offset only moves on reads and
/// explicit repositioning; writes append at the buffer's end.
pub struct BinaryStream {
    buffer: Vec<u8>,
    offset: usize,
}

impl View for BinaryStream {
    type V = StreamModel;

    closed spec fn view(&self) -> StreamModel {
        StreamModel { bytes: self.buffer@, offset: self.offset as nat }
    }
}

impl BinaryStream {
    pub fn new(buffer: Vec<u8>, offset: usize) -> (s: BinaryStream)
        ensures
            s@.bytes == buffer@,
            s@.offset == offset,
    {
        BinaryStream { buffer, offset }
    }

    /// Rewind and clear the buffer: back to the initial empty state.
    pub fn reset(&mut self)
        ensures
            final(self)@.bytes == Seq::<u8>::empty(),
            final(self)@.offset == 0,
    {
        self.rewind();
        self.buffer = Vec::new();
    }

    /// Reset the offset to the start without touching the buffer.
    pub fn rewind(&mut self)
        ensures
            final(self)@.bytes == old(self)@.bytes,
            final(self)@.offset == 0,
    {
        self.set_offset(0);
    }

    pub fn set_offset(&mut self, offset: usize)
        ensures
            final(self)@.bytes == old(self)@.bytes,
            final(self)@.offset == offset,
    {
        self.offset = offset;
    }

    /// Replace the buffer wholesale and position the offset, so one cursor
    /// can be reused across independent messages.
    pub fn set_buffer(&mut self, buffer: Vec<u8>, offset: usize)
        ensures
            final(self)@.bytes == buffer@,
            final(self)@.offset == offset,
    {
        self.buffer = buffer;
        self.set_offset(offset);
    }

    pub fn get_offset(&self) -> (r: usize)
        ensures
            r == self@.offset,
    {
        self.offset
    }

    pub fn get_buffer(&self) -> (r: &Vec<u8>)
        ensures
            r@ == self@.bytes,
    {
        &self.buffer
    }

    /// The next `len` bytes at the offset; the offset advances by exactly
    /// `len`. Fails with a buffer underrun, leaving the stream untouched,
    /// exactly when fewer than `len` bytes remain.
    pub fn get(&mut self, len: usize) -> (r: Result<Vec<u8>, BinaryError>)
        ensures
            (match r {
                Ok(bytes) => {
                    &&& old(self)@.offset + len <= old(self)@.bytes.len()
                    &&& bytes@ == old(self)@.bytes.subrange(
                        old(self)@.offset as int,
                        old(self)@.offset + len,
                    )
                    &&& final(self)@.bytes == old(self)@.bytes
                    &&& final(self)@.offset == old(self)@.offset + len
                },
                Err(e) => {
                    &&& e == BinaryError::BufferUnderrun
                    &&& old(self)@.offset + len > old(self)@.bytes.len()
                    &&& final(self)@.bytes == old(self)@.bytes
                    &&& final(self)@.offset == old(self)@.offset
                },
            }),
    {
        if self.offset > self.buffer.len() || len > self.buffer.len() - self.offset {
            return Err(BinaryError::BufferUnderrun);
        }
        let mut r: Vec<u8> = Vec::new();
        let mut i: usize = 0;
        while i < len
            invariant
                i <= len,
                self.offset + len <= self.buffer@.len() <= usize::MAX,
                r@ =~= self.buffer@.subrange(self.offset as int, self.offset + i),
            decreases len - i,
        {
            r.push(self.buffer[self.offset + i]);
            i = i + 1;
        }
        self.offset = self.offset + len;
        Ok(r)
    }

    /// All bytes from the offset to the end; the offset moves to the end.
    /// Fails only when the offset already lies past the buffer.
    pub fn get_remaining(&mut self) -> (r: Result<Vec<u8>, BinaryError>)
        ensures
            (match r {
                Ok(bytes) => {
                    &&& old(self)@.offset <= old(self)@.bytes.len()
                    &&& bytes@ == old(self)@.bytes.subrange(
                        old(self)@.offset as int,
                        old(self)@.bytes.len() as int,
                    )
                    &&& final(self)@.bytes == old(self)@.bytes
                    &&& final(self)@.offset == old(self)@.bytes.len()
                },
                Err(e) => {
                    &&& e == BinaryError::BufferUnderrun
                    &&& old(self)@.offset > old(self)@.bytes.len()
                    &&& final(self)@.bytes == old(self)@.bytes
                    &&& final(self)@.offset == old(self)@.offset
                },
            }),
    {
        if self.offset > self.buffer.len() {
            return Err(BinaryError::BufferUnderrun);
        }
        let n = self.buffer.len() - self.offset;
        self.get(n)
    }

    /// Append `bytes` to the buffer; the offset does not move.
    pub fn put(&mut self, bytes: Vec<u8>)
        ensures
            final(self)@.bytes == old(self)@.bytes + bytes@,
            final(self)@.offset == old(self)@.offset,
    {
        let mut i: usize = 0;
        while i < bytes.len()
            invariant
                i <= bytes@.len(),
                self.buffer@ =~= old(self).buffer@ + bytes@.take(i as int),
                self.offset == old(self).offset,
            decreases bytes@.len() - i,
        {
            self.buffer.push(bytes[i]);
            i = i + 1;
        }
        proof {
            assert(bytes@.take(bytes@.len() as int) =~= bytes@);
        }
    }

    pub fn get_bool(&mut self) -> (r: Result<bool, BinaryError>)
        ensures
            (match r {
                Ok(v) => {
                    &&& old(self)@.offset + 1 <= old(self)@.bytes.len()
                    &&& v == (old(self)@.bytes[old(self)@.offset as int] != 0)
                    &&& final(self)@.bytes == old(self)@.bytes
                    &&& final(self)@.offset == old(self)@.offset + 1
                },
                Err(e) => {
                    &&& e == BinaryError::BufferUnderrun
                    &&& old(self)@.offset + 1 > old(self)@.bytes.len()
                    &&& final(self)@ == old(self)@
                },
            }),
    {
        let bytes = match self.get(1) {
            Ok(b) => b,
            Err(e) => {
                return Err(e);
            },
        };
        Ok(bytes[0] != 0)
    }

    pub fn put_bool(&mut self, v: bool)
        ensures
            final(self)@.bytes == old(self)@.bytes + seq![if v { 1u8 } else { 0u8 }],
            final(self)@.offset == old(self)@.offset,
    {
        let b: u8 = if v { 1 } else { 0 };
        self.buffer.push(b);
    }

    pub fn get_byte(&mut self) -> (r: Result<u8, BinaryError>)
        ensures
            (match r {
                Ok(v) => {
                    &&& old(self)@.offset + 1 <= old(self)@.bytes.len()
                    &&& v == old(self)@.bytes[old(self)@.offset as int]
                    &&& final(self)@.bytes == old(self)@.bytes
                    &&& final(self)@.offset == old(self)@.offset + 1
                },
                Err(e) => {
                    &&& e == BinaryError::BufferUnderrun
                    &&& old(self)@.offset + 1 > old(self)@.bytes.len()
                    &&& final(self)@ == old(self)@
                },
            }),
    {
        let bytes = match self.get(1) {
            Ok(b) => b,
            Err(e) => {
                return Err(e);
            },
        };
        Ok(bytes[0])
    }

    pub fn put_byte(&mut self, v: u8)
        ensures
            final(self)@.bytes == old(self)@.bytes + seq![v],
            final(self)@.offset == old(self)@.offset,
    {
        self.buffer.push(v);
    }

    pub fn get_short(&mut self, endian: Endian) -> (r: Result<i16, BinaryError>)
        ensures
            (match r {
                Ok(v) => {
                    &&& old(self)@.offset + 2 <= old(self)@.bytes.len()
                    &&& v as int == i16_of_u16(
                        val_of(
                            old(self)@.bytes.subrange(
                                old(self)@.offset as int,
                                old(self)@.offset as int + 2,
                            ),
                            endian,
                        ),
                    )
                    &&& final(self)@.bytes == old(self)@.bytes
                    &&& final(self)@.offset == old(self)@.offset + 2
                },
                Err(e) => {
                    &&& e == BinaryError::BufferUnderrun
                    &&& old(self)@.offset + 2 > old(self)@.bytes.len()
                    &&& final(self)@ == old(self)@
                },
            }),
    {
        let bytes = match self.get(2) {
            Ok(b) => b,
            Err(e) => {
                return Err(e);
            },
        };
        proof {
            assert(bytes@.take(2) =~= bytes@);
        }
        Ok(read_short(bytes, endian))
    }

    pub fn get_unsigned_short(&mut self, endian: Endian) -> (r: Result<u16, BinaryError>)
        ensures
            (match r {
                Ok(v) => {
                    &&& old(self)@.offset + 2 <= old(self)@.bytes.len()
                    &&& v as nat == val_of(
                        old(self)@.bytes.subrange(old(self)@.offset as int, old(self)@.offset as int + 2),
                        endian,
                    )
                    &&& final(self)@.bytes == old(self)@.bytes
                    &&& final(self)@.offset == old(self)@.offset + 2
                },
                Err(e) => {
                    &&& e == BinaryError::BufferUnderrun
                    &&& old(self)@.offset + 2 > old(self)@.bytes.len()
                    &&& final(self)@ == old(self)@
                },
            }),
    {
        let bytes = match self.get(2) {
            Ok(b) => b,
            Err(e) => {
                return Err(e);
            },
        };
        proof {
            assert(bytes@.take(2) =~= bytes@);
        }
        Ok(read_unsigned_short(bytes, endian))
    }

    pub fn put_short(&mut self, v: i16, endian: Endian)
        ensures
            final(self)@.bytes == old(self)@.bytes + bytes_of(u16_of_i16(v), 2, endian),
            final(self)@.offset == old(self)@.offset,
    {
        let b = write_short(v, endian);
        self.put(b);
    }

    pub fn put_unsigned_short(&mut self, v: u16, endian: Endian)
        ensures
            final(self)@.bytes == old(self)@.bytes + bytes_of(v as nat, 2, endian),
            final(self)@.offset == old(self)@.offset,
    {
        let b = write_unsigned_short(v, endian);
        self.put(b);
    }

    pub fn get_unsigned_triad(&mut self, endian: Endian) -> (r: Result<u32, BinaryError>)
        ensures
            (match r {
                Ok(v) => {
                    &&& old(self)@.offset + 3 <= old(self)@.bytes.len()
                    &&& v as nat == val_of(
                        old(self)@.bytes.subrange(old(self)@.offset as int, old(self)@.offset as int + 3),
                        endian,
                    )
                    &&& v < 0x100_0000
                    &&& final(self)@.bytes == old(self)@.bytes
                    &&& final(self)@.offset == old(self)@.offset + 3
                },
                Err(e) => {
                    &&& e == BinaryError::BufferUnderrun
                    &&& old(self)@.offset + 3 > old(self)@.bytes.len()
                    &&& final(self)@ == old(self)@
                },
            }),
    {
        let bytes = match self.get(3) {
            Ok(b) => b,
            Err(e) => {
                return Err(e);
            },
        };
        proof {
            assert(bytes@.take(3) =~= bytes@);
        }
        Ok(read_unsigned_triad(bytes, endian))
    }

    pub fn put_unsigned_triad(&mut self, v: u32, endian: Endian)
        requires
            v < 0x100_0000,
        ensures
            final(self)@.bytes == old(self)@.bytes + bytes_of(v as nat, 3, endian),
            final(self)@.offset == old(self)@.offset,
    {
        let b = write_unsigned_triad(v, endian);
        self.put(b);
    }

    pub fn get_int(&mut self, endian: Endian) -> (r: Result<i32, BinaryError>)
        ensures
            (match r {
                Ok(v) => {
                    &&& old(self)@.offset + 4 <= old(self)@.bytes.len()
                    &&& v as int == i32_of_u32(
                        val_of(
                            old(self)@.bytes.subrange(
                                old(self)@.offset as int,
                                old(self)@.offset as int + 4,
                            ),
                            endian,
                        ),
                    )
                    &&& final(self)@.bytes == old(self)@.bytes
                    &&& final(self)@.offset == old(self)@.offset + 4
                },
                Err(e) => {
                    &&& e == BinaryError::BufferUnderrun
                    &&& old(self)@.offset + 4 > old(self)@.bytes.len()
                    &&& final(self)@ == old(self)@
                },
            }),
    {
        let bytes = match self.get(4) {
            Ok(b) => b,
            Err(e) => {
                return Err(e);
            },
        };
        proof {
            assert(bytes@.take(4) =~= bytes@);
        }
        Ok(read_int(bytes, endian))
    }

    pub fn get_unsigned_int(&mut self, endian: Endian) -> (r: Result<u32, BinaryError>)
        ensures
            (match r {
                Ok(v) => {
                    &&& old(self)@.offset + 4 <= old(self)@.bytes.len()
                    &&& v as nat == val_of(
                        old(self)@.bytes.subrange(old(self)@.offset as int, old(self)@.offset as int + 4),
                        endian,
                    )
                    &&& final(self)@.bytes == old(self)@.bytes
                    &&& final(self)@.offset == old(self)@.offset + 4
                },
                Err(e) => {
                    &&& e == BinaryError::BufferUnderrun
                    &&& old(self)@.offset + 4 > old(self)@.bytes.len()
                    &&& final(self)@ == old(self)@
                },
            }),
    {
        let bytes = match self.get(4) {
            Ok(b) => b,
            Err(e) => {
                return Err(e);
            },
        };
        proof {
            assert(bytes@.take(4) =~= bytes@);
        }
        Ok(read_unsigned_int(bytes, endian))
    }

    pub fn put_int(&mut self, v: i32, endian: Endian)
        ensures
            final(self)@.bytes == old(self)@.bytes + bytes_of(u32_of_i32(v), 4, endian),
            final(self)@.offset == old(self)@.offset,
    {
        let b = write_int(v, endian);
        self.put(b);
    }

    pub fn put_unsigned_int(&mut self, v: u32, endian: Endian)
        ensures
            final(self)@.bytes == old(self)@.bytes + bytes_of(v as nat, 4, endian),
            final(self)@.offset == old(self)@.offset,
    {
        let b = write_unsigned_int(v, endian);
        self.put(b);
    }

    pub fn get_long(&mut self, endian: Endian) -> (r: Result<i64, BinaryError>)
        ensures
            (match r {
                Ok(v) => {
                    &&& old(self)@.offset + 8 <= old(self)@.bytes.len()
                    &&& v as int == i64_of_u64(
                        val_of(
                            old(self)@.bytes.subrange(
                                old(self)@.offset as int,
                                old(self)@.offset as int + 8,
                            ),
                            endian,
                        ),
                    )
                    &&& final(self)@.bytes == old(self)@.bytes
                    &&& final(self)@.offset == old(self)@.offset + 8
                },
                Err(e) => {
                    &&& e == BinaryError::BufferUnderrun
                    &&& old(self)@.offset + 8 > old(self)@.bytes.len()
                    &&& final(self)@ == old(self)@
                },
            }),
    {
        let bytes = match self.get(8) {
            Ok(b) => b,
            Err(e) => {
                return Err(e);
            },
        };
        proof {
            assert(bytes@.take(8) =~= bytes@);
        }
        Ok(read_long(bytes, endian))
    }

    pub fn get_unsigned_long(&mut self, endian: Endian) -> (r: Result<u64, BinaryError>)
        ensures
            (match r {
                Ok(v) => {
                    &&& old(self)@.offset + 8 <= old(self)@.bytes.len()
                    &&& v as nat == val_of(
                        old(self)@.bytes.subrange(old(self)@.offset as int, old(self)@.offset as int + 8),
                        endian,
                    )
                    &&& final(self)@.bytes == old(self)@.bytes
                    &&& final(self)@.offset == old(self)@.offset + 8
                },
                Err(e) => {
                    &&& e == BinaryError::BufferUnderrun
                    &&& old(self)@.offset + 8 > old(self)@.bytes.len()
                    &&& final(self)@ == old(self)@
                },
            }),
    {
        let bytes = match self.get(8) {
            Ok(b) => b,
            Err(e) => {
                return Err(e);
            },
        };
        proof {
            assert(bytes@.take(8) =~= bytes@);
        }
        Ok(read_unsigned_long(bytes, endian))
    }

    pub fn put_long(&mut self, v: i64, endian: Endian)
        ensures
            final(self)@.bytes == old(self)@.bytes + bytes_of(u64_of_i64(v), 8, endian),
            final(self)@.offset == old(self)@.offset,
    {
        let b = write_long(v, endian);
        self.put(b);
    }

    pub fn put_unsigned_long(&mut self, v: u64, endian: Endian)
        ensures
            final(self)@.bytes == old(self)@.bytes + bytes_of(v as nat, 8, endian),
            final(self)@.offset == old(self)@.offset,
    {
        let b = write_unsigned_long(v, endian);
        self.put(b);
    }

    pub fn get_unsigned_var_int(&mut self) -> (r: Result<u32, BinaryError>)
        ensures
            final(self)@.bytes == old(self)@.bytes,
            old(self)@.offset > old(self)@.bytes.len() ==> (r == Err::<u32, BinaryError>(
                BinaryError::BufferUnderrun,
            ) && final(self)@.offset == old(self)@.offset),
            old(self)@.offset <= old(self)@.bytes.len() ==> (match uvarint_decode(
                old(self)@.bytes.skip(old(self)@.offset as int),
                5,
            ) {
                Ok(vk) => {
                    &&& r == Ok::<u32, BinaryError>((vk.0 % 0x1_0000_0000) as u32)
                    &&& final(self)@.offset == old(self)@.offset + vk.1
                    &&& final(self)@.offset <= old(self)@.bytes.len()
                },
                Err(e) => r == Err::<u32, BinaryError>(e) && final(self)@.offset == old(
                    self,
                )@.offset,
            }),
    {
        read_unsigned_var_int(&self.buffer, &mut self.offset)
    }

    pub fn get_var_int(&mut self) -> (r: Result<i32, BinaryError>)
        ensures
            final(self)@.bytes == old(self)@.bytes,
            old(self)@.offset > old(self)@.bytes.len() ==> (r == Err::<i32, BinaryError>(
                BinaryError::BufferUnderrun,
            ) && final(self)@.offset == old(self)@.offset),
            old(self)@.offset <= old(self)@.bytes.len() ==> (match uvarint_decode(
                old(self)@.bytes.skip(old(self)@.offset as int),
                5,
            ) {
                Ok(vk) => {
                    &&& (r matches Ok(x) && x as int == zigzag_decode(
                        (vk.0 % 0x1_0000_0000) as nat,
                    ))
                    &&& final(self)@.offset == old(self)@.offset + vk.1
                    &&& final(self)@.offset <= old(self)@.bytes.len()
                },
                Err(e) => r == Err::<i32, BinaryError>(e) && final(self)@.offset == old(
                    self,
                )@.offset,
            }),
    {
        read_var_int(&self.buffer, &mut self.offset)
    }

    pub fn get_unsigned_var_long(&mut self) -> (r: Result<u64, BinaryError>)
        ensures
            final(self)@.bytes == old(self)@.bytes,
            old(self)@.offset > old(self)@.bytes.len() ==> (r == Err::<u64, BinaryError>(
                BinaryError::BufferUnderrun,
            ) && final(self)@.offset == old(self)@.offset),
            old(self)@.offset <= old(self)@.bytes.len() ==> (match uvarint_decode(
                old(self)@.bytes.skip(old(self)@.offset as int),
                10,
            ) {
                Ok(vk) => {
                    &&& r == Ok::<u64, BinaryError>((vk.0 % 0x1_0000_0000_0000_0000) as u64)
                    &&& final(self)@.offset == old(self)@.offset + vk.1
                    &&& final(self)@.offset <= old(self)@.bytes.len()
                },
                Err(e) => r == Err::<u64, BinaryError>(e) && final(self)@.offset == old(
                    self,
                )@.offset,
            }),
    {
        read_unsigned_var_long(&self.buffer, &mut self.offset)
    }

    pub fn get_var_long(&mut self) -> (r: Result<i64, BinaryError>)
        ensures
            final(self)@.bytes == old(self)@.bytes,
            old(self)@.offset > old(self)@.bytes.len() ==> (r == Err::<i64, BinaryError>(
                BinaryError::BufferUnderrun,
            ) && final(self)@.offset == old(self)@.offset),
            old(self)@.offset <= old(self)@.bytes.len() ==> (match uvarint_decode(
                old(self)@.bytes.skip(old(self)@.offset as int),
                10,
            ) {
                Ok(vk) => {
                    &&& (r matches Ok(x) && x as int == zigzag_decode(
                        (vk.0 % 0x1_0000_0000_0000_0000) as nat,
                    ))
                    &&& final(self)@.offset == old(self)@.offset + vk.1
                    &&& final(self)@.offset <= old(self)@.bytes.len()
                },
                Err(e) => r == Err::<i64, BinaryError>(e) && final(self)@.offset == old(
                    self,
                )@.offset,
            }),
    {
        read_var_long(&self.buffer, &mut self.offset)
    }

    pub fn put_unsigned_var_int(&mut self, v: u32)
        ensures
            final(self)@.bytes == old(self)@.bytes + uvarint(v as nat),
            final(self)@.offset == old(self)@.offset,
    {
        let b = write_unsigned_var_int(v);
        self.put(b);
    }

    pub fn put_var_int(&mut self, v: i32)
        ensures
            final(self)@.bytes == old(self)@.bytes + uvarint(zigzag_encode(v as int)),
            final(self)@.offset == old(self)@.offset,
    {
        let b = write_var_int(v);
        self.put(b);
    }

    pub fn put_unsigned_var_long(&mut self, v: u64)
        ensures
            final(self)@.bytes == old(self)@.bytes + uvarint(v as nat),
            final(self)@.offset == old(self)@.offset,
    {
        let b = write_unsigned_var_long(v);
        self.put(b);
    }

    pub fn put_var_long(&mut self, v: i64)
        ensures
            final(self)@.bytes == old(self)@.bytes + uvarint(zigzag_encode(v as int)),
            final(self)@.offset == old(self)@.offset,
    {
        let b = write_var_long(v);
        self.put(b);
    }

    /// Whether the offset has reached or passed the end of the buffer.
    pub fn feof(&self) -> (r: bool)
        ensures
            r == (self@.offset >= self@.bytes.len()),
    {
        self.offset >= self.buffer.len()
    }
}

} // verus!
