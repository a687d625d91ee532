//! A growable byte buffer with a read cursor, the carrier for packet
//! encoding and decoding. Writes append at the end; reads consume from the
//! cursor and fail with `Insufficient` when they would pass the end.

use vstd::prelude::*;
use crate::varint::{varint_bytes, varint_parse, VarIntRes};

verus! {

/// Why a read from a [`Buf`] failed.
#[derive(Clone, Copy, Debug, PartialEq, Eq)]
pub enum ReadErr {
    /// Fewer bytes are buffered than the read needs.
    Insufficient,
    /// The buffered bytes are not a valid encoding (bad VarInt).
    Malformed,
}

/// Big-endian bytes of a `u16`.
pub open spec fn be16(v: u16) -> Seq<u8> {
    seq![((v as int) / 0x100) as u8, ((v as int) % 0x100) as u8]
}

/// Big-endian bytes of a `u64`.
pub open spec fn be64(v: u64) -> Seq<u8> {
    seq![
        (((v as int) / 0x100000000000000) % 0x100) as u8,
        (((v as int) / 0x1000000000000) % 0x100) as u8,
        (((v as int) / 0x10000000000) % 0x100) as u8,
        (((v as int) / 0x100000000) % 0x100) as u8,
        (((v as int) / 0x1000000) % 0x100) as u8,
        (((v as int) / 0x10000) % 0x100) as u8,
        (((v as int) / 0x100) % 0x100) as u8,
        ((v as int) % 0x100) as u8,
    ]
}

/// The value of the first four bytes of `s`, big-endian.
pub open spec fn be32_val(s: Seq<u8>) -> int
    recommends
        s.len() >= 4,
{
    (s[0] as int) * 0x1000000 + (s[1] as int) * 0x10000 + (s[2] as int) * 0x100 + (s[3] as int)
}

/// The value of the first eight bytes of `s`, big-endian.
pub open spec fn be64_val(s: Seq<u8>) -> int
    recommends
        s.len() >= 8,
{
    (s[0] as int) * 0x100000000000000 + (s[1] as int) * 0x1000000000000 + (s[2] as int)
        * 0x10000000000 + (s[3] as int) * 0x100000000 + (s[4] as int) * 0x1000000 + (s[5] as int)
        * 0x10000 + (s[6] as int) * 0x100 + (s[7] as int)
}

/// Byte buffer with a write end (appends) and a read cursor.
pub struct Buf {
    data: Vec<u8>,
    rpos: usize,
}

impl Buf {
    /// All bytes ever written and not yet discarded by `compact` or `clear`.
    pub closed spec fn all_bytes(self) -> Seq<u8> {
        self.data@
    }

    /// The read cursor: bytes before it have been consumed.
    pub closed spec fn pos(self) -> int {
        self.rpos as int
    }

    /// The bytes still to be read.
    pub open spec fn unread(self) -> Seq<u8> {
        self.all_bytes().skip(self.pos())
    }

    /// The cursor never passes the write end.
    pub open spec fn wf(self) -> bool {
        0 <= self.pos() <= self.all_bytes().len()
    }

    pub fn new() -> (r: Buf)
        ensures
            r.wf(),
            r.all_bytes() == Seq::<u8>::empty(),
            r.pos() == 0,
    {
        Buf { data: Vec::new(), rpos: 0 }
    }

    /// Wrap an owned byte vector as a buffer with the cursor at the start.
    pub fn from_vec(v: Vec<u8>) -> (r: Buf)
        ensures
            r.wf(),
            r.all_bytes() == v@,
            r.pos() == 0,
    {
        Buf { data: v, rpos: 0 }
    }

    /// Give up the buffer and keep its bytes.
    pub fn into_bytes(self) -> (r: Vec<u8>)
        ensures
            r@ == self.all_bytes(),
    {
        self.data
    }

    /// Reset both cursors: the buffer is empty again.
    pub fn clear(&mut self)
        ensures
            final(self).wf(),
            final(self).all_bytes() == Seq::<u8>::empty(),
            final(self).pos() == 0,
    {
        self.data = Vec::new();
        self.rpos = 0;
    }

    pub fn remaining(&self) -> (r: usize)
        requires
            self.wf(),
        ensures
            r == self.unread().len(),
    {
        self.data.len() - self.rpos
    }

    pub fn cursor(&self) -> (r: usize)
        ensures
            r == self.pos(),
    {
        self.rpos
    }

    pub(crate) fn set_cursor(&mut self, p: usize)
        requires
            p <= old(self).all_bytes().len(),
        ensures
            final(self).wf(),
            final(self).all_bytes() == old(self).all_bytes(),
            final(self).pos() == p,
    {
        self.rpos = p;
    }

    /// Drop the consumed prefix, moving any unread tail to the start.
    pub fn compact(&mut self)
        requires
            old(self).wf(),
        ensures
            final(self).wf(),
            final(self).all_bytes() == old(self).unread(),
            final(self).pos() == 0,
            final(self).unread() == old(self).unread(),
    {
        let mut rest: Vec<u8> = Vec::new();
        let mut k: usize = self.rpos;
        while k < self.data.len()
            invariant
                self.rpos <= k <= self.data@.len(),
                self == old(self),
                rest@ == self.data@.subrange(self.rpos as int, k as int),
            decreases self.data@.len() - k,
        {
            let b = self.data[k];
            rest.push(b);
            k += 1;
            assert(rest@ =~= self.data@.subrange(self.rpos as int, k as int));
        }
        assert(rest@ =~= old(self).unread());
        self.data = rest;
        self.rpos = 0;
    }

    pub fn write_u8(&mut self, v: u8)
        ensures
            final(self).all_bytes() == old(self).all_bytes() + seq![v],
            final(self).pos() == old(self).pos(),
    {
        self.data.push(v);
    }

    pub fn write_bytes(&mut self, b: &Vec<u8>)
        ensures
            final(self).all_bytes() == old(self).all_bytes() + b@,
            final(self).pos() == old(self).pos(),
    {
        let mut k: usize = 0;
        while k < b.len()
            invariant
                k <= b@.len(),
                self.rpos == old(self).rpos,
                self.data@ == old(self).data@ + b@.take(k as int),
            decreases b@.len() - k,
        {
            let x = b[k];
            self.data.push(x);
            k += 1;
            assert(self.data@ =~= old(self).data@ + b@.take(k as int));
        }
        assert(old(self).all_bytes() + b@.take(b@.len() as int) =~= old(self).all_bytes() + b@);
    }

    /// Append the big-endian bytes of `v`.
    pub fn write_u16(&mut self, v: u16)
        ensures
            final(self).all_bytes() == old(self).all_bytes() + be16(v),
            final(self).pos() == old(self).pos(),
    {
        self.data.push((v / 0x100) as u8);
        self.data.push((v % 0x100) as u8);
        assert(final(self).all_bytes() =~= old(self).all_bytes() + be16(v));
    }

    /// Append the big-endian bytes of `v`.
    pub fn write_u64(&mut self, v: u64)
        ensures
            final(self).all_bytes() == old(self).all_bytes() + be64(v),
            final(self).pos() == old(self).pos(),
    {
        self.data.push(((v / 0x100000000000000) % 0x100) as u8);
        self.data.push(((v / 0x1000000000000) % 0x100) as u8);
        self.data.push(((v / 0x10000000000) % 0x100) as u8);
        self.data.push(((v / 0x100000000) % 0x100) as u8);
        self.data.push(((v / 0x1000000) % 0x100) as u8);
        self.data.push(((v / 0x10000) % 0x100) as u8);
        self.data.push(((v / 0x100) % 0x100) as u8);
        self.data.push((v % 0x100) as u8);
        assert(final(self).all_bytes() =~= old(self).all_bytes() + be64(v));
    }

    /// Append the canonical VarInt encoding of `v`.
    pub fn write_varint(&mut self, v: u32)
        ensures
            final(self).all_bytes() == old(self).all_bytes() + varint_bytes(v as int),
            final(self).pos() == old(self).pos(),
    {
        let mut x: u32 = v;
        while x >= 0x80
            invariant
                self.rpos == old(self).rpos,
                old(self).data@ + varint_bytes(v as int) == self.data@ + varint_bytes(x as int),
            decreases x,
        {
            self.data.push((0x80 + x % 0x80) as u8);
            proof {
                assert(varint_bytes(x as int) == seq![(0x80 + (x as int) % 0x80) as u8]
                    + varint_bytes((x as int) / 0x80));
                assert(old(self).data@ + varint_bytes(v as int) =~= self.data@ + varint_bytes(
                    (x / 0x80) as int,
                ));
            }
            x = x / 0x80;
        }
        self.data.push(x as u8);
        proof {
            assert(varint_bytes(x as int) == seq![x as u8]);
            assert(final(self).all_bytes() =~= old(self).all_bytes() + varint_bytes(v as int));
        }
    }

    /// Append a VarInt length prefix and then the bytes themselves.
    pub fn write_str_bytes(&mut self, b: &Vec<u8>)
        requires
            b@.len() <= 0x7FFF,
        ensures
            final(self).all_bytes() == old(self).all_bytes() + varint_bytes(b@.len() as int) + b@,
            final(self).pos() == old(self).pos(),
    {
        self.write_varint(b.len() as u32);
        self.write_bytes(b);
    }

    /// Read one byte.
    pub fn read_u8(&mut self) -> (r: Result<u8, ReadErr>)
        requires
            old(self).wf(),
        ensures
            final(self).wf(),
            final(self).all_bytes() == old(self).all_bytes(),
            old(self).unread().len() >= 1 ==> r == Ok::<u8, ReadErr>(old(self).unread()[0])
                && final(self).pos() == old(self).pos() + 1,
            old(self).unread().len() == 0 ==> r == Err::<u8, ReadErr>(ReadErr::Insufficient)
                && final(self).pos() == old(self).pos(),
    {
        if self.rpos < self.data.len() {
            let b = self.data[self.rpos];
            self.rpos = self.rpos + 1;
            Ok(b)
        } else {
            Err(ReadErr::Insufficient)
        }
    }

    /// Read `n` bytes as an owned vector.
    pub fn read_bytes(&mut self, n: usize) -> (r: Result<Vec<u8>, ReadErr>)
        requires
            old(self).wf(),
        ensures
            final(self).wf(),
            final(self).all_bytes() == old(self).all_bytes(),
            old(self).unread().len() >= n ==> (r matches Ok(v) && v@ == old(self).unread().take(
                n as int,
            ) && final(self).pos() == old(self).pos() + n),
            old(self).unread().len() < n ==> r == Err::<Vec<u8>, ReadErr>(ReadErr::Insufficient)
                && final(self).pos() == old(self).pos(),
    {
        if self.data.len() - self.rpos < n {
            return Err(ReadErr::Insufficient);
        }
        let total = self.data.len();
        let mut v: Vec<u8> = Vec::new();
        let mut k: usize = 0;
        while k < n
            invariant
                k <= n,
                self == old(self),
                self.wf(),
                total == self.all_bytes().len(),
                n <= self.unread().len(),
                v@ == self.unread().take(k as int),
            decreases n - k,
        {
            assert(self.rpos + k < total);
            let b = self.data[self.rpos + k];
            v.push(b);
            k += 1;
            assert(v@ =~= self.unread().take(k as int));
        }
        self.rpos = self.rpos + n;
        Ok(v)
    }

    /// Advance the cursor over `n` bytes without copying them.
    pub fn skip(&mut self, n: usize) -> (r: Result<(), ReadErr>)
        requires
            old(self).wf(),
        ensures
            final(self).wf(),
            final(self).all_bytes() == old(self).all_bytes(),
            old(self).unread().len() >= n ==> r == Ok::<(), ReadErr>(()) && final(self).pos()
                == old(self).pos() + n,
            old(self).unread().len() < n ==> r == Err::<(), ReadErr>(ReadErr::Insufficient)
                && final(self).pos() == old(self).pos(),
    {
        if self.data.len() - self.rpos < n {
            Err(ReadErr::Insufficient)
        } else {
            self.rpos = self.rpos + n;
            Ok(())
        }
    }

    /// Read a big-endian `u32`.
    pub fn read_u32(&mut self) -> (r: Result<u32, ReadErr>)
        requires
            old(self).wf(),
        ensures
            final(self).wf(),
            final(self).all_bytes() == old(self).all_bytes(),
            old(self).unread().len() >= 4 ==> r == Ok::<u32, ReadErr>(
                be32_val(old(self).unread()) as u32,
            ) && be32_val(old(self).unread()) < 0x100000000 && final(self).pos() == old(self).pos()
                + 4,
            old(self).unread().len() < 4 ==> r == Err::<u32, ReadErr>(ReadErr::Insufficient)
                && final(self).pos() == old(self).pos(),
    {
        if self.data.len() - self.rpos < 4 {
            return Err(ReadErr::Insufficient);
        }
        let b0 = self.data[self.rpos] as u32;
        let b1 = self.data[self.rpos + 1] as u32;
        let b2 = self.data[self.rpos + 2] as u32;
        let b3 = self.data[self.rpos + 3] as u32;
        self.rpos = self.rpos + 4;
        Ok(b0 * 0x1000000 + b1 * 0x10000 + b2 * 0x100 + b3)
    }

    /// Read a big-endian `u64`.
    pub fn read_u64(&mut self) -> (r: Result<u64, ReadErr>)
        requires
            old(self).wf(),
        ensures
            final(self).wf(),
            final(self).all_bytes() == old(self).all_bytes(),
            old(self).unread().len() >= 8 ==> r == Ok::<u64, ReadErr>(
                be64_val(old(self).unread()) as u64,
            ) && be64_val(old(self).unread()) < 0x10000000000000000
                && final(self).pos() == old(self).pos() + 8,
            old(self).unread().len() < 8 ==> r == Err::<u64, ReadErr>(ReadErr::Insufficient)
                && final(self).pos() == old(self).pos(),
    {
        if self.data.len() - self.rpos < 8 {
            return Err(ReadErr::Insufficient);
        }
        let b0 = self.data[self.rpos] as u64;
        let b1 = self.data[self.rpos + 1] as u64;
        let b2 = self.data[self.rpos + 2] as u64;
        let b3 = self.data[self.rpos + 3] as u64;
        let b4 = self.data[self.rpos + 4] as u64;
        let b5 = self.data[self.rpos + 5] as u64;
        let b6 = self.data[self.rpos + 6] as u64;
        let b7 = self.data[self.rpos + 7] as u64;
        self.rpos = self.rpos + 8;
        Ok(
            b0 * 0x100000000000000 + b1 * 0x1000000000000 + b2 * 0x10000000000 + b3 * 0x100000000
                + b4 * 0x1000000 + b5 * 0x10000 + b6 * 0x100 + b7,
        )
    }

    /// Read a VarInt-length-prefixed byte string, consuming its bytes only
    /// on success.
    pub fn read_str_bytes(&mut self) -> (r: Result<Vec<u8>, ReadErr>)
        requires
            old(self).wf(),
        ensures
            final(self).wf(),
            final(self).all_bytes() == old(self).all_bytes(),
            match varint_parse(old(self).unread()) {
                VarIntRes::Incomplete => r == Err::<Vec<u8>, ReadErr>(ReadErr::Insufficient)
                    && final(self).pos() == old(self).pos(),
                VarIntRes::Malformed => r == Err::<Vec<u8>, ReadErr>(ReadErr::Malformed)
                    && final(self).pos() == old(self).pos(),
                VarIntRes::Val { v, n } => if old(self).unread().len() >= n + v {
                    (r matches Ok(s) && s@ == old(self).unread().subrange(n, n + v))
                        && final(self).pos() == old(self).pos() + n + v
                } else {
                    r == Err::<Vec<u8>, ReadErr>(ReadErr::Insufficient) && final(self).pos()
                        == old(self).pos()
                },
            },
    {
        broadcast use vstd::seq::group_seq_axioms;

        let ghost s0 = self.unread();
        let start = self.cursor();
        let len32 = match self.read_varint() {
            Ok(v) => v,
            Err(e) => {
                return Err(e);
            },
        };
        proof {
            crate::varint::lemma_varint_parse_bounds(s0);
        }
        let len = len32 as usize;
        match self.read_bytes(len) {
            Ok(v) => {
                proof {
                    assert(v@ =~= s0.subrange(
                        varint_parse(s0)->n,
                        varint_parse(s0)->n + len,
                    ));
                }
                Ok(v)
            },
            Err(_) => {
                self.set_cursor(start);
                Err(ReadErr::Insufficient)
            },
        }
    }

    /// Read a VarInt, consuming its bytes only on success.
    pub fn read_varint(&mut self) -> (r: Result<u32, ReadErr>)
        requires
            old(self).wf(),
        ensures
            final(self).wf(),
            final(self).all_bytes() == old(self).all_bytes(),
            match varint_parse(old(self).unread()) {
                VarIntRes::Incomplete => r == Err::<u32, ReadErr>(ReadErr::Insufficient)
                    && final(self).pos() == old(self).pos(),
                VarIntRes::Malformed => r == Err::<u32, ReadErr>(ReadErr::Malformed)
                    && final(self).pos() == old(self).pos(),
                VarIntRes::Val { v, n } => r == Ok::<u32, ReadErr>(v as u32) && v == (v as u32)
                    as int && final(self).pos() == old(self).pos() + n,
            },
    {
        let ghost s = self.unread();
        let mut i: usize = 0;
        let mut acc: u32 = 0;
        loop
            invariant
                self.wf(),
                self == old(self),
                s == old(self).unread(),
                0 <= i <= 4,
                (acc as int) < crate::varint::vi_weight(i as int),
                crate::varint::vp(s, i as int, acc as int) == varint_parse(s),
            decreases 5 - i,
        {
            if i >= self.data.len() - self.rpos {
                return Err(ReadErr::Insufficient);
            }
            let b = self.data[self.rpos + i];
            assert(b == s[i as int]);
            if b < 0x80 {
                if b == 0 && i > 0 {
                    return Err(ReadErr::Malformed);
                }
                if i == 4 && b >= 0x10 {
                    return Err(ReadErr::Malformed);
                }
                let w: u32 = if i == 0 {
                    1
                } else if i == 1 {
                    0x80
                } else if i == 2 {
                    0x4000
                } else if i == 3 {
                    0x200000
                } else {
                    0x10000000
                };
                let v = acc + (b as u32) * w;
                self.rpos = self.rpos + i + 1;
                return Ok(v);
            }
            if i == 4 {
                return Err(ReadErr::Malformed);
            }
            let w: u32 = if i == 0 {
                1
            } else if i == 1 {
                0x80
            } else if i == 2 {
                0x4000
            } else {
                0x200000
            };
            acc = acc + ((b - 0x80) as u32) * w;
            i = i + 1;
        }
    }
}

} // verus!
