//! Minecraft frame codec. A frame is a VarInt length followed by that many
//! bytes. With compression disabled (threshold below zero) those bytes are
//! the payload itself. With compression enabled they start with a VarInt
//! "uncompressed length": zero means the payload follows as-is, anything else
//! is the length the zlib stream that follows must decompress to.

use vstd::prelude::*;
use crate::buffer::{Buf, ReadErr};
use crate::compress::{deflate_of, inflate_of, zlib_compress, zlib_decompress};
use crate::varint::{
    varint_bytes, varint_len, varint_parse, lemma_varint_len, lemma_varint_parse_bounds,
    lemma_varint_round_trip, VarIntRes,
};

verus! {

/// The largest payload a frame may carry, 2^21 - 1 bytes.
pub const MAX_PAYLOAD: u32 = 0x1FFFFF;

/// Why a frame could not be encoded or decoded.
#[derive(Clone, Copy, Debug, PartialEq, Eq)]
pub enum CodecError {
    /// The buffered bytes can never grow into a valid frame: a bad VarInt, a
    /// bad zlib stream, an oversize uncompressed length, or a declared
    /// uncompressed length that does not match the stream.
    Malformed,
    /// The compressed frame would not fit behind a VarInt length header.
    Oversize,
}

/// The wire encoding of `p` as one frame under compression threshold `t`.
pub open spec fn frame_bytes(p: Seq<u8>, t: int) -> Seq<u8> {
    if t < 0 {
        varint_bytes(p.len() as int) + p
    } else if p.len() >= t {
        varint_bytes(varint_len(p.len() as int) + deflate_of(p).len()) + varint_bytes(
            p.len() as int,
        ) + deflate_of(p)
    } else {
        varint_bytes(p.len() as int + 1) + seq![0u8] + p
    }
}

/// Outcome of parsing one frame from the front of a byte sequence.
pub enum FRes {
    /// More bytes are needed; nothing may be consumed.
    Incomplete,
    /// The bytes can never grow into a valid frame.
    Malformed,
    /// A frame carrying payload `p`, occupying the first `n` bytes.
    Frame { p: Seq<u8>, n: int },
}

/// Parse one frame from the front of `s` under compression threshold `t`.
pub open spec fn frame_parse(s: Seq<u8>, t: int) -> FRes {
    match varint_parse(s) {
        VarIntRes::Incomplete => FRes::Incomplete,
        VarIntRes::Malformed => FRes::Malformed,
        VarIntRes::Val { v: len, n } => if s.len() < n + len {
            FRes::Incomplete
        } else {
            let body = s.subrange(n, n + len);
            if t < 0 {
                FRes::Frame { p: body, n: n + len }
            } else {
                match varint_parse(body) {
                    VarIntRes::Incomplete => FRes::Malformed,
                    VarIntRes::Malformed => FRes::Malformed,
                    VarIntRes::Val { v: ul, n: m } => if ul == 0 {
                        FRes::Frame { p: body.skip(m), n: n + len }
                    } else if ul > MAX_PAYLOAD {
                        FRes::Malformed
                    } else {
                        match inflate_of(body.skip(m)) {
                            Some(d) => if d.len() == ul {
                                FRes::Frame { p: d, n: n + len }
                            } else {
                                FRes::Malformed
                            },
                            None => FRes::Malformed,
                        }
                    },
                }
            }
        },
    }
}

/// A parsed frame consumes at least its length header: one byte or more, and
/// never more than what is buffered.
pub proof fn lemma_frame_parse_consumes(s: Seq<u8>, t: int)
    ensures
        frame_parse(s, t) matches FRes::Frame { p, n } ==> 1 <= n <= s.len(),
{
    lemma_varint_parse_bounds(s);
}

/// Frame round trip with compression disabled: the encoding of `p`, followed
/// by anything, parses back to exactly `p` and consumes exactly the encoding.
pub proof fn lemma_frame_round_trip_uncompressed(p: Seq<u8>, t: int, rest: Seq<u8>)
    requires
        t < 0,
        p.len() <= MAX_PAYLOAD,
    ensures
        frame_parse(frame_bytes(p, t) + rest, t) == (FRes::Frame {
            p,
            n: frame_bytes(p, t).len() as int,
        }),
{
    let lv = p.len() as u32;
    let s = frame_bytes(p, t) + rest;
    lemma_varint_round_trip(lv, p + rest);
    assert(s =~= varint_bytes(lv as int) + (p + rest));
    let vn = varint_len(lv as int);
    assert(s.subrange(vn, vn + p.len()) =~= p);
}

/// Frame round trip with compression enabled and the payload below the
/// threshold: the frame body starts with a zero "uncompressed length" marker
/// and the payload follows uncompressed; parsing yields exactly `p` back.
pub proof fn lemma_frame_round_trip_below(p: Seq<u8>, t: int, rest: Seq<u8>)
    requires
        0 <= t,
        (p.len() as int) < t,
        p.len() <= MAX_PAYLOAD,
    ensures
        frame_bytes(p, t)[varint_len(p.len() as int + 1)] == 0u8,
        frame_parse(frame_bytes(p, t) + rest, t) == (FRes::Frame {
            p,
            n: frame_bytes(p, t).len() as int,
        }),
{
    let lv = (p.len() + 1) as u32;
    let s = frame_bytes(p, t) + rest;
    let body = seq![0u8] + p;
    lemma_varint_round_trip(lv, body + rest);
    assert(s =~= varint_bytes(lv as int) + (body + rest));
    let vn = varint_len(lv as int);
    assert(s.subrange(vn, vn + lv) =~= body);
    assert(varint_parse(body) == (VarIntRes::Val { v: 0, n: 1 }));
    assert(body.skip(1) =~= p);
}

proof fn lemma_frame_round_trip_compressed(p: Seq<u8>, t: int, rest: Seq<u8>)
    requires
        0 <= t <= p.len(),
        1 <= p.len() <= MAX_PAYLOAD,
        inflate_of(deflate_of(p)) == Some(p),
        varint_len(p.len() as int) + deflate_of(p).len() <= 0xFFFFFFFF,
    ensures
        frame_parse(frame_bytes(p, t) + rest, t) == (FRes::Frame {
            p,
            n: frame_bytes(p, t).len() as int,
        }),
{
    let c = deflate_of(p);
    let pl = p.len() as int;
    lemma_varint_len(pl);
    let lv = (varint_len(pl) + c.len()) as u32;
    let body = varint_bytes(pl) + c;
    let s = frame_bytes(p, t) + rest;
    lemma_varint_round_trip(lv, body + rest);
    assert(s =~= varint_bytes(lv as int) + (body + rest));
    let vn = varint_len(lv as int);
    assert(s.subrange(vn, vn + lv) =~= body);
    lemma_varint_round_trip(p.len() as u32, c);
    let m = varint_len(pl);
    assert(varint_parse(body) == (VarIntRes::Val { v: pl, n: m }));
    assert(body.skip(m) =~= c);
}

proof fn lemma_vp_of_prefix(v: int, s: Seq<u8>, i: int, acc: int)
    requires
        0 <= v < 0x100000000,
        0 <= i,
        i + varint_len(v) <= 5,
        s.len() < i + varint_len(v),
        forall|k: int| i <= k < s.len() ==> s[k] == varint_bytes(v)[k - i],
    ensures
        crate::varint::vp(s, i, acc) == VarIntRes::Incomplete,
    decreases v,
{
    lemma_varint_len(v);
    if i < s.len() {
        assert(s[i] == varint_bytes(v)[0]);
        if v < 0x80 {
            assert(varint_len(v) == 1);
            assert(false);
        } else {
            let v2 = v / 0x80;
            lemma_varint_len(v2);
            assert(varint_bytes(v) == seq![(0x80 + v % 0x80) as u8] + varint_bytes(v2));
            assert(varint_len(v) == 1 + varint_len(v2));
            assert(forall|k: int| i + 1 <= k < s.len() ==> s[k] == varint_bytes(v2)[k - (i + 1)]);
            lemma_vp_of_prefix(v2, s, i + 1, acc + ((s[i] as int) - 0x80) * crate::varint::vi_weight(i));
        }
    }
}

/// Partial-frame resumption, first half: any strict prefix of a valid frame
/// parses as `Incomplete`, so a decoder leaves the bytes in place. (Feeding
/// the remainder afterwards yields the frame, by the round-trip lemmas.)
pub proof fn lemma_partial_frame(p: Seq<u8>, t: int, s: Seq<u8>)
    requires
        1 <= p.len() <= MAX_PAYLOAD,
        frame_bytes(p, t).len() <= 0xFFFFFFFF,
        s.len() < frame_bytes(p, t).len(),
        s == frame_bytes(p, t).take(s.len() as int),
    ensures
        frame_parse(s, t) == FRes::Incomplete,
{
    let f = frame_bytes(p, t);
    let l: int = if t < 0 {
        p.len() as int
    } else if p.len() >= t {
        varint_len(p.len() as int) + deflate_of(p).len()
    } else {
        p.len() as int + 1
    };
    let body: Seq<u8> = if t < 0 {
        p
    } else if p.len() >= t {
        varint_bytes(p.len() as int) + deflate_of(p)
    } else {
        seq![0u8] + p
    };
    assert(f == varint_bytes(l) + body);
    assert(body.len() == l);
    lemma_varint_len(p.len() as int);
    assert(0 <= l <= 0xFFFFFFFF);
    let vn = varint_len(l);
    lemma_varint_len(l);
    if s.len() < vn {
        assert(forall|k: int| 0 <= k < s.len() ==> s[k] == varint_bytes(l)[k]);
        lemma_vp_of_prefix(l, s, 0, 0);
    } else {
        assert(s.subrange(0, vn) =~= varint_bytes(l));
        lemma_varint_round_trip(l as u32, s.skip(vn));
        assert(s =~= varint_bytes(l as int) + s.skip(vn));
        assert(varint_parse(s) == (VarIntRes::Val { v: l, n: vn }));
        assert(s.len() < vn + l);
    }
}

/// Encode `payload` as one frame under compression threshold `threshold`,
/// exactly as the wire format demands: plain with a VarInt length when
/// compression is off; with a zero marker when the payload is under the
/// threshold; zlib-compressed behind the declared uncompressed length
/// otherwise. The resulting bytes, followed by anything, parse back to
/// exactly `payload`. Fails only when the compressed frame body cannot sit
/// behind a VarInt length header.
pub fn encode_frame(payload: &Vec<u8>, threshold: i32) -> (r: Result<Vec<u8>, CodecError>)
    requires
        1 <= payload@.len() <= MAX_PAYLOAD,
    ensures
        r matches Ok(f) ==> f@ == frame_bytes(payload@, threshold as int) && forall|rest: Seq<u8>|
            frame_parse(f@ + rest, threshold as int) == (FRes::Frame {
                p: payload@,
                n: f@.len() as int,
            }),
        r is Err <==> threshold >= 0 && payload@.len() >= threshold && varint_len(
            payload@.len() as int,
        ) + deflate_of(payload@).len() > 0xFFFFFFFF,
        r is Err ==> r == Err::<Vec<u8>, CodecError>(CodecError::Oversize),
{
    if threshold < 0 {
        let mut out = Buf::new();
        out.write_varint(payload.len() as u32);
        out.write_bytes(payload);
        let f = out.into_bytes();
        proof {
            assert(f@ =~= frame_bytes(payload@, threshold as int));
            assert forall|rest: Seq<u8>|
                frame_parse(f@ + rest, threshold as int) == (FRes::Frame {
                    p: payload@,
                    n: f@.len() as int,
                }) by {
                lemma_frame_round_trip_uncompressed(payload@, threshold as int, rest);
            }
        }
        Ok(f)
    } else if payload.len() >= threshold as usize {
        let c = zlib_compress(payload);
        let mut inner = Buf::new();
        inner.write_varint(payload.len() as u32);
        inner.write_bytes(&c);
        let ib = inner.into_bytes();
        if ib.len() > 0xFFFFFFFFusize {
            return Err(CodecError::Oversize);
        }
        let mut out = Buf::new();
        out.write_varint(ib.len() as u32);
        out.write_bytes(&ib);
        let f = out.into_bytes();
        proof {
            assert(f@ =~= frame_bytes(payload@, threshold as int));
            assert forall|rest: Seq<u8>|
                frame_parse(f@ + rest, threshold as int) == (FRes::Frame {
                    p: payload@,
                    n: f@.len() as int,
                }) by {
                lemma_frame_round_trip_compressed(payload@, threshold as int, rest);
            }
        }
        Ok(f)
    } else {
        let mut out = Buf::new();
        out.write_varint(payload.len() as u32 + 1);
        out.write_u8(0);
        out.write_bytes(payload);
        let f = out.into_bytes();
        proof {
            assert(f@ =~= frame_bytes(payload@, threshold as int));
            assert forall|rest: Seq<u8>|
                frame_parse(f@ + rest, threshold as int) == (FRes::Frame {
                    p: payload@,
                    n: f@.len() as int,
                }) by {
                lemma_frame_round_trip_below(payload@, threshold as int, rest);
            }
        }
        Ok(f)
    }
}

/// Decode one frame from the front of `buf` under compression threshold
/// `threshold`. An incomplete frame consumes nothing and yields `None`; a
/// frame that can never become valid consumes nothing and fails; a complete
/// frame is consumed and its payload returned.
pub fn read_frame(buf: &mut Buf, threshold: i32) -> (r: Result<Option<Vec<u8>>, CodecError>)
    requires
        old(buf).wf(),
    ensures
        final(buf).wf(),
        final(buf).all_bytes() == old(buf).all_bytes(),
        match frame_parse(old(buf).unread(), threshold as int) {
            FRes::Incomplete => r == Ok::<Option<Vec<u8>>, CodecError>(None) && final(buf).pos()
                == old(buf).pos(),
            FRes::Malformed => r == Err::<Option<Vec<u8>>, CodecError>(CodecError::Malformed)
                && final(buf).pos() == old(buf).pos(),
            FRes::Frame { p, n } => (r matches Ok(o) && o matches Some(v) && v@ == p)
                && final(buf).pos() == old(buf).pos() + n,
        },
{
    broadcast use vstd::seq::group_seq_axioms;

    let ghost s = buf.unread();
    let start = buf.cursor();
    let len32 = match buf.read_varint() {
        Err(ReadErr::Insufficient) => {
            return Ok(None);
        },
        Err(ReadErr::Malformed) => {
            return Err(CodecError::Malformed);
        },
        Ok(v) => v,
    };
    let len = len32 as usize;
    proof {
        lemma_varint_parse_bounds(s);
    }
    if buf.remaining() < len {
        buf.set_cursor(start);
        return Ok(None);
    }
    let ghost vn = buf.pos() - start;
    let ghost u = buf.unread();
    proof {
        assert(u =~= s.skip(vn));
    }
    let body = match buf.read_bytes(len) {
        Ok(b) => b,
        Err(_) => {
            proof {
                assert(false);
            }
            return Err(CodecError::Malformed);
        },
    };
    proof {
        assert(s.len() >= vn + len);
        assert(body@ == u.take(len as int));
        assert(body@ =~= s.subrange(vn, vn + len));
    }
    if threshold < 0 {
        return Ok(Some(body));
    }
    let ghost bodyv = body@;
    let mut bb = Buf::from_vec(body);
    proof {
        assert(bb.unread() =~= bodyv);
    }
    let ul32 = match bb.read_varint() {
        Err(_) => {
            buf.set_cursor(start);
            return Err(CodecError::Malformed);
        },
        Ok(v) => v,
    };
    if ul32 == 0 {
        let rem = bb.remaining();
        let ghost m = bb.pos();
        let tail = match bb.read_bytes(rem) {
            Ok(b) => b,
            Err(_) => {
                proof {
                    assert(false);
                }
                return Err(CodecError::Malformed);
            },
        };
        proof {
            assert(tail@ =~= s.subrange(vn, vn + len).skip(m));
        }
        return Ok(Some(tail));
    }
    if ul32 > MAX_PAYLOAD {
        buf.set_cursor(start);
        return Err(CodecError::Malformed);
    }
    let ul = ul32 as usize;
    let rem = bb.remaining();
    let ghost m = bb.pos();
    let c = match bb.read_bytes(rem) {
        Ok(b) => b,
        Err(_) => {
            proof {
                assert(false);
            }
            return Err(CodecError::Malformed);
        },
    };
    proof {
        assert(c@ =~= s.subrange(vn, vn + len).skip(m));
    }
    match zlib_decompress(&c, ul) {
        Ok(d) => {
            if d.len() == ul {
                Ok(Some(d))
            } else {
                buf.set_cursor(start);
                Err(CodecError::Malformed)
            }
        },
        Err(_) => {
            buf.set_cursor(start);
            Err(CodecError::Malformed)
        },
    }
}

} // verus!
