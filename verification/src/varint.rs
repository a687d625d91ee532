//! Minecraft VarInt: 1 to 5 bytes, 7 data bits per byte (least significant
//! group first), high bit set on every byte but the last. The parser rejects
//! non-canonical encodings whose final group is zero, and values that do not
//! fit in 32 bits.

use vstd::prelude::*;

verus! {

/// Outcome of parsing a VarInt from the front of a byte sequence.
pub enum VarIntRes {
    /// More bytes are needed before the VarInt ends.
    Incomplete,
    /// The bytes can never extend to a valid VarInt.
    Malformed,
    /// Value `v`, occupying the first `n` bytes.
    Val { v: int, n: int },
}

/// 128^i, the place value of the i-th VarInt group.
pub open spec fn vi_weight(i: int) -> int {
    if i == 0 {
        1
    } else if i == 1 {
        0x80
    } else if i == 2 {
        0x4000
    } else if i == 3 {
        0x200000
    } else {
        0x10000000
    }
}

/// The canonical VarInt encoding of `v`.
pub open spec fn varint_bytes(v: int) -> Seq<u8>
    recommends
        0 <= v < 0x100000000,
    decreases v,
{
    if v < 0x80 {
        seq![v as u8]
    } else {
        seq![(0x80 + v % 0x80) as u8] + varint_bytes(v / 0x80)
    }
}

/// Number of bytes in the canonical encoding of `v`.
pub open spec fn varint_len(v: int) -> int {
    varint_bytes(v).len() as int
}

/// Parse a VarInt from `s` starting at byte `i`, with `acc` the value of the
/// groups already read.
pub open spec fn vp(s: Seq<u8>, i: int, acc: int) -> VarIntRes
    recommends
        0 <= i <= 4,
        0 <= acc,
    decreases 5 - i,
{
    if i >= s.len() || i > 4 {
        VarIntRes::Incomplete
    } else {
        let b = s[i] as int;
        if b < 0x80 {
            if b == 0 && i > 0 {
                VarIntRes::Malformed
            } else if i == 4 && b >= 0x10 {
                VarIntRes::Malformed
            } else {
                VarIntRes::Val { v: acc + b * vi_weight(i), n: i + 1 }
            }
        } else {
            if i == 4 {
                VarIntRes::Malformed
            } else {
                vp(s, i + 1, acc + (b - 0x80) * vi_weight(i))
            }
        }
    }
}

/// Parse a VarInt from the front of `s`.
pub open spec fn varint_parse(s: Seq<u8>) -> VarIntRes {
    vp(s, 0, 0)
}

/// The canonical encoding takes 1 to 5 bytes, with the usual thresholds.
pub proof fn lemma_varint_len(v: int)
    requires
        0 <= v < 0x100000000,
    ensures
        1 <= varint_len(v) <= 5,
        v < 0x80 ==> varint_len(v) == 1,
        v < 0x4000 ==> varint_len(v) <= 2,
        v < 0x200000 ==> varint_len(v) <= 3,
        v < 0x10000000 ==> varint_len(v) <= 4,
    decreases v,
{
    if v >= 0x80 {
        lemma_varint_len(v / 0x80);
    }
}

proof fn lemma_vp_of_encode(s: Seq<u8>, v: int, i: int, acc: int)
    requires
        0 <= i <= 4,
        0 <= acc < vi_weight(i),
        0 <= v,
        acc + v * vi_weight(i) < 0x100000000,
        i > 0 ==> v >= 1,
        i + varint_len(v) <= s.len(),
        s.subrange(i, i + varint_len(v)) == varint_bytes(v),
    ensures
        vp(s, i, acc) == (VarIntRes::Val { v: acc + v * vi_weight(i), n: i + varint_len(v) }),
    decreases v,
{
    let e = varint_bytes(v);
    assert(s[i] == e[0]);
    if v < 0x80 {
        assert(e == seq![v as u8]);
        assert(s[i] as int == v);
        if i == 4 {
            assert(vi_weight(4) == 0x10000000);
            assert(v < 0x10);
        }
        assert(vp(s, i, acc) == (VarIntRes::Val { v: acc + v * vi_weight(i), n: i + 1 }));
    } else {
        let b = s[i] as int;
        assert(b == 0x80 + v % 0x80);
        if i == 4 {
            assert(vi_weight(4) == 0x10000000);
            assert(acc + v * 0x10000000 >= 0x80 * 0x10000000);
            assert(false);
        }
        let v2 = v / 0x80;
        let acc2 = acc + (v % 0x80) * vi_weight(i);
        assert(v == 0x80 * v2 + v % 0x80);
        assert(vi_weight(i + 1) == 0x80 * vi_weight(i));
        assert(v * vi_weight(i) == (v % 0x80) * vi_weight(i) + v2 * vi_weight(i + 1))
            by (nonlinear_arith)
            requires
                v == 0x80 * v2 + v % 0x80,
                vi_weight(i + 1) == 0x80 * vi_weight(i),
        ;
        assert(acc2 < vi_weight(i + 1)) by (nonlinear_arith)
            requires
                acc < vi_weight(i),
                0 <= v % 0x80 < 0x80,
                vi_weight(i + 1) == 0x80 * vi_weight(i),
                acc2 == acc + (v % 0x80) * vi_weight(i),
                vi_weight(i) >= 1,
        ;
        // the tail of the encoding is the encoding of v / 0x80
        assert(e == seq![(0x80 + v % 0x80) as u8] + varint_bytes(v2));
        assert(varint_len(v) == 1 + varint_len(v2));
        assert(s.subrange(i + 1, i + 1 + varint_len(v2)) =~= varint_bytes(v2)) by {
            assert forall|k: int| 0 <= k < varint_len(v2) implies s.subrange(
                i + 1,
                i + 1 + varint_len(v2),
            )[k] == varint_bytes(v2)[k] by {
                assert(s.subrange(i, i + varint_len(v))[k + 1] == varint_bytes(v)[k + 1]);
            }
        }
        lemma_vp_of_encode(s, v2, i + 1, acc2);
        assert(vp(s, i, acc) == vp(s, i + 1, acc2));
    }
}

/// VarInt round trip: parsing the canonical encoding of any `u32`, with any
/// bytes following it, yields that value and consumes exactly the encoding.
pub proof fn lemma_varint_round_trip(v: u32, rest: Seq<u8>)
    ensures
        varint_parse(varint_bytes(v as int) + rest) == (VarIntRes::Val {
            v: v as int,
            n: varint_len(v as int),
        }),
        1 <= varint_len(v as int) <= 5,
{
    lemma_varint_len(v as int);
    let s = varint_bytes(v as int) + rest;
    assert(s.subrange(0, varint_len(v as int)) =~= varint_bytes(v as int));
    assert(vi_weight(0) == 1);
    lemma_vp_of_encode(s, v as int, 0, 0);
}

proof fn lemma_vp_leading_zero(s: Seq<u8>, i: int, acc: int, j: int)
    requires
        0 <= i <= j,
        0 < j <= 4,
        j < s.len(),
        s[j] == 0,
        forall|t: int| i <= t < j ==> s[t] >= 0x80,
    ensures
        vp(s, i, acc) == VarIntRes::Malformed,
    decreases j - i,
{
    if i < j {
        lemma_vp_leading_zero(s, i + 1, acc + (s[i] - 0x80) * vi_weight(i), j);
    }
}

/// An encoding whose final group is zero (a leading-zero continuation) is
/// rejected by the parser.
pub proof fn lemma_varint_leading_zero_rejected(s: Seq<u8>, j: int)
    requires
        0 < j <= 4,
        j < s.len(),
        s[j] == 0,
        forall|t: int| 0 <= t < j ==> s[t] >= 0x80,
    ensures
        varint_parse(s) == VarIntRes::Malformed,
{
    lemma_vp_leading_zero(s, 0, 0, j);
}

/// A parsed VarInt occupies between 1 and 5 bytes of the input and its value
/// is a `u32`.
pub proof fn lemma_varint_parse_bounds(s: Seq<u8>)
    ensures
        varint_parse(s) matches VarIntRes::Val { v, n } ==> 1 <= n <= 5 && n <= s.len() && 0 <= v
            < 0x100000000,
{
    lemma_vp_bounds(s, 0, 0);
}

proof fn lemma_vp_bounds(s: Seq<u8>, i: int, acc: int)
    requires
        0 <= i <= 4,
        0 <= acc < vi_weight(i),
    ensures
        vp(s, i, acc) matches VarIntRes::Val { v, n } ==> i < n <= 5 && n <= s.len() && 0 <= v
            < 0x100000000,
    decreases 5 - i,
{
    if i < s.len() {
        let b = s[i] as int;
        if b >= 0x80 && i < 4 {
            lemma_vp_bounds(s, i + 1, acc + (b - 0x80) * vi_weight(i));
        }
    }
}

} // verus!
