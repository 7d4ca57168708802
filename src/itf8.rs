//! ITF8: the variable-width signed 32-bit integer encoding of the container
//! format.
//!
//! A value takes one to five bytes. The count of leading one bits in the first
//! byte gives the number of bytes that follow it; negative values always take
//! five bytes.
use vstd::prelude::*;

verus! {

/// The number of bytes that the ITF8 form of `value` takes.
pub open spec fn encoded_size(value: i32) -> nat {
    if 0 <= value < 0x80 {
        1
    } else if 0 <= value < 0x4000 {
        2
    } else if 0 <= value < 0x20_0000 {
        3
    } else if 0 <= value < 0x1000_0000 {
        4
    } else {
        5
    }
}

/// The two's complement bit pattern of `value`, as a natural number.
pub open spec fn bits(value: i32) -> nat {
    if value >= 0 {
        value as nat
    } else {
        (value + 0x1_0000_0000) as nat
    }
}

/// The ITF8 bytes of `value`.
#[verifier::opaque]
pub open spec fn encoded(value: i32) -> Seq<u8> {
    let u = bits(value);
    if encoded_size(value) == 1 {
        seq![u as u8]
    } else if encoded_size(value) == 2 {
        seq![(0x80 + u / 0x100) as u8, (u % 256) as u8]
    } else if encoded_size(value) == 3 {
        seq![(0xc0 + u / 0x1_0000) as u8, (u / 0x100 % 256) as u8, (u % 256) as u8]
    } else if encoded_size(value) == 4 {
        seq![
            (0xe0 + u / 0x100_0000) as u8,
            (u / 0x1_0000 % 256) as u8,
            (u / 0x100 % 256) as u8,
            (u % 256) as u8,
        ]
    } else {
        seq![
            (0xf0 + u / 0x1000_0000) as u8,
            (u / 0x10_0000 % 256) as u8,
            (u / 0x1000 % 256) as u8,
            (u / 0x10 % 256) as u8,
            (u % 0x10) as u8,
        ]
    }
}

/// Returns the number of bytes that the ITF8 form of `value` takes.
pub fn size_of(value: i32) -> (r: usize)
    ensures
        r as nat == encoded_size(value),
        1 <= r <= 5,
{
    if value < 0 {
        5
    } else if value < 0x80 {
        1
    } else if value < 0x4000 {
        2
    } else if value < 0x20_0000 {
        3
    } else if value < 0x1000_0000 {
        4
    } else {
        5
    }
}

/// Appends the ITF8 form of `value` to `dst`.
pub fn write_itf8(dst: &mut Vec<u8>, value: i32)
    ensures
        final(dst)@ == old(dst)@ + encoded(value),
{
    let u: u32 = if value >= 0 {
        value as u32
    } else {
        (value as i64 + 0x1_0000_0000) as u32
    };
    let size = size_of(value);
    proof {
        reveal(encoded);
    }
    if size == 1 {
        dst.push(u as u8);
    } else if size == 2 {
        dst.push((0x80 + u / 0x100) as u8);
        dst.push((u % 256) as u8);
    } else if size == 3 {
        dst.push((0xc0 + u / 0x1_0000) as u8);
        dst.push((u / 0x100 % 256) as u8);
        dst.push((u % 256) as u8);
    } else if size == 4 {
        dst.push((0xe0 + u / 0x100_0000) as u8);
        dst.push((u / 0x1_0000 % 256) as u8);
        dst.push((u / 0x100 % 256) as u8);
        dst.push((u % 256) as u8);
    } else {
        dst.push((0xf0 + u / 0x1000_0000) as u8);
        dst.push((u / 0x10_0000 % 256) as u8);
        dst.push((u / 0x1000 % 256) as u8);
        dst.push((u / 0x10 % 256) as u8);
        dst.push((u % 0x10) as u8);
    }
    assert(final(dst)@ =~= old(dst)@ + encoded(value));
}

/// Appends `value` to `dst` as four little-endian bytes.
pub fn write_u32_le(dst: &mut Vec<u8>, value: u32)
    ensures
        final(dst)@ == old(dst)@ + le_u32_bytes(value),
{
    dst.push((value % 256) as u8);
    dst.push((value / 0x100 % 256) as u8);
    dst.push((value / 0x1_0000 % 256) as u8);
    dst.push((value / 0x100_0000) as u8);
    assert(final(dst)@ =~= old(dst)@ + le_u32_bytes(value));
}

/// The `i32` whose two's complement bit pattern is `u`, for `u` in
/// `0..2^32`.
pub open spec fn from_bits(u: int) -> i32 {
    if u < 0x8000_0000 {
        u as i32
    } else {
        (u - 0x1_0000_0000) as i32
    }
}

/// The value that the ITF8 bytes at the start of `b` stand for, and how many
/// bytes they take; `None` where `b` ends first.
#[verifier::opaque]
pub open spec fn decoded(b: Seq<u8>) -> Option<(i32, nat)> {
    if b.len() < 1 {
        None
    } else {
        let b0 = b[0] as int;
        if b0 < 0x80 {
            Some((b0 as i32, 1))
        } else if b0 < 0xc0 {
            if b.len() < 2 {
                None
            } else {
                Some((((b0 - 0x80) * 0x100 + b[1]) as i32, 2))
            }
        } else if b0 < 0xe0 {
            if b.len() < 3 {
                None
            } else {
                Some((((b0 - 0xc0) * 0x1_0000 + b[1] * 0x100 + b[2]) as i32, 3))
            }
        } else if b0 < 0xf0 {
            if b.len() < 4 {
                None
            } else {
                Some(
                    (
                        ((b0 - 0xe0) * 0x100_0000 + b[1] * 0x1_0000 + b[2] * 0x100 + b[3]) as i32,
                        4,
                    ),
                )
            }
        } else {
            if b.len() < 5 {
                None
            } else {
                Some(
                    (
                        from_bits(
                            (b0 - 0xf0) * 0x1000_0000 + b[1] * 0x10_0000 + b[2] * 0x1000 + b[3]
                                * 0x10 + b[4] % 0x10,
                        ),
                        5,
                    ),
                )
            }
        }
    }
}

/// Reads the ITF8 value that starts at `pos` in `src`, and the number of
/// bytes it takes.
pub fn read_itf8(src: &[u8], pos: usize) -> (r: Option<(i32, usize)>)
    requires
        pos <= src@.len(),
    ensures
        match r {
            Some((v, n)) => decoded(src@.subrange(pos as int, src@.len() as int)) == Some(
                (v, n as nat),
            ) && 1 <= n <= 5 && pos + n <= src@.len(),
            None => decoded(src@.subrange(pos as int, src@.len() as int)) is None,
        },
{
    let ghost b = src@.subrange(pos as int, src@.len() as int);
    proof {
        reveal(decoded);
    }
    let len = src.len() - pos;
    if len < 1 {
        return None;
    }
    let b0 = src[pos] as i64;
    if b0 < 0x80 {
        Some((b0 as i32, 1))
    } else if b0 < 0xc0 {
        if len < 2 {
            return None;
        }
        Some((((b0 - 0x80) * 0x100 + src[pos + 1] as i64) as i32, 2))
    } else if b0 < 0xe0 {
        if len < 3 {
            return None;
        }
        Some(
            (
                ((b0 - 0xc0) * 0x1_0000 + src[pos + 1] as i64 * 0x100 + src[pos + 2] as i64) as i32,
                3,
            ),
        )
    } else if b0 < 0xf0 {
        if len < 4 {
            return None;
        }
        Some(
            (
                ((b0 - 0xe0) * 0x100_0000 + src[pos + 1] as i64 * 0x1_0000 + src[pos + 2] as i64
                    * 0x100 + src[pos + 3] as i64) as i32,
                4,
            ),
        )
    } else {
        if len < 5 {
            return None;
        }
        let u: i64 = (b0 - 0xf0) * 0x1000_0000 + src[pos + 1] as i64 * 0x10_0000 + src[pos + 2] as i64
            * 0x1000 + src[pos + 3] as i64 * 0x10 + src[pos + 4] as i64 % 0x10;
        let v: i32 = if u < 0x8000_0000 {
            u as i32
        } else {
            (u - 0x1_0000_0000) as i32
        };
        Some((v, 5))
    }
}

/// Reading the ITF8 form of a value, whatever follows it, gives the value
/// back and the size of its form.
pub proof fn lemma_itf8_round_trip(value: i32, rest: Seq<u8>)
    ensures
        decoded(encoded(value) + rest) == Some((value, encoded_size(value))),
{
    reveal(encoded);
    let e = encoded(value);
    let b = e + rest;
    assert(forall|k: int| 0 <= k < e.len() ==> b[k] == e[k]);
    let size = encoded_size(value);
    if size == 1 {
        reveal(decoded);
        assert(b[0] == value as u8);
    } else if size == 2 {
        lemma_two_bytes(value, b);
    } else if size == 3 {
        lemma_three_bytes(value, b);
    } else if size == 4 {
        lemma_four_bytes(value, b);
    } else {
        lemma_five_bytes(value, b);
    }
}

proof fn lemma_two_bytes(value: i32, b: Seq<u8>)
    requires
        encoded_size(value) == 2,
        b.len() >= 2,
        b[0] == encoded(value)[0],
        b[1] == encoded(value)[1],
    ensures
        decoded(b) == Some((value, 2nat)),
{
    reveal(encoded);
    reveal(decoded);
    let u = value as int;
    assert(b[0] as int == 0x80 + u / 0x100);
    assert(b[1] as int == u % 0x100);
}

proof fn lemma_three_bytes(value: i32, b: Seq<u8>)
    requires
        encoded_size(value) == 3,
        b.len() >= 3,
        b[0] == encoded(value)[0],
        b[1] == encoded(value)[1],
        b[2] == encoded(value)[2],
    ensures
        decoded(b) == Some((value, 3nat)),
{
    reveal(encoded);
    reveal(decoded);
    let u = value as int;
    assert(b[0] as int == 0xc0 + u / 0x1_0000);
    assert(b[1] as int == u / 0x100 % 0x100);
    assert(b[2] as int == u % 0x100);
    assert((u / 0x1_0000) * 0x1_0000 + (u / 0x100 % 0x100) * 0x100 + u % 0x100 == u);
}

proof fn lemma_four_bytes(value: i32, b: Seq<u8>)
    requires
        encoded_size(value) == 4,
        b.len() >= 4,
        b[0] == encoded(value)[0],
        b[1] == encoded(value)[1],
        b[2] == encoded(value)[2],
        b[3] == encoded(value)[3],
    ensures
        decoded(b) == Some((value, 4nat)),
{
    reveal(encoded);
    reveal(decoded);
    let u = value as int;
    assert(b[0] as int == 0xe0 + u / 0x100_0000);
    assert(b[1] as int == u / 0x1_0000 % 0x100);
    assert(b[2] as int == u / 0x100 % 0x100);
    assert(b[3] as int == u % 0x100);
    assert((u / 0x100_0000) * 0x100_0000 + (u / 0x1_0000 % 0x100) * 0x1_0000 + (u / 0x100 % 0x100)
        * 0x100 + u % 0x100 == u);
}

proof fn lemma_five_bytes(value: i32, b: Seq<u8>)
    requires
        encoded_size(value) == 5,
        b.len() >= 5,
        b[0] == encoded(value)[0],
        b[1] == encoded(value)[1],
        b[2] == encoded(value)[2],
        b[3] == encoded(value)[3],
        b[4] == encoded(value)[4],
    ensures
        decoded(b) == Some((value, 5nat)),
{
    reveal(encoded);
    reveal(decoded);
    let u = bits(value) as int;
    assert(0 <= u < 0x1_0000_0000);
    assert(b[0] as int == 0xf0 + u / 0x1000_0000);
    assert(b[1] as int == u / 0x10_0000 % 0x100);
    assert(b[2] as int == u / 0x1000 % 0x100);
    assert(b[3] as int == u / 0x10 % 0x100);
    assert(b[4] as int == u % 0x10);
    assert((u / 0x1000_0000) * 0x1000_0000 + (u / 0x10_0000 % 0x100) * 0x10_0000 + (u / 0x1000
        % 0x100) * 0x1000 + (u / 0x10 % 0x100) * 0x10 + u % 0x10 == u);
    assert(from_bits(u) == value);
}

/// The four little-endian bytes of `value`.
pub open spec fn le_u32_bytes(value: u32) -> Seq<u8> {
    seq![
        (value % 256) as u8,
        (value / 0x100 % 256) as u8,
        (value / 0x1_0000 % 256) as u8,
        (value / 0x100_0000) as u8,
    ]
}

} // verus!
