//! Bounds-checked big-endian reads over the input buffer, and the
//! mathematical value a big-endian byte sequence denotes.

use vstd::prelude::*;

use crate::error::ParserError;

verus! {

/// The unsigned integer denoted by a big-endian byte sequence.
pub open spec fn be_val(s: Seq<u8>) -> nat
    decreases s.len(),
{
    if s.len() == 0 {
        0
    } else {
        (be_val(s.drop_last()) * 256 + s.last()) as nat
    }
}

/// 256 raised to `n`.
pub open spec fn pow256(n: nat) -> nat
    decreases n,
{
    if n == 0 {
        1
    } else {
        256 * pow256((n - 1) as nat)
    }
}

pub proof fn lemma_be_val_push(s: Seq<u8>, b: u8)
    ensures
        be_val(s.push(b)) == be_val(s) * 256 + b,
{
    assert(s.push(b).drop_last() =~= s);
    assert(s.push(b).last() == b);
}

pub proof fn lemma_be_val_bound(s: Seq<u8>)
    ensures
        be_val(s) < pow256(s.len()),
    decreases s.len(),
{
    if s.len() == 0 {
    } else {
        let d = s.drop_last();
        lemma_be_val_bound(d);
        assert(be_val(s) < pow256(s.len())) by (nonlinear_arith)
            requires
                be_val(s) == be_val(d) * 256 + s.last(),
                be_val(d) < pow256(d.len()),
                s.last() < 256,
                pow256(s.len()) == 256 * pow256(d.len()),
                d.len() == s.len() - 1,
        {
        }
    }
}

pub proof fn lemma_pow256_le(a: nat, b: nat)
    requires
        a <= b,
    ensures
        pow256(a) <= pow256(b),
    decreases b,
{
    if a < b {
        lemma_pow256_le(a, (b - 1) as nat);
        assert(pow256(b) == 256 * pow256((b - 1) as nat));
    }
}

pub proof fn lemma_pow256_vals()
    ensures
        pow256(1) == 0x100,
        pow256(2) == 0x10000,
        pow256(4) == 0x100000000,
        pow256(7) == 0x100000000000000,
        pow256(8) == 0x10000000000000000,
{
    assert(pow256(0) == 1);
    assert(pow256(1) == 0x100);
    assert(pow256(2) == 0x10000);
    assert(pow256(3) == 0x1000000);
    assert(pow256(4) == 0x100000000);
    assert(pow256(5) == 0x10000000000);
    assert(pow256(6) == 0x1000000000000);
    assert(pow256(7) == 0x100000000000000);
    assert(pow256(8) == 0x10000000000000000);
}

/// Reads the byte at `off`; on success the new offset is `off + 1`.
/// Fails with `UnexpectedEnd` and no advance when the buffer is exhausted.
pub fn read_u8(buf: &Vec<u8>, off: u16) -> (r: Result<(u8, u16), ParserError>)
    requires
        buf@.len() <= 0xFFFF,
    ensures
        off < buf@.len() ==> r is Ok && r->Ok_0.0 == buf@[off as int] && r->Ok_0.1 == off + 1,
        off >= buf@.len() ==> r == Err::<(u8, u16), ParserError>(ParserError::UnexpectedEnd),
{
    if (off as usize) < buf.len() {
        Ok((buf[off as usize], off + 1))
    } else {
        Err(ParserError::UnexpectedEnd)
    }
}

/// Reads `n` big-endian bytes at `off` as one unsigned integer; on success
/// the new offset is `off + n`. Fails with `UnexpectedEnd` when fewer than
/// `n` bytes remain.
pub fn read_be_uint(buf: &Vec<u8>, off: u16, n: u16) -> (r: Result<(u64, u16), ParserError>)
    requires
        buf@.len() <= 0xFFFF,
        1 <= n <= 8,
    ensures
        off + n <= buf@.len() ==> r is Ok && r->Ok_0.0 == be_val(
            buf@.subrange(off as int, off as int + n as int),
        ) && r->Ok_0.1 == off + n,
        off + n > buf@.len() ==> r == Err::<(u64, u16), ParserError>(ParserError::UnexpectedEnd),
{
    if (off as usize) + (n as usize) > buf.len() {
        return Err(ParserError::UnexpectedEnd);
    }
    let mut v: u64 = 0;
    let mut i: u16 = 0;
    proof {
        assert(buf@.subrange(off as int, off as int) =~= Seq::<u8>::empty());
    }
    while i < n
        invariant
            i <= n,
            1 <= n <= 8,
            off + n <= buf@.len() <= 0xFFFF,
            v == be_val(buf@.subrange(off as int, off as int + i as int)),
        decreases n - i,
    {
        let b = buf[(off + i) as usize];
        proof {
            let pre = buf@.subrange(off as int, off as int + i as int);
            lemma_be_val_bound(pre);
            lemma_pow256_le(pre.len() as nat, 7);
            lemma_pow256_vals();
            assert(v < 0x100000000000000);
            assert(buf@.subrange(off as int, off as int + i as int + 1) =~= pre.push(
                buf@[off as int + i as int],
            ));
            lemma_be_val_push(pre, buf@[off as int + i as int]);
        }
        v = v * 256 + (b as u64);
        i = i + 1;
    }
    Ok((v, off + n))
}

/// Checks that `n` bytes are available at `off`; on success the new offset
/// is `off + n`, and the span `[off, off + n)` is in bounds.
pub fn take_span(buf: &Vec<u8>, off: u16, n: u16) -> (r: Result<u16, ParserError>)
    requires
        buf@.len() <= 0xFFFF,
    ensures
        off + n <= buf@.len() ==> r is Ok && r->Ok_0 == off + n,
        off + n > buf@.len() ==> r == Err::<u16, ParserError>(ParserError::UnexpectedEnd),
{
    if (off as usize) + (n as usize) <= buf.len() {
        Ok(off + n)
    } else {
        Err(ParserError::UnexpectedEnd)
    }
}

/// The 8-byte big-endian encoding of `v`, as a fresh vector.
pub fn be8_vec(v: u64) -> (r: Vec<u8>)
    ensures
        r@.len() == 8,
        be_val(r@) == v,
{
    let mut r: Vec<u8> = Vec::new();
    let b0: u64 = (v >> 56) & 0xff;
    let b1: u64 = (v >> 48) & 0xff;
    let b2: u64 = (v >> 40) & 0xff;
    let b3: u64 = (v >> 32) & 0xff;
    let b4: u64 = (v >> 24) & 0xff;
    let b5: u64 = (v >> 16) & 0xff;
    let b6: u64 = (v >> 8) & 0xff;
    let b7: u64 = v & 0xff;
    proof {
        assert(b0 < 256 && b1 < 256 && b2 < 256 && b3 < 256 && b4 < 256 && b5 < 256 && b6 < 256
            && b7 < 256) by (bit_vector)
            requires
                b0 == (v >> 56) & 0xff,
                b1 == (v >> 48) & 0xff,
                b2 == (v >> 40) & 0xff,
                b3 == (v >> 32) & 0xff,
                b4 == (v >> 24) & 0xff,
                b5 == (v >> 16) & 0xff,
                b6 == (v >> 8) & 0xff,
                b7 == v & 0xff,
        ;
    }
    r.push(b0 as u8);
    r.push(b1 as u8);
    r.push(b2 as u8);
    r.push(b3 as u8);
    r.push(b4 as u8);
    r.push(b5 as u8);
    r.push(b6 as u8);
    r.push(b7 as u8);
    proof {
        let s0 = Seq::<u8>::empty();
        assert(r@ =~= s0.push(b0 as u8).push(b1 as u8).push(b2 as u8).push(b3 as u8).push(
            b4 as u8,
        ).push(b5 as u8).push(b6 as u8).push(b7 as u8));
        lemma_be_val_push(s0, b0 as u8);
        lemma_be_val_push(s0.push(b0 as u8), b1 as u8);
        lemma_be_val_push(s0.push(b0 as u8).push(b1 as u8), b2 as u8);
        lemma_be_val_push(s0.push(b0 as u8).push(b1 as u8).push(b2 as u8), b3 as u8);
        lemma_be_val_push(s0.push(b0 as u8).push(b1 as u8).push(b2 as u8).push(b3 as u8), b4 as u8);
        lemma_be_val_push(
            s0.push(b0 as u8).push(b1 as u8).push(b2 as u8).push(b3 as u8).push(b4 as u8),
            b5 as u8,
        );
        lemma_be_val_push(
            s0.push(b0 as u8).push(b1 as u8).push(b2 as u8).push(b3 as u8).push(b4 as u8).push(
                b5 as u8,
            ),
            b6 as u8,
        );
        lemma_be_val_push(
            s0.push(b0 as u8).push(b1 as u8).push(b2 as u8).push(b3 as u8).push(b4 as u8).push(
                b5 as u8,
            ).push(b6 as u8),
            b7 as u8,
        );
        assert(be_val(r@) == ((((((b0 * 256 + b1) * 256 + b2) * 256 + b3) * 256 + b4) * 256 + b5)
            * 256 + b6) * 256 + b7);
        assert(((((((b0 * 256 + b1) * 256 + b2) * 256 + b3) * 256 + b4) * 256 + b5) * 256 + b6)
            * 256 + b7 == v) by (bit_vector)
            requires
                b0 == (v >> 56) & 0xff,
                b1 == (v >> 48) & 0xff,
                b2 == (v >> 40) & 0xff,
                b3 == (v >> 32) & 0xff,
                b4 == (v >> 24) & 0xff,
                b5 == (v >> 16) & 0xff,
                b6 == (v >> 8) & 0xff,
                b7 == v & 0xff,
        ;
    }
    r
}

} // verus!
