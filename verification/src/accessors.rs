//! Narrow read-only queries over an already-decoded transaction: the
//! authentication flag, fee and nonce bytes, the signer hash check, the
//! pre-signature byte sequence and the last-block offset.

use vstd::prelude::*;

use crate::bytes::{be8_vec, be_val, lemma_be_val_bound, lemma_pow256_vals};
use crate::decode::sp_parse_tx;
use crate::error::ParserError;
use crate::hash::{hash160_of, ripemd160, sha256};
use crate::model::{SpendingCondition, Transaction, TxView, HASH_LEN, HASH_MODE_MULTI, HASH_MODE_SINGLE};

verus! {

/// `n` zero bytes.
pub open spec fn zero_seq(n: nat) -> Seq<u8> {
    Seq::new(n, |i: int| 0u8)
}

/// The bytes of one spending condition with its signature fields
/// neutralized: the decoded prefix (hash mode, signer, nonce, fee) kept
/// as it stands on the wire, a zeroed signature for a single signer, a
/// zeroed field area for multiple signers.
pub open spec fn spec_cleared_cond(c: SpendingCondition, buf: Seq<u8>) -> Seq<u8> {
    if c.hash_mode == HASH_MODE_SINGLE {
        buf.subrange(c.signer_off - 1, c.signer_off + 37) + zero_seq(65)
    } else {
        buf.subrange(c.signer_off - 1, c.signer_off + 36) + zero_seq(4) + buf.subrange(
            c.fields_off + c.num_fields * 66,
            c.fields_off + c.num_fields * 66 + 2,
        )
    }
}

/// The canonical pre-image of the signature: the header followed by the
/// cleared spending conditions.
pub open spec fn spec_presig(t: TxView, buf: Seq<u8>) -> Seq<u8> {
    let base = buf.subrange(0, 6) + spec_cleared_cond(t.origin, buf);
    match t.sponsor {
        Some(sp) => base + spec_cleared_cond(sp, buf),
        None => base,
    }
}

/// Appends the byte span `[off, off + n)` of the buffer.
fn push_span(out: &mut Vec<u8>, buf: &Vec<u8>, off: u16, n: u16)
    requires
        off + n <= buf@.len(),
        buf@.len() <= 0xFFFF,
    ensures
        final(out)@ == old(out)@ + buf@.subrange(off as int, off as int + n as int),
{
    let mut i: u16 = 0;
    proof {
        assert(old(out)@ + buf@.subrange(off as int, off as int) =~= old(out)@);
    }
    while i < n
        invariant
            i <= n,
            off + n <= buf@.len(),
            buf@.len() <= 0xFFFF,
            out@ =~= old(out)@ + buf@.subrange(off as int, off as int + i as int),
        decreases n - i,
    {
        out.push(buf[(off + i) as usize]);
        proof {
            assert(old(out)@ + buf@.subrange(off as int, off as int + i as int + 1) =~= (old(out)@
                + buf@.subrange(off as int, off as int + i as int)).push(
                buf@[off as int + i as int],
            ));
        }
        i = i + 1;
    }
}

/// Appends `n` zero bytes.
fn push_zeros(out: &mut Vec<u8>, n: u16)
    ensures
        final(out)@ == old(out)@ + zero_seq(n as nat),
{
    let mut i: u16 = 0;
    proof {
        assert(old(out)@ + zero_seq(0) =~= old(out)@);
    }
    while i < n
        invariant
            i <= n,
            out@ =~= old(out)@ + zero_seq(i as nat),
        decreases n - i,
    {
        out.push(0);
        proof {
            assert(old(out)@ + zero_seq(i as nat + 1) =~= (old(out)@ + zero_seq(i as nat)).push(
                0u8,
            ));
        }
        i = i + 1;
    }
}

/// Whether the byte span at `off` equals `other`, byte for byte.
fn span_equals(buf: &Vec<u8>, off: u16, other: &Vec<u8>) -> (r: bool)
    requires
        off + other@.len() <= buf@.len(),
        buf@.len() <= 0xFFFF,
    ensures
        r == (buf@.subrange(off as int, off as int + other@.len() as int) == other@),
{
    let n: u16 = other.len() as u16;
    let mut i: u16 = 0;
    while i < n
        invariant
            i <= n,
            n == other@.len(),
            off + n <= buf@.len(),
            buf@.len() <= 0xFFFF,
            forall|j: int| 0 <= j < i ==> buf@[off + j] == other@[j],
        decreases n - i,
    {
        if buf[(off + i) as usize] != other[i as usize] {
            proof {
                assert(buf@.subrange(off as int, off as int + n as int)[i as int] != other@[
                i as int]);
            }
            return false;
        }
        i = i + 1;
    }
    proof {
        assert(buf@.subrange(off as int, off as int + n as int) =~= other@);
    }
    true
}

impl Transaction {
    /// The authentication type tag, unformatted.
    pub fn auth_flag(&self) -> (r: u8)
        ensures
            r == self@.auth_type,
    {
        self.auth_type
    }

    /// The fee the origin condition declares. Every supported
    /// transaction kind carries a fee, so this is always present.
    pub fn fee(&self) -> (r: Option<u64>)
        ensures
            r == Some(self@.origin.fee),
    {
        Some(self.origin.fee)
    }

    /// The nonce the origin condition declares; present like the fee.
    pub fn nonce(&self) -> (r: Option<u64>)
        ensures
            r == Some(self@.origin.nonce),
    {
        Some(self.origin.nonce)
    }

    /// Writes the fee as its 8-byte big-endian encoding and returns 8;
    /// returns 0 and leaves the buffer alone when the capacity (the
    /// buffer's length on entry) is under 8.
    pub fn fee_bytes(&self, out: &mut Vec<u8>) -> (r: u8)
        ensures
            old(out)@.len() >= 8 ==> r == 8 && final(out)@.len() == 8 && be_val(final(out)@)
                == self@.origin.fee,
            old(out)@.len() < 8 ==> r == 0 && final(out)@ == old(out)@,
    {
        if out.len() < 8 {
            return 0;
        }
        let b = be8_vec(self.origin.fee);
        *out = b;
        8
    }

    /// Writes the nonce as its 8-byte big-endian encoding; the same
    /// conventions as `fee_bytes`.
    pub fn nonce_bytes(&self, out: &mut Vec<u8>) -> (r: u8)
        ensures
            old(out)@.len() >= 8 ==> r == 8 && final(out)@.len() == 8 && be_val(final(out)@)
                == self@.origin.nonce,
            old(out)@.len() < 8 ==> r == 0 && final(out)@ == old(out)@,
    {
        if out.len() < 8 {
            return 0;
        }
        let b = be8_vec(self.origin.nonce);
        *out = b;
        8
    }

    /// Whether `pubkey` hashes to the signer hash the origin spending
    /// condition records. A multi-signer condition records no single
    /// key, so the check reports `NoData` there.
    pub fn check_signer_pubkey_hash(&self, buf: &Vec<u8>, pubkey: &Vec<u8>) -> (r: Result<
        bool,
        ParserError,
    >)
        requires
            self@.wf(buf@.len() as int),
        ensures
            self@.origin.hash_mode == HASH_MODE_MULTI ==> r == Err::<bool, ParserError>(
                ParserError::NoData,
            ),
            self@.origin.hash_mode == HASH_MODE_SINGLE ==> r == Ok::<bool, ParserError>(
                buf@.subrange(
                    self@.origin.signer_off as int,
                    self@.origin.signer_off + HASH_LEN,
                ) == hash160_of(pubkey@),
            ),
    {
        if self.origin.hash_mode == HASH_MODE_MULTI {
            return Err(ParserError::NoData);
        }
        let sh = sha256(pubkey);
        let h = ripemd160(&sh);
        Ok(span_equals(buf, self.origin.signer_off, &h))
    }

    /// Serializes the canonical pre-image (header plus cleared spending
    /// conditions) into the caller's buffer and returns its byte count;
    /// returns 0 and leaves the buffer alone when the capacity (the
    /// buffer's length on entry) is too small.
    pub fn presig_hash_data(&self, buf: &Vec<u8>, out: &mut Vec<u8>) -> (r: u16)
        requires
            self@.wf(buf@.len() as int),
        ensures
            r != 0 ==> r == spec_presig(self@, buf@).len() && final(out)@ == spec_presig(
                self@,
                buf@,
            ),
            r == 0 <==> old(out)@.len() < spec_presig(self@, buf@).len(),
            r == 0 ==> final(out)@ == old(out)@,
    {
        let origin_len: u16 = if self.origin.hash_mode == HASH_MODE_SINGLE {
            103
        } else {
            43
        };
        let sponsor_len: u16 = match &self.sponsor {
            Some(sp) => {
                if sp.hash_mode == HASH_MODE_SINGLE {
                    103
                } else {
                    43
                }
            },
            None => 0,
        };
        let need: u16 = 6 + origin_len + sponsor_len;
        proof {
            lemma_cleared_cond_len(self@.origin, buf@);
            if self@.sponsor is Some {
                lemma_cleared_cond_len(self@.sponsor->0, buf@);
            }
            assert(spec_presig(self@, buf@).len() == need);
        }
        if out.len() < need as usize {
            return 0;
        }
        let mut v: Vec<u8> = Vec::new();
        push_span(&mut v, buf, 0, 6);
        self.push_cleared_cond_origin(buf, &mut v);
        match &self.sponsor {
            Some(_) => {
                self.push_cleared_cond_sponsor(buf, &mut v);
            },
            None => {},
        }
        proof {
            assert(v@ =~= spec_presig(self@, buf@));
        }
        *out = v;
        need
    }

    fn push_cleared_cond_origin(&self, buf: &Vec<u8>, v: &mut Vec<u8>)
        requires
            self@.wf(buf@.len() as int),
        ensures
            final(v)@ == old(v)@ + spec_cleared_cond(self@.origin, buf@),
    {
        push_cleared_cond(&self.origin, buf, v)
    }

    fn push_cleared_cond_sponsor(&self, buf: &Vec<u8>, v: &mut Vec<u8>)
        requires
            self@.wf(buf@.len() as int),
            self@.sponsor is Some,
        ensures
            final(v)@ == old(v)@ + spec_cleared_cond(self@.sponsor->0, buf@),
    {
        match &self.sponsor {
            Some(sp) => push_cleared_cond(sp, buf, v),
            None => {},
        }
    }

    /// The offset of the final structural block (everything after the
    /// authentication section), for callers that stream hashing.
    pub fn last_block_offset(&self) -> (r: u16)
        ensures
            r == self@.post_auth_off,
    {
        self.post_auth_off
    }
}

/// A cleared spending condition is 103 bytes for a single signer and
/// 43 for multiple signers.
pub proof fn lemma_cleared_cond_len(c: SpendingCondition, buf: Seq<u8>)
    requires
        c.wf(buf.len() as int),
    ensures
        c.hash_mode == HASH_MODE_SINGLE ==> spec_cleared_cond(c, buf).len() == 103,
        c.hash_mode == HASH_MODE_MULTI ==> spec_cleared_cond(c, buf).len() == 43,
{
}

fn push_cleared_cond(c: &SpendingCondition, buf: &Vec<u8>, v: &mut Vec<u8>)
    requires
        c.wf(buf@.len() as int),
        buf@.len() <= 0xFFFF,
    ensures
        final(v)@ == old(v)@ + spec_cleared_cond(*c, buf@),
{
    if c.hash_mode == HASH_MODE_SINGLE {
        push_span(v, buf, c.signer_off - 1, 38);
        push_zeros(v, 65);
        proof {
            assert(old(v)@ + spec_cleared_cond(*c, buf@) =~= (old(v)@ + buf@.subrange(
                c.signer_off - 1,
                c.signer_off + 37,
            )) + zero_seq(65));
        }
    } else {
        push_span(v, buf, c.signer_off - 1, 37);
        push_zeros(v, 4);
        let sig_count_off: u16 = c.fields_off + (c.num_fields as u16) * 66;
        push_span(v, buf, sig_count_off, 2);
        proof {
            assert(old(v)@ + spec_cleared_cond(*c, buf@) =~= ((old(v)@ + buf@.subrange(
                c.signer_off - 1,
                c.signer_off + 36,
            )) + zero_seq(4)) + buf@.subrange(
                c.fields_off + c.num_fields * 66,
                c.fields_off + c.num_fields * 66 + 2,
            ));
        }
    }
}

/// The fee and nonce byte queries round-trip: read back as a number,
/// their big-endian output equals the very bytes the input transaction
/// encoded those fields with.
pub proof fn lemma_fee_nonce_roundtrip(buf: Seq<u8>, t: TxView, fee_out: Seq<u8>, nonce_out: Seq<
    u8,
>)
    requires
        sp_parse_tx(buf) == Ok::<TxView, ParserError>(t),
        fee_out.len() == 8,
        be_val(fee_out) == t.origin.fee,
        nonce_out.len() == 8,
        be_val(nonce_out) == t.origin.nonce,
    ensures
        be_val(fee_out) == be_val(buf.subrange(35, 43)),
        be_val(nonce_out) == be_val(buf.subrange(27, 35)),
        t.origin.signer_off == 7,
        buf.subrange(35, 43) == buf.subrange(
            t.origin.signer_off + 28,
            t.origin.signer_off + 36,
        ),
        buf.subrange(27, 35) == buf.subrange(
            t.origin.signer_off + 20,
            t.origin.signer_off + 28,
        ),
{
    lemma_be_val_bound(buf.subrange(35, 43));
    lemma_be_val_bound(buf.subrange(27, 35));
    lemma_pow256_vals();
}

} // verus!
