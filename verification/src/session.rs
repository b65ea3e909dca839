//! The boundary adapter: the context and state handle external callers
//! drive a session through, with the session state machine
//! (uninitialized, initialized, decoded) enforced by error codes.

#![allow(non_camel_case_types)]

use vstd::prelude::*;

use crate::bytes::be_val;
use crate::decode::{lemma_parse_tx_wf, sp_parse_tx};
use crate::display::{spec_get_item, spec_num_items};
use crate::error::ParserError;
use crate::hash::hash160_of;
use crate::model::{Transaction, HASH_LEN, HASH_MODE_MULTI, HASH_MODE_SINGLE};
use crate::accessors::spec_presig;

verus! {

/// The parsing context: the input buffer bound to the session and the
/// read offset.
pub struct parser_context_t {
    pub buffer: Vec<u8>,
    pub offset: u16,
}

/// The opaque state handle callers pass back to every query: empty
/// until `decode` has populated it.
pub struct parse_tx_t {
    pub state: Option<Transaction>,
}

/// The decoded state is the one the bound buffer denotes.
pub open spec fn session_wf(ctx: &parser_context_t, st: &parse_tx_t) -> bool {
    match st.state {
        Some(t) => ctx.buffer@.len() <= 0xFFFF && sp_parse_tx(ctx.buffer@)
            == Ok::<crate::model::TxView, ParserError>(t@),
        None => true,
    }
}

/// The size report `init` owes its caller: the state type's exact byte
/// size, clamped to the 16-bit report width.
pub open spec fn spec_state_size_report() -> int {
    if vstd::layout::size_of::<Transaction>() <= 0xFFFF {
        vstd::layout::size_of::<Transaction>() as int
    } else {
        0xFFFF
    }
}

/// The byte size a caller must reserve for the decoded state: exactly
/// the state type's size (clamped to the 16-bit report width), and
/// available whether or not `init` succeeded.
pub fn required_state_size() -> (r: u16)
    ensures
        r == spec_state_size_report(),
{
    let s = core::mem::size_of::<Transaction>();
    if s > 0xFFFF {
        0xFFFF
    } else {
        s as u16
    }
}

impl parse_tx_t {
    /// A fresh, undecoded state handle.
    pub fn new() -> (r: parse_tx_t)
        ensures
            r.state is None,
    {
        parse_tx_t { state: None }
    }
}

/// Binds the input buffer to the context and reports the exact byte
/// size to reserve for the state. An empty buffer is
/// `InitContextEmpty`; one beyond the 16-bit offset range is
/// `InvalidLength`; either way the context is left unbound, and the
/// size report is still available through `required_state_size`.
pub fn init(ctx: &mut parser_context_t, buffer: Vec<u8>) -> (r: Result<u16, ParserError>)
    ensures
        buffer@.len() == 0 ==> r == Err::<u16, ParserError>(ParserError::InitContextEmpty),
        buffer@.len() > 0xFFFF ==> r == Err::<u16, ParserError>(ParserError::InvalidLength),
        0 < buffer@.len() <= 0xFFFF ==> r == Ok::<u16, ParserError>(
            spec_state_size_report() as u16,
        ) && final(ctx).buffer@ == buffer@,
        (buffer@.len() == 0 || buffer@.len() > 0xFFFF) ==> final(ctx).buffer@.len() == 0,
        final(ctx).offset == 0,
{
    ctx.offset = 0;
    if buffer.len() == 0 {
        ctx.buffer = Vec::new();
        return Err(ParserError::InitContextEmpty);
    }
    if buffer.len() > 0xFFFF {
        ctx.buffer = Vec::new();
        return Err(ParserError::InvalidLength);
    }
    ctx.buffer = buffer;
    Ok(required_state_size())
}

/// Runs the decode engine over the bound buffer, populating the state
/// handle. A context with no usable buffer is `ContextMismatch`; a
/// decode failure empties the handle and returns the engine's code.
pub fn decode(ctx: &parser_context_t, st: &mut parse_tx_t) -> (r: Result<(), ParserError>)
    ensures
        ctx.buffer@.len() == 0 || ctx.buffer@.len() > 0xFFFF ==> r == Err::<(), ParserError>(
            ParserError::ContextMismatch,
        ) && final(st).state is None,
        0 < ctx.buffer@.len() <= 0xFFFF ==> match sp_parse_tx(ctx.buffer@) {
            Ok(t) => r is Ok && (final(st).state matches Some(tx) && tx@ == t),
            Err(e) => r == Err::<(), ParserError>(e) && final(st).state is None,
        },
        session_wf(ctx, final(st)),
{
    if ctx.buffer.len() == 0 || ctx.buffer.len() > 0xFFFF {
        st.state = None;
        return Err(ParserError::ContextMismatch);
    }
    match Transaction::decode(&ctx.buffer) {
        Ok(t) => {
            st.state = Some(t);
            Ok(())
        },
        Err(e) => {
            st.state = None;
            Err(e)
        },
    }
}

/// The display item count; 0 on an undecoded handle, with no error
/// channel by design.
pub fn num_items(ctx: &parser_context_t, st: &parse_tx_t) -> (r: u8)
    requires
        session_wf(ctx, st),
    ensures
        match st.state {
            Some(t) => r == spec_num_items(t@),
            None => r == 0,
        },
{
    match &st.state {
        Some(t) => {
            proof {
                lemma_parse_tx_wf(ctx.buffer@);
            }
            t.num_items()
        },
        None => 0,
    }
}

/// Display item `display_idx`, page `page_idx`, per the formatter's
/// contract; `ContextMismatch` on an undecoded handle.
pub fn get_item(
    ctx: &parser_context_t,
    display_idx: u8,
    out_key: &mut Vec<u8>,
    out_value: &mut Vec<u8>,
    page_idx: u8,
    st: &parse_tx_t,
) -> (r: Result<u8, ParserError>)
    requires
        session_wf(ctx, st),
        old(out_value)@.len() >= 1,
    ensures
        match st.state {
            Some(t) => ({
                let s = spec_get_item(
                    t@,
                    ctx.buffer@,
                    display_idx as int,
                    old(out_key)@,
                    old(out_value)@,
                    page_idx as int,
                );
                r == s.0 && final(out_key)@ == s.1 && final(out_value)@ == s.2
            }),
            None => r == Err::<u8, ParserError>(ParserError::ContextMismatch) && final(out_key)@
                == old(out_key)@ && final(out_value)@ == old(out_value)@,
        },
{
    match &st.state {
        Some(t) => {
            proof {
                lemma_parse_tx_wf(ctx.buffer@);
            }
            t.get_item(&ctx.buffer, display_idx, out_key, out_value, page_idx)
        },
        None => Err(ParserError::ContextMismatch),
    }
}

/// The authentication type tag; `ContextMismatch` on an undecoded
/// handle.
pub fn auth_flag(st: &parse_tx_t) -> (r: Result<u8, ParserError>)
    ensures
        match st.state {
            Some(t) => r == Ok::<u8, ParserError>(t@.auth_type),
            None => r == Err::<u8, ParserError>(ParserError::ContextMismatch),
        },
{
    match &st.state {
        Some(t) => Ok(t.auth_flag()),
        None => Err(ParserError::ContextMismatch),
    }
}

/// The fee as 8 big-endian bytes; 0 on an undecoded handle or a
/// too-small buffer, by the documented silent-zero convention.
pub fn fee_bytes(st: &parse_tx_t, out: &mut Vec<u8>) -> (r: u8)
    ensures
        match st.state {
            Some(t) => (old(out)@.len() >= 8 ==> r == 8 && final(out)@.len() == 8 && be_val(
                final(out)@,
            ) == t@.origin.fee) && (old(out)@.len() < 8 ==> r == 0 && final(out)@ == old(out)@),
            None => r == 0 && final(out)@ == old(out)@,
        },
{
    match &st.state {
        Some(t) => t.fee_bytes(out),
        None => 0,
    }
}

/// The nonce as 8 big-endian bytes; the same conventions as
/// `fee_bytes`.
pub fn nonce_bytes(st: &parse_tx_t, out: &mut Vec<u8>) -> (r: u8)
    ensures
        match st.state {
            Some(t) => (old(out)@.len() >= 8 ==> r == 8 && final(out)@.len() == 8 && be_val(
                final(out)@,
            ) == t@.origin.nonce) && (old(out)@.len() < 8 ==> r == 0 && final(out)@ == old(out)@),
            None => r == 0 && final(out)@ == old(out)@,
        },
{
    match &st.state {
        Some(t) => t.nonce_bytes(out),
        None => 0,
    }
}

/// Whether `pubkey` hashes to the recorded signer hash: the match
/// verdict for a single signer, `NoData` for multiple signers,
/// `ContextMismatch` on an undecoded handle.
pub fn check_pubkey_hash(ctx: &parser_context_t, st: &parse_tx_t, pubkey: &Vec<u8>) -> (r: Result<
    bool,
    ParserError,
>)
    requires
        session_wf(ctx, st),
    ensures
        match st.state {
            Some(t) => {
                &&& t@.origin.hash_mode == HASH_MODE_MULTI ==> r == Err::<bool, ParserError>(
                    ParserError::NoData,
                )
                &&& t@.origin.hash_mode == HASH_MODE_SINGLE ==> r == Ok::<bool, ParserError>(
                    ctx.buffer@.subrange(
                        t@.origin.signer_off as int,
                        t@.origin.signer_off + HASH_LEN,
                    ) == hash160_of(pubkey@),
                )
            },
            None => r == Err::<bool, ParserError>(ParserError::ContextMismatch),
        },
{
    match &st.state {
        Some(t) => {
            proof {
                lemma_parse_tx_wf(ctx.buffer@);
            }
            t.check_signer_pubkey_hash(&ctx.buffer, pubkey)
        },
        None => Err(ParserError::ContextMismatch),
    }
}

/// The canonical pre-image bytes, written into the caller's buffer; 0
/// on an undecoded handle or a too-small buffer.
pub fn presig_hash_data(ctx: &parser_context_t, st: &parse_tx_t, out: &mut Vec<u8>) -> (r: u16)
    requires
        session_wf(ctx, st),
    ensures
        match st.state {
            Some(t) => {
                &&& r != 0 ==> r == spec_presig(t@, ctx.buffer@).len() && final(out)@
                    == spec_presig(t@, ctx.buffer@)
                &&& r == 0 <==> old(out)@.len() < spec_presig(t@, ctx.buffer@).len()
                &&& r == 0 ==> final(out)@ == old(out)@
            },
            None => r == 0 && final(out)@ == old(out)@,
        },
{
    match &st.state {
        Some(t) => {
            proof {
                lemma_parse_tx_wf(ctx.buffer@);
            }
            t.presig_hash_data(&ctx.buffer, out)
        },
        None => 0,
    }
}

/// The offset of the final structural block inside the bound buffer;
/// absent on an undecoded handle.
pub fn last_block_pointer(st: &parse_tx_t) -> (r: Option<u16>)
    ensures
        match st.state {
            Some(t) => r == Some(t@.post_auth_off),
            None => r is None,
        },
{
    match &st.state {
        Some(t) => Some(t.last_block_offset()),
        None => None,
    }
}

} // verus!
