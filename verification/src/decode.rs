//! The decode engine: a single forward pass over the input buffer.
//!
//! The wire grammar is stated once, as spec functions over the byte
//! sequence; the executable decoder is proved to return exactly what the
//! spec parser says, error code included.

use vstd::prelude::*;

use crate::bytes::{be_val, lemma_be_val_bound, lemma_pow256_vals, read_be_uint, read_u8, take_span};
use crate::error::ParserError;
use crate::model::{
    Payload, PostCondition, Principal, SpendingCondition, Transaction, TxView, AUTH_SPONSORED,
    AUTH_STANDARD, HASH_LEN, HASH_MODE_MULTI, HASH_MODE_SINGLE, MAX_MULTISIG_FIELDS, MAX_NAME_LEN,
    MAX_POST_CONDITIONS, MEMO_LEN, MULTISIG_FIELD_LEN, PAYLOAD_CONTRACT_CALL,
    PAYLOAD_TOKEN_TRANSFER, PC_TYPE_STX, PRINCIPAL_CONTRACT, PRINCIPAL_STANDARD, SIG_LEN,
    VERSION_MAINNET, VERSION_TESTNET,
};

verus! {

/// What a spending condition at `off` decodes to, and where it ends.
pub open spec fn sp_parse_cond(buf: Seq<u8>, off: int) -> Result<
    (SpendingCondition, int),
    ParserError,
> {
    if off + 1 > buf.len() {
        Err(ParserError::UnexpectedEnd)
    } else {
        let hm = buf[off];
        if hm != HASH_MODE_SINGLE && hm != HASH_MODE_MULTI {
            Err(ParserError::InvalidType)
        } else if off + 37 > buf.len() {
            Err(ParserError::UnexpectedEnd)
        } else {
            let nonce = be_val(buf.subrange(off + 21, off + 29)) as u64;
            let fee = be_val(buf.subrange(off + 29, off + 37)) as u64;
            if hm == HASH_MODE_SINGLE {
                if off + 38 > buf.len() {
                    Err(ParserError::UnexpectedEnd)
                } else {
                    let ke = buf[off + 37];
                    if ke != 0 && ke != 1 {
                        Err(ParserError::InvalidType)
                    } else if off + 103 > buf.len() {
                        Err(ParserError::UnexpectedEnd)
                    } else {
                        Ok(
                            (
                                SpendingCondition {
                                    hash_mode: hm,
                                    signer_off: (off + 1) as u16,
                                    nonce,
                                    fee,
                                    key_encoding: ke,
                                    sig_off: (off + 38) as u16,
                                    num_fields: 0,
                                    fields_off: 0,
                                    sigs_required: 0,
                                },
                                off + 103,
                            ),
                        )
                    }
                }
            } else {
                if off + 41 > buf.len() {
                    Err(ParserError::UnexpectedEnd)
                } else {
                    let nf = be_val(buf.subrange(off + 37, off + 41));
                    if nf > MAX_MULTISIG_FIELDS {
                        Err(ParserError::InvalidLength)
                    } else if off + 43 + nf * MULTISIG_FIELD_LEN > buf.len() {
                        Err(ParserError::UnexpectedEnd)
                    } else {
                        Ok(
                            (
                                SpendingCondition {
                                    hash_mode: hm,
                                    signer_off: (off + 1) as u16,
                                    nonce,
                                    fee,
                                    key_encoding: 0,
                                    sig_off: 0,
                                    num_fields: nf as u32,
                                    fields_off: (off + 41) as u16,
                                    sigs_required: be_val(
                                        buf.subrange(
                                            off + 41 + nf * MULTISIG_FIELD_LEN,
                                            off + 43 + nf * MULTISIG_FIELD_LEN,
                                        ),
                                    ) as u16,
                                },
                                off + 43 + nf * MULTISIG_FIELD_LEN,
                            ),
                        )
                    }
                }
            }
        }
    }
}

/// What a principal at `off` decodes to, and where it ends.
pub open spec fn sp_parse_principal(buf: Seq<u8>, off: int) -> Result<
    (Principal, int),
    ParserError,
> {
    if off + 1 > buf.len() {
        Err(ParserError::UnexpectedEnd)
    } else {
        let tag = buf[off];
        if tag == PRINCIPAL_STANDARD {
            if off + 22 > buf.len() {
                Err(ParserError::UnexpectedEnd)
            } else {
                Ok(
                    (
                        Principal {
                            tag,
                            version: buf[off + 1],
                            hash_off: (off + 2) as u16,
                            name_off: 0,
                            name_len: 0,
                        },
                        off + 22,
                    ),
                )
            }
        } else if tag == PRINCIPAL_CONTRACT {
            if off + 23 > buf.len() {
                Err(ParserError::UnexpectedEnd)
            } else {
                let nl = buf[off + 22];
                if nl == 0 || nl > MAX_NAME_LEN {
                    Err(ParserError::InvalidLength)
                } else if off + 23 + nl > buf.len() {
                    Err(ParserError::UnexpectedEnd)
                } else {
                    Ok(
                        (
                            Principal {
                                tag,
                                version: buf[off + 1],
                                hash_off: (off + 2) as u16,
                                name_off: (off + 23) as u16,
                                name_len: nl,
                            },
                            off + 23 + nl,
                        ),
                    )
                }
            }
        } else {
            Err(ParserError::InvalidType)
        }
    }
}

/// What a post-condition record at `off` decodes to, and where it ends.
pub open spec fn sp_parse_pc(buf: Seq<u8>, off: int) -> Result<(PostCondition, int), ParserError> {
    if off + 1 > buf.len() {
        Err(ParserError::UnexpectedEnd)
    } else if buf[off] != PC_TYPE_STX {
        Err(ParserError::InvalidType)
    } else {
        match sp_parse_principal(buf, off + 1) {
            Err(e) => Err(e),
            Ok((p, o2)) => {
                if o2 + 1 > buf.len() {
                    Err(ParserError::UnexpectedEnd)
                } else {
                    let cc = buf[o2];
                    if cc < 1 || cc > 6 {
                        Err(ParserError::InvalidType)
                    } else if o2 + 9 > buf.len() {
                        Err(ParserError::UnexpectedEnd)
                    } else {
                        Ok(
                            (
                                PostCondition {
                                    principal: p,
                                    condition_code: cc,
                                    amount: be_val(buf.subrange(o2 + 1, o2 + 9)) as u64,
                                },
                                o2 + 9,
                            ),
                        )
                    }
                }
            },
        }
    }
}

/// What `n` consecutive post-condition records at `off` decode to.
pub open spec fn sp_parse_pcs(buf: Seq<u8>, off: int, n: nat) -> Result<
    (Seq<PostCondition>, int),
    ParserError,
>
    decreases n,
{
    if n == 0 {
        Ok((Seq::empty(), off))
    } else {
        match sp_parse_pc(buf, off) {
            Err(e) => Err(e),
            Ok((pc, o2)) => match sp_parse_pcs(buf, o2, (n - 1) as nat) {
                Err(e) => Err(e),
                Ok((rest, o3)) => Ok((seq![pc] + rest, o3)),
            },
        }
    }
}

/// What the payload at `off` decodes to, and where it ends.
pub open spec fn sp_parse_payload(buf: Seq<u8>, off: int) -> Result<(Payload, int), ParserError> {
    if off + 1 > buf.len() {
        Err(ParserError::UnexpectedEnd)
    } else {
        let tag = buf[off];
        if tag == PAYLOAD_TOKEN_TRANSFER {
            match sp_parse_principal(buf, off + 1) {
                Err(e) => Err(e),
                Ok((p, o2)) => {
                    if o2 + 8 + MEMO_LEN > buf.len() {
                        Err(ParserError::UnexpectedEnd)
                    } else {
                        Ok(
                            (
                                Payload::TokenTransfer {
                                    recipient: p,
                                    amount: be_val(buf.subrange(o2, o2 + 8)) as u64,
                                    memo_off: (o2 + 8) as u16,
                                },
                                o2 + 8 + MEMO_LEN,
                            ),
                        )
                    }
                },
            }
        } else if tag == PAYLOAD_CONTRACT_CALL {
            if off + 23 > buf.len() {
                Err(ParserError::UnexpectedEnd)
            } else {
                let cnl = buf[off + 22];
                if cnl == 0 || cnl > MAX_NAME_LEN {
                    Err(ParserError::InvalidLength)
                } else if off + 23 + cnl + 1 > buf.len() {
                    Err(ParserError::UnexpectedEnd)
                } else {
                    let fnl = buf[off + 23 + cnl];
                    if fnl == 0 || fnl > MAX_NAME_LEN {
                        Err(ParserError::InvalidLength)
                    } else if off + 24 + cnl + fnl + 4 > buf.len() {
                        Err(ParserError::UnexpectedEnd)
                    } else {
                        let ao = off + 28 + cnl + fnl;
                        let alen = be_val(buf.subrange(ao - 4, ao));
                        if ao + alen > buf.len() {
                            Err(ParserError::UnexpectedEnd)
                        } else {
                            Ok(
                                (
                                    Payload::ContractCall {
                                        address_version: buf[off + 1],
                                        address_hash_off: (off + 2) as u16,
                                        contract_name_off: (off + 23) as u16,
                                        contract_name_len: cnl,
                                        function_name_off: (off + 24 + cnl) as u16,
                                        function_name_len: fnl,
                                        args_off: ao as u16,
                                        args_len: alen as u16,
                                    },
                                    ao + alen,
                                ),
                            )
                        }
                    }
                }
            }
        } else {
            Err(ParserError::InvalidType)
        }
    }
}

/// What the whole buffer decodes to. Any input shorter than the
/// smallest transaction is `UnexpectedEnd` before a single tag is
/// examined; success requires the pass to consume exactly the buffer,
/// and surplus bytes are `InvalidLength`.
pub open spec fn sp_parse_tx(buf: Seq<u8>) -> Result<TxView, ParserError> {
    if buf.len() < MIN_TX_LEN {
        Err(ParserError::UnexpectedEnd)
    } else if buf[0] != VERSION_MAINNET && buf[0] != VERSION_TESTNET {
        Err(ParserError::InvalidType)
    } else if buf[5] != AUTH_STANDARD && buf[5] != AUTH_SPONSORED {
        Err(ParserError::InvalidType)
    } else {
        match sp_parse_cond(buf, 6) {
            Err(e) => Err(e),
            Ok((origin, o1)) => {
                if buf[5] == AUTH_SPONSORED {
                    match sp_parse_cond(buf, o1) {
                        Err(e) => Err(e),
                        Ok((sponsor, o2)) => sp_parse_rest(buf, o2, origin, Some(sponsor)),
                    }
                } else {
                    sp_parse_rest(buf, o1, origin, None)
                }
            },
        }
    }
}

/// What the blocks after the authentication section decode to, starting
/// at `off`: anchor mode, post-condition mode, post-conditions, payload.
pub open spec fn sp_parse_rest(
    buf: Seq<u8>,
    off: int,
    origin: SpendingCondition,
    sponsor: Option<SpendingCondition>,
) -> Result<TxView, ParserError> {
    if off + 1 > buf.len() {
        Err(ParserError::UnexpectedEnd)
    } else if buf[off] < 1 || buf[off] > 3 {
        Err(ParserError::InvalidType)
    } else if off + 2 > buf.len() {
        Err(ParserError::UnexpectedEnd)
    } else if buf[off + 1] < 1 || buf[off + 1] > 2 {
        Err(ParserError::InvalidType)
    } else if off + 6 > buf.len() {
        Err(ParserError::UnexpectedEnd)
    } else {
        let npc = be_val(buf.subrange(off + 2, off + 6));
        if npc > MAX_POST_CONDITIONS {
            Err(ParserError::InvalidLength)
        } else {
            match sp_parse_pcs(buf, off + 6, npc) {
                Err(e) => Err(e),
                Ok((pcs, o2)) => match sp_parse_payload(buf, o2) {
                    Err(e) => Err(e),
                    Ok((payload, o3)) => {
                        if o3 == buf.len() {
                            Ok(
                                TxView {
                                    version: buf[0],
                                    chain_id: be_val(buf.subrange(1, 5)) as u32,
                                    auth_type: buf[5],
                                    origin,
                                    sponsor,
                                    anchor_mode: buf[off],
                                    post_condition_mode: buf[off + 1],
                                    post_conditions: pcs,
                                    payload,
                                    post_auth_off: off as u16,
                                    tx_len: buf.len() as u16,
                                },
                            )
                        } else {
                            Err(ParserError::InvalidLength)
                        }
                    },
                },
            }
        }
    }
}

/// No transaction fits in fewer bytes than this: a header, the smallest
/// spending condition, the two mode bytes, the count, and the smallest
/// payload.
pub const MIN_TX_LEN: u16 = 85;

pub proof fn lemma_parse_cond_wf(buf: Seq<u8>, off: int)
    requires
        0 <= off,
        buf.len() <= 0xFFFF,
        sp_parse_cond(buf, off) is Ok,
    ensures
        sp_parse_cond(buf, off)->Ok_0.0.wf(buf.len() as int),
        off + 43 <= sp_parse_cond(buf, off)->Ok_0.1 <= buf.len(),
{
}

pub proof fn lemma_parse_principal_wf(buf: Seq<u8>, off: int)
    requires
        0 <= off,
        buf.len() <= 0xFFFF,
        sp_parse_principal(buf, off) is Ok,
    ensures
        sp_parse_principal(buf, off)->Ok_0.0.wf(buf.len() as int),
        off + 22 <= sp_parse_principal(buf, off)->Ok_0.1 <= buf.len(),
{
}

pub proof fn lemma_parse_pc_wf(buf: Seq<u8>, off: int)
    requires
        0 <= off,
        buf.len() <= 0xFFFF,
        sp_parse_pc(buf, off) is Ok,
    ensures
        sp_parse_pc(buf, off)->Ok_0.0.wf(buf.len() as int),
        off + 32 <= sp_parse_pc(buf, off)->Ok_0.1 <= buf.len(),
{
    lemma_parse_principal_wf(buf, off + 1);
}

pub proof fn lemma_parse_pcs_wf(buf: Seq<u8>, off: int, n: nat)
    requires
        0 <= off <= buf.len(),
        buf.len() <= 0xFFFF,
        sp_parse_pcs(buf, off, n) is Ok,
    ensures
        forall|i: int|
            0 <= i < sp_parse_pcs(buf, off, n)->Ok_0.0.len() ==> (#[trigger] sp_parse_pcs(
                buf,
                off,
                n,
            )->Ok_0.0[i]).wf(buf.len() as int),
        sp_parse_pcs(buf, off, n)->Ok_0.0.len() == n,
        off <= sp_parse_pcs(buf, off, n)->Ok_0.1 <= buf.len(),
    decreases n,
{
    if n > 0 {
        let (pc, o2) = sp_parse_pc(buf, off)->Ok_0;
        lemma_parse_pc_wf(buf, off);
        lemma_parse_pcs_wf(buf, o2, (n - 1) as nat);
    }
}

pub proof fn lemma_parse_payload_wf(buf: Seq<u8>, off: int)
    requires
        0 <= off,
        buf.len() <= 0xFFFF,
        sp_parse_payload(buf, off) is Ok,
    ensures
        sp_parse_payload(buf, off)->Ok_0.0.wf(buf.len() as int),
        off + 30 <= sp_parse_payload(buf, off)->Ok_0.1 <= buf.len(),
{
    if buf[off] == PAYLOAD_TOKEN_TRANSFER {
        lemma_parse_principal_wf(buf, off + 1);
    }
}

/// A decoded transaction is well formed: every span it records lies
/// inside the buffer it was decoded from.
pub proof fn lemma_parse_tx_wf(buf: Seq<u8>)
    requires
        buf.len() <= 0xFFFF,
        sp_parse_tx(buf) is Ok,
    ensures
        sp_parse_tx(buf)->Ok_0.wf(buf.len() as int),
        buf.len() >= MIN_TX_LEN,
{
    let (origin, o1) = sp_parse_cond(buf, 6)->Ok_0;
    lemma_parse_cond_wf(buf, 6);
    let o2 = if buf[5] == AUTH_SPONSORED {
        lemma_parse_cond_wf(buf, o1);
        sp_parse_cond(buf, o1)->Ok_0.1
    } else {
        o1
    };
    let npc = be_val(buf.subrange(o2 + 2, o2 + 6));
    lemma_parse_pcs_wf(buf, o2 + 6, npc);
    let o3 = sp_parse_pcs(buf, o2 + 6, npc)->Ok_0.1;
    lemma_parse_payload_wf(buf, o3);
}

pub proof fn lemma_cond_prefix(buf: Seq<u8>, off: int, k: int)
    requires
        0 <= off,
        0 <= k < buf.len(),
        sp_parse_cond(buf, off) is Ok,
    ensures
        sp_parse_cond(buf, off)->Ok_0.1 <= k ==> sp_parse_cond(buf.subrange(0, k), off)
            == sp_parse_cond(buf, off),
        sp_parse_cond(buf, off)->Ok_0.1 > k ==> sp_parse_cond(buf.subrange(0, k), off) == Err::<
            (SpendingCondition, int),
            ParserError,
        >(ParserError::UnexpectedEnd),
{
    let p = buf.subrange(0, k);
    let end = sp_parse_cond(buf, off)->Ok_0.1;
    if off + 37 <= k {
        assert(p.subrange(off + 21, off + 29) =~= buf.subrange(off + 21, off + 29));
        assert(p.subrange(off + 29, off + 37) =~= buf.subrange(off + 29, off + 37));
    }
    if buf[off] == HASH_MODE_MULTI && off + 41 <= k {
        assert(p.subrange(off + 37, off + 41) =~= buf.subrange(off + 37, off + 41));
        let nf = be_val(buf.subrange(off + 37, off + 41));
        if end <= k {
            assert(p.subrange(
                off + 41 + nf * MULTISIG_FIELD_LEN,
                off + 43 + nf * MULTISIG_FIELD_LEN,
            ) =~= buf.subrange(
                off + 41 + nf * MULTISIG_FIELD_LEN,
                off + 43 + nf * MULTISIG_FIELD_LEN,
            ));
        }
    }
}

pub proof fn lemma_principal_prefix(buf: Seq<u8>, off: int, k: int)
    requires
        0 <= off,
        0 <= k < buf.len(),
        sp_parse_principal(buf, off) is Ok,
    ensures
        sp_parse_principal(buf, off)->Ok_0.1 <= k ==> sp_parse_principal(buf.subrange(0, k), off)
            == sp_parse_principal(buf, off),
        sp_parse_principal(buf, off)->Ok_0.1 > k ==> sp_parse_principal(buf.subrange(0, k), off)
            == Err::<(Principal, int), ParserError>(ParserError::UnexpectedEnd),
{
}

pub proof fn lemma_pc_prefix(buf: Seq<u8>, off: int, k: int)
    requires
        0 <= off,
        0 <= k < buf.len(),
        sp_parse_pc(buf, off) is Ok,
    ensures
        sp_parse_pc(buf, off)->Ok_0.1 <= k ==> sp_parse_pc(buf.subrange(0, k), off)
            == sp_parse_pc(buf, off),
        sp_parse_pc(buf, off)->Ok_0.1 > k ==> sp_parse_pc(buf.subrange(0, k), off) == Err::<
            (PostCondition, int),
            ParserError,
        >(ParserError::UnexpectedEnd),
{
    let p = buf.subrange(0, k);
    lemma_principal_prefix(buf, off + 1, k);
    let o2 = sp_parse_principal(buf, off + 1)->Ok_0.1;
    if o2 + 9 <= k {
        assert(p.subrange(o2 + 1, o2 + 9) =~= buf.subrange(o2 + 1, o2 + 9));
    }
}

pub proof fn lemma_pcs_prefix(buf: Seq<u8>, off: int, n: nat, k: int)
    requires
        0 <= off,
        0 <= k < buf.len(),
        buf.len() <= 0xFFFF,
        sp_parse_pcs(buf, off, n) is Ok,
    ensures
        n == 0 ==> sp_parse_pcs(buf.subrange(0, k), off, n) == sp_parse_pcs(buf, off, n),
        n > 0 && sp_parse_pcs(buf, off, n)->Ok_0.1 <= k ==> sp_parse_pcs(
            buf.subrange(0, k),
            off,
            n,
        ) == sp_parse_pcs(buf, off, n),
        n > 0 && sp_parse_pcs(buf, off, n)->Ok_0.1 > k ==> sp_parse_pcs(buf.subrange(0, k), off, n)
            == Err::<(Seq<PostCondition>, int), ParserError>(ParserError::UnexpectedEnd),
    decreases n,
{
    if n > 0 {
        lemma_parse_pc_wf(buf, off);
        lemma_pc_prefix(buf, off, k);
        let o2 = sp_parse_pc(buf, off)->Ok_0.1;
        lemma_parse_pcs_wf(buf, o2, (n - 1) as nat);
        lemma_pcs_prefix(buf, o2, (n - 1) as nat, k);
    }
}

pub proof fn lemma_payload_prefix(buf: Seq<u8>, off: int, k: int)
    requires
        0 <= off,
        0 <= k < buf.len(),
        sp_parse_payload(buf, off) is Ok,
    ensures
        sp_parse_payload(buf, off)->Ok_0.1 <= k ==> sp_parse_payload(buf.subrange(0, k), off)
            == sp_parse_payload(buf, off),
        sp_parse_payload(buf, off)->Ok_0.1 > k ==> sp_parse_payload(buf.subrange(0, k), off)
            == Err::<(Payload, int), ParserError>(ParserError::UnexpectedEnd),
{
    let p = buf.subrange(0, k);
    if buf[off] == PAYLOAD_TOKEN_TRANSFER {
        lemma_principal_prefix(buf, off + 1, k);
        let o2 = sp_parse_principal(buf, off + 1)->Ok_0.1;
        if o2 + 8 <= k {
            assert(p.subrange(o2, o2 + 8) =~= buf.subrange(o2, o2 + 8));
        }
    } else {
        let cnl = buf[off + 22];
        let fnl = buf[off + 23 + cnl];
        let ao = off + 28 + cnl + fnl;
        if ao <= k {
            assert(p.subrange(ao - 4, ao) =~= buf.subrange(ao - 4, ao));
        }
    }
}

/// Truncating a transaction the decoder accepts, at any point, makes
/// the decoder report `UnexpectedEnd` — never success, never another
/// code.
#[verifier::rlimit(100)]
pub proof fn lemma_truncation_unexpected_end(buf: Seq<u8>, k: int)
    requires
        sp_parse_tx(buf) is Ok,
        0 <= k < buf.len(),
        buf.len() <= 0xFFFF,
    ensures
        sp_parse_tx(buf.subrange(0, k)) == Err::<TxView, ParserError>(ParserError::UnexpectedEnd),
{
    let p = buf.subrange(0, k);
    lemma_parse_tx_wf(buf);
    if k < MIN_TX_LEN {
    } else {
        lemma_parse_cond_wf(buf, 6);
        lemma_cond_prefix(buf, 6, k);
        let o1 = sp_parse_cond(buf, 6)->Ok_0.1;
        let o2 = if buf[5] == AUTH_SPONSORED {
            lemma_parse_cond_wf(buf, o1);
            lemma_cond_prefix(buf, o1, k);
            sp_parse_cond(buf, o1)->Ok_0.1
        } else {
            o1
        };
        if o2 + 6 <= k {
            assert(p.subrange(o2 + 2, o2 + 6) =~= buf.subrange(o2 + 2, o2 + 6));
        }
        let npc = be_val(buf.subrange(o2 + 2, o2 + 6));
        if sp_parse_pcs(buf, o2 + 6, npc) is Ok {
            lemma_parse_pcs_wf(buf, o2 + 6, npc);
            lemma_pcs_prefix(buf, o2 + 6, npc, k);
            let o3 = sp_parse_pcs(buf, o2 + 6, npc)->Ok_0.1;
            lemma_payload_prefix(buf, o3, k);
        }
    }
}

/// Every input shorter than `MIN_TX_LEN` decodes to `UnexpectedEnd`:
/// never success, never another code, whatever bytes it holds.
pub proof fn lemma_short_input_unexpected_end(buf: Seq<u8>)
    requires
        buf.len() < MIN_TX_LEN,
    ensures
        sp_parse_tx(buf) == Err::<TxView, ParserError>(ParserError::UnexpectedEnd),
{
}

fn parse_cond(buf: &Vec<u8>, off: u16) -> (r: Result<(SpendingCondition, u16), ParserError>)
    requires
        buf@.len() <= 0xFFFF,
    ensures
        ({
            let s = sp_parse_cond(buf@, off as int);
            match r {
                Ok(p) => s is Ok && s->Ok_0.0 == p.0 && s->Ok_0.1 == p.1 as int,
                Err(e) => s is Err && s->Err_0 == e,
            }
        }),
{
    let (hm, o1) = match read_u8(buf, off) {
        Ok(x) => x,
        Err(e) => {
            return Err(e);
        },
    };
    if hm != HASH_MODE_SINGLE && hm != HASH_MODE_MULTI {
        return Err(ParserError::InvalidType);
    }
    let o2 = match take_span(buf, o1, HASH_LEN) {
        Ok(x) => x,
        Err(e) => {
            return Err(e);
        },
    };
    let (nonce_v, o3) = match read_be_uint(buf, o2, 8) {
        Ok(x) => x,
        Err(e) => {
            return Err(e);
        },
    };
    let (fee_v, o4) = match read_be_uint(buf, o3, 8) {
        Ok(x) => x,
        Err(e) => {
            return Err(e);
        },
    };
    proof {
        lemma_be_val_bound(buf@.subrange(off + 21, off + 29));
        lemma_be_val_bound(buf@.subrange(off + 29, off + 37));
        lemma_pow256_vals();
    }
    if hm == HASH_MODE_SINGLE {
        let (ke, o5) = match read_u8(buf, o4) {
            Ok(x) => x,
            Err(e) => {
                return Err(e);
            },
        };
        if ke != 0 && ke != 1 {
            return Err(ParserError::InvalidType);
        }
        let o6 = match take_span(buf, o5, SIG_LEN) {
            Ok(x) => x,
            Err(e) => {
                return Err(e);
            },
        };
        Ok(
            (
                SpendingCondition {
                    hash_mode: hm,
                    signer_off: o1,
                    nonce: nonce_v,
                    fee: fee_v,
                    key_encoding: ke,
                    sig_off: o5,
                    num_fields: 0,
                    fields_off: 0,
                    sigs_required: 0,
                },
                o6,
            ),
        )
    } else {
        let (nf_v, o5) = match read_be_uint(buf, o4, 4) {
            Ok(x) => x,
            Err(e) => {
                return Err(e);
            },
        };
        proof {
            lemma_be_val_bound(buf@.subrange(off + 37, off + 41));
            lemma_pow256_vals();
        }
        if nf_v > MAX_MULTISIG_FIELDS as u64 {
            return Err(ParserError::InvalidLength);
        }
        let o6 = match take_span(buf, o5, (nf_v as u16) * MULTISIG_FIELD_LEN) {
            Ok(x) => x,
            Err(e) => {
                return Err(e);
            },
        };
        let (sr_v, o7) = match read_be_uint(buf, o6, 2) {
            Ok(x) => x,
            Err(e) => {
                return Err(e);
            },
        };
        proof {
            lemma_be_val_bound(buf@.subrange(o6 as int, o6 + 2));
            lemma_pow256_vals();
        }
        Ok(
            (
                SpendingCondition {
                    hash_mode: hm,
                    signer_off: o1,
                    nonce: nonce_v,
                    fee: fee_v,
                    key_encoding: 0,
                    sig_off: 0,
                    num_fields: nf_v as u32,
                    fields_off: o5,
                    sigs_required: sr_v as u16,
                },
                o7,
            ),
        )
    }
}

fn parse_principal(buf: &Vec<u8>, off: u16) -> (r: Result<(Principal, u16), ParserError>)
    requires
        buf@.len() <= 0xFFFF,
    ensures
        ({
            let s = sp_parse_principal(buf@, off as int);
            match r {
                Ok(p) => s is Ok && s->Ok_0.0 == p.0 && s->Ok_0.1 == p.1 as int,
                Err(e) => s is Err && s->Err_0 == e,
            }
        }),
{
    let (tag, o1) = match read_u8(buf, off) {
        Ok(x) => x,
        Err(e) => {
            return Err(e);
        },
    };
    if tag == PRINCIPAL_STANDARD {
        let o2 = match take_span(buf, o1, 1 + HASH_LEN) {
            Ok(x) => x,
            Err(e) => {
                return Err(e);
            },
        };
        let version = buf[o1 as usize];
        Ok((Principal { tag, version, hash_off: o1 + 1, name_off: 0, name_len: 0 }, o2))
    } else if tag == PRINCIPAL_CONTRACT {
        let o2 = match take_span(buf, o1, 1 + HASH_LEN) {
            Ok(x) => x,
            Err(e) => {
                return Err(e);
            },
        };
        let (nl, o3) = match read_u8(buf, o2) {
            Ok(x) => x,
            Err(e) => {
                return Err(e);
            },
        };
        if nl == 0 || nl > MAX_NAME_LEN {
            return Err(ParserError::InvalidLength);
        }
        let o4 = match take_span(buf, o3, nl as u16) {
            Ok(x) => x,
            Err(e) => {
                return Err(e);
            },
        };
        let version = buf[o1 as usize];
        Ok((Principal { tag, version, hash_off: o1 + 1, name_off: o3, name_len: nl }, o4))
    } else {
        Err(ParserError::InvalidType)
    }
}

fn parse_pc(buf: &Vec<u8>, off: u16) -> (r: Result<(PostCondition, u16), ParserError>)
    requires
        buf@.len() <= 0xFFFF,
    ensures
        ({
            let s = sp_parse_pc(buf@, off as int);
            match r {
                Ok(p) => s is Ok && s->Ok_0.0 == p.0 && s->Ok_0.1 == p.1 as int,
                Err(e) => s is Err && s->Err_0 == e,
            }
        }),
{
    let (t, o1) = match read_u8(buf, off) {
        Ok(x) => x,
        Err(e) => {
            return Err(e);
        },
    };
    if t != PC_TYPE_STX {
        return Err(ParserError::InvalidType);
    }
    let (p, o2) = match parse_principal(buf, o1) {
        Ok(x) => x,
        Err(e) => {
            return Err(e);
        },
    };
    let (cc, o3) = match read_u8(buf, o2) {
        Ok(x) => x,
        Err(e) => {
            return Err(e);
        },
    };
    if cc < 1 || cc > 6 {
        return Err(ParserError::InvalidType);
    }
    let (amount_v, o4) = match read_be_uint(buf, o3, 8) {
        Ok(x) => x,
        Err(e) => {
            return Err(e);
        },
    };
    proof {
        lemma_be_val_bound(buf@.subrange(o3 as int, o3 + 8));
        lemma_pow256_vals();
    }
    Ok((PostCondition { principal: p, condition_code: cc, amount: amount_v }, o4))
}

#[verifier::rlimit(100)]
fn parse_payload(buf: &Vec<u8>, off: u16) -> (r: Result<(Payload, u16), ParserError>)
    requires
        buf@.len() <= 0xFFFF,
    ensures
        ({
            let s = sp_parse_payload(buf@, off as int);
            match r {
                Ok(p) => s is Ok && s->Ok_0.0 == p.0 && s->Ok_0.1 == p.1 as int,
                Err(e) => s is Err && s->Err_0 == e,
            }
        }),
{
    let (tag, o1) = match read_u8(buf, off) {
        Ok(x) => x,
        Err(e) => {
            return Err(e);
        },
    };
    if tag == PAYLOAD_TOKEN_TRANSFER {
        let (p, o2) = match parse_principal(buf, o1) {
            Ok(x) => x,
            Err(e) => {
                return Err(e);
            },
        };
        let (amount_v, o3) = match read_be_uint(buf, o2, 8) {
            Ok(x) => x,
            Err(e) => {
                return Err(e);
            },
        };
        let o4 = match take_span(buf, o3, MEMO_LEN) {
            Ok(x) => x,
            Err(e) => {
                return Err(e);
            },
        };
        proof {
            lemma_be_val_bound(buf@.subrange(o2 as int, o2 + 8));
            lemma_pow256_vals();
        }
        Ok((Payload::TokenTransfer { recipient: p, amount: amount_v, memo_off: o3 }, o4))
    } else if tag == PAYLOAD_CONTRACT_CALL {
        let o2 = match take_span(buf, o1, 1 + HASH_LEN) {
            Ok(x) => x,
            Err(e) => {
                return Err(e);
            },
        };
        let (cnl, o3) = match read_u8(buf, o2) {
            Ok(x) => x,
            Err(e) => {
                return Err(e);
            },
        };
        if cnl == 0 || cnl > MAX_NAME_LEN {
            return Err(ParserError::InvalidLength);
        }
        let o4 = match take_span(buf, o3, cnl as u16) {
            Ok(x) => x,
            Err(e) => {
                return Err(e);
            },
        };
        let (fnl, o5) = match read_u8(buf, o4) {
            Ok(x) => x,
            Err(e) => {
                return Err(e);
            },
        };
        if fnl == 0 || fnl > MAX_NAME_LEN {
            return Err(ParserError::InvalidLength);
        }
        let o6 = match take_span(buf, o5, fnl as u16) {
            Ok(x) => x,
            Err(e) => {
                return Err(e);
            },
        };
        let (alen_v, o7) = match read_be_uint(buf, o6, 4) {
            Ok(x) => x,
            Err(e) => {
                return Err(e);
            },
        };
        proof {
            assert(o2 == off + 22);
            assert(o3 == off + 23);
            assert(o4 == off + 23 + cnl);
            assert(o5 == off + 24 + cnl);
            assert(o6 == off + 24 + cnl + fnl);
            assert(o7 == off + 28 + cnl + fnl);
            lemma_be_val_bound(buf@.subrange(o6 as int, o6 + 4));
            lemma_pow256_vals();
        }
        if alen_v > 0xFFFF || (o7 as usize) + (alen_v as usize) > buf.len() {
            return Err(ParserError::UnexpectedEnd);
        }
        let o8 = o7 + (alen_v as u16);
        let version = buf[o1 as usize];
        Ok(
            (
                Payload::ContractCall {
                    address_version: version,
                    address_hash_off: o1 + 1,
                    contract_name_off: o3,
                    contract_name_len: cnl,
                    function_name_off: o5,
                    function_name_len: fnl,
                    args_off: o7,
                    args_len: alen_v as u16,
                },
                o8,
            ),
        )
    } else {
        Err(ParserError::InvalidType)
    }
}

fn parse_pcs(buf: &Vec<u8>, off: u16, n: u32) -> (r: Result<(Vec<PostCondition>, u16), ParserError>)
    requires
        buf@.len() <= 0xFFFF,
        n <= MAX_POST_CONDITIONS,
    ensures
        ({
            let s = sp_parse_pcs(buf@, off as int, n as nat);
            match r {
                Ok(p) => s is Ok && s->Ok_0.0 == p.0@ && s->Ok_0.1 == p.1 as int,
                Err(e) => s is Err && s->Err_0 == e,
            }
        }),
{
    let mut pcs: Vec<PostCondition> = Vec::new();
    let mut cur: u16 = off;
    let mut i: u32 = 0;
    while i < n
        invariant
            i <= n,
            buf@.len() <= 0xFFFF,
            pcs@.len() == i,
            ({
                let s0 = sp_parse_pcs(buf@, off as int, n as nat);
                let si = sp_parse_pcs(buf@, cur as int, (n - i) as nat);
                match si {
                    Ok(p) => s0 is Ok && s0->Ok_0.0 == pcs@ + p.0 && s0->Ok_0.1 == p.1,
                    Err(e) => s0 is Err && s0->Err_0 == e,
                }
            }),
        decreases n - i,
    {
        let (pc, o2) = match parse_pc(buf, cur) {
            Ok(x) => x,
            Err(e) => {
                return Err(e);
            },
        };
        pcs.push(pc);
        proof {
            let rest = sp_parse_pcs(buf@, o2 as int, (n - i - 1) as nat);
            if rest is Ok {
                assert(pcs@ + rest->Ok_0.0 =~= (pcs@.drop_last() + (seq![pc] + rest->Ok_0.0)));
            }
        }
        cur = o2;
        i = i + 1;
    }
    proof {
        assert(sp_parse_pcs(buf@, cur as int, 0) == Ok::<(Seq<PostCondition>, int), ParserError>(
            (Seq::empty(), cur as int),
        ));
        assert(pcs@ + Seq::<PostCondition>::empty() =~= pcs@);
    }
    Ok((pcs, cur))
}

impl Transaction {
    /// Runs the decode engine: one forward pass that must consume the
    /// whole buffer. Returns exactly what the wire grammar says the
    /// buffer denotes, error code included; any input shorter than the
    /// smallest transaction is `UnexpectedEnd` outright.
    #[verifier::rlimit(100)]
    pub fn decode(buf: &Vec<u8>) -> (r: Result<Transaction, ParserError>)
        requires
            buf@.len() <= 0xFFFF,
        ensures
            ({
                let s = sp_parse_tx(buf@);
                match r {
                    Ok(t) => s is Ok && t@ == s->Ok_0,
                    Err(e) => s is Err && s->Err_0 == e,
                }
            }),
    {
        if buf.len() < MIN_TX_LEN as usize {
            return Err(ParserError::UnexpectedEnd);
        }
        let (version, _o1) = match read_u8(buf, 0) {
            Ok(x) => x,
            Err(e) => {
                return Err(e);
            },
        };
        if version != VERSION_MAINNET && version != VERSION_TESTNET {
            return Err(ParserError::InvalidType);
        }
        let (chain_v, _o2) = match read_be_uint(buf, 1, 4) {
            Ok(x) => x,
            Err(e) => {
                return Err(e);
            },
        };
        let (auth_type, o3) = match read_u8(buf, 5) {
            Ok(x) => x,
            Err(e) => {
                return Err(e);
            },
        };
        if auth_type != AUTH_STANDARD && auth_type != AUTH_SPONSORED {
            return Err(ParserError::InvalidType);
        }
        proof {
            lemma_be_val_bound(buf@.subrange(1, 5));
            lemma_pow256_vals();
        }
        let (origin, o4) = match parse_cond(buf, o3) {
            Ok(x) => x,
            Err(e) => {
                return Err(e);
            },
        };
        let (sponsor, o5) = if auth_type == AUTH_SPONSORED {
            match parse_cond(buf, o4) {
                Ok((sp, o)) => (Some(sp), o),
                Err(e) => {
                    return Err(e);
                },
            }
        } else {
            (None, o4)
        };
        let post_auth_off = o5;
        let (anchor_mode, o6) = match read_u8(buf, o5) {
            Ok(x) => x,
            Err(e) => {
                return Err(e);
            },
        };
        if anchor_mode < 1 || anchor_mode > 3 {
            return Err(ParserError::InvalidType);
        }
        let (pc_mode, o7) = match read_u8(buf, o6) {
            Ok(x) => x,
            Err(e) => {
                return Err(e);
            },
        };
        if pc_mode < 1 || pc_mode > 2 {
            return Err(ParserError::InvalidType);
        }
        let (npc_v, o8) = match read_be_uint(buf, o7, 4) {
            Ok(x) => x,
            Err(e) => {
                return Err(e);
            },
        };
        if npc_v > MAX_POST_CONDITIONS as u64 {
            return Err(ParserError::InvalidLength);
        }
        let (pcs, o9) = match parse_pcs(buf, o8, npc_v as u32) {
            Ok(x) => x,
            Err(e) => {
                return Err(e);
            },
        };
        let (payload, o10) = match parse_payload(buf, o9) {
            Ok(x) => x,
            Err(e) => {
                return Err(e);
            },
        };
        if (o10 as usize) != buf.len() {
            return Err(ParserError::InvalidLength);
        }
        let t = Transaction {
            version,
            chain_id: chain_v as u32,
            auth_type,
            origin,
            sponsor,
            anchor_mode,
            post_condition_mode: pc_mode,
            post_conditions: pcs,
            payload,
            post_auth_off,
            tx_len: o10,
        };
        proof {
            assert(t@ =~= sp_parse_tx(buf@)->Ok_0);
        }
        Ok(t)
    }
}

} // verus!
