//! The structured transaction model: the decode target whose
//! variable-length fields are `(offset, length)` spans back into the
//! input buffer, never copies.

use vstd::prelude::*;

verus! {

/// Version tag of a mainnet transaction.
pub const VERSION_MAINNET: u8 = 0x00;

/// Version tag of a testnet transaction.
pub const VERSION_TESTNET: u8 = 0x80;

/// Authentication type tag: standard (origin pays its own fee).
pub const AUTH_STANDARD: u8 = 0x04;

/// Authentication type tag: sponsored (a second condition follows).
pub const AUTH_SPONSORED: u8 = 0x05;

/// Spending-condition hash mode: single signer.
pub const HASH_MODE_SINGLE: u8 = 0x00;

/// Spending-condition hash mode: multiple signers.
pub const HASH_MODE_MULTI: u8 = 0x01;

/// Post-condition type tag: native token.
pub const PC_TYPE_STX: u8 = 0x00;

/// Principal tag: a standard account (version byte plus 20-byte hash).
pub const PRINCIPAL_STANDARD: u8 = 0x02;

/// Principal tag: a contract (standard part plus a short name).
pub const PRINCIPAL_CONTRACT: u8 = 0x03;

/// Payload tag: native token transfer.
pub const PAYLOAD_TOKEN_TRANSFER: u8 = 0x00;

/// Payload tag: contract call.
pub const PAYLOAD_CONTRACT_CALL: u8 = 0x02;

/// Length of a signer or principal hash on the wire.
pub const HASH_LEN: u16 = 20;

/// Length of a single-signer signature placeholder.
pub const SIG_LEN: u16 = 65;

/// Length of one multi-signer authorization field.
pub const MULTISIG_FIELD_LEN: u16 = 66;

/// Length of the fixed memo field of a token transfer.
pub const MEMO_LEN: u16 = 34;

/// Largest accepted post-condition count.
pub const MAX_POST_CONDITIONS: u32 = 8;

/// Largest accepted multi-signer field count.
pub const MAX_MULTISIG_FIELDS: u32 = 16;

/// Largest accepted contract or function name length.
pub const MAX_NAME_LEN: u8 = 40;

/// One decoded spending condition. `signer_off` points at 20 signer-hash
/// bytes inside the input; `sig_off` / `fields_off` point at the signature
/// or multi-signer field area.
#[derive(Clone, Copy, PartialEq, Eq, Structural, Debug)]
pub struct SpendingCondition {
    pub hash_mode: u8,
    pub signer_off: u16,
    pub nonce: u64,
    pub fee: u64,
    /// Single-signer only; zero for multi-signer conditions.
    pub key_encoding: u8,
    /// Single-signer only: start of the 65 signature bytes.
    pub sig_off: u16,
    /// Multi-signer only; zero for single-signer conditions.
    pub num_fields: u32,
    /// Multi-signer only: start of the field area.
    pub fields_off: u16,
    /// Multi-signer only.
    pub sigs_required: u16,
}

/// A decoded principal: a standard account or a contract.
#[derive(Clone, Copy, PartialEq, Eq, Structural, Debug)]
pub struct Principal {
    pub tag: u8,
    pub version: u8,
    /// Start of the 20 hash bytes.
    pub hash_off: u16,
    /// Contract principals only: start of the name bytes; zero otherwise.
    pub name_off: u16,
    /// Contract principals only: name length; zero otherwise.
    pub name_len: u8,
}

/// One decoded post-condition record over the native token.
#[derive(Clone, Copy, PartialEq, Eq, Structural, Debug)]
pub struct PostCondition {
    pub principal: Principal,
    pub condition_code: u8,
    pub amount: u64,
}

/// The decoded payload, discriminated by its wire tag.
#[derive(Clone, Copy, PartialEq, Eq, Structural, Debug)]
pub enum Payload {
    TokenTransfer { recipient: Principal, amount: u64, memo_off: u16 },
    ContractCall {
        address_version: u8,
        address_hash_off: u16,
        contract_name_off: u16,
        contract_name_len: u8,
        function_name_off: u16,
        function_name_len: u8,
        args_off: u16,
        args_len: u16,
    },
}

/// The decoded transaction. All spans resolve against the input buffer
/// the transaction was decoded from.
#[derive(Debug)]
pub struct Transaction {
    pub version: u8,
    pub chain_id: u32,
    pub auth_type: u8,
    pub origin: SpendingCondition,
    pub sponsor: Option<SpendingCondition>,
    pub anchor_mode: u8,
    pub post_condition_mode: u8,
    pub post_conditions: Vec<PostCondition>,
    pub payload: Payload,
    /// Offset of the first byte after the authentication section: the
    /// start of the final structural block.
    pub post_auth_off: u16,
    /// Total encoded length; decoding consumed exactly this many bytes.
    pub tx_len: u16,
}

/// The mathematical value of a decoded transaction.
#[verifier::ext_equal]
pub ghost struct TxView {
    pub version: u8,
    pub chain_id: u32,
    pub auth_type: u8,
    pub origin: SpendingCondition,
    pub sponsor: Option<SpendingCondition>,
    pub anchor_mode: u8,
    pub post_condition_mode: u8,
    pub post_conditions: Seq<PostCondition>,
    pub payload: Payload,
    pub post_auth_off: u16,
    pub tx_len: u16,
}

impl View for Transaction {
    type V = TxView;

    open spec fn view(&self) -> TxView {
        TxView {
            version: self.version,
            chain_id: self.chain_id,
            auth_type: self.auth_type,
            origin: self.origin,
            sponsor: self.sponsor,
            anchor_mode: self.anchor_mode,
            post_condition_mode: self.post_condition_mode,
            post_conditions: self.post_conditions@,
            payload: self.payload,
            post_auth_off: self.post_auth_off,
            tx_len: self.tx_len,
        }
    }
}

impl SpendingCondition {
    /// Every span of this condition lies inside a buffer of length
    /// `len`, at the fixed distances the wire layout dictates.
    pub open spec fn wf(self, len: int) -> bool {
        &&& 1 <= self.signer_off
        &&& self.signer_off + HASH_LEN <= len
        &&& (self.hash_mode == HASH_MODE_SINGLE ==> self.sig_off == self.signer_off + 37
            && self.sig_off + SIG_LEN <= len)
        &&& (self.hash_mode == HASH_MODE_MULTI ==> self.fields_off == self.signer_off + 40
            && self.fields_off + self.num_fields * MULTISIG_FIELD_LEN + 2 <= len
            && self.num_fields <= MAX_MULTISIG_FIELDS)
        &&& (self.hash_mode == HASH_MODE_SINGLE || self.hash_mode == HASH_MODE_MULTI)
    }
}

impl Principal {
    /// Every span of this principal lies inside a buffer of length `len`.
    pub open spec fn wf(self, len: int) -> bool {
        &&& self.hash_off + HASH_LEN <= len
        &&& (self.tag == PRINCIPAL_CONTRACT ==> self.name_off + self.name_len <= len && 0
            < self.name_len <= MAX_NAME_LEN)
        &&& (self.tag == PRINCIPAL_STANDARD || self.tag == PRINCIPAL_CONTRACT)
    }
}

impl PostCondition {
    /// Every span of this record lies inside a buffer of length `len`.
    pub open spec fn wf(self, len: int) -> bool {
        self.principal.wf(len)
    }
}

impl Payload {
    /// Every span of this payload lies inside a buffer of length `len`.
    pub open spec fn wf(self, len: int) -> bool {
        match self {
            Payload::TokenTransfer { recipient, amount, memo_off } => {
                &&& recipient.wf(len)
                &&& memo_off + MEMO_LEN <= len
            },
            Payload::ContractCall {
                address_version,
                address_hash_off,
                contract_name_off,
                contract_name_len,
                function_name_off,
                function_name_len,
                args_off,
                args_len,
            } => {
                &&& address_hash_off + HASH_LEN <= len
                &&& contract_name_off + contract_name_len <= len
                &&& function_name_off + function_name_len <= len
                &&& args_off + args_len <= len
                &&& 0 < contract_name_len <= MAX_NAME_LEN
                &&& 0 < function_name_len <= MAX_NAME_LEN
            },
        }
    }
}

impl TxView {
    /// Every span of the model lies inside a buffer of length `len`,
    /// and the bounded counts hold their bounds.
    pub open spec fn wf(self, len: int) -> bool {
        &&& len <= 0xFFFF
        &&& self.origin.wf(len)
        &&& (self.sponsor matches Some(sp) ==> sp.wf(len))
        &&& (self.auth_type == AUTH_SPONSORED <==> self.sponsor is Some)
        &&& (self.auth_type == AUTH_STANDARD || self.auth_type == AUTH_SPONSORED)
        &&& forall|i: int|
            0 <= i < self.post_conditions.len() ==> (#[trigger] self.post_conditions[i]).wf(len)
        &&& self.post_conditions.len() <= MAX_POST_CONDITIONS
        &&& self.payload.wf(len)
        &&& self.post_auth_off <= len
        &&& self.tx_len == len
    }
}

} // verus!
