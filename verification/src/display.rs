//! The display formatter and pager: maps a logical item index to a
//! (key, value) pair and splits the value text across fixed-size output
//! pages with no gaps, overlaps or padding.
//!
//! Every numeric field this library displays (fee, nonce, amounts) is a
//! micro-denomination integer whose declared decimal scale is zero, so
//! the fixed-point rendering of each is its plain decimal text; that is
//! the convention `dec_of` states. A field with another scale would
//! hand its integer value and scale to an outside formatter instead.

use vstd::prelude::*;

use crate::error::ParserError;
use crate::model::{Payload, Transaction, TxView, HASH_LEN, MAX_POST_CONDITIONS, MEMO_LEN};

verus! {

/// The character for one hex nibble, lower case.
pub open spec fn hex_digit(n: u8) -> u8 {
    if n < 10 {
        (0x30 + n) as u8
    } else {
        (0x57 + n) as u8
    }
}

/// The hex text of a byte sequence, two characters per byte.
pub open spec fn hex_of(s: Seq<u8>) -> Seq<u8>
    decreases s.len(),
{
    if s.len() == 0 {
        Seq::empty()
    } else {
        hex_of(s.drop_last()).push(hex_digit(s.last() / 16)).push(hex_digit(s.last() % 16))
    }
}

/// The decimal digits of `n`, empty for zero.
pub open spec fn dec_rec(n: nat) -> Seq<u8>
    decreases n,
{
    if n == 0 {
        Seq::empty()
    } else {
        dec_rec(n / 10).push((0x30 + n % 10) as u8)
    }
}

/// The decimal text of `n` (a single `0` for zero).
pub open spec fn dec_of(n: nat) -> Seq<u8> {
    if n == 0 {
        seq![0x30u8]
    } else {
        dec_rec(n)
    }
}

pub proof fn lemma_hex_len(s: Seq<u8>)
    ensures
        hex_of(s).len() == 2 * s.len(),
    decreases s.len(),
{
    if s.len() > 0 {
        lemma_hex_len(s.drop_last());
    }
}

/// 10 raised to `n`.
pub open spec fn pow10(n: nat) -> nat
    decreases n,
{
    if n == 0 {
        1
    } else {
        10 * pow10((n - 1) as nat)
    }
}

pub proof fn lemma_dec_rec_len(n: nat, k: nat)
    requires
        n < pow10(k),
    ensures
        dec_rec(n).len() <= k,
    decreases k,
{
    if n > 0 {
        assert(k > 0);
        assert(n / 10 < pow10((k - 1) as nat)) by (nonlinear_arith)
            requires
                n < 10 * pow10((k - 1) as nat),
        ;
        lemma_dec_rec_len(n / 10, (k - 1) as nat);
    }
}

pub proof fn lemma_dec_len(n: nat)
    requires
        n < 0x10000000000000000,
    ensures
        dec_of(n).len() <= 20,
{
    assert(pow10(0) == 1);
    assert(pow10(1) == 10);
    assert(pow10(2) == 100);
    assert(pow10(3) == 1000);
    assert(pow10(4) == 10000);
    assert(pow10(5) == 100000);
    assert(pow10(6) == 1000000);
    assert(pow10(7) == 10000000);
    assert(pow10(8) == 100000000);
    assert(pow10(9) == 1000000000);
    assert(pow10(10) == 10000000000);
    assert(pow10(11) == 100000000000);
    assert(pow10(12) == 1000000000000);
    assert(pow10(13) == 10000000000000);
    assert(pow10(14) == 100000000000000);
    assert(pow10(15) == 1000000000000000);
    assert(pow10(16) == 10000000000000000);
    assert(pow10(17) == 100000000000000000);
    assert(pow10(18) == 1000000000000000000);
    assert(pow10(19) == 10000000000000000000);
    assert(pow10(20) == 100000000000000000000);
    lemma_dec_rec_len(n, 20);
}

fn hex_digit_exec(n: u8) -> (r: u8)
    requires
        n < 16,
    ensures
        r == hex_digit(n),
{
    if n < 10 {
        0x30 + n
    } else {
        0x57 + n
    }
}

/// The hex text of the byte span `[off, off + n)` of the buffer.
fn render_hex(buf: &Vec<u8>, off: u16, n: u16) -> (r: Vec<u8>)
    requires
        off + n <= buf@.len(),
        buf@.len() <= 0xFFFF,
    ensures
        r@ == hex_of(buf@.subrange(off as int, off as int + n as int)),
{
    let mut out: Vec<u8> = Vec::new();
    let mut i: u16 = 0;
    proof {
        assert(buf@.subrange(off as int, off as int) =~= Seq::<u8>::empty());
    }
    while i < n
        invariant
            i <= n,
            off + n <= buf@.len(),
            buf@.len() <= 0xFFFF,
            out@ == hex_of(buf@.subrange(off as int, off as int + i as int)),
        decreases n - i,
    {
        let b = buf[(off + i) as usize];
        proof {
            let pre = buf@.subrange(off as int, off as int + i as int);
            assert(buf@.subrange(off as int, off as int + i as int + 1) =~= pre.push(b));
            assert(pre.push(b).drop_last() =~= pre);
        }
        out.push(hex_digit_exec(b / 16));
        out.push(hex_digit_exec(b % 16));
        i = i + 1;
    }
    out
}

/// The decimal text of `v`.
fn render_dec(v: u64) -> (r: Vec<u8>)
    ensures
        r@ == dec_of(v as nat),
{
    let mut out: Vec<u8> = Vec::new();
    if v == 0 {
        out.push(0x30);
        proof {
            assert(out@ =~= seq![0x30u8]);
        }
        return out;
    }
    let mut w: u64 = v;
    while w > 0
        invariant
            dec_rec(v as nat) =~= dec_rec(w as nat) + out@,
        decreases w,
    {
        let d: u8 = (w % 10) as u8;
        proof {
            let w0 = w as nat;
            assert(dec_rec(w0) == dec_rec(w0 / 10).push((0x30 + w0 % 10) as u8));
            assert(out@.insert(0, (0x30 + d) as u8) =~= seq![(0x30 + d) as u8] + out@);
            assert(dec_rec(w0 / 10) + (seq![(0x30 + d) as u8] + out@) =~= (dec_rec(w0 / 10).push(
                (0x30 + d) as u8,
            )) + out@);
        }
        out.insert(0, 0x30 + d);
        w = w / 10;
    }
    proof {
        assert(dec_rec(0) + out@ =~= out@);
    }
    out
}

/// A copy of the byte span `[off, off + n)` of the buffer.
fn copy_span(buf: &Vec<u8>, off: u16, n: u16) -> (r: Vec<u8>)
    requires
        off + n <= buf@.len(),
        buf@.len() <= 0xFFFF,
    ensures
        r@ == buf@.subrange(off as int, off as int + n as int),
{
    let mut out: Vec<u8> = Vec::new();
    let mut i: u16 = 0;
    while i < n
        invariant
            i <= n,
            off + n <= buf@.len(),
            buf@.len() <= 0xFFFF,
            out@ =~= buf@.subrange(off as int, off as int + i as int),
        decreases n - i,
    {
        out.push(buf[(off + i) as usize]);
        proof {
            assert(buf@.subrange(off as int, off as int + i as int + 1) =~= buf@.subrange(
                off as int,
                off as int + i as int,
            ).push(buf@[off as int + i as int]));
        }
        i = i + 1;
    }
    out
}

/// How many display items a decoded transaction exposes: three
/// authentication items, one per post-condition, three payload items.
pub open spec fn spec_num_items(t: TxView) -> int {
    3 + t.post_conditions.len() as int + 3
}

pub open spec fn key_origin() -> Seq<u8> {
    seq![0x4fu8, 0x72, 0x69, 0x67, 0x69, 0x6e]
}

pub open spec fn key_nonce() -> Seq<u8> {
    seq![0x4eu8, 0x6f, 0x6e, 0x63, 0x65]
}

pub open spec fn key_fee() -> Seq<u8> {
    seq![0x46u8, 0x65, 0x65]
}

pub open spec fn key_postcond() -> Seq<u8> {
    seq![0x50u8, 0x6f, 0x73, 0x74, 0x63, 0x6f, 0x6e, 0x64]
}

pub open spec fn key_amount() -> Seq<u8> {
    seq![0x41u8, 0x6d, 0x6f, 0x75, 0x6e, 0x74]
}

pub open spec fn key_to() -> Seq<u8> {
    seq![0x54u8, 0x6f]
}

pub open spec fn key_memo() -> Seq<u8> {
    seq![0x4du8, 0x65, 0x6d, 0x6f]
}

pub open spec fn key_contract() -> Seq<u8> {
    seq![0x43u8, 0x6f, 0x6e, 0x74, 0x72, 0x61, 0x63, 0x74]
}

pub open spec fn key_function() -> Seq<u8> {
    seq![0x46u8, 0x75, 0x6e, 0x63, 0x74, 0x69, 0x6f, 0x6e]
}

pub open spec fn key_args() -> Seq<u8> {
    seq![0x41u8, 0x72, 0x67, 0x73]
}

/// The key text of display item `idx`.
pub open spec fn spec_item_key(t: TxView, idx: int) -> Seq<u8> {
    if idx == 0 {
        key_origin()
    } else if idx == 1 {
        key_nonce()
    } else if idx == 2 {
        key_fee()
    } else if idx < 3 + t.post_conditions.len() {
        key_postcond()
    } else {
        let base = 3 + t.post_conditions.len() as int;
        match t.payload {
            Payload::TokenTransfer { .. } => {
                if idx == base {
                    key_amount()
                } else if idx == base + 1 {
                    key_to()
                } else {
                    key_memo()
                }
            },
            Payload::ContractCall { .. } => {
                if idx == base {
                    key_contract()
                } else if idx == base + 1 {
                    key_function()
                } else {
                    key_args()
                }
            },
        }
    }
}

/// The full value text of display item `idx`: signer and recipient
/// hashes and memo and argument bytes as hex, numbers as decimal,
/// names as their own bytes.
pub open spec fn spec_item_value(t: TxView, buf: Seq<u8>, idx: int) -> Seq<u8> {
    if idx == 0 {
        hex_of(buf.subrange(t.origin.signer_off as int, t.origin.signer_off + HASH_LEN))
    } else if idx == 1 {
        dec_of(t.origin.nonce as nat)
    } else if idx == 2 {
        dec_of(t.origin.fee as nat)
    } else if idx < 3 + t.post_conditions.len() {
        dec_of(t.post_conditions[idx - 3].amount as nat)
    } else {
        let base = 3 + t.post_conditions.len() as int;
        match t.payload {
            Payload::TokenTransfer { recipient, amount, memo_off } => {
                if idx == base {
                    dec_of(amount as nat)
                } else if idx == base + 1 {
                    hex_of(buf.subrange(recipient.hash_off as int, recipient.hash_off + HASH_LEN))
                } else {
                    hex_of(buf.subrange(memo_off as int, memo_off + MEMO_LEN))
                }
            },
            Payload::ContractCall {
                address_version,
                address_hash_off,
                contract_name_off,
                contract_name_len,
                function_name_off,
                function_name_len,
                args_off,
                args_len,
            } => {
                if idx == base {
                    buf.subrange(contract_name_off as int, contract_name_off + contract_name_len)
                } else if idx == base + 1 {
                    buf.subrange(function_name_off as int, function_name_off + function_name_len)
                } else {
                    hex_of(buf.subrange(args_off as int, args_off + args_len))
                }
            },
        }
    }
}

/// No item's full value text is longer than this.
pub proof fn lemma_item_value_len(t: TxView, buf: Seq<u8>, idx: int)
    requires
        t.wf(buf.len() as int),
        0 <= idx < spec_num_items(t),
    ensures
        spec_item_value(t, buf, idx).len() <= 0x20000,
{
    if idx == 0 {
        lemma_hex_len(buf.subrange(t.origin.signer_off as int, t.origin.signer_off + HASH_LEN));
    } else if idx == 1 {
        lemma_dec_len(t.origin.nonce as nat);
    } else if idx == 2 {
        lemma_dec_len(t.origin.fee as nat);
    } else if idx < 3 + t.post_conditions.len() {
        lemma_dec_len(t.post_conditions[idx - 3].amount as nat);
    } else {
        let base = 3 + t.post_conditions.len() as int;
        match t.payload {
            Payload::TokenTransfer { recipient, amount, memo_off } => {
                if idx == base {
                    lemma_dec_len(amount as nat);
                } else if idx == base + 1 {
                    lemma_hex_len(
                        buf.subrange(recipient.hash_off as int, recipient.hash_off + HASH_LEN),
                    );
                } else {
                    lemma_hex_len(buf.subrange(memo_off as int, memo_off + MEMO_LEN));
                }
            },
            Payload::ContractCall { args_off, args_len, .. } => {
                if idx >= base + 2 {
                    lemma_hex_len(buf.subrange(args_off as int, args_off + args_len));
                }
            },
        }
    }
}

/// How many pages a value of length `len` takes at page capacity `cap`:
/// the rounded-up quotient, and one page for an empty value.
pub open spec fn spec_page_count(len: int, cap: int) -> int {
    if len == 0 {
        1
    } else {
        (len + cap - 1) / cap
    }
}

/// The byte range of page `page` of value `v` at capacity `cap`: the
/// last page may be shorter, never padded.
pub open spec fn spec_page(v: Seq<u8>, cap: int, page: int) -> Seq<u8> {
    v.subrange(
        page * cap,
        if (page + 1) * cap <= v.len() {
            (page + 1) * cap
        } else {
            v.len() as int
        },
    )
}

/// The rounded-up quotient brackets the value length.
pub proof fn lemma_ceil_bounds(len: int, cap: int)
    requires
        len >= 1,
        cap >= 1,
    ensures
        spec_page_count(len, cap) >= 1,
        (spec_page_count(len, cap) - 1) * cap < len,
        len <= spec_page_count(len, cap) * cap,
{
    let x = len + cap - 1;
    let q = x / cap;
    vstd::arithmetic::div_mod::lemma_fundamental_div_mod(x, cap);
    vstd::arithmetic::div_mod::lemma_mod_division_less_than_divisor(x, cap);
    let r = x % cap;
    assert(x == cap * q + r);
    assert(q >= 1) by (nonlinear_arith)
        requires
            cap * q + r == len + cap - 1,
            len >= 1,
            cap >= 1,
            0 <= r < cap,
    ;
    assert((q - 1) * cap < len) by (nonlinear_arith)
        requires
            cap * q + r == len + cap - 1,
            0 <= r < cap,
            cap >= 1,
    ;
    assert(len <= q * cap) by (nonlinear_arith)
        requires
            cap * q + r == len + cap - 1,
            0 <= r < cap,
            cap >= 1,
    ;
}

/// For every transaction the decoder accepts, the item count is the
/// deterministic sum for its shape: three authentication items, one
/// item per decoded post-condition, three payload items.
pub proof fn lemma_num_items_shape(buf: Seq<u8>, t: TxView)
    requires
        crate::decode::sp_parse_tx(buf) == Ok::<TxView, ParserError>(t),
    ensures
        spec_num_items(t) == 3 + t.post_conditions.len() + 3,
{
}

/// One page suffices whenever the value fits the capacity.
pub proof fn lemma_ceil_one(len: int, cap: int)
    requires
        1 <= len <= cap,
    ensures
        spec_page_count(len, cap) == 1,
{
    let x = len + cap - 1;
    vstd::arithmetic::div_mod::lemma_fundamental_div_mod(x, cap);
    vstd::arithmetic::div_mod::lemma_mod_division_less_than_divisor(x, cap);
    let q = x / cap;
    let r = x % cap;
    assert(q == 1) by (nonlinear_arith)
        requires
            cap * q + r == len + cap - 1,
            1 <= len <= cap,
            0 <= r < cap,
    ;
}

/// What `get_item` returns and writes, as one mathematical function of
/// its arguments: the result code, the final key buffer, and the final
/// value buffer. The index and page are validated before the key copy
/// is attempted, so an out-of-range page reports `InvalidPage` even
/// when the key would not fit. On any error both output buffers keep
/// their old bytes.
pub open spec fn spec_get_item(
    t: TxView,
    buf: Seq<u8>,
    idx: int,
    key_old: Seq<u8>,
    val_old: Seq<u8>,
    page: int,
) -> (Result<u8, ParserError>, Seq<u8>, Seq<u8>) {
    if idx < 0 || idx >= spec_num_items(t) {
        (Err(ParserError::DisplayIdxOutOfRange), key_old, val_old)
    } else {
        let key = spec_item_key(t, idx);
        let val = spec_item_value(t, buf, idx);
        let pc = spec_page_count(val.len() as int, val_old.len() as int);
        if page >= pc {
            (Err(ParserError::InvalidPage), key_old, val_old)
        } else if pc > 255 {
            (Err(ParserError::InvalidLength), key_old, val_old)
        } else if key.len() > key_old.len() {
            (Err(ParserError::InvalidLength), key_old, val_old)
        } else {
            (Ok(pc as u8), key, spec_page(val, val_old.len() as int, page))
        }
    }
}

/// The boundary verdicts of a query: a display index at (or past) the
/// item count reports `DisplayIdxOutOfRange`; a valid display index
/// with a page index at (or past) the page count reports
/// `InvalidPage`, whatever the key capacity.
pub proof fn lemma_get_item_boundaries(
    t: TxView,
    buf: Seq<u8>,
    idx: int,
    key_old: Seq<u8>,
    val_old: Seq<u8>,
    page: int,
)
    ensures
        idx >= spec_num_items(t) ==> spec_get_item(t, buf, idx, key_old, val_old, page).0 == Err::<
            u8,
            ParserError,
        >(ParserError::DisplayIdxOutOfRange),
        0 <= idx < spec_num_items(t) && page >= spec_page_count(
            spec_item_value(t, buf, idx).len() as int,
            val_old.len() as int,
        ) ==> spec_get_item(t, buf, idx, key_old, val_old, page).0 == Err::<u8, ParserError>(
            ParserError::InvalidPage,
        ),
{
}

/// Two `get_item` queries with identical arguments return identical
/// results: the same code, the same key bytes, the same value page.
pub proof fn lemma_get_item_idempotent(
    t: TxView,
    buf: Seq<u8>,
    idx: int,
    key_old: Seq<u8>,
    val_old: Seq<u8>,
    page: int,
    first: (Result<u8, ParserError>, Seq<u8>, Seq<u8>),
    second: (Result<u8, ParserError>, Seq<u8>, Seq<u8>),
)
    requires
        first == spec_get_item(t, buf, idx, key_old, val_old, page),
        second == spec_get_item(t, buf, idx, key_old, val_old, page),
    ensures
        first == second,
{
}

/// Concatenating all the pages of `v`, in order, yields exactly `v`.
pub proof fn lemma_pages_cover_prefix(v: Seq<u8>, cap: int, k: int)
    requires
        cap >= 1,
        0 <= k <= spec_page_count(v.len() as int, cap),
    ensures
        spec_pages_concat(v, cap, k) =~= v.subrange(
            0,
            if k * cap <= v.len() {
                k * cap
            } else {
                v.len() as int
            },
        ),
    decreases k,
{
    if k > 0 {
        lemma_pages_cover_prefix(v, cap, k - 1);
        let len = v.len() as int;
        let s = (k - 1) * cap;
        assert(k * cap == s + cap) by (nonlinear_arith)
            requires
                s == (k - 1) * cap,
        ;
        assert(s >= 0) by (nonlinear_arith)
            requires
                k >= 1,
                cap >= 1,
                s == (k - 1) * cap,
        ;
        if len > 0 {
            lemma_ceil_bounds(len, cap);
            assert(s < len) by (nonlinear_arith)
                requires
                    k <= spec_page_count(v.len() as int, cap),
                    (spec_page_count(v.len() as int, cap) - 1) * cap < len,
                    cap >= 1,
                    k >= 1,
                    s == (k - 1) * cap,
            ;
            let e2 = if k * cap <= len {
                k * cap
            } else {
                len
            };
            assert(spec_pages_concat(v, cap, k) == spec_pages_concat(v, cap, k - 1) + spec_page(
                v,
                cap,
                k - 1,
            ));
            assert(spec_pages_concat(v, cap, k - 1) =~= v.subrange(0, s));
            assert((k - 1 + 1) * cap == s + cap) by (nonlinear_arith)
                requires
                    s == (k - 1) * cap,
            ;
            assert(spec_page(v, cap, k - 1) =~= v.subrange(s, e2));
            assert(v.subrange(0, s) + v.subrange(s, e2) =~= v.subrange(0, e2));
        } else {
            assert(k == 1);
            assert(0 * cap == 0) by (nonlinear_arith);
            assert((0 + 1) * cap == cap) by (nonlinear_arith);
            assert(spec_page(v, cap, 0) =~= v.subrange(0, 0));
            assert(spec_pages_concat(v, cap, 1) == spec_pages_concat(v, cap, 0) + spec_page(
                v,
                cap,
                0,
            ));
            assert(Seq::<u8>::empty() + v.subrange(0, 0) =~= v.subrange(0, 0));
        }
    }
}

/// The pages `0 .. page_count`, concatenated in order.
pub open spec fn spec_pages_concat(v: Seq<u8>, cap: int, k: int) -> Seq<u8>
    decreases k,
{
    if k <= 0 {
        Seq::empty()
    } else {
        spec_pages_concat(v, cap, k - 1) + spec_page(v, cap, k - 1)
    }
}

/// Pagination is complete: the pages `0 .. page_count` concatenate to
/// exactly the full value, with no gaps, overlaps or padding, and the
/// page count is the rounded-up quotient (one page for an empty value).
pub proof fn lemma_pagination_complete(v: Seq<u8>, cap: int)
    requires
        cap >= 1,
    ensures
        spec_pages_concat(v, cap, spec_page_count(v.len() as int, cap)) == v,
        v.len() == 0 ==> spec_page_count(v.len() as int, cap) == 1,
        v.len() > 0 ==> spec_page_count(v.len() as int, cap) == (v.len() + cap - 1) / cap,
{
    let pc = spec_page_count(v.len() as int, cap);
    if v.len() > 0 {
        lemma_ceil_bounds(v.len() as int, cap);
    }
    lemma_pages_cover_prefix(v, cap, pc);
    assert(v.subrange(0, v.len() as int) =~= v);
}

impl Transaction {
    /// How many display items this transaction exposes: the
    /// deterministic sum of the authentication, post-condition and
    /// payload item counts.
    pub fn num_items(&self) -> (r: u8)
        requires
            self@.post_conditions.len() <= MAX_POST_CONDITIONS,
        ensures
            r == spec_num_items(self@),
    {
        6 + (self.post_conditions.len() as u8)
    }

    fn item_key(&self, idx: u8) -> (r: Vec<u8>)
        requires
            self@.post_conditions.len() <= MAX_POST_CONDITIONS,
            idx < spec_num_items(self@),
        ensures
            r@ == spec_item_key(self@, idx as int),
    {
        let npc = self.post_conditions.len() as u8;
        let mut k: Vec<u8> = Vec::new();
        if idx == 0 {
            k.push(0x4f);
            k.push(0x72);
            k.push(0x69);
            k.push(0x67);
            k.push(0x69);
            k.push(0x6e);
            proof {
                assert(k@ =~= key_origin());
            }
        } else if idx == 1 {
            k.push(0x4e);
            k.push(0x6f);
            k.push(0x6e);
            k.push(0x63);
            k.push(0x65);
            proof {
                assert(k@ =~= key_nonce());
            }
        } else if idx == 2 {
            k.push(0x46);
            k.push(0x65);
            k.push(0x65);
            proof {
                assert(k@ =~= key_fee());
            }
        } else if idx < 3 + npc {
            k.push(0x50);
            k.push(0x6f);
            k.push(0x73);
            k.push(0x74);
            k.push(0x63);
            k.push(0x6f);
            k.push(0x6e);
            k.push(0x64);
            proof {
                assert(k@ =~= key_postcond());
            }
        } else {
            match &self.payload {
                Payload::TokenTransfer { .. } => {
                    if idx == 3 + npc {
                        k.push(0x41);
                        k.push(0x6d);
                        k.push(0x6f);
                        k.push(0x75);
                        k.push(0x6e);
                        k.push(0x74);
                        proof {
                            assert(k@ =~= key_amount());
                        }
                    } else if idx == 4 + npc {
                        k.push(0x54);
                        k.push(0x6f);
                        proof {
                            assert(k@ =~= key_to());
                        }
                    } else {
                        k.push(0x4d);
                        k.push(0x65);
                        k.push(0x6d);
                        k.push(0x6f);
                        proof {
                            assert(k@ =~= key_memo());
                        }
                    }
                },
                Payload::ContractCall { .. } => {
                    if idx == 3 + npc {
                        k.push(0x43);
                        k.push(0x6f);
                        k.push(0x6e);
                        k.push(0x74);
                        k.push(0x72);
                        k.push(0x61);
                        k.push(0x63);
                        k.push(0x74);
                        proof {
                            assert(k@ =~= key_contract());
                        }
                    } else if idx == 4 + npc {
                        k.push(0x46);
                        k.push(0x75);
                        k.push(0x6e);
                        k.push(0x63);
                        k.push(0x74);
                        k.push(0x69);
                        k.push(0x6f);
                        k.push(0x6e);
                        proof {
                            assert(k@ =~= key_function());
                        }
                    } else {
                        k.push(0x41);
                        k.push(0x72);
                        k.push(0x67);
                        k.push(0x73);
                        proof {
                            assert(k@ =~= key_args());
                        }
                    }
                },
            }
        }
        k
    }

    fn item_value(&self, buf: &Vec<u8>, idx: u8) -> (r: Vec<u8>)
        requires
            self@.wf(buf@.len() as int),
            idx < spec_num_items(self@),
        ensures
            r@ == spec_item_value(self@, buf@, idx as int),
    {
        let npc = self.post_conditions.len() as u8;
        if idx == 0 {
            render_hex(buf, self.origin.signer_off, HASH_LEN)
        } else if idx == 1 {
            render_dec(self.origin.nonce)
        } else if idx == 2 {
            render_dec(self.origin.fee)
        } else if idx < 3 + npc {
            render_dec(self.post_conditions[(idx - 3) as usize].amount)
        } else {
            match &self.payload {
                Payload::TokenTransfer { recipient, amount, memo_off } => {
                    if idx == 3 + npc {
                        render_dec(*amount)
                    } else if idx == 4 + npc {
                        render_hex(buf, recipient.hash_off, HASH_LEN)
                    } else {
                        render_hex(buf, *memo_off, MEMO_LEN)
                    }
                },
                Payload::ContractCall {
                    address_version: _,
                    address_hash_off: _,
                    contract_name_off,
                    contract_name_len,
                    function_name_off,
                    function_name_len,
                    args_off,
                    args_len,
                } => {
                    if idx == 3 + npc {
                        copy_span(buf, *contract_name_off, *contract_name_len as u16)
                    } else if idx == 4 + npc {
                        copy_span(buf, *function_name_off, *function_name_len as u16)
                    } else {
                        render_hex(buf, *args_off, *args_len)
                    }
                },
            }
        }
    }

    /// Answers display item `idx`, page `page_idx`: writes the key text
    /// and exactly the requested page of the value text into the two
    /// output buffers (their lengths on entry are the capacities) and
    /// returns the page count. The checks run in order: an out-of-range
    /// index reports `DisplayIdxOutOfRange`, an out-of-range page
    /// `InvalidPage`, and only then a key or page count over capacity
    /// `InvalidLength`; on every error both buffers keep their old
    /// bytes.
    pub fn get_item(
        &self,
        buf: &Vec<u8>,
        display_idx: u8,
        out_key: &mut Vec<u8>,
        out_value: &mut Vec<u8>,
        page_idx: u8,
    ) -> (r: Result<u8, ParserError>)
        requires
            self@.wf(buf@.len() as int),
            old(out_value)@.len() >= 1,
        ensures
            ({
                let s = spec_get_item(
                    self@,
                    buf@,
                    display_idx as int,
                    old(out_key)@,
                    old(out_value)@,
                    page_idx as int,
                );
                r == s.0 && final(out_key)@ == s.1 && final(out_value)@ == s.2
            }),
    {
        let n = self.num_items();
        if display_idx >= n {
            return Err(ParserError::DisplayIdxOutOfRange);
        }
        let key = self.item_key(display_idx);
        let val = self.item_value(buf, display_idx);
        proof {
            lemma_item_value_len(self@, buf@, display_idx as int);
        }
        let l: u64 = val.len() as u64;
        let cap: u64 = out_value.len() as u64;
        let pcount: u64 = if l == 0 {
            1
        } else if cap >= l {
            proof {
                lemma_ceil_one(l as int, cap as int);
            }
            1
        } else {
            proof {
                lemma_ceil_bounds(l as int, cap as int);
            }
            (l + cap - 1) / cap
        };
        proof {
            assert(pcount == spec_page_count(val@.len() as int, old(out_value)@.len() as int));
        }
        if (page_idx as u64) >= pcount {
            return Err(ParserError::InvalidPage);
        }
        if pcount > 255 {
            return Err(ParserError::InvalidLength);
        }
        if key.len() > out_key.len() {
            return Err(ParserError::InvalidLength);
        }
        proof {
            if l > 0 {
                lemma_ceil_bounds(l as int, cap as int);
                assert((page_idx as int) * (cap as int) < l) by (nonlinear_arith)
                    requires
                        (page_idx as int) < pcount as int,
                        (pcount as int - 1) * (cap as int) < l,
                        cap >= 1,
                        page_idx as int >= 0,
                ;
            } else {
                assert(pcount == 1);
                assert(page_idx == 0);
                assert((page_idx as int) * (cap as int) == 0) by (nonlinear_arith)
                    requires
                        page_idx as int == 0,
                ;
            }
            assert(0 <= (page_idx as int) * (cap as int) <= l) by (nonlinear_arith)
                requires
                    (page_idx as int) * (cap as int) < l || (page_idx as int) * (cap as int) == 0,
                    l >= 0,
            ;
        }
        let start: u64 = (page_idx as u64) * cap;
        let end: u64 = if l - start < cap {
            l
        } else {
            start + cap
        };
        let mut page: Vec<u8> = Vec::new();
        let mut i: u64 = start;
        proof {
            assert(page@ =~= val@.subrange(start as int, start as int));
        }
        while i < end
            invariant
                start <= i <= end,
                end <= val@.len(),
                page@ =~= val@.subrange(start as int, i as int),
            decreases end - i,
        {
            page.push(val[i as usize]);
            proof {
                assert(val@.subrange(start as int, i as int + 1) =~= val@.subrange(
                    start as int,
                    i as int,
                ).push(val@[i as int]));
            }
            i = i + 1;
        }
        proof {
            assert((page_idx as int + 1) * (cap as int) == start + cap) by (nonlinear_arith)
                requires
                    start == (page_idx as int) * (cap as int),
            ;
            assert(page@ =~= spec_page(val@, cap as int, page_idx as int));
        }
        *out_key = key;
        *out_value = page;
        Ok(pcount as u8)
    }
}

} // verus!
