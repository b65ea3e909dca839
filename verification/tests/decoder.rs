use tx_parser::error::ParserError;
use tx_parser::session::{
    auth_flag, check_pubkey_hash, decode, fee_bytes, get_item, init, last_block_pointer,
    nonce_bytes, num_items, presig_hash_data, parse_tx_t, parser_context_t, required_state_size,
};

fn new_ctx() -> parser_context_t {
    parser_context_t { buffer: Vec::new(), offset: 0 }
}

/// A single-signer spending condition: zero nonce unless given, fee as
/// given, zeroed signature placeholder.
fn single_cond(signer: &[u8; 20], nonce: u64, fee: u64) -> Vec<u8> {
    let mut v = Vec::new();
    v.push(0x00); // hash mode: single signer
    v.extend_from_slice(signer);
    v.extend_from_slice(&nonce.to_be_bytes());
    v.extend_from_slice(&fee.to_be_bytes());
    v.push(0x00); // key encoding: compressed
    v.extend_from_slice(&[0u8; 65]); // signature placeholder
    v
}

/// A multi-signer spending condition with one authorization field.
fn multi_cond(signer: &[u8; 20], nonce: u64, fee: u64) -> Vec<u8> {
    let mut v = Vec::new();
    v.push(0x01); // hash mode: multiple signers
    v.extend_from_slice(signer);
    v.extend_from_slice(&nonce.to_be_bytes());
    v.extend_from_slice(&fee.to_be_bytes());
    v.extend_from_slice(&1u32.to_be_bytes()); // one field
    v.extend_from_slice(&[0u8; 66]);
    v.extend_from_slice(&1u16.to_be_bytes()); // one signature required
    v
}

/// One native-token post-condition with a standard principal.
fn stx_post_condition(amount: u64) -> Vec<u8> {
    let mut v = Vec::new();
    v.push(0x00); // type: native token
    v.push(0x02); // principal: standard
    v.push(0x01); // principal version
    v.extend_from_slice(&[0x22u8; 20]);
    v.push(0x03); // condition code
    v.extend_from_slice(&amount.to_be_bytes());
    v
}

/// A token-transfer payload to a standard principal.
fn transfer_payload(amount: u64) -> Vec<u8> {
    let mut v = Vec::new();
    v.push(0x00); // payload: token transfer
    v.push(0x02); // recipient: standard principal
    v.push(0x01); // recipient version
    v.extend_from_slice(&[0x33u8; 20]);
    v.extend_from_slice(&amount.to_be_bytes());
    v.extend_from_slice(&[0u8; 34]); // memo
    v
}

fn build_tx(origin: Vec<u8>, sponsor: Option<Vec<u8>>, pcs: &[Vec<u8>], payload: Vec<u8>) -> Vec<u8> {
    let mut v = Vec::new();
    v.push(0x00); // version: mainnet
    v.extend_from_slice(&1u32.to_be_bytes()); // chain id
    v.push(if sponsor.is_some() { 0x05 } else { 0x04 });
    v.extend_from_slice(&origin);
    if let Some(sp) = sponsor {
        v.extend_from_slice(&sp);
    }
    v.push(0x01); // anchor mode
    v.push(0x01); // post-condition mode
    v.extend_from_slice(&(pcs.len() as u32).to_be_bytes());
    for pc in pcs {
        v.extend_from_slice(pc);
    }
    v.extend_from_slice(&payload);
    v
}

fn minimal_transfer(signer: &[u8; 20], nonce: u64, fee: u64) -> Vec<u8> {
    build_tx(single_cond(signer, nonce, fee), None, &[], transfer_payload(77))
}

fn decode_ok(bytes: Vec<u8>) -> (parser_context_t, parse_tx_t) {
    let mut ctx = new_ctx();
    let size = init(&mut ctx, bytes);
    assert!(size.is_ok());
    let mut st = parse_tx_t::new();
    assert_eq!(decode(&ctx, &mut st), Ok(()));
    (ctx, st)
}

fn hash160(data: &[u8]) -> [u8; 20] {
    let sha = <sha2::Sha256 as sha2::Digest>::digest(data);
    let rip = <ripemd::Ripemd160 as ripemd::Digest>::digest(sha.as_slice());
    let mut out = [0u8; 20];
    out.copy_from_slice(rip.as_slice());
    out
}

#[test]
fn minimal_transfer_decodes_with_expected_fields() {
    let signer = [0x11u8; 20];
    let tx = minimal_transfer(&signer, 0, 180);
    assert_eq!(tx.len(), 180);
    let (ctx, st) = decode_ok(tx);

    assert_eq!(auth_flag(&st), Ok(0x04));

    let mut fee = vec![0u8; 8];
    assert_eq!(fee_bytes(&st, &mut fee), 8);
    assert_eq!(fee, vec![0x00, 0x00, 0x00, 0x00, 0x00, 0x00, 0x00, 0xB4]);
    assert_eq!(u64::from_be_bytes(fee.clone().try_into().unwrap()), 180);

    let mut nonce = vec![0u8; 8];
    assert_eq!(nonce_bytes(&st, &mut nonce), 8);
    assert_eq!(nonce, vec![0u8; 8]);

    assert_eq!(num_items(&ctx, &st), 6);
    assert_eq!(last_block_pointer(&st), Some(109));
}

#[test]
fn fee_nonce_bytes_match_input_encoding() {
    let signer = [0x11u8; 20];
    let nonce_value = 0x0102030405060708u64;
    let fee_value = 0x1122334455667788u64;
    let tx = minimal_transfer(&signer, nonce_value, fee_value);
    let (_ctx, st) = decode_ok(tx.clone());

    let mut fee = vec![0u8; 8];
    assert_eq!(fee_bytes(&st, &mut fee), 8);
    assert_eq!(&fee[..], &tx[35..43]);
    assert_eq!(u64::from_be_bytes(fee.try_into().unwrap()), fee_value);

    let mut nonce = vec![0u8; 8];
    assert_eq!(nonce_bytes(&st, &mut nonce), 8);
    assert_eq!(&nonce[..], &tx[27..35]);
    assert_eq!(u64::from_be_bytes(nonce.try_into().unwrap()), nonce_value);

    // Undersized buffers are left alone with a zero count.
    let mut small = vec![0xAAu8; 7];
    assert_eq!(fee_bytes(&st, &mut small), 0);
    assert_eq!(small, vec![0xAAu8; 7]);
}

#[test]
fn get_item_renders_auth_items() {
    let signer = [0xABu8; 20];
    let tx = minimal_transfer(&signer, 7, 180);
    let (ctx, st) = decode_ok(tx);

    let mut key = vec![0u8; 32];
    let mut val = vec![0u8; 64];
    assert_eq!(get_item(&ctx, 0, &mut key, &mut val, 0, &st), Ok(1));
    assert_eq!(&key[..], b"Origin");
    assert_eq!(&val[..], "ab".repeat(20).as_bytes());

    let mut key = vec![0u8; 32];
    let mut val = vec![0u8; 64];
    assert_eq!(get_item(&ctx, 1, &mut key, &mut val, 0, &st), Ok(1));
    assert_eq!(&key[..], b"Nonce");
    assert_eq!(&val[..], b"7");

    let mut key = vec![0u8; 32];
    let mut val = vec![0u8; 64];
    assert_eq!(get_item(&ctx, 2, &mut key, &mut val, 0, &st), Ok(1));
    assert_eq!(&key[..], b"Fee");
    assert_eq!(&val[..], b"180");

    let mut key = vec![0u8; 32];
    let mut val = vec![0u8; 64];
    assert_eq!(get_item(&ctx, 3, &mut key, &mut val, 0, &st), Ok(1));
    assert_eq!(&key[..], b"Amount");
    assert_eq!(&val[..], b"77");
}

#[test]
fn three_post_conditions_each_paginatable() {
    let signer = [0x11u8; 20];
    let pcs = [stx_post_condition(5), stx_post_condition(123456), stx_post_condition(7)];
    let tx = build_tx(single_cond(&signer, 0, 180), None, &pcs, transfer_payload(9));
    let (ctx, st) = decode_ok(tx);

    assert_eq!(num_items(&ctx, &st), 9);
    let expected = ["5", "123456", "7"];
    for (i, want) in expected.iter().enumerate() {
        let mut key = vec![0u8; 32];
        let mut val = vec![0u8; 64];
        assert_eq!(get_item(&ctx, 3 + i as u8, &mut key, &mut val, 0, &st), Ok(1));
        assert_eq!(&key[..], b"Postcond");
        assert_eq!(&val[..], want.as_bytes());

        // Page with capacity 1: one page per character, concatenation
        // reconstructs the full text.
        let mut rebuilt = Vec::new();
        let mut page = 0u8;
        loop {
            let mut k = vec![0u8; 32];
            let mut v = vec![0u8; 1];
            let pages = get_item(&ctx, 3 + i as u8, &mut k, &mut v, page, &st).unwrap();
            assert_eq!(pages as usize, want.len());
            rebuilt.extend_from_slice(&v);
            page += 1;
            if page == pages {
                break;
            }
        }
        assert_eq!(&rebuilt[..], want.as_bytes());
    }
}

#[test]
fn pagination_reconstructs_value_without_gaps() {
    let signer = [0x11u8; 20];
    let tx = minimal_transfer(&signer, 0, 180);
    let (ctx, st) = decode_ok(tx);

    // Item 0 is the signer hash in hex: 40 characters.
    let full = "11".repeat(20);
    for cap in [1usize, 3, 7, 40, 64] {
        let mut rebuilt = Vec::new();
        let mut page = 0u8;
        let expected_pages = (full.len() + cap - 1) / cap;
        loop {
            let mut k = vec![0u8; 32];
            let mut v = vec![0u8; cap];
            let pages = get_item(&ctx, 0, &mut k, &mut v, page, &st).unwrap();
            assert_eq!(pages as usize, expected_pages);
            assert!(v.len() <= cap);
            rebuilt.extend_from_slice(&v);
            page += 1;
            if page == pages {
                break;
            }
        }
        assert_eq!(rebuilt, full.as_bytes());
    }
}

#[test]
fn get_item_is_idempotent() {
    let signer = [0x5Au8; 20];
    let tx = minimal_transfer(&signer, 3, 999);
    let (ctx, st) = decode_ok(tx);

    for idx in 0..num_items(&ctx, &st) {
        let mut k1 = vec![0u8; 32];
        let mut v1 = vec![0u8; 5];
        let r1 = get_item(&ctx, idx, &mut k1, &mut v1, 0, &st);
        let mut k2 = vec![0u8; 32];
        let mut v2 = vec![0u8; 5];
        let r2 = get_item(&ctx, idx, &mut k2, &mut v2, 0, &st);
        assert_eq!(r1, r2);
        assert_eq!(k1, k2);
        assert_eq!(v1, v2);
    }
}

#[test]
fn boundary_indices_are_rejected() {
    let signer = [0x11u8; 20];
    let tx = minimal_transfer(&signer, 0, 180);
    let (ctx, st) = decode_ok(tx);

    let n = num_items(&ctx, &st);
    let mut key = vec![0u8; 32];
    let mut val = vec![0u8; 64];
    assert_eq!(
        get_item(&ctx, n, &mut key, &mut val, 0, &st),
        Err(ParserError::DisplayIdxOutOfRange)
    );

    // Item 2 ("180") takes 3 pages at capacity 1: page 3 is past the end.
    let mut key = vec![0u8; 32];
    let mut val = vec![0u8; 1];
    assert_eq!(get_item(&ctx, 2, &mut key, &mut val, 3, &st), Err(ParserError::InvalidPage));
    let mut key = vec![0u8; 32];
    let mut val = vec![0u8; 1];
    assert_eq!(get_item(&ctx, 2, &mut key, &mut val, 2, &st), Ok(3));
}

#[test]
fn pubkey_hash_check_matches_correct_key_only() {
    let pubkey = vec![0x02u8; 33];
    let signer = hash160(&pubkey);
    let tx = minimal_transfer(&signer, 0, 180);
    let (ctx, st) = decode_ok(tx);

    assert_eq!(check_pubkey_hash(&ctx, &st, &pubkey), Ok(true));
    let wrong = vec![0x03u8; 33];
    assert_eq!(check_pubkey_hash(&ctx, &st, &wrong), Ok(false));
}

#[test]
fn multisig_pubkey_hash_check_reports_no_data() {
    let signer = [0x44u8; 20];
    let tx = build_tx(multi_cond(&signer, 1, 2), None, &[], transfer_payload(5));
    let (ctx, st) = decode_ok(tx);
    let pubkey = vec![0x02u8; 33];
    assert_eq!(check_pubkey_hash(&ctx, &st, &pubkey), Err(ParserError::NoData));
}

#[test]
fn truncated_transaction_reports_unexpected_end() {
    let signer = [0x11u8; 20];
    let mut tx = minimal_transfer(&signer, 0, 180);
    tx.pop();
    let mut ctx = new_ctx();
    assert!(init(&mut ctx, tx).is_ok());
    let mut st = parse_tx_t::new();
    assert_eq!(decode(&ctx, &mut st), Err(ParserError::UnexpectedEnd));
}

#[test]
fn short_inputs_report_unexpected_end() {
    let signer = [0x11u8; 20];
    let valid = minimal_transfer(&signer, 0, 180);
    for len in [1usize, 6, 30, 84] {
        let mut ctx = new_ctx();
        assert!(init(&mut ctx, valid[..len].to_vec()).is_ok());
        let mut st = parse_tx_t::new();
        assert_eq!(decode(&ctx, &mut st), Err(ParserError::UnexpectedEnd));
    }
}

#[test]
fn short_inputs_with_bad_tags_still_report_unexpected_end() {
    // Shorter than the minimum, the bytes are never even inspected as
    // tags: a lone invalid version byte, or garbage everywhere, is an
    // unexpected end, not an invalid type.
    for bytes in [vec![0x55u8], vec![0xFFu8; 84], vec![0x00, 0xAA, 0xBB]] {
        let mut ctx = new_ctx();
        assert!(init(&mut ctx, bytes).is_ok());
        let mut st = parse_tx_t::new();
        assert_eq!(decode(&ctx, &mut st), Err(ParserError::UnexpectedEnd));
    }
}

#[test]
fn invalid_page_reported_before_key_capacity() {
    let signer = [0x11u8; 20];
    let tx = minimal_transfer(&signer, 0, 180);
    let (ctx, st) = decode_ok(tx);

    // Item 2 ("180") takes 3 pages at capacity 1. With a key buffer too
    // small for the key text, an out-of-range page still reports
    // InvalidPage: the page is validated before the key copy.
    let mut key = vec![0u8; 1];
    let mut val = vec![0u8; 1];
    assert_eq!(get_item(&ctx, 2, &mut key, &mut val, 3, &st), Err(ParserError::InvalidPage));
    assert_eq!(key, vec![0u8; 1]);
    assert_eq!(val, vec![0u8; 1]);

    // With a valid page, the undersized key buffer is the caller error.
    let mut key = vec![0u8; 1];
    let mut val = vec![0u8; 1];
    assert_eq!(get_item(&ctx, 2, &mut key, &mut val, 0, &st), Err(ParserError::InvalidLength));
}

#[test]
fn state_size_reports_the_exact_type_size() {
    let expected = core::mem::size_of::<tx_parser::model::Transaction>() as u16;
    assert!(expected > 0);
    assert_eq!(required_state_size(), expected);

    let mut ctx = new_ctx();
    let size = init(&mut ctx, vec![0x00; 180]).unwrap();
    assert_eq!(size, expected);

    // A failed init still leaves the size report available.
    let mut ctx = new_ctx();
    assert_eq!(init(&mut ctx, Vec::new()), Err(ParserError::InitContextEmpty));
    assert_eq!(required_state_size(), expected);
}

#[test]
fn surplus_bytes_report_invalid_length() {
    let signer = [0x11u8; 20];
    let mut tx = minimal_transfer(&signer, 0, 180);
    tx.push(0x00);
    let mut ctx = new_ctx();
    assert!(init(&mut ctx, tx).is_ok());
    let mut st = parse_tx_t::new();
    assert_eq!(decode(&ctx, &mut st), Err(ParserError::InvalidLength));
}

#[test]
fn unknown_tags_report_invalid_type() {
    let signer = [0x11u8; 20];
    let mut tx = minimal_transfer(&signer, 0, 180);
    tx[0] = 0x55; // unknown version tag
    let mut ctx = new_ctx();
    assert!(init(&mut ctx, tx).is_ok());
    let mut st = parse_tx_t::new();
    assert_eq!(decode(&ctx, &mut st), Err(ParserError::InvalidType));

    let mut tx = minimal_transfer(&signer, 0, 180);
    tx[5] = 0x09; // unknown authentication type
    let mut ctx = new_ctx();
    assert!(init(&mut ctx, tx).is_ok());
    let mut st = parse_tx_t::new();
    assert_eq!(decode(&ctx, &mut st), Err(ParserError::InvalidType));
}

#[test]
fn oversized_post_condition_count_reports_invalid_length() {
    let signer = [0x11u8; 20];
    let mut tx = Vec::new();
    tx.push(0x00);
    tx.extend_from_slice(&1u32.to_be_bytes());
    tx.push(0x04);
    tx.extend_from_slice(&single_cond(&signer, 0, 180));
    tx.push(0x01);
    tx.push(0x01);
    tx.extend_from_slice(&9u32.to_be_bytes()); // count over the limit
    tx.extend_from_slice(&transfer_payload(1));
    let mut ctx = new_ctx();
    assert!(init(&mut ctx, tx).is_ok());
    let mut st = parse_tx_t::new();
    assert_eq!(decode(&ctx, &mut st), Err(ParserError::InvalidLength));
}

#[test]
fn empty_buffer_reports_init_context_empty() {
    let mut ctx = new_ctx();
    assert_eq!(init(&mut ctx, Vec::new()), Err(ParserError::InitContextEmpty));
}

#[test]
fn queries_before_decode_report_context_mismatch() {
    let ctx = new_ctx();
    let st = parse_tx_t::new();
    assert_eq!(num_items(&ctx, &st), 0);
    assert_eq!(auth_flag(&st), Err(ParserError::ContextMismatch));
    let mut key = vec![0u8; 32];
    let mut val = vec![0u8; 8];
    assert_eq!(
        get_item(&ctx, 0, &mut key, &mut val, 0, &st),
        Err(ParserError::ContextMismatch)
    );
    let mut out = vec![0u8; 8];
    assert_eq!(fee_bytes(&st, &mut out), 0);
    assert_eq!(nonce_bytes(&st, &mut out), 0);
    assert_eq!(last_block_pointer(&st), None);
    let mut presig = vec![0u8; 256];
    assert_eq!(presig_hash_data(&ctx, &st, &mut presig), 0);

    // A decode against an unbound context is a mismatch too.
    let mut st = parse_tx_t::new();
    assert_eq!(decode(&ctx, &mut st), Err(ParserError::ContextMismatch));
}

#[test]
fn sponsored_transaction_reports_sponsored_flag() {
    let signer = [0x11u8; 20];
    let sponsor = [0x77u8; 20];
    let tx = build_tx(
        single_cond(&signer, 0, 180),
        Some(single_cond(&sponsor, 4, 20)),
        &[],
        transfer_payload(5),
    );
    let (ctx, st) = decode_ok(tx);
    assert_eq!(auth_flag(&st), Ok(0x05));
    assert_eq!(last_block_pointer(&st), Some(212));
    assert_eq!(num_items(&ctx, &st), 6);
}

#[test]
fn contract_call_payload_items() {
    let signer = [0x11u8; 20];
    let mut payload = Vec::new();
    payload.push(0x02); // payload: contract call
    payload.push(0x01); // contract address version
    payload.extend_from_slice(&[0x44u8; 20]);
    payload.push(5);
    payload.extend_from_slice(b"token");
    payload.push(4);
    payload.extend_from_slice(b"send");
    payload.extend_from_slice(&3u32.to_be_bytes());
    payload.extend_from_slice(&[0x01, 0x02, 0x03]);
    let tx = build_tx(single_cond(&signer, 0, 180), None, &[], payload);
    let (ctx, st) = decode_ok(tx);

    assert_eq!(num_items(&ctx, &st), 6);
    let mut key = vec![0u8; 32];
    let mut val = vec![0u8; 64];
    assert_eq!(get_item(&ctx, 3, &mut key, &mut val, 0, &st), Ok(1));
    assert_eq!(&key[..], b"Contract");
    assert_eq!(&val[..], b"token");

    let mut key = vec![0u8; 32];
    let mut val = vec![0u8; 64];
    assert_eq!(get_item(&ctx, 4, &mut key, &mut val, 0, &st), Ok(1));
    assert_eq!(&key[..], b"Function");
    assert_eq!(&val[..], b"send");

    let mut key = vec![0u8; 32];
    let mut val = vec![0u8; 64];
    assert_eq!(get_item(&ctx, 5, &mut key, &mut val, 0, &st), Ok(1));
    assert_eq!(&key[..], b"Args");
    assert_eq!(&val[..], b"010203");
}

#[test]
fn presig_bytes_equal_input_prefix_when_signature_zeroed() {
    let signer = [0x11u8; 20];
    let tx = minimal_transfer(&signer, 9, 180);
    let (ctx, st) = decode_ok(tx.clone());

    let mut out = vec![0u8; 256];
    let n = presig_hash_data(&ctx, &st, &mut out);
    assert_eq!(n, 109);
    // The test vector's signature placeholder is already zeroed, so the
    // pre-image is exactly the header and origin condition bytes.
    assert_eq!(&out[..], &tx[..109]);

    let mut small = vec![0u8; 10];
    assert_eq!(presig_hash_data(&ctx, &st, &mut small), 0);
    assert_eq!(small, vec![0u8; 10]);
}

#[test]
fn memo_item_renders_as_hex() {
    let signer = [0x11u8; 20];
    let tx = minimal_transfer(&signer, 0, 180);
    let (ctx, st) = decode_ok(tx);

    let mut key = vec![0u8; 32];
    let mut val = vec![0u8; 128];
    assert_eq!(get_item(&ctx, 5, &mut key, &mut val, 0, &st), Ok(1));
    assert_eq!(&key[..], b"Memo");
    assert_eq!(&val[..], "00".repeat(34).as_bytes());

    let mut key = vec![0u8; 32];
    let mut val = vec![0u8; 64];
    assert_eq!(get_item(&ctx, 4, &mut key, &mut val, 0, &st), Ok(1));
    assert_eq!(&key[..], b"To");
    assert_eq!(&val[..], "33".repeat(20).as_bytes());
}
