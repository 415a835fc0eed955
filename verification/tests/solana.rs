use sign_tx::solana::{
    decode_pubkey, encode_pubkey, pubkey_from_decoded, push_compact_u16, push_little_endian,
    Transfer, INSTRUCTION_TRANSFER,
};

fn sample(blockhash: [u8; 32]) -> Transfer {
    Transfer {
        from: [1u8; 32],
        to: [2u8; 32],
        lamports: 1_000_000,
        recent_blockhash: blockhash,
    }
}

#[test]
fn message_length_is_stable_across_blockhashes() {
    let a = sample([3u8; 32]).message_bytes();
    let b = sample([4u8; 32]).message_bytes();
    assert_eq!(a.len(), b.len());
    assert_ne!(a, b);
}

#[test]
fn message_encodes_transfer_instruction() {
    let bytes = sample([0u8; 32]).message_bytes();
    // 3 header + 1 count + 96 keys + 32 blockhash = 132, then instructions.
    assert_eq!(&bytes[0..3], &[1, 0, 1]);
    assert_eq!(bytes[3], 3);
    let tail = &bytes[132..];
    assert_eq!(tail[0], 1); // one instruction
    assert_eq!(tail[1], 2); // system program index
    assert_eq!(&tail[6..10], &INSTRUCTION_TRANSFER.to_le_bytes());
    assert_eq!(&tail[10..18], &1_000_000u64.to_le_bytes());
}

#[test]
fn wire_transaction_prefixes_signature() {
    let tx = sample([0u8; 32]);
    let wire = tx.to_wire(&[7u8; 64]);
    assert_eq!(wire[0], 1);
    assert_eq!(&wire[1..65], &[7u8; 64]);
    assert_eq!(&wire[65..], &tx.message_bytes()[..]);
}

#[test]
fn compact_u16_matches_shortvec() {
    let mut out = Vec::new();
    push_compact_u16(&mut out, 0);
    assert_eq!(out, vec![0]);

    out.clear();
    push_compact_u16(&mut out, 127);
    assert_eq!(out, vec![127]);

    out.clear();
    push_compact_u16(&mut out, 128);
    assert_eq!(out, vec![0x80, 0x01]);

    out.clear();
    push_compact_u16(&mut out, 300);
    assert_eq!(out, vec![0xac, 0x02]);
}

#[test]
fn pubkey_round_trips() {
    let key = [42u8; 32];
    assert_eq!(decode_pubkey(&encode_pubkey(&key)).unwrap(), key);
}

#[test]
fn rejects_wrong_length_pubkey() {
    assert!(decode_pubkey(&bs58::encode([1u8; 16]).into_string()).is_err());
}

#[test]
fn the_whole_message_is_exact() {
    let mut expected = vec![1, 0, 1, 3];
    expected.extend_from_slice(&[1u8; 32]);
    expected.extend_from_slice(&[2u8; 32]);
    expected.extend_from_slice(&[0u8; 32]);
    expected.extend_from_slice(&[9u8; 32]);
    expected.extend_from_slice(&[1, 2, 2, 0, 1, 12, 2, 0, 0, 0]);
    expected.extend_from_slice(&[0x40, 0x42, 0x0f, 0, 0, 0, 0, 0]);
    assert_eq!(expected.len(), 150);
    assert_eq!(sample([9u8; 32]).message_bytes(), expected);
}

#[test]
fn compact_lengths_take_up_to_three_bytes() {
    let mut out = Vec::new();
    push_compact_u16(&mut out, 16383);
    assert_eq!(out, vec![0xff, 0x7f]);
    out.clear();
    push_compact_u16(&mut out, 16384);
    assert_eq!(out, vec![0x80, 0x80, 0x01]);
    out.clear();
    push_compact_u16(&mut out, 65535);
    assert_eq!(out, vec![0xff, 0xff, 0x03]);
}

#[test]
fn little_endian_appends() {
    let mut out = vec![5];
    push_little_endian(&mut out, 0x0102, 4);
    assert_eq!(out, vec![5, 2, 1, 0, 0]);
}

#[test]
fn known_addresses_encode() {
    assert_eq!(encode_pubkey(&[0u8; 32]), "11111111111111111111111111111111");
    let mut one = [0u8; 32];
    one[31] = 1;
    assert_eq!(encode_pubkey(&one), "11111111111111111111111111111112");
    assert_eq!(decode_pubkey("11111111111111111111111111111112").unwrap(), one);
}

#[test]
fn a_wrong_length_names_it() {
    let text = bs58::encode([1u8; 16]).into_string();
    assert_eq!(
        decode_pubkey(&text).unwrap_err(),
        "public key must decode to 32 bytes, got 16"
    );
    assert_eq!(
        pubkey_from_decoded(Ok(vec![1; 33])).unwrap_err(),
        "public key must decode to 32 bytes, got 33"
    );
    assert_eq!(pubkey_from_decoded(Ok(vec![7; 32])).unwrap(), [7u8; 32]);
}

#[test]
fn text_that_is_not_base58_is_rejected() {
    let error = decode_pubkey("0OIl").unwrap_err();
    assert!(error.starts_with("invalid base58 public key: "), "{}", error);
    assert_eq!(
        pubkey_from_decoded(Err("bad".to_string())).unwrap_err(),
        "invalid base58 public key: bad"
    );
}

#[test]
fn a_text_that_gives_an_address_is_its_encoding() {
    for text in [
        "11111111111111111111111111111112",
        "4vJ9JU1bJJE96FWSJKvHsmmFADCg4gpZQff4P3bkLKi",
        "1111111111111111111111111111111",
        "111111111111111111111111111111111",
    ] {
        match decode_pubkey(text) {
            Ok(key) => assert_eq!(encode_pubkey(&key), text),
            Err(e) => assert!(e.starts_with("public key must decode to 32 bytes, got ")),
        }
    }
    assert!(decode_pubkey("1111111111111111111111111111111").is_err());
    assert!(decode_pubkey("111111111111111111111111111111111").is_err());
}
