use sign_tx::pkcs11::{
    attribute_len, check, find_outcome, keygen_outcome, login_outcome, normalize_ec_point,
    normalize_p256_point, parse_spki_ed25519, parse_spki_p256, private_template, public_template,
    rv_name, search_template, trim_padded, AttributeValue, Curve, KeyPair, ModuleInfo, Slot,
    CKA_CLASS, CKA_EC_PARAMS, CKA_EC_POINT, CKA_ID, CKA_LABEL, CKA_PRIVATE, CKA_SENSITIVE,
    CKA_SIGN, CKA_TOKEN, CKA_VERIFY, CKO_PRIVATE_KEY, CKO_PUBLIC_KEY, CKR_DEVICE_ERROR,
    CKR_FUNCTION_NOT_SUPPORTED, CKR_MECHANISM_INVALID, CKR_OK, CKR_PIN_INCORRECT,
    CKR_USER_ALREADY_LOGGED_IN, ED25519_OID_DER, P256_OID_DER,
};

#[test]
fn accepts_raw_32_bytes() {
    let raw = [7u8; 32];
    assert_eq!(normalize_ec_point(&raw).unwrap(), raw);
}

#[test]
fn strips_der_octet_string_wrapper() {
    let mut wrapped = vec![0x04, 0x20];
    wrapped.extend_from_slice(&[9u8; 32]);
    assert_eq!(normalize_ec_point(&wrapped).unwrap(), [9u8; 32]);
}

#[test]
fn extracts_key_from_spki() {
    let mut spki = vec![0x30, 0x2a, 0x30, 0x05, 0x06, 0x03, 0x2b, 0x65, 0x70];
    spki.extend_from_slice(&[0x03, 0x21, 0x00]);
    spki.extend_from_slice(&[5u8; 32]);
    assert_eq!(spki.len(), 44);
    assert_eq!(normalize_ec_point(&spki).unwrap(), [5u8; 32]);
}

#[test]
fn rejects_unknown_encoding() {
    assert!(normalize_ec_point(&[1, 2, 3]).is_err());
}

fn spki_of(key: [u8; 32]) -> Vec<u8> {
    let mut der = vec![0x30, 0x2a, 0x30, 0x05];
    der.extend_from_slice(&ED25519_OID_DER);
    der.extend_from_slice(&[0x03, 0x21, 0x00]);
    der.extend_from_slice(&key);
    der
}

#[test]
fn parses_ed25519_spki() {
    let key = [11u8; 32];
    let der = spki_of(key);
    assert_eq!(der.len(), 44);
    assert_eq!(parse_spki_ed25519(&der).unwrap(), key);
}

#[test]
fn accepts_bare_32_byte_public_key() {
    assert_eq!(parse_spki_ed25519(&[3u8; 32]).unwrap(), [3u8; 32]);
}

#[test]
fn rejects_non_spki_bytes() {
    assert!(parse_spki_ed25519(&[0u8; 10]).is_err());
    assert!(parse_spki_ed25519(&[]).is_err());
}

#[test]
fn accepts_raw_p256_point() {
    let mut raw = [0u8; 65];
    raw[0] = 0x04;
    assert_eq!(normalize_p256_point(&raw).unwrap(), raw);
}

#[test]
fn strips_p256_der_octet_string_wrapper() {
    let mut wrapped = vec![0x04, 0x41, 0x04];
    wrapped.extend_from_slice(&[6u8; 64]);
    let mut expected = [0u8; 65];
    expected[0] = 0x04;
    expected[1..].copy_from_slice(&[6u8; 64]);
    assert_eq!(normalize_p256_point(&wrapped).unwrap(), expected);
}

#[test]
fn rejects_unknown_p256_encoding() {
    assert!(normalize_p256_point(&[1, 2, 3]).is_err());
}

fn spki_of_p256(point: [u8; 65]) -> Vec<u8> {
    let mut der = vec![0x30, 0x59, 0x30, 0x13, 0x06, 0x07, 0x2a, 0x86, 0x48];
    der.extend_from_slice(&[0xce, 0x3d, 0x02, 0x01]);
    der.extend_from_slice(&P256_OID_DER);
    der.extend_from_slice(&[0x03, 0x42, 0x00]);
    der.extend_from_slice(&point);
    der
}

#[test]
fn parses_p256_spki() {
    let mut point = [0u8; 65];
    point[0] = 0x04;
    point[1..].copy_from_slice(&[8u8; 64]);
    let der = spki_of_p256(point);
    assert_eq!(parse_spki_p256(&der).unwrap(), point);
}

#[test]
fn accepts_bare_p256_point() {
    let mut point = [0u8; 65];
    point[0] = 0x04;
    assert_eq!(parse_spki_p256(&point).unwrap(), point);
}

#[test]
fn rejects_non_spki_p256_bytes() {
    assert!(parse_spki_p256(&[0u8; 10]).is_err());
    assert!(parse_spki_p256(&[]).is_err());
}

#[test]
fn p256_point_comes_in_a_full_spki_too() {
    let mut point = [0u8; 65];
    point[0] = 0x04;
    point[1..].copy_from_slice(&[8u8; 64]);
    assert_eq!(normalize_p256_point(&spki_of_p256(point)).unwrap(), point);
}

#[test]
fn keys_that_look_like_headers_are_recovered() {
    let mut key = [0x03u8; 32];
    key[1] = 0x21;
    key[2] = 0x00;
    key[0] = 0x30;
    assert_eq!(normalize_ec_point(&spki_of(key)).unwrap(), key);
    assert_eq!(parse_spki_ed25519(&spki_of(key)).unwrap(), key);
    assert_eq!(parse_spki_ed25519(&key).unwrap(), key);
}

#[test]
fn spki_with_another_header_is_searched() {
    let mut der = vec![0x30, 0x81, 0x2b, 0x30, 0x05];
    der.extend_from_slice(&ED25519_OID_DER);
    der.extend_from_slice(&[0x03, 0x21, 0x00]);
    der.extend_from_slice(&[6u8; 32]);
    assert_eq!(der.len(), 45);
    assert_eq!(parse_spki_ed25519(&der).unwrap(), [6u8; 32]);
}

#[test]
fn a_truncated_spki_is_rejected() {
    let der = spki_of([1u8; 32]);
    assert_eq!(
        parse_spki_ed25519(&der[..43]).unwrap_err(),
        "not a valid Ed25519 SubjectPublicKeyInfo (43 bytes)"
    );
    let mut point = [7u8; 65];
    point[0] = 0x04;
    assert_eq!(
        parse_spki_p256(&spki_of_p256(point)[..90]).unwrap_err(),
        "not a valid P-256 SubjectPublicKeyInfo (90 bytes)"
    );
}

#[test]
fn unrecognised_points_are_dumped() {
    assert_eq!(
        normalize_ec_point(&[1, 0xab, 3]).unwrap_err(),
        "unrecognised CKA_EC_POINT encoding (3 bytes): 01ab03"
    );
    assert_eq!(
        normalize_p256_point(&[0xff]).unwrap_err(),
        "unrecognised P-256 CKA_EC_POINT encoding (1 bytes): ff"
    );
}

#[test]
fn return_values_have_names() {
    assert_eq!(rv_name(CKR_DEVICE_ERROR), "CKR_DEVICE_ERROR");
    assert_eq!(rv_name(0x1b), "CKR_ACTION_PROHIBITED");
    assert_eq!(rv_name(0x8000_0001), "CKR_0x80000001");
    assert_eq!(rv_name(0x6), "CKR_0x00000006");
    assert_eq!(rv_name(0x1_2345_6789), "CKR_0x123456789");
}

#[test]
fn constants_are_those_of_the_headers() {
    assert_eq!(sign_tx::pkcs11::CKM_EDDSA, cryptoki_sys::CKM_EDDSA);
    assert_eq!(sign_tx::pkcs11::CKM_ECDSA, cryptoki_sys::CKM_ECDSA);
    assert_eq!(sign_tx::pkcs11::CKM_EC_KEY_PAIR_GEN, cryptoki_sys::CKM_EC_KEY_PAIR_GEN);
    assert_eq!(
        sign_tx::pkcs11::CKM_EC_EDWARDS_KEY_PAIR_GEN,
        cryptoki_sys::CKM_EC_EDWARDS_KEY_PAIR_GEN
    );
    assert_eq!(CKA_CLASS, cryptoki_sys::CKA_CLASS);
    assert_eq!(CKA_TOKEN, cryptoki_sys::CKA_TOKEN);
    assert_eq!(CKA_PRIVATE, cryptoki_sys::CKA_PRIVATE);
    assert_eq!(CKA_LABEL, cryptoki_sys::CKA_LABEL);
    assert_eq!(CKA_ID, cryptoki_sys::CKA_ID);
    assert_eq!(CKA_SENSITIVE, cryptoki_sys::CKA_SENSITIVE);
    assert_eq!(CKA_SIGN, cryptoki_sys::CKA_SIGN);
    assert_eq!(CKA_VERIFY, cryptoki_sys::CKA_VERIFY);
    assert_eq!(CKA_EC_PARAMS, cryptoki_sys::CKA_EC_PARAMS);
    assert_eq!(CKA_EC_POINT, cryptoki_sys::CKA_EC_POINT);
    assert_eq!(CKO_PRIVATE_KEY, cryptoki_sys::CKO_PRIVATE_KEY);
    assert_eq!(CKO_PUBLIC_KEY, cryptoki_sys::CKO_PUBLIC_KEY);
    assert_eq!(CKR_OK, cryptoki_sys::CKR_OK);
    assert_eq!(sign_tx::pkcs11::CKR_CANCEL, cryptoki_sys::CKR_CANCEL);
    assert_eq!(sign_tx::pkcs11::CKR_HOST_MEMORY, cryptoki_sys::CKR_HOST_MEMORY);
    assert_eq!(sign_tx::pkcs11::CKR_GENERAL_ERROR, cryptoki_sys::CKR_GENERAL_ERROR);
    assert_eq!(sign_tx::pkcs11::CKR_ARGUMENTS_BAD, cryptoki_sys::CKR_ARGUMENTS_BAD);
    assert_eq!(
        sign_tx::pkcs11::CKR_ATTRIBUTE_TYPE_INVALID,
        cryptoki_sys::CKR_ATTRIBUTE_TYPE_INVALID
    );
    assert_eq!(
        sign_tx::pkcs11::CKR_ATTRIBUTE_VALUE_INVALID,
        cryptoki_sys::CKR_ATTRIBUTE_VALUE_INVALID
    );
    assert_eq!(sign_tx::pkcs11::CKR_ACTION_PROHIBITED, cryptoki_sys::CKR_ACTION_PROHIBITED);
    assert_eq!(CKR_DEVICE_ERROR, cryptoki_sys::CKR_DEVICE_ERROR);
    assert_eq!(sign_tx::pkcs11::CKR_DEVICE_REMOVED, cryptoki_sys::CKR_DEVICE_REMOVED);
    assert_eq!(CKR_FUNCTION_NOT_SUPPORTED, cryptoki_sys::CKR_FUNCTION_NOT_SUPPORTED);
    assert_eq!(sign_tx::pkcs11::CKR_KEY_HANDLE_INVALID, cryptoki_sys::CKR_KEY_HANDLE_INVALID);
    assert_eq!(CKR_MECHANISM_INVALID, cryptoki_sys::CKR_MECHANISM_INVALID);
    assert_eq!(
        sign_tx::pkcs11::CKR_MECHANISM_PARAM_INVALID,
        cryptoki_sys::CKR_MECHANISM_PARAM_INVALID
    );
    assert_eq!(sign_tx::pkcs11::CKR_OPERATION_ACTIVE, cryptoki_sys::CKR_OPERATION_ACTIVE);
    assert_eq!(
        sign_tx::pkcs11::CKR_OPERATION_NOT_INITIALIZED,
        cryptoki_sys::CKR_OPERATION_NOT_INITIALIZED
    );
    assert_eq!(CKR_PIN_INCORRECT, cryptoki_sys::CKR_PIN_INCORRECT);
    assert_eq!(sign_tx::pkcs11::CKR_PIN_INVALID, cryptoki_sys::CKR_PIN_INVALID);
    assert_eq!(sign_tx::pkcs11::CKR_SESSION_CLOSED, cryptoki_sys::CKR_SESSION_CLOSED);
    assert_eq!(
        sign_tx::pkcs11::CKR_SESSION_HANDLE_INVALID,
        cryptoki_sys::CKR_SESSION_HANDLE_INVALID
    );
    assert_eq!(sign_tx::pkcs11::CKR_TEMPLATE_INCOMPLETE, cryptoki_sys::CKR_TEMPLATE_INCOMPLETE);
    assert_eq!(
        sign_tx::pkcs11::CKR_TEMPLATE_INCONSISTENT,
        cryptoki_sys::CKR_TEMPLATE_INCONSISTENT
    );
    assert_eq!(sign_tx::pkcs11::CKR_TOKEN_NOT_PRESENT, cryptoki_sys::CKR_TOKEN_NOT_PRESENT);
    assert_eq!(CKR_USER_ALREADY_LOGGED_IN, cryptoki_sys::CKR_USER_ALREADY_LOGGED_IN);
    assert_eq!(sign_tx::pkcs11::CKR_USER_NOT_LOGGED_IN, cryptoki_sys::CKR_USER_NOT_LOGGED_IN);
    assert_eq!(sign_tx::pkcs11::CKR_BUFFER_TOO_SMALL, cryptoki_sys::CKR_BUFFER_TOO_SMALL);
    assert_eq!(
        sign_tx::pkcs11::CK_UNAVAILABLE_INFORMATION,
        cryptoki_sys::CK_UNAVAILABLE_INFORMATION
    );
}

#[test]
fn failures_name_the_operation() {
    assert_eq!(check(CKR_OK, "C_Sign"), Ok(()));
    assert_eq!(
        check(CKR_DEVICE_ERROR, "C_Sign"),
        Err("C_Sign failed: CKR_DEVICE_ERROR".to_string())
    );
}

#[test]
fn being_logged_in_already_is_fine() {
    assert_eq!(login_outcome(CKR_OK), Ok(()));
    assert_eq!(login_outcome(CKR_USER_ALREADY_LOGGED_IN), Ok(()));
    assert_eq!(
        login_outcome(CKR_PIN_INCORRECT),
        Err("C_Login failed: CKR_PIN_INCORRECT".to_string())
    );
}

#[test]
fn key_generation_outcomes() {
    assert_eq!(
        keygen_outcome(CKR_OK, Curve::P256, 4, 5),
        Ok(KeyPair { public: 4, private: 5 })
    );
    assert_eq!(
        keygen_outcome(CKR_FUNCTION_NOT_SUPPORTED, Curve::Ed25519, 0, 0),
        Err("the PKCS#11 module does not support key generation on this curve (Ed25519): \
             CKR_FUNCTION_NOT_SUPPORTED"
            .to_string())
    );
    assert_eq!(
        keygen_outcome(CKR_MECHANISM_INVALID, Curve::P256, 0, 0),
        Err("the PKCS#11 module does not support key generation on this curve (P256): \
             CKR_MECHANISM_INVALID"
            .to_string())
    );
    assert_eq!(
        keygen_outcome(CKR_DEVICE_ERROR, Curve::P256, 0, 0),
        Err("C_GenerateKeyPair failed: CKR_DEVICE_ERROR".to_string())
    );
}

#[test]
fn search_outcomes() {
    assert_eq!(find_outcome(CKR_OK, 9, 1), Ok(Some(9)));
    assert_eq!(find_outcome(CKR_OK, 9, 0), Ok(None));
    assert_eq!(
        find_outcome(CKR_DEVICE_ERROR, 9, 1),
        Err("C_FindObjects failed: CKR_DEVICE_ERROR".to_string())
    );
}

#[test]
fn attribute_lengths() {
    assert_eq!(attribute_len(CKA_EC_POINT, 67), Ok(67));
    let gone = Err("attribute 0x00000181 is unavailable on this object".to_string());
    assert_eq!(attribute_len(CKA_EC_POINT, 0), gone);
    assert_eq!(attribute_len(CKA_EC_POINT, u64::MAX), gone);
}

fn bytes_in(value: &AttributeValue) -> &[u8] {
    match value {
        AttributeValue::Bytes(bytes) => bytes,
        _ => panic!("no bytes"),
    }
}

#[test]
fn templates_of_a_generated_key() {
    let public = public_template("bench-1", Curve::P256);
    let kinds: Vec<u64> = public.iter().map(|a| a.kind).collect();
    assert_eq!(kinds, vec![CKA_TOKEN, CKA_VERIFY, CKA_EC_PARAMS, CKA_LABEL]);
    assert!(matches!(public[0].value, AttributeValue::True));
    assert_eq!(bytes_in(&public[2].value), &P256_OID_DER);
    assert_eq!(bytes_in(&public[3].value), b"bench-1");

    let private = private_template("bench-1");
    let kinds: Vec<u64> = private.iter().map(|a| a.kind).collect();
    assert_eq!(kinds, vec![CKA_TOKEN, CKA_SIGN, CKA_PRIVATE, CKA_SENSITIVE, CKA_LABEL]);
    assert!(matches!(private[3].value, AttributeValue::True));
    assert_eq!(bytes_in(&private[4].value), b"bench-1");
}

#[test]
fn template_of_a_search() {
    let template = search_template("é", CKO_PRIVATE_KEY);
    assert_eq!(template.len(), 2);
    assert_eq!(template[0].kind, CKA_CLASS);
    assert!(matches!(template[0].value, AttributeValue::Class(CKO_PRIVATE_KEY)));
    assert_eq!(template[1].kind, CKA_ID);
    assert_eq!(bytes_in(&template[1].value), "é".as_bytes());
}

#[test]
fn padded_text_is_trimmed_at_its_end() {
    assert_eq!(trim_padded(b"  SoftHSM \t  "), "  SoftHSM");
    assert_eq!(trim_padded(b"    "), "");
    assert_eq!(trim_padded("ab\u{2003}".as_bytes()), "ab");
    assert_eq!(trim_padded(b"a\0"), "a\0");
    assert_eq!(trim_padded(&[b'a', 0xff, b' ']), "a\u{fffd}");
}

#[test]
fn slots_and_modules_are_described() {
    let slot = Slot::from_info(7, Some((b"slot   ", b"maker ")), Some((b"token ", b"v2  ")));
    assert_eq!(slot.id, 7);
    assert_eq!(slot.description, "slot");
    assert_eq!(slot.manufacturer, "maker");
    assert_eq!(slot.token_label, "token");
    assert_eq!(slot.model, "v2");
    let bare = Slot::from_info(8, None, None);
    assert_eq!(bare.description, "");
    assert_eq!(bare.token_label, "");

    let info = ModuleInfo::from_info((3, 1), b"maker  ", b"library ", (5, 27));
    assert_eq!(info.cryptoki_version, (3, 1));
    assert_eq!(info.manufacturer, "maker");
    assert_eq!(info.library_description, "library");
    assert_eq!(info.library_version, (5, 27));
}

#[test]
fn curves_know_their_calls() {
    assert_eq!(Curve::Ed25519.name(), "ed25519");
    assert_eq!(Curve::P256.name(), "p256");
    assert_eq!(Curve::Ed25519.init_call(), "C_MessageSignInit");
    assert_eq!(Curve::P256.init_call(), "C_SignInit");
    assert_eq!(Curve::Ed25519.sign_call(), "C_SignMessage");
    assert_eq!(Curve::P256.sign_call(), "C_Sign");
    assert!(Curve::Ed25519.uses_message_signing());
    assert!(!Curve::P256.uses_message_signing());
    assert_eq!(Curve::Ed25519.max_signature_len(), 64);
    assert_eq!(Curve::P256.max_signature_len(), 72);
    assert_eq!(Curve::Ed25519.sign_mechanism(), 0x1057);
    assert_eq!(Curve::P256.sign_mechanism(), 0x1041);
    assert_eq!(Curve::Ed25519.keygen_mechanism(), 0x1055);
    assert_eq!(Curve::P256.keygen_mechanism(), 0x1040);
    assert_eq!(Curve::Ed25519.ec_params(), &ED25519_OID_DER);
    assert_eq!(Curve::P256.ec_params(), &P256_OID_DER);
    assert_eq!(Curve::Ed25519.mechanism_name(), "CKM_EDDSA (Ed25519, pure)");
    assert_eq!(
        Curve::P256.mechanism_name(),
        "CKM_ECDSA (P-256, DER-encoded, over SHA-256 digest)"
    );
}

#[test]
fn only_p256_signs_a_digest() {
    assert_eq!(Curve::Ed25519.signing_input(b"abc"), b"abc".to_vec());
    let digest: Vec<u8> = vec![
        0xba, 0x78, 0x16, 0xbf, 0x8f, 0x01, 0xcf, 0xea, 0x41, 0x41, 0x40, 0xde, 0x5d, 0xae, 0x22,
        0x23, 0xb0, 0x03, 0x61, 0xa3, 0x96, 0x17, 0x7a, 0x9c, 0xb4, 0x10, 0xff, 0x61, 0xf2, 0x00,
        0x15, 0xad,
    ];
    assert_eq!(Curve::P256.signing_input(b"abc"), digest);
    assert_eq!(Curve::P256.signing_input(&[0; 500]).len(), 32);
}
