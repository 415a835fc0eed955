use ed25519_dalek::Signer as _;
use p256::ecdsa::signature::hazmat::PrehashSigner;
use sign_tx::pkcs11::{Curve, KeyPair, Slot, CKA_EC_POINT, CKO_PRIVATE_KEY, CKO_PUBLIC_KEY};
use sign_tx::setup::{
    describe_slots, resolve_slot, Action, Event, Failure, Setup, SignerConfig, PROBE,
};
use sign_tx::signer::{in_context, point_key, supplied_key, Signer, VerifyingKey};

fn ed25519_key() -> ed25519_dalek::SigningKey {
    ed25519_dalek::SigningKey::from_bytes(&[9u8; 32])
}

fn p256_key() -> p256::ecdsa::SigningKey {
    p256::ecdsa::SigningKey::from_slice(&[9u8; 32]).unwrap()
}

fn p256_public() -> Vec<u8> {
    p256_key().verifying_key().to_encoded_point(false).as_bytes().to_vec()
}

fn p256_sign(message: &[u8]) -> Vec<u8> {
    let digest = Curve::P256.signing_input(message);
    let signature: p256::ecdsa::Signature = p256_key().sign_prehash(&digest).unwrap();
    signature.to_der().as_bytes().to_vec()
}

/// Thirty-two bytes that encode no point of the curve.
fn no_point() -> [u8; 32] {
    let mut bytes = [0u8; 32];
    bytes[0] = 2;
    bytes
}

fn slot(id: u64, label: &str) -> Slot {
    Slot::from_info(id, None, Some((label.as_bytes(), b"")))
}

fn config(curve: Curve) -> SignerConfig {
    SignerConfig { slot: None, key_id: None, pin: None, curve, public_key_der: None }
}

#[test]
fn the_probe_spells_itself() {
    assert_eq!(&PROBE[..], b"sign-tx setup self-test");
}

#[test]
fn slots_are_listed() {
    assert_eq!(describe_slots(&[]), "(none)");
    assert_eq!(describe_slots(&[slot(1, "a")]), "1 (a)");
    assert_eq!(describe_slots(&[slot(1, "a"), slot(20, "")]), "1 (a), 20 ()");
}

#[test]
fn the_only_token_is_selected() {
    assert_eq!(resolve_slot(&[slot(5, "a")], None), Ok(5));
    assert_eq!(
        resolve_slot(&[], None),
        Err("no PKCS#11 slot has a token present".to_string())
    );
    assert_eq!(
        resolve_slot(&[slot(5, "a"), slot(6, "b")], None),
        Err("several slots have tokens present, pass --slot to choose: 5 (a), 6 (b)".to_string())
    );
}

#[test]
fn a_requested_slot_needs_a_token() {
    assert_eq!(resolve_slot(&[slot(5, "a"), slot(6, "b")], Some(6)), Ok(6));
    assert_eq!(
        resolve_slot(&[slot(5, "a")], Some(7)),
        Err("slot 7 has no token present; available: 5 (a)".to_string())
    );
    assert_eq!(
        resolve_slot(&[], Some(7)),
        Err("slot 7 has no token present; available: (none)".to_string())
    );
}

#[test]
fn contexts_precede_causes() {
    assert_eq!(in_context("what", Ok(())), Ok(()));
    assert_eq!(in_context("what", Err("why".to_string())), Err("what: why".to_string()));
}

#[test]
fn ed25519_signatures_verify() {
    let public = ed25519_key().verifying_key().to_bytes();
    let key = supplied_key(Curve::Ed25519, &public).unwrap_or_else(|e| panic!("{}", e));
    let signature = ed25519_key().sign(b"message").to_bytes();
    assert_eq!(key.verify(b"message", &signature), Ok(()));

    let error = key.verify(b"another", &signature).unwrap_err();
    assert_eq!(
        error,
        "Ed25519 signature verification failed: signature error: Verification equation was not \
         satisfied"
    );
    assert_eq!(
        key.verify(b"message", &signature[..63]).unwrap_err(),
        "expected a 64-byte Ed25519 signature: could not convert slice to array"
    );
}

#[test]
fn p256_signatures_verify_over_the_digest() {
    let key = supplied_key(Curve::P256, &p256_public()).unwrap_or_else(|e| panic!("{}", e));
    let signature = p256_sign(b"message");
    assert_eq!(key.verify(b"message", &signature), Ok(()));

    let error = key.verify(b"another", &signature).unwrap_err();
    assert_eq!(error, "P-256 signature verification failed: signature error");
    let error = key.verify(b"message", &[1, 2, 3]).unwrap_err();
    assert!(error.starts_with("not a valid DER-encoded P-256 ECDSA signature: "), "{}", error);
}

fn refused(key: Result<VerifyingKey, String>) -> String {
    match key {
        Ok(_) => panic!("accepted"),
        Err(e) => e,
    }
}

#[test]
fn supplied_keys_are_checked() {
    assert_eq!(
        refused(supplied_key(Curve::Ed25519, &[1, 2])),
        "the supplied public key is not a valid Ed25519 SubjectPublicKeyInfo: not a valid Ed25519 \
         SubjectPublicKeyInfo (2 bytes)"
    );
    assert_eq!(
        refused(supplied_key(Curve::Ed25519, &no_point())),
        "the supplied public key is not a valid Ed25519 point: signature error: Cannot decompress \
         Edwards point"
    );
    assert_eq!(
        refused(supplied_key(Curve::P256, &[1, 2])),
        "the supplied public key is not a valid P-256 SubjectPublicKeyInfo: not a valid P-256 \
         SubjectPublicKeyInfo (2 bytes)"
    );
    let mut off_curve = [1u8; 65];
    off_curve[0] = 4;
    assert_eq!(
        refused(supplied_key(Curve::P256, &off_curve)),
        "the supplied public key is not a valid P-256 point: signature error"
    );
}

#[test]
fn points_are_checked() {
    assert_eq!(
        refused(point_key(Curve::Ed25519, &[1])),
        "unrecognised CKA_EC_POINT encoding (1 bytes): 01"
    );
    assert_eq!(
        refused(point_key(Curve::Ed25519, &no_point())),
        "CKA_EC_POINT is not a valid Ed25519 point: signature error: Cannot decompress Edwards \
         point"
    );
    assert_eq!(
        refused(point_key(Curve::P256, &[2])),
        "unrecognised P-256 CKA_EC_POINT encoding (1 bytes): 02"
    );
    let mut off_curve = [1u8; 65];
    off_curve[0] = 4;
    assert_eq!(
        refused(point_key(Curve::P256, &off_curve)),
        "CKA_EC_POINT is not a valid P-256 point: signature error"
    );
    let mut wrapped = vec![0x04, 0x41];
    wrapped.extend_from_slice(&p256_public());
    match point_key(Curve::P256, &wrapped) {
        Ok(VerifyingKey::P256(bytes)) => assert_eq!(bytes.to_vec(), p256_public()),
        _ => panic!("no P-256 key"),
    }
}

fn failure(setup: Setup) -> Failure {
    assert!(matches!(setup.action(), Action::Finish));
    match setup.finish() {
        Some(Err(failure)) => failure,
        _ => panic!("did not fail"),
    }
}

fn signer(setup: Setup) -> Signer {
    assert!(matches!(setup.action(), Action::Finish));
    match setup.finish() {
        Some(Ok(signer)) => signer,
        Some(Err(failure)) => panic!("{}", failure.error),
        None => panic!("not finished"),
    }
}

/// A setup that has listed its slots and opened a session.
fn opened(config: SignerConfig) -> Setup {
    Setup::with_label(config, "bench-x".to_string())
        .step(Event::Slots(Ok(vec![slot(3, "t")])))
        .step(Event::Done(Ok(())))
}

#[test]
fn a_generated_ed25519_key_becomes_a_signer() {
    let setup = Setup::with_label(config(Curve::Ed25519), "bench-x".to_string());
    assert!(matches!(setup.action(), Action::ListSlots));
    let setup = setup.step(Event::Slots(Ok(vec![slot(3, "t")])));
    assert!(matches!(setup.action(), Action::OpenSession(3)));
    let setup = setup.step(Event::Done(Ok(())));
    match setup.action() {
        Action::GenerateKey(label, curve) => {
            assert_eq!(label, "bench-x");
            assert_eq!(curve, Curve::Ed25519);
        }
        _ => panic!("no key generation"),
    }
    let setup = setup.step(Event::Generated(Ok(KeyPair { public: 11, private: 12 })));
    assert!(matches!(setup.action(), Action::ReadAttribute(11, CKA_EC_POINT)));
    let public = ed25519_key().verifying_key().to_bytes();
    let setup = setup.step(Event::Bytes(Ok(public.to_vec())));
    assert!(matches!(setup.action(), Action::SignInit(12, Curve::Ed25519)));
    let setup = setup.step(Event::Done(Ok(())));
    let input = match setup.action() {
        Action::Sign(input, len) => {
            assert_eq!(len, 64);
            input
        }
        _ => panic!("no signature"),
    };
    assert_eq!(input, b"sign-tx setup self-test".to_vec());
    let signature = ed25519_key().sign(&input).to_bytes();
    let signer = signer(setup.step(Event::Bytes(Ok(signature.to_vec()))));
    assert_eq!(signer.curve(), Curve::Ed25519);
    assert_eq!(signer.label(), "bench-x");
    assert_eq!(signer.private_handle(), 12);
    assert_eq!(signer.public_key_bytes(), public.to_vec());
    assert_eq!(signer.cleanup(), vec![12, 11]);
}

#[test]
fn a_supplied_p256_key_becomes_a_signer() {
    let mut config = config(Curve::P256);
    config.key_id = Some("key-1".to_string());
    config.pin = Some("1234".to_string());
    config.public_key_der = Some(p256_public());
    config.slot = Some(3);
    let setup = opened(config);
    match setup.action() {
        Action::Login(pin) => assert_eq!(pin, "1234"),
        _ => panic!("no login"),
    }
    let setup = setup.step(Event::Done(Ok(())));
    match setup.action() {
        Action::FindObject(id, class) => {
            assert_eq!(id, "key-1");
            assert_eq!(class, CKO_PRIVATE_KEY);
        }
        _ => panic!("no search"),
    }
    let setup = setup.step(Event::Found(Ok(Some(21))));
    assert!(matches!(setup.action(), Action::FindObject(_, CKO_PUBLIC_KEY)));
    let setup = setup.step(Event::Found(Ok(None)));
    assert!(matches!(setup.action(), Action::SignInit(21, Curve::P256)));
    let setup = setup.step(Event::Done(Ok(())));
    match setup.action() {
        Action::Sign(input, len) => {
            assert_eq!(input, Curve::P256.signing_input(&PROBE));
            assert_eq!(len, 72);
        }
        _ => panic!("no signature"),
    }
    let signer = signer(setup.step(Event::Bytes(Ok(p256_sign(&PROBE)))));
    assert_eq!(signer.label(), "key-1");
    assert_eq!(signer.public_key_bytes(), p256_public());
    assert!(signer.cleanup().is_empty());
}

#[test]
fn a_fresh_label_is_drawn() {
    let first = Signer::connect(config(Curve::P256))
        .step(Event::Slots(Ok(vec![slot(3, "t")])))
        .step(Event::Done(Ok(())));
    let second = Signer::connect(config(Curve::P256))
        .step(Event::Slots(Ok(vec![slot(3, "t")])))
        .step(Event::Done(Ok(())));
    match (first.action(), second.action()) {
        (Action::GenerateKey(a, _), Action::GenerateKey(b, _)) => {
            assert_ne!(a, b);
            assert_eq!(a.len(), "bench-".len() + 36);
            assert!(a.starts_with("bench-"));
            assert_eq!(a.as_bytes()[6 + 14], b'4');
        }
        _ => panic!("no key generation"),
    }
}

#[test]
fn setup_failures_before_a_key() {
    let start = || Setup::with_label(config(Curve::P256), String::new());
    let f = failure(start().step(Event::Slots(Err("x".to_string()))));
    assert_eq!(f.error, "failed to enumerate PKCS#11 slots: x");
    assert!(f.destroy.is_empty());
    let f = failure(start().step(Event::Slots(Ok(vec![]))));
    assert_eq!(f.error, "no PKCS#11 slot has a token present");
    let f = failure(
        start()
            .step(Event::Slots(Ok(vec![slot(3, "t")])))
            .step(Event::Done(Err("x".to_string()))),
    );
    assert_eq!(f.error, "failed to open a session on slot 3: x");
    let mut with_pin = config(Curve::P256);
    with_pin.pin = Some("1".to_string());
    let f = failure(opened(with_pin).step(Event::Done(Err("C_Login failed: y".to_string()))));
    assert_eq!(f.error, "C_Login failed: C_Login failed: y");
    let f = failure(opened(config(Curve::P256)).step(Event::Generated(Err("z".to_string()))));
    assert_eq!(f.error, "key generation failed: z");
    assert!(f.destroy.is_empty());
}

#[test]
fn a_missing_key_is_explained() {
    let find = || {
        let mut c = config(Curve::P256);
        c.key_id = Some("k".to_string());
        opened(c)
    };
    let f = failure(find().step(Event::Found(Ok(None))));
    assert_eq!(
        f.error,
        "no private key found with CKA_ID 'k'. The Cosmian PKCS#11 provider only exposes private \
         keys carrying the 'disk-encryption' or 'ssh-auth' KMIP tag — check the key was created \
         with one of those tags"
    );
    let f = failure(find().step(Event::Found(Err("x".to_string()))));
    assert_eq!(f.error, "x");
    let f = failure(find().step(Event::Found(Ok(Some(2)))).step(Event::Found(Err("x".to_string()))));
    assert_eq!(f.error, "x");
    let f = failure(find().step(Event::Found(Ok(Some(2)))).step(Event::Found(Ok(None))));
    assert_eq!(
        f.error,
        "no public key object was found and none was supplied; pass --public-key with the DER \
         SubjectPublicKeyInfo of the signing key"
    );
    assert!(f.destroy.is_empty());
}

#[test]
fn a_generated_key_is_destroyed_when_setup_fails() {
    let keys = KeyPair { public: 11, private: 12 };
    let generated = || opened(config(Curve::Ed25519)).step(Event::Generated(Ok(keys)));
    let public = ed25519_key().verifying_key().to_bytes().to_vec();
    let f = failure(generated().step(Event::Bytes(Err("x".to_string()))));
    assert_eq!(
        f.error,
        "failed to read CKA_EC_POINT. The Cosmian provider cannot return Ed25519 public keys this \
         way — supply the key with --public-key instead: x"
    );
    assert_eq!(f.destroy, vec![12, 11]);
    let f = failure(generated().step(Event::Bytes(Ok(vec![1]))));
    assert_eq!(f.destroy, vec![12, 11]);
    let ready = || generated().step(Event::Bytes(Ok(public.clone())));
    let f = failure(ready().step(Event::Done(Err("init".to_string()))));
    assert_eq!(f.error, "init");
    assert_eq!(f.destroy, vec![12, 11]);
    let signing = || ready().step(Event::Done(Ok(())));
    let f = failure(signing().step(Event::Bytes(Err("sign".to_string()))));
    assert_eq!(f.error, "sign");
    assert_eq!(f.destroy, vec![12, 11]);
    let f = failure(signing().step(Event::Bytes(Ok(vec![0; 63]))));
    assert_eq!(f.error, "expected a 64-byte signature, module returned 63 bytes");
    assert_eq!(f.destroy, vec![12, 11]);
    let f = failure(signing().step(Event::Bytes(Ok(vec![0; 64]))));
    assert!(
        f.error.starts_with(
            "setup self-test failed: the signature did not verify against the public key: Ed25519 \
             signature verification failed: "
        ),
        "{}",
        f.error
    );
    assert_eq!(f.destroy, vec![12, 11]);
    let none = KeyPair { public: 0, private: 12 };
    let f = failure(opened(config(Curve::Ed25519)).step(Event::Generated(Ok(none))));
    assert_eq!(f.destroy, vec![12, 0]);
}

#[test]
fn an_event_out_of_place_changes_nothing() {
    let setup = Setup::with_label(config(Curve::P256), String::new())
        .step(Event::Done(Ok(())))
        .step(Event::Bytes(Ok(vec![])));
    assert!(matches!(setup.action(), Action::ListSlots));
    assert!(setup.finish().is_none());
}
