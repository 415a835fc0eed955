//! Reading public keys, verifying signatures, and cleanup.

use crate::chart::{lemma_shows, shows};
use crate::pkcs11::{
    ec_point_key, ed25519_info, ed25519_spki_key, invalid_spki, law_ed25519_key_is_recovered,
    law_p256_point_is_recovered, normalize_ec_point, normalize_p256_point, octet_string,
    p256_info, p256_point, p256_spki_point, parse_spki_ed25519, parse_spki_p256, sha256,
    signing_input_of, unrecognised_point, Curve, KeyPair, SIGNATURE_LEN,
};
use crate::text::{decimal, decimal_text};
use ed25519_dalek::Verifier;
use p256::ecdsa::signature::hazmat::PrehashVerifier;
use vstd::prelude::*;
use vstd::string::StringExecFns;

verus! {

/// An error within its context.
pub open spec fn because(context: Seq<char>, cause: Seq<char>) -> Seq<char> {
    context + ": "@ + cause
}

/// Put an error into its context.
pub fn explain(context: &str, cause: &str) -> (text: String)
    ensures
        text@ == because(context@, cause@),
{
    let mut text = String::from_str(context);
    text.append(": ");
    text.append(cause);
    text
}

/// Success, or an error's words as a sequence.
pub open spec fn unit_or_text(r: Result<(), String>) -> Result<(), Seq<char>> {
    match r {
        Ok(()) => Ok(()),
        Err(e) => Err(e@),
    }
}

/// What an outcome becomes within a context.
pub open spec fn outcome_because(context: Seq<char>, outcome: Result<(), Seq<char>>) -> Result<
    (),
    Seq<char>,
> {
    match outcome {
        Ok(()) => Ok(()),
        Err(e) => Err(because(context, e)),
    }
}

/// Put the error of an outcome, where it is one, into a context.
pub fn in_context(context: &str, outcome: Result<(), String>) -> (r: Result<(), String>)
    ensures
        unit_or_text(r) == outcome_because(context@, unit_or_text(outcome)),
{
    match outcome {
        Ok(()) => Ok(()),
        Err(e) => Err(explain(context, e.as_str())),
    }
}

/// What `ed25519_dalek::VerifyingKey::from_bytes` makes of an encoded point.
pub uninterp spec fn ed25519_key(bytes: Seq<u8>) -> Result<(), Seq<char>>;

/// `ed25519_dalek::VerifyingKey::from_bytes`: whether the bytes encode a point
/// of the curve, or the error as it prints itself.
#[verifier::external_body]
fn check_ed25519_key(bytes: &[u8; 32]) -> (r: Result<(), String>)
    ensures
        unit_or_text(r) == ed25519_key(bytes@),
{
    ed25519_dalek::VerifyingKey::from_bytes(bytes).map(|_| ()).map_err(|e| e.to_string())
}

/// What `ed25519_dalek::VerifyingKey::verify` makes of a signature, for the key
/// with given bytes.
pub uninterp spec fn ed25519_verified(key: Seq<u8>, message: Seq<u8>, signature: Seq<u8>) -> Result<
    (),
    Seq<char>,
>;

/// `ed25519_dalek::VerifyingKey::verify` under the key that
/// `VerifyingKey::from_bytes` reads: whether the signature is one of the
/// message, or the error as it prints itself.
#[verifier::external_body]
fn check_ed25519_signature(key: &[u8; 32], message: &[u8], signature: &[u8; 64]) -> (r: Result<
    (),
    String,
>)
    ensures
        unit_or_text(r) == ed25519_verified(key@, message@, signature@),
{
    ed25519_dalek::VerifyingKey::from_bytes(key)
        .and_then(|k| k.verify(message, &ed25519_dalek::Signature::from_bytes(signature)))
        .map_err(|e| e.to_string())
}

/// What `p256::ecdsa::VerifyingKey::from_sec1_bytes` makes of an encoded point.
pub uninterp spec fn p256_key(bytes: Seq<u8>) -> Result<(), Seq<char>>;

/// `p256::ecdsa::VerifyingKey::from_sec1_bytes`: whether the bytes encode a
/// point of the curve, or the error as it prints itself.
#[verifier::external_body]
fn check_p256_key(bytes: &[u8; 65]) -> (r: Result<(), String>)
    ensures
        unit_or_text(r) == p256_key(bytes@),
{
    p256::ecdsa::VerifyingKey::from_sec1_bytes(bytes).map(|_| ()).map_err(|e| e.to_string())
}

/// What `p256::ecdsa::Signature::from_der` makes of an encoded signature.
pub uninterp spec fn p256_signature(der: Seq<u8>) -> Result<(), Seq<char>>;

/// `p256::ecdsa::Signature::from_der`: whether the bytes are a DER-encoded
/// signature, or the error as it prints itself.
#[verifier::external_body]
fn check_p256_encoding(der: &[u8]) -> (r: Result<(), String>)
    ensures
        unit_or_text(r) == p256_signature(der@),
{
    p256::ecdsa::Signature::from_der(der).map(|_| ()).map_err(|e| e.to_string())
}

/// What `p256::ecdsa::VerifyingKey::verify_prehash` makes of a signature, for
/// the key and the signature with given encodings.
pub uninterp spec fn p256_verified(key: Seq<u8>, digest: Seq<u8>, der: Seq<u8>) -> Result<
    (),
    Seq<char>,
>;

/// `p256::ecdsa::VerifyingKey::verify_prehash` under the key that
/// `VerifyingKey::from_sec1_bytes` reads, of the signature that
/// `Signature::from_der` reads: whether the signature is one of the digest, or
/// the error as it prints itself.
#[verifier::external_body]
fn check_p256_signature(key: &[u8; 65], digest: &[u8], der: &[u8]) -> (r: Result<(), String>)
    ensures
        unit_or_text(r) == p256_verified(key@, digest@, der@),
{
    p256::ecdsa::Signature::from_der(der)
        .and_then(|s| {
            p256::ecdsa::VerifyingKey::from_sec1_bytes(key)
                .and_then(|k| k.verify_prehash(digest, &s))
        })
        .map_err(|e| e.to_string())
}

/// The public key, as the bytes that encode it: the 32-byte key for Ed25519,
/// the 65-byte uncompressed SEC1 point for P-256.
pub enum VerifyingKey {
    Ed25519([u8; 32]),
    P256([u8; 65]),
}

/// A public key by its curve and its bytes.
pub struct KeyModel {
    pub curve: Curve,
    pub bytes: Seq<u8>,
}

impl View for VerifyingKey {
    type V = KeyModel;

    open spec fn view(&self) -> KeyModel {
        match self {
            VerifyingKey::Ed25519(bytes) => KeyModel { curve: Curve::Ed25519, bytes: bytes@ },
            VerifyingKey::P256(bytes) => KeyModel { curve: Curve::P256, bytes: bytes@ },
        }
    }
}

impl KeyModel {
    /// Whether the bytes are a key that signatures can be verified against.
    pub open spec fn valid(self) -> bool {
        match self.curve {
            Curve::Ed25519 => self.bytes.len() == 32 && ed25519_key(self.bytes) is Ok,
            Curve::P256 => self.bytes.len() == 65 && p256_key(self.bytes) is Ok,
        }
    }
}

/// A public key or an error's words.
pub open spec fn model_or_text(r: Result<VerifyingKey, String>) -> Result<KeyModel, Seq<char>> {
    match r {
        Ok(key) => Ok(key@),
        Err(e) => Err(e@),
    }
}

/// The key with given bytes, where they encode a point of the curve.
pub open spec fn key_on_curve(
    curve: Curve,
    bytes: Seq<u8>,
    point: Result<(), Seq<char>>,
    context: Seq<char>,
) -> Result<KeyModel, Seq<char>> {
    match point {
        Ok(()) => Ok(KeyModel { curve, bytes }),
        Err(e) => Err(because(context, e)),
    }
}

/// An Ed25519 key, given whether its bytes encode a point of the curve.
pub fn ed25519_key_from(raw: [u8; 32], point: Result<(), String>, context: &str) -> (r: Result<
    VerifyingKey,
    String,
>)
    ensures
        model_or_text(r) == key_on_curve(Curve::Ed25519, raw@, unit_or_text(point), context@),
{
    match point {
        Ok(()) => Ok(VerifyingKey::Ed25519(raw)),
        Err(e) => Err(explain(context, e.as_str())),
    }
}

/// A P-256 key, given whether its bytes encode a point of the curve.
pub fn p256_key_from(raw: [u8; 65], point: Result<(), String>, context: &str) -> (r: Result<
    VerifyingKey,
    String,
>)
    ensures
        model_or_text(r) == key_on_curve(Curve::P256, raw@, unit_or_text(point), context@),
{
    match point {
        Ok(()) => Ok(VerifyingKey::P256(raw)),
        Err(e) => Err(explain(context, e.as_str())),
    }
}

/// The key of a SubjectPublicKeyInfo that was supplied.
pub open spec fn supplied_key_of(curve: Curve, der: Seq<u8>) -> Result<KeyModel, Seq<char>> {
    match curve {
        Curve::Ed25519 => match ed25519_spki_key(der) {
            None => Err(
                because(
                    "the supplied public key is not a valid Ed25519 SubjectPublicKeyInfo"@,
                    invalid_spki("not a valid Ed25519"@, der),
                ),
            ),
            Some(raw) => key_on_curve(
                curve,
                raw,
                ed25519_key(raw),
                "the supplied public key is not a valid Ed25519 point"@,
            ),
        },
        Curve::P256 => match p256_spki_point(der) {
            None => Err(
                because(
                    "the supplied public key is not a valid P-256 SubjectPublicKeyInfo"@,
                    invalid_spki("not a valid P-256"@, der),
                ),
            ),
            Some(raw) => key_on_curve(
                curve,
                raw,
                p256_key(raw),
                "the supplied public key is not a valid P-256 point"@,
            ),
        },
    }
}

/// Read the public key that was supplied.
pub fn supplied_key(curve: Curve, der: &[u8]) -> (r: Result<VerifyingKey, String>)
    ensures
        model_or_text(r) == supplied_key_of(curve, der@),
{
    match curve {
        Curve::Ed25519 => match parse_spki_ed25519(der) {
            Err(e) => Err(
                explain(
                    "the supplied public key is not a valid Ed25519 SubjectPublicKeyInfo",
                    e.as_str(),
                ),
            ),
            Ok(raw) => ed25519_key_from(
                raw,
                check_ed25519_key(&raw),
                "the supplied public key is not a valid Ed25519 point",
            ),
        },
        Curve::P256 => match parse_spki_p256(der) {
            Err(e) => Err(
                explain(
                    "the supplied public key is not a valid P-256 SubjectPublicKeyInfo",
                    e.as_str(),
                ),
            ),
            Ok(raw) => p256_key_from(
                raw,
                check_p256_key(&raw),
                "the supplied public key is not a valid P-256 point",
            ),
        },
    }
}

/// The key of a `CKA_EC_POINT` value.
pub open spec fn point_key_of(curve: Curve, point: Seq<u8>) -> Result<KeyModel, Seq<char>> {
    match curve {
        Curve::Ed25519 => match ec_point_key(point) {
            None => Err(unrecognised_point("unrecognised CKA_EC_POINT"@, point)),
            Some(raw) => key_on_curve(
                curve,
                raw,
                ed25519_key(raw),
                "CKA_EC_POINT is not a valid Ed25519 point"@,
            ),
        },
        Curve::P256 => match p256_point(point) {
            None => Err(unrecognised_point("unrecognised P-256 CKA_EC_POINT"@, point)),
            Some(raw) => key_on_curve(
                curve,
                raw,
                p256_key(raw),
                "CKA_EC_POINT is not a valid P-256 point"@,
            ),
        },
    }
}

/// Read the public key from a `CKA_EC_POINT` value.
pub fn point_key(curve: Curve, point: &[u8]) -> (r: Result<VerifyingKey, String>)
    ensures
        model_or_text(r) == point_key_of(curve, point@),
{
    match curve {
        Curve::Ed25519 => match normalize_ec_point(point) {
            Err(e) => Err(e),
            Ok(raw) => ed25519_key_from(
                raw,
                check_ed25519_key(&raw),
                "CKA_EC_POINT is not a valid Ed25519 point",
            ),
        },
        Curve::P256 => match normalize_p256_point(point) {
            Err(e) => Err(e),
            Ok(raw) => p256_key_from(
                raw,
                check_p256_key(&raw),
                "CKA_EC_POINT is not a valid P-256 point",
            ),
        },
    }
}

/// What verifying a signature over a message gives.
pub open spec fn verification_of(key: KeyModel, message: Seq<u8>, signature: Seq<u8>) -> Result<
    (),
    Seq<char>,
> {
    let input = signing_input_of(key.curve, message);
    match key.curve {
        Curve::Ed25519 => if signature.len() != SIGNATURE_LEN {
            Err(
                because(
                    "expected a 64-byte Ed25519 signature"@,
                    "could not convert slice to array"@,
                ),
            )
        } else {
            outcome_because(
                "Ed25519 signature verification failed"@,
                ed25519_verified(key.bytes, input, signature),
            )
        },
        Curve::P256 => if p256_signature(signature) is Err {
            outcome_because(
                "not a valid DER-encoded P-256 ECDSA signature"@,
                p256_signature(signature),
            )
        } else {
            outcome_because(
                "P-256 signature verification failed"@,
                p256_verified(key.bytes, input, signature),
            )
        },
    }
}

/// What a wrong signature length is reported as.
pub open spec fn wrong_length(len: nat) -> Seq<char> {
    "expected a 64-byte signature, module returned "@ + decimal(len) + " bytes"@
}

/// An outcome of verification, unless the signature has a length that no
/// signature of the curve has.
pub open spec fn length_checked(curve: Curve, len: nat, outcome: Result<(), Seq<char>>) -> Result<
    (),
    Seq<char>,
> {
    if curve == Curve::Ed25519 && len != SIGNATURE_LEN {
        Err(wrong_length(len))
    } else {
        outcome
    }
}

/// Hold an outcome of verification against the length of the signature.
pub fn check_length(curve: Curve, len: usize, outcome: Result<(), String>) -> (r: Result<
    (),
    String,
>)
    ensures
        unit_or_text(r) == length_checked(curve, len as nat, unit_or_text(outcome)),
{
    if curve == Curve::Ed25519 && len != SIGNATURE_LEN {
        let mut text = String::from_str("expected a 64-byte signature, module returned ");
        let number = decimal_text(len as u128);
        text.append(number.as_str());
        text.append(" bytes");
        return Err(text);
    }
    outcome
}

/// The first 64 bytes of a signature.
fn bytes_64(raw: &[u8]) -> (out: [u8; 64])
    requires
        raw@.len() == 64,
    ensures
        out@ == raw@,
{
    let mut out = [0u8; 64];
    let mut i: usize = 0;
    while i < 64
        invariant
            i <= 64,
            raw@.len() == 64,
            out@.take(i as int) == raw@.take(i as int),
        decreases 64 - i,
    {
        let ghost before = out@;
        out[i] = raw[i];
        assert(out@.take(i + 1) =~= before.take(i as int).push(raw@[i as int]));
        assert(raw@.take(i + 1) =~= raw@.take(i as int).push(raw@[i as int]));
        i = i + 1;
    }
    assert(out@.take(64) == out@);
    assert(raw@.take(64) == raw@);
    out
}

impl VerifyingKey {
    /// Verify a signature over `message`.
    ///
    /// Ed25519 (`CKM_EDDSA`, pure mode) signs the message directly.
    /// `CKM_ECDSA` per the PKCS#11 spec signs a pre-hashed digest, not the
    /// raw message, so P-256 verification hashes `message` with SHA-256
    /// first, as was done to produce the signature.
    pub fn verify(&self, message: &[u8], signature: &[u8]) -> (r: Result<(), String>)
        ensures
            unit_or_text(r) == verification_of(self@, message@, signature@),
    {
        match self {
            VerifyingKey::Ed25519(key) => {
                if signature.len() != SIGNATURE_LEN {
                    return Err(
                        explain(
                            "expected a 64-byte Ed25519 signature",
                            "could not convert slice to array",
                        ),
                    );
                }
                let input = Curve::Ed25519.signing_input(message);
                let bytes = bytes_64(signature);
                in_context(
                    "Ed25519 signature verification failed",
                    check_ed25519_signature(key, input.as_slice(), &bytes),
                )
            },
            VerifyingKey::P256(key) => {
                let encoding = check_p256_encoding(signature);
                if encoding.is_err() {
                    return in_context("not a valid DER-encoded P-256 ECDSA signature", encoding);
                }
                let input = Curve::P256.signing_input(message);
                in_context(
                    "P-256 signature verification failed",
                    check_p256_signature(key, input.as_slice(), signature),
                )
            },
        }
    }
}

/// A key that signs, with what is needed to verify its signatures.
pub struct Signer {
    keys: KeyPair,
    verifying_key: VerifyingKey,
    label: String,
    /// Keys we created ourselves are ours to clean up; a key that was supplied
    /// by its id belongs to the caller and is left alone.
    owns_key: bool,
}

pub struct SignerModel {
    pub keys: KeyPair,
    pub key: KeyModel,
    pub label: Seq<char>,
    pub owns_key: bool,
}

impl View for Signer {
    type V = SignerModel;

    closed spec fn view(&self) -> SignerModel {
        SignerModel {
            keys: self.keys,
            key: self.verifying_key@,
            label: self.label@,
            owns_key: self.owns_key,
        }
    }
}

/// The objects to destroy when a key is given up: both of one that this run
/// created, the private one first, and none of another.
pub open spec fn owned_handles(keys: KeyPair, owns_key: bool) -> Seq<u64> {
    if owns_key {
        seq![keys.private, keys.public]
    } else {
        Seq::empty()
    }
}

pub(crate) fn handles_to_destroy(keys: &KeyPair, owns_key: bool) -> (handles: Vec<u64>)
    ensures
        handles@ == owned_handles(*keys, owns_key),
{
    let mut handles: Vec<u64> = Vec::new();
    if owns_key {
        handles.push(keys.private);
        handles.push(keys.public);
    }
    assert(handles@ =~= owned_handles(*keys, owns_key));
    handles
}

impl Signer {
    /// A signer with what the setup found.
    pub(crate) fn new(
        keys: KeyPair,
        verifying_key: VerifyingKey,
        label: String,
        owns_key: bool,
    ) -> (signer: Signer)
        ensures
            signer@ == (SignerModel {
                keys,
                key: verifying_key@,
                label: label@,
                owns_key,
            }),
    {
        Signer { keys, verifying_key, label, owns_key }
    }

    /// The public key, as a raw encoding: 32 bytes for Ed25519, the 65-byte
    /// uncompressed SEC1 point for P-256.
    pub fn public_key_bytes(&self) -> (bytes: Vec<u8>)
        ensures
            bytes@ == self@.key.bytes,
    {
        match &self.verifying_key {
            VerifyingKey::Ed25519(key) => vstd::slice::slice_to_vec(key),
            VerifyingKey::P256(key) => vstd::slice::slice_to_vec(key),
        }
    }

    pub fn curve(&self) -> (curve: Curve)
        ensures
            curve == self@.key.curve,
    {
        match &self.verifying_key {
            VerifyingKey::Ed25519(_) => Curve::Ed25519,
            VerifyingKey::P256(_) => Curve::P256,
        }
    }

    pub fn label(&self) -> (label: &str)
        ensures
            label@ == self@.label,
    {
        self.label.as_str()
    }

    pub fn private_handle(&self) -> (handle: u64)
        ensures
            handle == self@.keys.private,
    {
        self.keys.private
    }

    /// Verify a signature over `message`.
    pub fn verify(&self, message: &[u8], signature: &[u8]) -> (r: Result<(), String>)
        ensures
            unit_or_text(r) == verification_of(self@.key, message@, signature@),
    {
        self.verifying_key.verify(message, signature)
    }

    /// The objects to destroy at the end: the key pair if this run created it.
    pub fn cleanup(&self) -> (handles: Vec<u64>)
        ensures
            handles@ == owned_handles(self@.keys, self@.owns_key),
    {
        handles_to_destroy(&self.keys, self.owns_key)
    }
}

/// An error within its context begins with the context and ends with the cause.
pub proof fn law_context_comes_first(context: Seq<char>, cause: Seq<char>)
    ensures
        context.is_prefix_of(because(context, cause)),
        cause.is_suffix_of(because(context, cause)),
        because(context, cause).len() == context.len() + 2 + cause.len(),
        outcome_because(context, Ok(())) is Ok,
        outcome_because(context, Err(cause)) == Err::<(), Seq<char>>(because(context, cause)),
{
    reveal_strlit(": ");
    let text = because(context, cause);
    assert(context =~= text.take(context.len() as int));
    assert(cause =~= text.skip(text.len() - cause.len()));
}

/// An Ed25519 signature verifies exactly where it has 64 bytes and the verifier
/// takes it for one of the message itself under the key; a P-256 signature
/// where it is a DER encoding that the verifier takes for one of the message's
/// SHA-256 digest under the key.
pub proof fn law_what_is_verified(key: KeyModel, message: Seq<u8>, signature: Seq<u8>)
    ensures
        key.curve == Curve::Ed25519 ==> (verification_of(key, message, signature) is Ok
            <==> signature.len() == 64 && ed25519_verified(key.bytes, message, signature) is Ok),
        key.curve == Curve::P256 ==> (verification_of(key, message, signature) is Ok
            <==> p256_signature(signature) is Ok && p256_verified(
            key.bytes,
            sha256(message),
            signature,
        ) is Ok),
        key.curve == Curve::Ed25519 && signature.len() == 64 ==> (ed25519_verified(
            key.bytes,
            message,
            signature,
        ) matches Err(e) ==> (verification_of(key, message, signature) matches Err(text)
            && e.is_suffix_of(text))),
        key.curve == Curve::P256 ==> (p256_signature(signature) matches Err(e) ==> (
        verification_of(key, message, signature) matches Err(text) && e.is_suffix_of(text))),
        key.curve == Curve::P256 && p256_signature(signature) is Ok ==> (p256_verified(
            key.bytes,
            sha256(message),
            signature,
        ) matches Err(e) ==> (verification_of(key, message, signature) matches Err(text)
            && e.is_suffix_of(text))),
        key.curve == Curve::Ed25519 && signature.len() != 64 ==> (verification_of(
            key,
            message,
            signature,
        ) matches Err(text) && "expected a 64-byte Ed25519 signature"@.is_prefix_of(text)),
        key.curve == Curve::Ed25519 && signature.len() == 64 ==> (verification_of(
            key,
            message,
            signature,
        ) matches Err(text) ==> "Ed25519 signature verification failed"@.is_prefix_of(text)),
        key.curve == Curve::P256 && p256_signature(signature) is Err ==> (verification_of(
            key,
            message,
            signature,
        ) matches Err(text) ==> "not a valid DER-encoded P-256 ECDSA signature"@.is_prefix_of(
            text,
        )),
        key.curve == Curve::P256 && p256_signature(signature) is Ok ==> (verification_of(
            key,
            message,
            signature,
        ) matches Err(text) ==> "P-256 signature verification failed"@.is_prefix_of(text)),
{
    law_context_comes_first(
        "expected a 64-byte Ed25519 signature"@,
        "could not convert slice to array"@,
    );
    if let Err(e) = p256_verified(key.bytes, sha256(message), signature) {
        law_context_comes_first("P-256 signature verification failed"@, e);
    }
    if let Err(e) = ed25519_verified(key.bytes, message, signature) {
        law_context_comes_first("Ed25519 signature verification failed"@, e);
    }
    if let Err(e) = p256_signature(signature) {
        law_context_comes_first("not a valid DER-encoded P-256 ECDSA signature"@, e);
    }
}

/// A key is taken from what was supplied in either form, bare or as a
/// SubjectPublicKeyInfo, exactly where its bytes are a point of the curve, and
/// it is these bytes.
pub proof fn law_supplied_keys(key: Seq<u8>, point: Seq<u8>)
    requires
        key.len() == 32,
        point.len() == 65,
        point[0] == 0x04,
    ensures
        ed25519_key(key) is Ok ==> supplied_key_of(Curve::Ed25519, key) == Ok::<
            KeyModel,
            Seq<char>,
        >(KeyModel { curve: Curve::Ed25519, bytes: key }) && supplied_key_of(
            Curve::Ed25519,
            ed25519_info(key),
        ) == supplied_key_of(Curve::Ed25519, key),
        ed25519_key(key) is Err ==> supplied_key_of(Curve::Ed25519, key) is Err && supplied_key_of(
            Curve::Ed25519,
            ed25519_info(key),
        ) is Err,
        p256_key(point) is Ok ==> supplied_key_of(Curve::P256, point) == Ok::<KeyModel, Seq<char>>(
            KeyModel { curve: Curve::P256, bytes: point },
        ) && supplied_key_of(Curve::P256, p256_info(point)) == supplied_key_of(Curve::P256, point),
        p256_key(point) is Err ==> supplied_key_of(Curve::P256, point) is Err && supplied_key_of(
            Curve::P256,
            p256_info(point),
        ) is Err,
{
    law_ed25519_key_is_recovered(key);
    law_p256_point_is_recovered(point);
}

/// A key is read from the module's point in all three forms, exactly where its
/// bytes are a point of the curve, and it is these bytes.
pub proof fn law_point_keys(key: Seq<u8>, point: Seq<u8>)
    requires
        key.len() == 32,
        point.len() == 65,
        point[0] == 0x04,
    ensures
        ed25519_key(key) is Ok ==> point_key_of(Curve::Ed25519, key) == Ok::<KeyModel, Seq<char>>(
            KeyModel { curve: Curve::Ed25519, bytes: key },
        ),
        ed25519_key(key) is Err ==> point_key_of(Curve::Ed25519, key) is Err,
        point_key_of(Curve::Ed25519, octet_string(key)) == point_key_of(Curve::Ed25519, key),
        point_key_of(Curve::Ed25519, ed25519_info(key)) == point_key_of(Curve::Ed25519, key),
        p256_key(point) is Ok ==> point_key_of(Curve::P256, point) == Ok::<KeyModel, Seq<char>>(
            KeyModel { curve: Curve::P256, bytes: point },
        ),
        p256_key(point) is Err ==> point_key_of(Curve::P256, point) is Err,
        point_key_of(Curve::P256, octet_string(point)) == point_key_of(Curve::P256, point),
        point_key_of(Curve::P256, p256_info(point)) == point_key_of(Curve::P256, point),
{
    law_ed25519_key_is_recovered(key);
    law_p256_point_is_recovered(point);
}

/// Whatever key is read, it is one of the curve that was asked for and one that
/// signatures can be verified against.
pub proof fn law_read_keys_are_valid(curve: Curve, bytes: Seq<u8>)
    ensures
        supplied_key_of(curve, bytes) matches Ok(key) ==> key.curve == curve && match curve {
            Curve::Ed25519 => key.bytes.len() == 32 && ed25519_key(key.bytes) is Ok,
            Curve::P256 => key.bytes.len() == 65 && p256_key(key.bytes) is Ok,
        },
        point_key_of(curve, bytes) matches Ok(key) ==> key.curve == curve && match curve {
            Curve::Ed25519 => key.bytes.len() == 32 && ed25519_key(key.bytes) is Ok,
            Curve::P256 => key.bytes.len() == 65 && p256_key(key.bytes) is Ok,
        },
{
}

/// A pair that this run created is destroyed whole, another not at all.
pub proof fn law_only_owned_pairs_are_destroyed(keys: KeyPair, owns_key: bool)
    ensures
        owns_key ==> owned_handles(keys, owns_key).len() == 2 && owned_handles(keys, owns_key)[0]
            == keys.private && owned_handles(keys, owns_key)[1] == keys.public,
        !owns_key ==> owned_handles(keys, owns_key).len() == 0,
{
}

/// A wrong length is an error on Ed25519 whatever was verified, and it names
/// the length; no other length is held against a signature.
pub proof fn law_length_is_checked_on_ed25519(
    curve: Curve,
    len: nat,
    outcome: Result<(),
    Seq<char>>,
)
    ensures
        curve == Curve::Ed25519 && len != 64 ==> (length_checked(curve, len, outcome) matches Err(
            text,
        ) && shows(text, decimal(len))),
        curve == Curve::P256 || len == 64 ==> length_checked(curve, len, outcome) == outcome,
{
    lemma_shows("expected a 64-byte signature, module returned "@, decimal(len), " bytes"@);
}

/// An outcome stands for itself, an error for its characters, a key for its
/// curve and its bytes.
pub proof fn law_outcomes_stand_for_themselves(error: String, key: VerifyingKey)
    ensures
        unit_or_text(Ok(())) is Ok,
        unit_or_text(Err(error)) == Err::<(), Seq<char>>(error@),
        model_or_text(Ok(key)) == Ok::<KeyModel, Seq<char>>(key@),
        model_or_text(Err(error)) == Err::<KeyModel, Seq<char>>(error@),
        key matches VerifyingKey::Ed25519(bytes) ==> key@.curve == Curve::Ed25519 && key@.bytes
            == bytes@,
        key matches VerifyingKey::P256(bytes) ==> key@.curve == Curve::P256 && key@.bytes == bytes@,
{
}

/// A key is read exactly where the encoding carries bytes of one and these are
/// a point of the curve. What else comes is named in the error, first what was
/// read and then why it is none.
pub proof fn law_which_keys_are_read(bytes: Seq<u8>)
    ensures
        supplied_key_of(Curve::Ed25519, bytes) is Ok <==> ed25519_spki_key(bytes) is Some
            && ed25519_key(ed25519_spki_key(bytes)->0) is Ok,
        supplied_key_of(Curve::P256, bytes) is Ok <==> p256_spki_point(bytes) is Some && p256_key(
            p256_spki_point(bytes)->0,
        ) is Ok,
        point_key_of(Curve::Ed25519, bytes) is Ok <==> ec_point_key(bytes) is Some && ed25519_key(
            ec_point_key(bytes)->0,
        ) is Ok,
        point_key_of(Curve::P256, bytes) is Ok <==> p256_point(bytes) is Some && p256_key(
            p256_point(bytes)->0,
        ) is Ok,
        supplied_key_of(Curve::Ed25519, bytes) matches Ok(key) ==> ed25519_spki_key(bytes) == Some(
            key.bytes,
        ),
        supplied_key_of(Curve::P256, bytes) matches Ok(key) ==> p256_spki_point(bytes) == Some(
            key.bytes,
        ),
        point_key_of(Curve::Ed25519, bytes) matches Ok(key) ==> ec_point_key(bytes) == Some(
            key.bytes,
        ),
        point_key_of(Curve::P256, bytes) matches Ok(key) ==> p256_point(bytes) == Some(key.bytes),
        supplied_key_of(Curve::Ed25519, bytes) matches Err(e) ==>
            "the supplied public key is not a valid Ed25519 "@.is_prefix_of(e),
        supplied_key_of(Curve::P256, bytes) matches Err(e) ==>
            "the supplied public key is not a valid P-256 "@.is_prefix_of(e),
        ed25519_spki_key(bytes) is None ==> (supplied_key_of(Curve::Ed25519, bytes) matches Err(e)
            && invalid_spki("not a valid Ed25519"@, bytes).is_suffix_of(e)),
        p256_spki_point(bytes) is None ==> (supplied_key_of(Curve::P256, bytes) matches Err(e)
            && invalid_spki("not a valid P-256"@, bytes).is_suffix_of(e)),
        ec_point_key(bytes) is None ==> point_key_of(Curve::Ed25519, bytes) == Err::<
            KeyModel,
            Seq<char>,
        >(unrecognised_point("unrecognised CKA_EC_POINT"@, bytes)),
        p256_point(bytes) is None ==> point_key_of(Curve::P256, bytes) == Err::<
            KeyModel,
            Seq<char>,
        >(unrecognised_point("unrecognised P-256 CKA_EC_POINT"@, bytes)),
{
    let ed_info = "the supplied public key is not a valid Ed25519 SubjectPublicKeyInfo"@;
    let ed_point = "the supplied public key is not a valid Ed25519 point"@;
    let nist_info = "the supplied public key is not a valid P-256 SubjectPublicKeyInfo"@;
    let nist_point = "the supplied public key is not a valid P-256 point"@;
    assert("the supplied public key is not a valid Ed25519 "@.is_prefix_of(ed_info)
        && "the supplied public key is not a valid Ed25519 "@.is_prefix_of(ed_point)) by {
        reveal_strlit("the supplied public key is not a valid Ed25519 ");
        reveal_strlit("the supplied public key is not a valid Ed25519 SubjectPublicKeyInfo");
        reveal_strlit("the supplied public key is not a valid Ed25519 point");
    }
    assert("the supplied public key is not a valid P-256 "@.is_prefix_of(nist_info)
        && "the supplied public key is not a valid P-256 "@.is_prefix_of(nist_point)) by {
        reveal_strlit("the supplied public key is not a valid P-256 ");
        reveal_strlit("the supplied public key is not a valid P-256 SubjectPublicKeyInfo");
        reveal_strlit("the supplied public key is not a valid P-256 point");
    }
    match ed25519_spki_key(bytes) {
        None => {
            let cause = invalid_spki("not a valid Ed25519"@, bytes);
            law_context_comes_first(ed_info, cause);
            lemma_prefix_of_prefix(
                "the supplied public key is not a valid Ed25519 "@,
                ed_info,
                because(ed_info, cause),
            );
        },
        Some(raw) => {
            if let Err(cause) = ed25519_key(raw) {
                law_context_comes_first(ed_point, cause);
                lemma_prefix_of_prefix(
                    "the supplied public key is not a valid Ed25519 "@,
                    ed_point,
                    because(ed_point, cause),
                );
            }
        },
    }
    match p256_spki_point(bytes) {
        None => {
            let cause = invalid_spki("not a valid P-256"@, bytes);
            law_context_comes_first(nist_info, cause);
            lemma_prefix_of_prefix(
                "the supplied public key is not a valid P-256 "@,
                nist_info,
                because(nist_info, cause),
            );
        },
        Some(raw) => {
            if let Err(cause) = p256_key(raw) {
                law_context_comes_first(nist_point, cause);
                lemma_prefix_of_prefix(
                    "the supplied public key is not a valid P-256 "@,
                    nist_point,
                    because(nist_point, cause),
                );
            }
        },
    }
}

proof fn lemma_prefix_of_prefix(a: Seq<char>, b: Seq<char>, c: Seq<char>)
    requires
        a.is_prefix_of(b),
        b.is_prefix_of(c),
    ensures
        a.is_prefix_of(c),
{
    assert(b =~= c.subrange(0, b.len() as int));
    assert(a =~= b.subrange(0, a.len() as int));
    assert(a =~= c.subrange(0, a.len() as int));
}

} // verus!
