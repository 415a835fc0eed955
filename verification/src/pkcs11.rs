//! The PKCS#11 side of signing: curves and their mechanisms, return values,
//! attribute templates, and the key encodings that modules hand out.

use crate::chart::{lemma_shows, shows};
use crate::text::{
    chars_of, decimal, decimal_text, hex_at_least_8, hex_at_least_8_text, hex_bytes, hex_bytes_text,
};
use sha2::Digest;
use vstd::prelude::*;
use vstd::string::StringExecFns;

verus! {

/// Ed25519 signatures (RFC 8032) are always exactly 64 bytes. `CKM_ECDSA`
/// signatures are expected DER-encoded (`SEQUENCE { INTEGER r, INTEGER s }`),
/// not raw `r || s`, so their length varies slightly from one to the next,
/// depending on whether `r` and `s` need a leading zero byte for their high
/// bit. `SIGNATURE_LEN` is Ed25519's exact length; `Curve::max_signature_len`
/// is the upper bound used to presize the buffer for whichever curve is in use.
pub const SIGNATURE_LEN: usize = 64;

/// Upper bound on a DER-encoded P-256 ECDSA signature: outer `SEQUENCE`
/// header (2 bytes) plus two `INTEGER`s, each up to 35 bytes (1 tag + 1
/// length + up to 33 bytes of content, the extra byte for a leading zero
/// when the top bit of `r`/`s` is set) = 72 bytes.
pub const MAX_P256_SIGNATURE_LEN: usize = 72;

// Return values of the PKCS#11 standard.
pub const CKR_OK: u64 = 0x000;
pub const CKR_CANCEL: u64 = 0x001;
pub const CKR_HOST_MEMORY: u64 = 0x002;
pub const CKR_GENERAL_ERROR: u64 = 0x005;
pub const CKR_ARGUMENTS_BAD: u64 = 0x007;
pub const CKR_ATTRIBUTE_TYPE_INVALID: u64 = 0x012;
pub const CKR_ATTRIBUTE_VALUE_INVALID: u64 = 0x013;
pub const CKR_ACTION_PROHIBITED: u64 = 0x01b;
pub const CKR_DEVICE_ERROR: u64 = 0x030;
pub const CKR_DEVICE_REMOVED: u64 = 0x032;
pub const CKR_FUNCTION_NOT_SUPPORTED: u64 = 0x054;
pub const CKR_KEY_HANDLE_INVALID: u64 = 0x060;
pub const CKR_MECHANISM_INVALID: u64 = 0x070;
pub const CKR_MECHANISM_PARAM_INVALID: u64 = 0x071;
pub const CKR_OPERATION_ACTIVE: u64 = 0x090;
pub const CKR_OPERATION_NOT_INITIALIZED: u64 = 0x091;
pub const CKR_PIN_INCORRECT: u64 = 0x0a0;
pub const CKR_PIN_INVALID: u64 = 0x0a1;
pub const CKR_SESSION_CLOSED: u64 = 0x0b0;
pub const CKR_SESSION_HANDLE_INVALID: u64 = 0x0b3;
pub const CKR_TEMPLATE_INCOMPLETE: u64 = 0x0d0;
pub const CKR_TEMPLATE_INCONSISTENT: u64 = 0x0d1;
pub const CKR_TOKEN_NOT_PRESENT: u64 = 0x0e0;
pub const CKR_USER_ALREADY_LOGGED_IN: u64 = 0x100;
pub const CKR_USER_NOT_LOGGED_IN: u64 = 0x101;
pub const CKR_BUFFER_TOO_SMALL: u64 = 0x150;

// Mechanisms.
pub const CKM_EC_KEY_PAIR_GEN: u64 = 0x1040;
pub const CKM_ECDSA: u64 = 0x1041;
pub const CKM_EC_EDWARDS_KEY_PAIR_GEN: u64 = 0x1055;
pub const CKM_EDDSA: u64 = 0x1057;

// Attributes and object classes.
pub const CKA_CLASS: u64 = 0x000;
pub const CKA_TOKEN: u64 = 0x001;
pub const CKA_PRIVATE: u64 = 0x002;
pub const CKA_LABEL: u64 = 0x003;
pub const CKA_ID: u64 = 0x102;
pub const CKA_SENSITIVE: u64 = 0x103;
pub const CKA_SIGN: u64 = 0x108;
pub const CKA_VERIFY: u64 = 0x10a;
pub const CKA_EC_PARAMS: u64 = 0x180;
pub const CKA_EC_POINT: u64 = 0x181;
pub const CKO_PUBLIC_KEY: u64 = 2;
pub const CKO_PRIVATE_KEY: u64 = 3;

/// The length a module reports for an attribute that it cannot serve.
pub const CK_UNAVAILABLE_INFORMATION: u64 = 0xffff_ffff_ffff_ffff;

/// id-Ed25519 (RFC 8410), DER-encoded, as required for `CKA_EC_PARAMS`.
pub const ED25519_OID_DER: [u8; 5] = [0x06, 0x03, 0x2b, 0x65, 0x70];

/// prime256v1 / secp256r1 (SEC 2 / RFC 5480), DER-encoded, as required for
/// `CKA_EC_PARAMS`.
pub const P256_OID_DER: [u8; 10] = [0x06, 0x08, 0x2a, 0x86, 0x48, 0xce, 0x3d, 0x03, 0x01, 0x07];

/// The elliptic curve a key is generated on or signs with.
#[derive(Debug, Clone, Copy, PartialEq, Eq, Structural)]
pub enum Curve {
    /// Twisted Edwards Ed25519 (RFC 8032), signed via `CKM_EDDSA`.
    Ed25519,
    /// NIST P-256 / secp256r1, signed via `CKM_ECDSA`.
    P256,
}

/// What `sha2::Sha256::digest` returns for given bytes.
pub uninterp spec fn sha256(data: Seq<u8>) -> Seq<u8>;

/// `sha2::Sha256::digest`: the SHA-256 digest of the bytes, 32 bytes long.
#[verifier::external_body]
fn sha256_digest(data: &[u8]) -> (digest: Vec<u8>)
    ensures
        digest@ == sha256(data@),
        digest@.len() == 32,
{
    sha2::Sha256::digest(data).to_vec()
}

/// The bytes that are signed for a message.
pub open spec fn signing_input_of(curve: Curve, message: Seq<u8>) -> Seq<u8> {
    match curve {
        Curve::Ed25519 => message,
        Curve::P256 => sha256(message),
    }
}

impl Curve {
    pub open spec fn spec_name(self) -> Seq<char> {
        match self {
            Curve::Ed25519 => "ed25519"@,
            Curve::P256 => "p256"@,
        }
    }

    /// The curve as it is written on a command line.
    pub fn name(self) -> (name: &'static str)
        ensures
            name@ == self.spec_name(),
    {
        match self {
            Curve::Ed25519 => "ed25519",
            Curve::P256 => "p256",
        }
    }

    pub fn keygen_mechanism(self) -> (mechanism: u64)
        ensures
            mechanism == (match self {
                Curve::Ed25519 => CKM_EC_EDWARDS_KEY_PAIR_GEN,
                Curve::P256 => CKM_EC_KEY_PAIR_GEN,
            }),
    {
        match self {
            Curve::Ed25519 => CKM_EC_EDWARDS_KEY_PAIR_GEN,
            Curve::P256 => CKM_EC_KEY_PAIR_GEN,
        }
    }

    pub fn sign_mechanism(self) -> (mechanism: u64)
        ensures
            mechanism == (match self {
                Curve::Ed25519 => CKM_EDDSA,
                Curve::P256 => CKM_ECDSA,
            }),
    {
        match self {
            Curve::Ed25519 => CKM_EDDSA,
            Curve::P256 => CKM_ECDSA,
        }
    }

    /// The DER-encoded object identifier of the curve.
    pub open spec fn params(self) -> Seq<u8> {
        match self {
            Curve::Ed25519 => ED25519_OID_DER@,
            Curve::P256 => P256_OID_DER@,
        }
    }

    pub fn ec_params(self) -> (params: &'static [u8])
        ensures
            params@ == self.params(),
    {
        match self {
            Curve::Ed25519 => &ED25519_OID_DER,
            Curve::P256 => &P256_OID_DER,
        }
    }

    pub open spec fn signature_bound(self) -> usize {
        match self {
            Curve::Ed25519 => SIGNATURE_LEN,
            Curve::P256 => MAX_P256_SIGNATURE_LEN,
        }
    }

    /// Upper bound on the signature buffer needed for this curve: exact for
    /// Ed25519, a safe maximum for P-256's variable-length DER encoding.
    pub fn max_signature_len(self) -> (len: usize)
        ensures
            len == self.signature_bound(),
    {
        match self {
            Curve::Ed25519 => SIGNATURE_LEN,
            Curve::P256 => MAX_P256_SIGNATURE_LEN,
        }
    }

    pub open spec fn one_shot(self) -> bool {
        self == Curve::Ed25519
    }

    /// Whether signing on this curve goes through the one-shot message calls:
    /// `C_MessageSignInit` once during setup and a single `C_SignMessage` per
    /// message. The other curve uses `C_SignInit` and `C_Sign` for each.
    pub fn uses_message_signing(self) -> (b: bool)
        ensures
            b == self.one_shot(),
    {
        match self {
            Curve::Ed25519 => true,
            Curve::P256 => false,
        }
    }

    /// The bytes actually handed to the module and to verification: the
    /// message itself for Ed25519 (`CKM_EDDSA` signs the message directly), or
    /// its SHA-256 digest for P-256 (`CKM_ECDSA` per the PKCS#11 spec signs a
    /// pre-hashed digest, not the raw message).
    pub fn signing_input(self, message: &[u8]) -> (input: Vec<u8>)
        ensures
            input@ == signing_input_of(self, message@),
            self == Curve::P256 ==> input@.len() == 32,
    {
        match self {
            Curve::Ed25519 => vstd::slice::slice_to_vec(message),
            Curve::P256 => sha256_digest(message),
        }
    }

    pub open spec fn spec_init_call(self) -> Seq<char> {
        match self {
            Curve::Ed25519 => "C_MessageSignInit"@,
            Curve::P256 => "C_SignInit"@,
        }
    }

    /// The call that initialises signing.
    pub fn init_call(self) -> (name: &'static str)
        ensures
            name@ == self.spec_init_call(),
    {
        match self {
            Curve::Ed25519 => "C_MessageSignInit",
            Curve::P256 => "C_SignInit",
        }
    }

    pub open spec fn spec_sign_call(self) -> Seq<char> {
        match self {
            Curve::Ed25519 => "C_SignMessage"@,
            Curve::P256 => "C_Sign"@,
        }
    }

    /// The call that signs.
    pub fn sign_call(self) -> (name: &'static str)
        ensures
            name@ == self.spec_sign_call(),
    {
        match self {
            Curve::Ed25519 => "C_SignMessage",
            Curve::P256 => "C_Sign",
        }
    }

    pub open spec fn spec_mechanism_name(self) -> Seq<char> {
        match self {
            Curve::Ed25519 => "CKM_EDDSA (Ed25519, pure)"@,
            Curve::P256 => "CKM_ECDSA (P-256, DER-encoded, over SHA-256 digest)"@,
        }
    }

    pub fn mechanism_name(self) -> (name: &'static str)
        ensures
            name@ == self.spec_mechanism_name(),
    {
        match self {
            Curve::Ed25519 => "CKM_EDDSA (Ed25519, pure)",
            Curve::P256 => "CKM_ECDSA (P-256, DER-encoded, over SHA-256 digest)",
        }
    }
}

/// The name of a return value, where it has one here.
pub open spec fn rv_label(rv: u64) -> Option<Seq<char>> {
    match rv {
        CKR_CANCEL => Some("CKR_CANCEL"@),
        CKR_FUNCTION_NOT_SUPPORTED => Some("CKR_FUNCTION_NOT_SUPPORTED"@),
        CKR_MECHANISM_INVALID => Some("CKR_MECHANISM_INVALID"@),
        CKR_MECHANISM_PARAM_INVALID => Some("CKR_MECHANISM_PARAM_INVALID"@),
        CKR_DEVICE_ERROR => Some("CKR_DEVICE_ERROR"@),
        CKR_DEVICE_REMOVED => Some("CKR_DEVICE_REMOVED"@),
        CKR_TOKEN_NOT_PRESENT => Some("CKR_TOKEN_NOT_PRESENT"@),
        CKR_PIN_INCORRECT => Some("CKR_PIN_INCORRECT"@),
        CKR_PIN_INVALID => Some("CKR_PIN_INVALID"@),
        CKR_SESSION_HANDLE_INVALID => Some("CKR_SESSION_HANDLE_INVALID"@),
        CKR_SESSION_CLOSED => Some("CKR_SESSION_CLOSED"@),
        CKR_KEY_HANDLE_INVALID => Some("CKR_KEY_HANDLE_INVALID"@),
        CKR_ATTRIBUTE_TYPE_INVALID => Some("CKR_ATTRIBUTE_TYPE_INVALID"@),
        CKR_ATTRIBUTE_VALUE_INVALID => Some("CKR_ATTRIBUTE_VALUE_INVALID"@),
        CKR_TEMPLATE_INCOMPLETE => Some("CKR_TEMPLATE_INCOMPLETE"@),
        CKR_TEMPLATE_INCONSISTENT => Some("CKR_TEMPLATE_INCONSISTENT"@),
        CKR_USER_NOT_LOGGED_IN => Some("CKR_USER_NOT_LOGGED_IN"@),
        CKR_USER_ALREADY_LOGGED_IN => Some("CKR_USER_ALREADY_LOGGED_IN"@),
        CKR_BUFFER_TOO_SMALL => Some("CKR_BUFFER_TOO_SMALL"@),
        CKR_ARGUMENTS_BAD => Some("CKR_ARGUMENTS_BAD"@),
        CKR_GENERAL_ERROR => Some("CKR_GENERAL_ERROR"@),
        CKR_HOST_MEMORY => Some("CKR_HOST_MEMORY"@),
        CKR_OPERATION_ACTIVE => Some("CKR_OPERATION_ACTIVE"@),
        CKR_OPERATION_NOT_INITIALIZED => Some("CKR_OPERATION_NOT_INITIALIZED"@),
        CKR_ACTION_PROHIBITED => Some("CKR_ACTION_PROHIBITED"@),
        _ => None,
    }
}

/// How a return value is written: by its name, or as `CKR_0x` and its code.
pub open spec fn rv_text(rv: u64) -> Seq<char> {
    match rv_label(rv) {
        Some(label) => label,
        None => "CKR_0x"@ + hex_at_least_8(rv as nat),
    }
}

pub fn rv_name(rv: u64) -> (name: String)
    ensures
        name@ == rv_text(rv),
{
    let name = match rv {
        CKR_CANCEL => "CKR_CANCEL",
        CKR_FUNCTION_NOT_SUPPORTED => "CKR_FUNCTION_NOT_SUPPORTED",
        CKR_MECHANISM_INVALID => "CKR_MECHANISM_INVALID",
        CKR_MECHANISM_PARAM_INVALID => "CKR_MECHANISM_PARAM_INVALID",
        CKR_DEVICE_ERROR => "CKR_DEVICE_ERROR",
        CKR_DEVICE_REMOVED => "CKR_DEVICE_REMOVED",
        CKR_TOKEN_NOT_PRESENT => "CKR_TOKEN_NOT_PRESENT",
        CKR_PIN_INCORRECT => "CKR_PIN_INCORRECT",
        CKR_PIN_INVALID => "CKR_PIN_INVALID",
        CKR_SESSION_HANDLE_INVALID => "CKR_SESSION_HANDLE_INVALID",
        CKR_SESSION_CLOSED => "CKR_SESSION_CLOSED",
        CKR_KEY_HANDLE_INVALID => "CKR_KEY_HANDLE_INVALID",
        CKR_ATTRIBUTE_TYPE_INVALID => "CKR_ATTRIBUTE_TYPE_INVALID",
        CKR_ATTRIBUTE_VALUE_INVALID => "CKR_ATTRIBUTE_VALUE_INVALID",
        CKR_TEMPLATE_INCOMPLETE => "CKR_TEMPLATE_INCOMPLETE",
        CKR_TEMPLATE_INCONSISTENT => "CKR_TEMPLATE_INCONSISTENT",
        CKR_USER_NOT_LOGGED_IN => "CKR_USER_NOT_LOGGED_IN",
        CKR_USER_ALREADY_LOGGED_IN => "CKR_USER_ALREADY_LOGGED_IN",
        CKR_BUFFER_TOO_SMALL => "CKR_BUFFER_TOO_SMALL",
        CKR_ARGUMENTS_BAD => "CKR_ARGUMENTS_BAD",
        CKR_GENERAL_ERROR => "CKR_GENERAL_ERROR",
        CKR_HOST_MEMORY => "CKR_HOST_MEMORY",
        CKR_OPERATION_ACTIVE => "CKR_OPERATION_ACTIVE",
        CKR_OPERATION_NOT_INITIALIZED => "CKR_OPERATION_NOT_INITIALIZED",
        CKR_ACTION_PROHIBITED => "CKR_ACTION_PROHIBITED",
        _ => {
            let mut text = String::from_str("CKR_0x");
            let code = hex_at_least_8_text(rv);
            text.append(code.as_str());
            return text;
        },
    };
    String::from_str(name)
}

/// What a failed module call is reported as.
pub open spec fn failure_text(rv: u64, op: Seq<char>) -> Seq<char> {
    op + " failed: "@ + rv_text(rv)
}

/// Turn a return value into a result, naming the operation in the error.
pub fn check(rv: u64, op: &str) -> (r: Result<(), String>)
    ensures
        r is Ok <==> rv == CKR_OK,
        r matches Err(e) ==> e@ == failure_text(rv, op@),
{
    if rv == CKR_OK {
        return Ok(());
    }
    let mut text = String::from_str(op);
    text.append(" failed: ");
    let name = rv_name(rv);
    text.append(name.as_str());
    Err(text)
}

/// The outcome of `C_Login`: being logged in already is as good.
pub fn login_outcome(rv: u64) -> (r: Result<(), String>)
    ensures
        r is Ok <==> rv == CKR_OK || rv == CKR_USER_ALREADY_LOGGED_IN,
        r matches Err(e) ==> e@ == failure_text(rv, "C_Login"@),
{
    if rv == CKR_USER_ALREADY_LOGGED_IN {
        return Ok(());
    }
    check(rv, "C_Login")
}

/// A key pair living behind the module, by its object handles.
#[derive(Debug, Clone, Copy, PartialEq, Eq, Structural)]
pub struct KeyPair {
    pub public: u64,
    pub private: u64,
}

/// The outcome of `C_GenerateKeyPair`. A module that cannot generate on the
/// curve is reported as such: key creation must go through PKCS#11.
pub fn keygen_outcome(rv: u64, curve: Curve, public: u64, private: u64) -> (r: Result<
    KeyPair,
    String,
>)
    ensures
        r is Ok <==> rv == CKR_OK,
        r matches Ok(keys) ==> keys == (KeyPair { public, private }),
        r matches Err(e) ==> e@ == (if rv == CKR_FUNCTION_NOT_SUPPORTED || rv
            == CKR_MECHANISM_INVALID {
            "the PKCS#11 module does not support key generation on this curve ("@ + (match curve {
                Curve::Ed25519 => "Ed25519"@,
                Curve::P256 => "P256"@,
            }) + "): "@ + rv_text(rv)
        } else {
            failure_text(rv, "C_GenerateKeyPair"@)
        }),
{
    if rv == CKR_FUNCTION_NOT_SUPPORTED || rv == CKR_MECHANISM_INVALID {
        let mut text = String::from_str(
            "the PKCS#11 module does not support key generation on this curve (",
        );
        text.append(
            match curve {
                Curve::Ed25519 => "Ed25519",
                Curve::P256 => "P256",
            },
        );
        text.append("): ");
        let name = rv_name(rv);
        text.append(name.as_str());
        return Err(text);
    }
    match check(rv, "C_GenerateKeyPair") {
        Ok(()) => Ok(KeyPair { public, private }),
        Err(e) => Err(e),
    }
}

/// The outcome of a search for one object: the handle that `C_FindObjects`
/// wrote, where it counted any.
pub fn find_outcome(rv: u64, handle: u64, count: u64) -> (r: Result<Option<u64>, String>)
    ensures
        r is Ok <==> rv == CKR_OK,
        r matches Ok(found) ==> found == (if count > 0 {
            Some(handle)
        } else {
            None
        }),
        r matches Err(e) ==> e@ == failure_text(rv, "C_FindObjects"@),
{
    match check(rv, "C_FindObjects") {
        Ok(()) => Ok(
            if count > 0 {
                Some(handle)
            } else {
                None
            },
        ),
        Err(e) => Err(e),
    }
}

/// The buffer an attribute needs, from the length that the module reported.
pub fn attribute_len(kind: u64, len: u64) -> (r: Result<u64, String>)
    ensures
        r is Ok <==> len != CK_UNAVAILABLE_INFORMATION && len != 0,
        r matches Ok(n) ==> n == len,
        r matches Err(e) ==> e@ == "attribute 0x"@ + hex_at_least_8(kind as nat)
            + " is unavailable on this object"@,
{
    if len == CK_UNAVAILABLE_INFORMATION || len == 0 {
        let mut text = String::from_str("attribute 0x");
        let code = hex_at_least_8_text(kind);
        text.append(code.as_str());
        text.append(" is unavailable on this object");
        return Err(text);
    }
    Ok(len)
}

/// The value of an attribute in a template.
#[derive(Debug)]
pub enum AttributeValue {
    /// The boolean true.
    True,
    /// An object class.
    Class(u64),
    Bytes(Vec<u8>),
}

/// The value of an attribute, with its bytes as a sequence.
pub enum AttributeModel {
    True,
    Class(u64),
    Bytes(Seq<u8>),
}

impl View for AttributeValue {
    type V = AttributeModel;

    open spec fn view(&self) -> AttributeModel {
        match self {
            AttributeValue::True => AttributeModel::True,
            AttributeValue::Class(c) => AttributeModel::Class(*c),
            AttributeValue::Bytes(b) => AttributeModel::Bytes(b@),
        }
    }
}

/// One entry of an attribute template.
#[derive(Debug)]
pub struct Attribute {
    pub kind: u64,
    pub value: AttributeValue,
}

impl View for Attribute {
    type V = (u64, AttributeModel);

    open spec fn view(&self) -> (u64, AttributeModel) {
        (self.kind, self.value@)
    }
}

pub open spec fn template_view(template: Seq<Attribute>) -> Seq<(u64, AttributeModel)> {
    template.map_values(|a: Attribute| a@)
}

/// The template of the public key: a token object that verifies, on the curve,
/// under the label.
pub fn public_template(label: &str, curve: Curve) -> (template: Vec<Attribute>)
    ensures
        template_view(template@) == seq![
            (CKA_TOKEN, AttributeModel::True),
            (CKA_VERIFY, AttributeModel::True),
            (CKA_EC_PARAMS, AttributeModel::Bytes(curve.params())),
            (CKA_LABEL, AttributeModel::Bytes(vstd::utf8::encode_utf8(label@))),
        ],
{
    let mut template: Vec<Attribute> = Vec::new();
    template.push(Attribute { kind: CKA_TOKEN, value: AttributeValue::True });
    template.push(Attribute { kind: CKA_VERIFY, value: AttributeValue::True });
    template.push(
        Attribute {
            kind: CKA_EC_PARAMS,
            value: AttributeValue::Bytes(vstd::slice::slice_to_vec(curve.ec_params())),
        },
    );
    template.push(
        Attribute {
            kind: CKA_LABEL,
            value: AttributeValue::Bytes(vstd::slice::slice_to_vec(label.as_bytes())),
        },
    );
    template
}

/// The template of the private key: a private, sensitive token object that
/// signs, under the label.
pub fn private_template(label: &str) -> (template: Vec<Attribute>)
    ensures
        template_view(template@) == seq![
            (CKA_TOKEN, AttributeModel::True),
            (CKA_SIGN, AttributeModel::True),
            (CKA_PRIVATE, AttributeModel::True),
            (CKA_SENSITIVE, AttributeModel::True),
            (CKA_LABEL, AttributeModel::Bytes(vstd::utf8::encode_utf8(label@))),
        ],
{
    let mut template: Vec<Attribute> = Vec::new();
    template.push(Attribute { kind: CKA_TOKEN, value: AttributeValue::True });
    template.push(Attribute { kind: CKA_SIGN, value: AttributeValue::True });
    template.push(Attribute { kind: CKA_PRIVATE, value: AttributeValue::True });
    template.push(Attribute { kind: CKA_SENSITIVE, value: AttributeValue::True });
    template.push(
        Attribute {
            kind: CKA_LABEL,
            value: AttributeValue::Bytes(vstd::slice::slice_to_vec(label.as_bytes())),
        },
    );
    template
}

/// The template of a search by object id.
///
/// Lookup is by `CKA_ID`, not `CKA_LABEL`: a module may build its search only
/// from `CKA_ID`, ignore a `CKA_LABEL` and so return everything.
pub fn search_template(id: &str, class: u64) -> (template: Vec<Attribute>)
    ensures
        template_view(template@) == seq![
            (CKA_CLASS, AttributeModel::Class(class)),
            (CKA_ID, AttributeModel::Bytes(vstd::utf8::encode_utf8(id@))),
        ],
{
    let mut template: Vec<Attribute> = Vec::new();
    template.push(Attribute { kind: CKA_CLASS, value: AttributeValue::Class(class) });
    template.push(
        Attribute {
            kind: CKA_ID,
            value: AttributeValue::Bytes(vstd::slice::slice_to_vec(id.as_bytes())),
        },
    );
    template
}

/// A slot with a token present.
#[derive(Debug)]
pub struct Slot {
    pub id: u64,
    pub description: String,
    pub token_label: String,
    pub manufacturer: String,
    pub model: String,
}

/// What a module says of itself.
#[derive(Debug)]
pub struct ModuleInfo {
    pub cryptoki_version: (u8, u8),
    pub manufacturer: String,
    pub library_description: String,
    pub library_version: (u8, u8),
}

/// The characters with Unicode's White_Space property.
pub open spec fn white_space(c: char) -> bool {
    let u = c as u32;
    ||| 0x09 <= u <= 0x0d
    ||| u == 0x20
    ||| u == 0x85
    ||| u == 0xa0
    ||| u == 0x1680
    ||| 0x2000 <= u <= 0x200a
    ||| u == 0x2028
    ||| u == 0x2029
    ||| u == 0x202f
    ||| u == 0x205f
    ||| u == 0x3000
}

/// The text without the white space at its end.
pub open spec fn trimmed_end(text: Seq<char>) -> Seq<char>
    decreases text.len(),
{
    if text.len() > 0 && white_space(text.last()) {
        trimmed_end(text.drop_last())
    } else {
        text
    }
}

/// What `String::from_utf8_lossy` makes of given bytes.
pub uninterp spec fn utf8_lossy(bytes: Seq<u8>) -> Seq<char>;

/// `String::from_utf8_lossy` of the standard library: well-formed UTF-8 is
/// decoded as it stands; of other bytes the replacement of the ill-formed parts
/// is named and not spelt out.
#[verifier::external_body]
fn decode_utf8_lossy(raw: &[u8]) -> (text: String)
    ensures
        text@ == utf8_lossy(raw@),
        vstd::utf8::valid_utf8(raw@) ==> text@ == vstd::utf8::decode_utf8(raw@),
{
    String::from_utf8_lossy(raw).into_owned()
}

fn is_white_space(c: char) -> (b: bool)
    ensures
        b == white_space(c),
{
    let u = c as u32;
    (0x09 <= u && u <= 0x0d) || u == 0x20 || u == 0x85 || u == 0xa0 || u == 0x1680 || (0x2000 <= u
        && u <= 0x200a) || u == 0x2028 || u == 0x2029 || u == 0x202f || u == 0x205f || u == 0x3000
}

/// The text without the white space at its end.
pub fn trim_end(text: &str) -> (trimmed: String)
    ensures
        trimmed@ == trimmed_end(text@),
{
    let mut chars = chars_of(text);
    while chars.len() > 0 && is_white_space(chars[chars.len() - 1])
        invariant
            trimmed_end(chars@) == trimmed_end(text@),
        decreases chars.len(),
    {
        assert(chars@.subrange(0, chars.len() - 1) == chars@.drop_last());
        chars.truncate(chars.len() - 1);
    }
    let mut trimmed = String::new();
    let mut i: usize = 0;
    while i < chars.len()
        invariant
            i <= chars.len(),
            trimmed@ == chars@.take(i as int),
        decreases chars.len() - i,
    {
        trimmed.push(chars[i]);
        i = i + 1;
    }
    assert(chars@.take(chars.len() as int) == chars@);
    trimmed
}

/// The text of a fixed-width field that the module has padded with blanks.
pub fn trim_padded(raw: &[u8]) -> (text: String)
    ensures
        text@ == trimmed_end(utf8_lossy(raw@)),
        vstd::utf8::valid_utf8(raw@) ==> text@ == trimmed_end(vstd::utf8::decode_utf8(raw@)),
{
    let decoded = decode_utf8_lossy(raw);
    trim_end(decoded.as_str())
}

impl Slot {
    /// A slot from what `C_GetSlotInfo` (description, manufacturer) and
    /// `C_GetTokenInfo` (label, model) gave; fields of a call that gave nothing
    /// stay empty.
    pub fn from_info(
        id: u64,
        slot_info: Option<(&[u8], &[u8])>,
        token_info: Option<(&[u8], &[u8])>,
    ) -> (slot: Slot)
        ensures
            slot.id == id,
            slot.description@ == (match slot_info {
                Some(info) => trimmed_end(utf8_lossy(info.0@)),
                None => Seq::empty(),
            }),
            slot.manufacturer@ == (match slot_info {
                Some(info) => trimmed_end(utf8_lossy(info.1@)),
                None => Seq::empty(),
            }),
            slot.token_label@ == (match token_info {
                Some(info) => trimmed_end(utf8_lossy(info.0@)),
                None => Seq::empty(),
            }),
            slot.model@ == (match token_info {
                Some(info) => trimmed_end(utf8_lossy(info.1@)),
                None => Seq::empty(),
            }),
    {
        let (description, manufacturer) = match slot_info {
            Some(info) => (trim_padded(info.0), trim_padded(info.1)),
            None => (String::new(), String::new()),
        };
        let (token_label, model) = match token_info {
            Some(info) => (trim_padded(info.0), trim_padded(info.1)),
            None => (String::new(), String::new()),
        };
        Slot { id, description, token_label, manufacturer, model }
    }
}

impl ModuleInfo {
    /// What a module says of itself, from its padded texts.
    pub fn from_info(
        cryptoki_version: (u8, u8),
        manufacturer: &[u8],
        library_description: &[u8],
        library_version: (u8, u8),
    ) -> (info: ModuleInfo)
        ensures
            info.cryptoki_version == cryptoki_version,
            info.manufacturer@ == trimmed_end(utf8_lossy(manufacturer@)),
            info.library_description@ == trimmed_end(utf8_lossy(library_description@)),
            info.library_version == library_version,
    {
        ModuleInfo {
            cryptoki_version,
            manufacturer: trim_padded(manufacturer),
            library_description: trim_padded(library_description),
            library_version,
        }
    }
}

/// Whether `pattern` stands in `bytes` at `i`.
pub open spec fn occurs_at(bytes: Seq<u8>, pattern: Seq<u8>, i: int) -> bool {
    0 <= i && i + pattern.len() <= bytes.len() && bytes.subrange(i, i + pattern.len()) == pattern
}

/// Whether `i` is where `pattern` stands first in `bytes`.
pub open spec fn occurs_first_at(bytes: Seq<u8>, pattern: Seq<u8>, i: int) -> bool {
    &&& occurs_at(bytes, pattern, i)
    &&& forall|j: int| 0 <= j < i ==> !#[trigger] occurs_at(bytes, pattern, j)
}

/// Where `pattern` stands first in `bytes`.
pub open spec fn position_of(bytes: Seq<u8>, pattern: Seq<u8>) -> Option<int> {
    if exists|i: int| occurs_first_at(bytes, pattern, i) {
        Some(choose|i: int| occurs_first_at(bytes, pattern, i))
    } else {
        None
    }
}

proof fn lemma_position(bytes: Seq<u8>, pattern: Seq<u8>, i: int)
    requires
        occurs_first_at(bytes, pattern, i),
    ensures
        position_of(bytes, pattern) == Some(i),
{
    let c = choose|i: int| occurs_first_at(bytes, pattern, i);
    assert(occurs_first_at(bytes, pattern, c));
    if c < i {
        assert(!occurs_at(bytes, pattern, c));
    }
    if i < c {
        assert(!occurs_at(bytes, pattern, i));
    }
}

/// Where `pattern` stands first in `bytes`.
fn find(bytes: &[u8], pattern: &[u8]) -> (position: Option<usize>)
    requires
        pattern@.len() > 0,
    ensures
        match position {
            Some(i) => position_of(bytes@, pattern@) == Some(i as int) && i + pattern@.len()
                <= bytes@.len(),
            None => position_of(bytes@, pattern@) is None,
        },
{
    let n = bytes.len();
    let m = pattern.len();
    let mut i: usize = 0;
    while i < n && m <= n - i
        invariant
            n == bytes@.len(),
            m == pattern@.len(),
            m > 0,
            i <= n,
            forall|j: int| 0 <= j < i ==> !#[trigger] occurs_at(bytes@, pattern@, j),
        decreases n - i,
    {
        let mut k: usize = 0;
        while k < m && bytes[i + k] == pattern[k]
            invariant
                n == bytes@.len(),
                m == pattern@.len(),
                k <= m,
                i + m <= n,
                forall|j: int| 0 <= j < k ==> bytes@[i + j] == pattern@[j],
            decreases m - k,
        {
            k = k + 1;
        }
        if k == m {
            assert(bytes@.subrange(i as int, i + m) == pattern@);
            proof {
                lemma_position(bytes@, pattern@, i as int);
            }
            return Some(i);
        }
        assert(bytes@.subrange(i as int, i + m)[k as int] != pattern@[k as int]);
        i = i + 1;
    }
    assert forall|j: int| !occurs_first_at(bytes@, pattern@, j) by {
        if occurs_at(bytes@, pattern@, j) && j < i {
            assert(!occurs_at(bytes@, pattern@, j));
        }
    }
    None
}

fn bytes_32(raw: &[u8], from: usize) -> (out: [u8; 32])
    requires
        from + 32 <= raw@.len(),
    ensures
        out@ == raw@.subrange(from as int, from + 32),
{
    let mut out: [u8; 32] = [0;32];
    let mut i: usize = 0;
    let n = raw.len();
    while i < 32
        invariant
            i <= 32,
            n == raw@.len(),
            from + 32 <= n,
            out@.take(i as int) == raw@.subrange(from as int, from + i),
        decreases 32 - i,
    {
        out[i] = raw[from + i];
        i = i + 1;
    }
    assert(out@.take(32) == out@);
    out
}

fn bytes_65(raw: &[u8], from: usize) -> (out: [u8; 65])
    requires
        from + 65 <= raw@.len(),
    ensures
        out@ == raw@.subrange(from as int, from + 65),
{
    let mut out: [u8; 65] = [0;65];
    let mut i: usize = 0;
    let n = raw.len();
    while i < 65
        invariant
            i <= 65,
            n == raw@.len(),
            from + 65 <= n,
            out@.take(i as int) == raw@.subrange(from as int, from + i),
        decreases 65 - i,
    {
        out[i] = raw[from + i];
        i = i + 1;
    }
    assert(out@.take(65) == out@);
    out
}

/// The Ed25519 key that a `CKA_EC_POINT` value carries, in any of the forms
/// that are recognised.
pub open spec fn ec_point_key(raw: Seq<u8>) -> Option<Seq<u8>> {
    if raw.len() == 32 {
        Some(raw)
    } else if raw.len() == 34 && raw[0] == 0x04 && raw[1] == 0x20 {
        Some(raw.subrange(2, 34))
    } else if raw.len() == 44 && raw[0] == 0x30 {
        match position_of(raw, seq![0x03u8, 0x21u8]) {
            Some(pos) => if pos + 35 <= raw.len() {
                Some(raw.subrange(pos + 3, pos + 35))
            } else {
                None
            },
            None => None,
        }
    } else {
        None
    }
}

/// How an unrecognised point is reported.
pub open spec fn unrecognised_point(what: Seq<char>, raw: Seq<u8>) -> Seq<char> {
    what + " encoding ("@ + decimal(raw.len()) + " bytes): "@ + hex_bytes(raw)
}

fn unrecognised_point_text(what: &str, raw: &[u8]) -> (text: String)
    ensures
        text@ == unrecognised_point(what@, raw@),
{
    let mut text = String::from_str(what);
    text.append(" encoding (");
    let len = decimal_text(raw.len() as u128);
    text.append(len.as_str());
    text.append(" bytes): ");
    let dump = hex_bytes_text(raw);
    text.append(dump.as_str());
    text
}

/// Extract a raw 32-byte Ed25519 public key from a `CKA_EC_POINT` value.
///
/// Encoding varies between implementations: raw 32 bytes, a DER OCTET STRING
/// wrapper, or a full SubjectPublicKeyInfo. All three are accepted.
pub fn normalize_ec_point(raw: &[u8]) -> (r: Result<[u8; 32], String>)
    ensures
        r is Ok <==> ec_point_key(raw@) is Some,
        r matches Ok(key) ==> ec_point_key(raw@) == Some(key@),
        r matches Err(e) ==> e@ == unrecognised_point("unrecognised CKA_EC_POINT"@, raw@),
{
    let n = raw.len();
    if n == 32 {
        assert(raw@.subrange(0, 32) == raw@);
        return Ok(bytes_32(raw, 0));
    }
    if n == 34 && raw[0] == 0x04 && raw[1] == 0x20 {
        return Ok(bytes_32(raw, 2));
    }
    if n == 44 && raw[0] == 0x30 {
        let pattern: [u8; 2] = [0x03, 0x21];
        assert(pattern@ == seq![0x03u8, 0x21u8]);
        if let Some(pos) = find(raw, &pattern) {
            if pos + 35 <= n {
                return Ok(bytes_32(raw, pos + 3));
            }
        }
    }
    Err(unrecognised_point_text("unrecognised CKA_EC_POINT", raw))
}

/// The point in a P-256 SubjectPublicKeyInfo: what follows the header of the
/// BIT STRING that carries an uncompressed point.
pub open spec fn p256_info_point(der: Seq<u8>) -> Option<Seq<u8>> {
    if der.len() > 0 && der[0] == 0x30 {
        match position_of(der, seq![0x03u8, 0x42u8, 0x00u8, 0x04u8]) {
            Some(pos) => if pos + 68 <= der.len() {
                Some(der.subrange(pos + 3, pos + 68))
            } else {
                None
            },
            None => None,
        }
    } else {
        None
    }
}

fn find_p256_info_point(der: &[u8]) -> (point: Option<[u8; 65]>)
    ensures
        match point {
            Some(p) => p256_info_point(der@) == Some(p@),
            None => p256_info_point(der@) is None,
        },
{
    let n = der.len();
    if n > 0 && der[0] == 0x30 {
        let pattern: [u8; 4] = [0x03, 0x42, 0x00, 0x04];
        assert(pattern@ == seq![0x03u8, 0x42u8, 0x00u8, 0x04u8]);
        if let Some(pos) = find(der, &pattern) {
            if n - pos >= 68 {
                return Some(bytes_65(der, pos + 3));
            }
        }
    }
    None
}

/// The uncompressed P-256 point that a `CKA_EC_POINT` value carries, in any of
/// the forms that are recognised.
pub open spec fn p256_point(raw: Seq<u8>) -> Option<Seq<u8>> {
    if raw.len() == 65 && raw[0] == 0x04 {
        Some(raw)
    } else if raw.len() == 67 && raw[0] == 0x04 && raw[1] == 0x41 && raw[2] == 0x04 {
        Some(raw.subrange(2, 67))
    } else {
        p256_info_point(raw)
    }
}

/// Extract the raw 65-byte uncompressed point (`0x04 || X || Y`) from a
/// P-256 `CKA_EC_POINT` value.
///
/// PKCS#11 wraps the point in a DER OCTET STRING: `04 41 <65 bytes>`. Some
/// modules return the bare point instead, or a full SubjectPublicKeyInfo; all
/// three are accepted.
pub fn normalize_p256_point(raw: &[u8]) -> (r: Result<[u8; 65], String>)
    ensures
        r is Ok <==> p256_point(raw@) is Some,
        r matches Ok(point) ==> p256_point(raw@) == Some(point@),
        r matches Err(e) ==> e@ == unrecognised_point("unrecognised P-256 CKA_EC_POINT"@, raw@),
{
    let n = raw.len();
    if n == 65 && raw[0] == 0x04 {
        assert(raw@.subrange(0, 65) == raw@);
        return Ok(bytes_65(raw, 0));
    }
    if n == 67 && raw[0] == 0x04 && raw[1] == 0x41 && raw[2] == 0x04 {
        return Ok(bytes_65(raw, 2));
    }
    match find_p256_info_point(raw) {
        Some(point) => Ok(point),
        None => Err(unrecognised_point_text("unrecognised P-256 CKA_EC_POINT", raw)),
    }
}

/// The point of a P-256 SubjectPublicKeyInfo, or of a bare point.
pub open spec fn p256_spki_point(der: Seq<u8>) -> Option<Seq<u8>> {
    match p256_info_point(der) {
        Some(point) => Some(point),
        None => if der.len() == 65 && der[0] == 0x04 {
            Some(der)
        } else {
            None
        },
    }
}

/// How a rejected SubjectPublicKeyInfo is reported.
pub open spec fn invalid_spki(what: Seq<char>, der: Seq<u8>) -> Seq<char> {
    what + " SubjectPublicKeyInfo ("@ + decimal(der.len()) + " bytes)"@
}

fn invalid_spki_text(what: &str, der: &[u8]) -> (text: String)
    ensures
        text@ == invalid_spki(what@, der@),
{
    let mut text = String::from_str(what);
    text.append(" SubjectPublicKeyInfo (");
    let len = decimal_text(der.len() as u128);
    text.append(len.as_str());
    text.append(" bytes)");
    text
}

/// Extract the raw 65-byte uncompressed P-256 point from a DER
/// SubjectPublicKeyInfo.
pub fn parse_spki_p256(der: &[u8]) -> (r: Result<[u8; 65], String>)
    ensures
        r is Ok <==> p256_spki_point(der@) is Some,
        r matches Ok(point) ==> p256_spki_point(der@) == Some(point@),
        r matches Err(e) ==> e@ == invalid_spki("not a valid P-256"@, der@),
{
    if let Some(point) = find_p256_info_point(der) {
        return Ok(point);
    }
    if der.len() == 65 && der[0] == 0x04 {
        assert(der@.subrange(0, 65) == der@);
        return Ok(bytes_65(der, 0));
    }
    Err(invalid_spki_text("not a valid P-256", der))
}

/// The DER header of an Ed25519 SubjectPublicKeyInfo as RFC 8410 has it, from
/// the object identifier on.
pub open spec fn is_ed25519_info(der: Seq<u8>) -> bool {
    &&& der.len() == 44
    &&& der[0] == 0x30
    &&& der.subrange(4, 9) == ED25519_OID_DER@
    &&& der.subrange(9, 12) == seq![0x03u8, 0x21u8, 0x00u8]
}

/// The key of an Ed25519 SubjectPublicKeyInfo, or a bare key: the expected
/// layout first, then the first BIT STRING header of the right length, then
/// thirty-two bytes as they are.
pub open spec fn ed25519_spki_key(der: Seq<u8>) -> Option<Seq<u8>> {
    let pos = position_of(der, seq![0x03u8, 0x21u8, 0x00u8]);
    if is_ed25519_info(der) {
        Some(der.subrange(12, 44))
    } else if der.len() > 0 && der[0] == 0x30 && pos is Some && pos->0 + 35 <= der.len() {
        Some(der.subrange(pos->0 + 3, pos->0 + 35))
    } else if der.len() == 32 {
        Some(der)
    } else {
        None
    }
}

fn has_ed25519_info(der: &[u8]) -> (b: bool)
    ensures
        b == is_ed25519_info(der@),
{
    if der.len() != 44 || der[0] != 0x30 {
        return false;
    }
    let ghost oid = der@.subrange(4, 9);
    let ghost bits = der@.subrange(9, 12);
    let found = der[4] == 0x06 && der[5] == 0x03 && der[6] == 0x2b && der[7] == 0x65 && der[8]
        == 0x70 && der[9] == 0x03 && der[10] == 0x21 && der[11] == 0x00;
    proof {
        if found {
            assert(oid =~= ED25519_OID_DER@);
            assert(bits =~= seq![0x03u8, 0x21u8, 0x00u8]);
        } else if is_ed25519_info(der@) {
            assert(oid[0] == 0x06 && oid[1] == 0x03 && oid[2] == 0x2b && oid[3] == 0x65 && oid[4]
                == 0x70);
            assert(bits[0] == 0x03 && bits[1] == 0x21 && bits[2] == 0x00);
        }
    }
    found
}

/// Extract the raw 32-byte Ed25519 key from a DER SubjectPublicKeyInfo.
///
/// Needed because a module may not be able to serve Ed25519 public material
/// through `CKA_EC_POINT`, so the public key is supplied out-of-band.
pub fn parse_spki_ed25519(der: &[u8]) -> (r: Result<[u8; 32], String>)
    ensures
        r is Ok <==> ed25519_spki_key(der@) is Some,
        r matches Ok(key) ==> ed25519_spki_key(der@) == Some(key@),
        r matches Err(e) ==> e@ == invalid_spki("not a valid Ed25519"@, der@),
{
    let n = der.len();
    if has_ed25519_info(der) {
        return Ok(bytes_32(der, 12));
    }
    if n > 0 && der[0] == 0x30 {
        let pattern: [u8; 3] = [0x03, 0x21, 0x00];
        assert(pattern@ == seq![0x03u8, 0x21u8, 0x00u8]);
        if let Some(pos) = find(der, &pattern) {
            if n - pos >= 35 {
                return Ok(bytes_32(der, pos + 3));
            }
        }
    }
    if n == 32 {
        assert(der@.subrange(0, 32) == der@);
        return Ok(bytes_32(der, 0));
    }
    Err(invalid_spki_text("not a valid Ed25519", der))
}

/// Bytes in a DER OCTET STRING with a length of one byte.
pub open spec fn octet_string(bytes: Seq<u8>) -> Seq<u8> {
    seq![0x04u8, bytes.len() as u8] + bytes
}

/// The SubjectPublicKeyInfo of an Ed25519 key.
pub open spec fn ed25519_info(key: Seq<u8>) -> Seq<u8> {
    seq![0x30u8, 0x2a, 0x30, 0x05, 0x06, 0x03, 0x2b, 0x65, 0x70, 0x03, 0x21, 0x00] + key
}

/// The SubjectPublicKeyInfo of an uncompressed P-256 point.
pub open spec fn p256_info(point: Seq<u8>) -> Seq<u8> {
    seq![
        0x30u8,
        0x59,
        0x30,
        0x13,
        0x06,
        0x07,
        0x2a,
        0x86,
        0x48,
        0xce,
        0x3d,
        0x02,
        0x01,
        0x06,
        0x08,
        0x2a,
        0x86,
        0x48,
        0xce,
        0x3d,
        0x03,
        0x01,
        0x07,
        0x03,
        0x42,
        0x00,
    ] + point
}

/// An Ed25519 key is read back from every form it may come in, whatever its
/// bytes are.
pub proof fn law_ed25519_key_is_recovered(key: Seq<u8>)
    requires
        key.len() == 32,
    ensures
        ec_point_key(key) == Some(key),
        ec_point_key(octet_string(key)) == Some(key),
        ec_point_key(ed25519_info(key)) == Some(key),
        ed25519_spki_key(key) == Some(key),
        ed25519_spki_key(ed25519_info(key)) == Some(key),
{
    let wrapped = octet_string(key);
    assert(wrapped.subrange(2, 34) =~= key);
    let info = ed25519_info(key);
    let pattern = seq![0x03u8, 0x21u8];
    assert(info.subrange(9, 11) =~= pattern);
    assert(occurs_at(info, pattern, 9));
    assert forall|j: int| 0 <= j < 9 implies !#[trigger] occurs_at(info, pattern, j) by {
        let part = info.subrange(j, j + 2);
        assert(part[0] == info[j] && part[1] == info[j + 1]);
    }
    lemma_position(info, pattern, 9);
    assert(info.subrange(12, 44) =~= key);
    assert(info.subrange(4, 9) =~= ED25519_OID_DER@);
    assert(info.subrange(9, 12) =~= seq![0x03u8, 0x21u8, 0x00u8]);
}

/// An uncompressed P-256 point is read back from every form it may come in.
pub proof fn law_p256_point_is_recovered(point: Seq<u8>)
    requires
        point.len() == 65,
        point[0] == 0x04,
    ensures
        p256_point(point) == Some(point),
        p256_point(octet_string(point)) == Some(point),
        p256_point(p256_info(point)) == Some(point),
        p256_spki_point(point) == Some(point),
        p256_spki_point(p256_info(point)) == Some(point),
{
    let wrapped = octet_string(point);
    assert(wrapped.subrange(2, 67) =~= point);
    let info = p256_info(point);
    let pattern = seq![0x03u8, 0x42u8, 0x00u8, 0x04u8];
    assert(info.subrange(23, 27) =~= pattern);
    assert(occurs_at(info, pattern, 23));
    assert forall|j: int| 0 <= j < 23 implies !#[trigger] occurs_at(info, pattern, j) by {
        let part = info.subrange(j, j + 4);
        assert(part[0] == info[j] && part[1] == info[j + 1]);
    }
    lemma_position(info, pattern, 23);
    assert(info.subrange(26, 91) =~= point);
}

/// A return value that the standard has a name for here is written by that
/// name; any other, success among them, by its code behind `CKR_0x`.
pub proof fn law_return_values_are_named(rv: u64)
    ensures
        if rv == 0x001 {
            rv_text(rv) == "CKR_CANCEL"@
        } else if rv == 0x002 {
            rv_text(rv) == "CKR_HOST_MEMORY"@
        } else if rv == 0x005 {
            rv_text(rv) == "CKR_GENERAL_ERROR"@
        } else if rv == 0x007 {
            rv_text(rv) == "CKR_ARGUMENTS_BAD"@
        } else if rv == 0x012 {
            rv_text(rv) == "CKR_ATTRIBUTE_TYPE_INVALID"@
        } else if rv == 0x013 {
            rv_text(rv) == "CKR_ATTRIBUTE_VALUE_INVALID"@
        } else if rv == 0x01b {
            rv_text(rv) == "CKR_ACTION_PROHIBITED"@
        } else if rv == 0x030 {
            rv_text(rv) == "CKR_DEVICE_ERROR"@
        } else if rv == 0x032 {
            rv_text(rv) == "CKR_DEVICE_REMOVED"@
        } else if rv == 0x054 {
            rv_text(rv) == "CKR_FUNCTION_NOT_SUPPORTED"@
        } else if rv == 0x060 {
            rv_text(rv) == "CKR_KEY_HANDLE_INVALID"@
        } else if rv == 0x070 {
            rv_text(rv) == "CKR_MECHANISM_INVALID"@
        } else if rv == 0x071 {
            rv_text(rv) == "CKR_MECHANISM_PARAM_INVALID"@
        } else if rv == 0x090 {
            rv_text(rv) == "CKR_OPERATION_ACTIVE"@
        } else if rv == 0x091 {
            rv_text(rv) == "CKR_OPERATION_NOT_INITIALIZED"@
        } else if rv == 0x0a0 {
            rv_text(rv) == "CKR_PIN_INCORRECT"@
        } else if rv == 0x0a1 {
            rv_text(rv) == "CKR_PIN_INVALID"@
        } else if rv == 0x0b0 {
            rv_text(rv) == "CKR_SESSION_CLOSED"@
        } else if rv == 0x0b3 {
            rv_text(rv) == "CKR_SESSION_HANDLE_INVALID"@
        } else if rv == 0x0d0 {
            rv_text(rv) == "CKR_TEMPLATE_INCOMPLETE"@
        } else if rv == 0x0d1 {
            rv_text(rv) == "CKR_TEMPLATE_INCONSISTENT"@
        } else if rv == 0x0e0 {
            rv_text(rv) == "CKR_TOKEN_NOT_PRESENT"@
        } else if rv == 0x100 {
            rv_text(rv) == "CKR_USER_ALREADY_LOGGED_IN"@
        } else if rv == 0x101 {
            rv_text(rv) == "CKR_USER_NOT_LOGGED_IN"@
        } else if rv == 0x150 {
            rv_text(rv) == "CKR_BUFFER_TOO_SMALL"@
        } else {
            rv_text(rv) == "CKR_0x"@ + hex_at_least_8(rv as nat)
        },
{
}

/// A failed call is reported with the call's name first and the return value
/// last.
pub proof fn law_failures_name_call_and_value(rv: u64, op: Seq<char>)
    ensures
        (op + " failed: "@).is_prefix_of(failure_text(rv, op)),
        (" failed: "@ + rv_text(rv)).is_suffix_of(failure_text(rv, op)),
        failure_text(rv, op).len() == op.len() + " failed: "@.len() + rv_text(rv).len(),
{
    let text = failure_text(rv, op);
    let front = op + " failed: "@;
    let back = " failed: "@ + rv_text(rv);
    assert(front =~= text.subrange(0, front.len() as int));
    assert(back =~= text.subrange(text.len() - back.len(), text.len() as int));
}

/// What is cut off a padded text is white space, and what is left does not end
/// in any.
pub proof fn law_only_white_space_is_trimmed(text: Seq<char>, i: int)
    ensures
        trimmed_end(text).len() <= text.len(),
        trimmed_end(text) == text.take(trimmed_end(text).len() as int),
        trimmed_end(text).len() > 0 ==> !white_space(trimmed_end(text).last()),
        trimmed_end(text).len() <= i < text.len() ==> white_space(text[i]),
    decreases text.len(),
{
    if text.len() > 0 && white_space(text.last()) {
        law_only_white_space_is_trimmed(text.drop_last(), i);
        let kept = trimmed_end(text.drop_last());
        assert(text.drop_last().take(kept.len() as int) =~= text.take(kept.len() as int));
    } else {
        assert(text.take(text.len() as int) =~= text);
    }
}

/// White space is the blank, the control characters from the tab to the
/// carriage return, and beyond ASCII the next line, the no-break spaces, the
/// spaces of given widths, the separators of lines and paragraphs and the
/// ideographic space; no letter, digit or mark is.
pub proof fn law_white_space(c: char)
    ensures
        c as u32 <= 0x7f ==> (white_space(c) <==> c == ' ' || c == '\t' || c == '\n' || c == '\r'
            || c as u32 == 0x0b || c as u32 == 0x0c),
        c as u32 > 0x7f ==> (white_space(c) <==> seq![
            0x85u32,
            0xa0,
            0x1680,
            0x2000,
            0x2001,
            0x2002,
            0x2003,
            0x2004,
            0x2005,
            0x2006,
            0x2007,
            0x2008,
            0x2009,
            0x200a,
            0x2028,
            0x2029,
            0x202f,
            0x205f,
            0x3000,
        ].contains(c as u32)),
{
    let wide = seq![
        0x85u32,
        0xa0,
        0x1680,
        0x2000,
        0x2001,
        0x2002,
        0x2003,
        0x2004,
        0x2005,
        0x2006,
        0x2007,
        0x2008,
        0x2009,
        0x200a,
        0x2028,
        0x2029,
        0x202f,
        0x205f,
        0x3000,
    ];
    if c as u32 > 0x7f && white_space(c) {
        let k: int = if c as u32 == 0x85 {
            0
        } else if c as u32 == 0xa0 {
            1
        } else if c as u32 == 0x1680 {
            2
        } else if c as u32 <= 0x200a {
            3 + (c as u32 - 0x2000)
        } else if c as u32 == 0x2028 {
            14
        } else if c as u32 == 0x2029 {
            15
        } else if c as u32 == 0x202f {
            16
        } else if c as u32 == 0x205f {
            17
        } else {
            18
        };
        assert(wide[k] == c as u32);
    }
}

/// Whether the bytes of `pattern` stand in `bytes` from `i` on.
pub open spec fn matches_at(bytes: Seq<u8>, pattern: Seq<u8>, i: int) -> bool {
    0 <= i <= bytes.len() - pattern.len() && forall|k: int|
        0 <= k < pattern.len() ==> #[trigger] bytes[i + k] == pattern[k]
}

proof fn lemma_matches(bytes: Seq<u8>, pattern: Seq<u8>, i: int)
    ensures
        matches_at(bytes, pattern, i) <==> occurs_at(bytes, pattern, i),
{
    if matches_at(bytes, pattern, i) {
        let part = bytes.subrange(i, i + pattern.len());
        assert forall|k: int| 0 <= k < pattern.len() implies #[trigger] part[k] == pattern[k] by {
            assert(bytes[i + k] == pattern[k]);
        }
        assert(part =~= pattern);
    }
    if occurs_at(bytes, pattern, i) {
        let part = bytes.subrange(i, i + pattern.len());
        assert forall|k: int| 0 <= k < pattern.len() implies #[trigger] bytes[i + k]
            == pattern[k] by {
            assert(part[k] == bytes[i + k]);
        }
    }
}

/// What is found is the first place at which every byte of the pattern stands,
/// if there is one.
pub proof fn law_position_is_the_first(bytes: Seq<u8>, pattern: Seq<u8>, i: int)
    ensures
        position_of(bytes, pattern) == Some(i) <==> matches_at(bytes, pattern, i) && forall|j: int|
            0 <= j < i ==> !#[trigger] matches_at(bytes, pattern, j),
        position_of(bytes, pattern) is None ==> !matches_at(bytes, pattern, i),
{
    assert forall|j: int| #[trigger]
        matches_at(bytes, pattern, j) <==> occurs_at(bytes, pattern, j) by {
        lemma_matches(bytes, pattern, j);
    }
    if matches_at(bytes, pattern, i) && forall|j: int|
        0 <= j < i ==> !#[trigger] matches_at(bytes, pattern, j) {
        assert forall|j: int| 0 <= j < i implies !#[trigger] occurs_at(bytes, pattern, j) by {
            assert(!matches_at(bytes, pattern, j));
        }
        lemma_position(bytes, pattern, i);
    }
    if position_of(bytes, pattern) == Some(i) {
        assert(occurs_first_at(bytes, pattern, i));
        assert forall|j: int| 0 <= j < i implies !#[trigger] matches_at(bytes, pattern, j) by {
            assert(!occurs_at(bytes, pattern, j));
        }
    }
    if matches_at(bytes, pattern, i) {
        lemma_first_exists(bytes, pattern, i);
    }
}

proof fn lemma_first_exists(bytes: Seq<u8>, pattern: Seq<u8>, i: int)
    requires
        occurs_at(bytes, pattern, i),
    ensures
        position_of(bytes, pattern) is Some,
    decreases i,
{
    if exists|j: int| 0 <= j < i && occurs_at(bytes, pattern, j) {
        let j = choose|j: int| 0 <= j < i && occurs_at(bytes, pattern, j);
        lemma_first_exists(bytes, pattern, j);
    } else {
        assert(occurs_first_at(bytes, pattern, i));
    }
}

/// The points that carry an Ed25519 key and no others: bare, it is the whole;
/// behind the header of an OCTET STRING, the rest; in a SubjectPublicKeyInfo of
/// its length, the bytes behind the first header of a BIT STRING of its length.
pub proof fn law_ed25519_points(raw: Seq<u8>, i: int)
    ensures
        raw.len() != 32 && raw.len() != 34 && raw.len() != 44 ==> ec_point_key(raw) is None,
        raw.len() == 32 ==> ec_point_key(raw) == Some(raw),
        raw.len() == 34 && raw[0] == 0x04 && raw[1] == 0x20 ==> ec_point_key(raw) == Some(
            raw.skip(2),
        ),
        raw.len() == 34 && (raw[0] != 0x04 || raw[1] != 0x20) ==> ec_point_key(raw) is None,
        raw.len() == 44 && raw[0] != 0x30 ==> ec_point_key(raw) is None,
        raw.len() == 44 && position_of(raw, seq![0x03u8, 0x21]) is None ==> ec_point_key(
            raw,
        ) is None,
        raw.len() == 44 && raw[0] == 0x30 && position_of(raw, seq![0x03u8, 0x21]) == Some(i) && i
            <= 9 ==> (ec_point_key(raw) matches Some(key) && key.len() == 32 && forall|k: int|
            0 <= k < 32 ==> #[trigger] key[k] == raw[i + 3 + k]),
        raw.len() == 44 && position_of(raw, seq![0x03u8, 0x21]) == Some(i) && i > 9
            ==> ec_point_key(raw) is None,
{
    if raw.len() == 34 {
        assert(raw.subrange(2, 34) =~= raw.skip(2));
    }
}

/// The points that carry a P-256 point and no others, in the same three forms.
pub proof fn law_p256_points(raw: Seq<u8>, i: int)
    ensures
        raw.len() == 65 && raw[0] == 0x04 ==> p256_point(raw) == Some(raw),
        raw.len() == 67 && raw[0] == 0x04 && raw[1] == 0x41 && raw[2] == 0x04 ==> p256_point(raw)
            == Some(raw.skip(2)),
        p256_point(raw) is Some && raw[0] != 0x30 ==> raw[0] == 0x04 && (raw.len() == 65 || (
        raw.len() == 67 && raw[1] == 0x41 && raw[2] == 0x04)),
        p256_spki_point(raw) is Some && raw[0] != 0x30 ==> raw[0] == 0x04 && raw.len() == 65,
        raw.len() == 65 && raw[0] == 0x04 ==> p256_spki_point(raw) == Some(raw),
        raw.len() == 0 ==> p256_point(raw) is None && p256_spki_point(raw) is None,
        raw.len() > 0 && raw[0] == 0x30 ==> ({
            let position = position_of(raw, seq![0x03u8, 0x42, 0x00, 0x04]);
            &&& p256_point(raw) == p256_spki_point(raw)
            &&& position is None ==> p256_point(raw) is None
            &&& position == Some(i) && i + 68 > raw.len() ==> p256_point(raw) is None
            &&& position == Some(i) && i + 68 <= raw.len() ==> (p256_point(raw) matches Some(point)
                && point.len() == 65 && forall|k: int|
                0 <= k < 65 ==> #[trigger] point[k] == raw[i + 3 + k])
        }),
{
    if raw.len() == 67 {
        assert(raw.subrange(2, 67) =~= raw.skip(2));
    }
}

/// The supplied encodings that carry an Ed25519 key and no others: the
/// SubjectPublicKeyInfo as the standard lays it out, any other sequence with
/// the header of a BIT STRING of the key's length, and the bare key.
pub proof fn law_ed25519_encodings(der: Seq<u8>, i: int)
    ensures
        der.len() == 32 && der[0] != 0x30 ==> ed25519_spki_key(der) == Some(der),
        der.len() != 32 && (der.len() == 0 || der[0] != 0x30) ==> ed25519_spki_key(der) is None,
        der.len() > 0 && der[0] == 0x30 && !is_ed25519_info(der) ==> ({
            let position = position_of(der, seq![0x03u8, 0x21, 0x00]);
            let bare = if der.len() == 32 {
                Some(der)
            } else {
                None
            };
            &&& position is None ==> ed25519_spki_key(der) == bare
            &&& position == Some(i) && i + 35 > der.len() ==> ed25519_spki_key(der) == bare
            &&& position == Some(i) && i + 35 <= der.len() ==> (ed25519_spki_key(der) matches Some(
                key,
            ) && key.len() == 32 && forall|k: int|
                0 <= k < 32 ==> #[trigger] key[k] == der[i + 3 + k])
        }),
        is_ed25519_info(der) ==> (ed25519_spki_key(der) matches Some(key) && key.len() == 32
            && forall|k: int| 0 <= k < 32 ==> #[trigger] key[k] == der[12 + k]),
        is_ed25519_info(der) <==> {
            &&& der.len() == 44
            &&& der[0] == 0x30
            &&& der[4] == 0x06 && der[5] == 0x03 && der[6] == 0x2b && der[7] == 0x65 && der[8]
                == 0x70
            &&& der[9] == 0x03 && der[10] == 0x21 && der[11] == 0x00
        },
{
    if der.len() == 44 {
        let oid = der.subrange(4, 9);
        let bits = der.subrange(9, 12);
        assert(oid[0] == der[4] && oid[1] == der[5] && oid[2] == der[6] && oid[3] == der[7]
            && oid[4] == der[8]);
        assert(bits[0] == der[9] && bits[1] == der[10] && bits[2] == der[11]);
        let want = ED25519_OID_DER@;
        assert(want.len() == 5 && want[0] == 0x06 && want[1] == 0x03 && want[2] == 0x2b && want[3]
            == 0x65 && want[4] == 0x70);
        if der[4] == 0x06 && der[5] == 0x03 && der[6] == 0x2b && der[7] == 0x65 && der[8] == 0x70 {
            assert(oid =~= want);
        }
        if der[9] == 0x03 && der[10] == 0x21 && der[11] == 0x00 {
            assert(bits =~= seq![0x03u8, 0x21, 0x00]);
        }
        let header = seq![0x03u8, 0x21u8, 0x00u8];
        assert(header[0] == 0x03 && header[1] == 0x21 && header[2] == 0x00);
    }
}

/// A rejected encoding is reported with its length, a rejected point with its
/// bytes too.
pub proof fn law_rejections_show_what_came(what: Seq<char>, raw: Seq<u8>)
    ensures
        what.is_prefix_of(unrecognised_point(what, raw)),
        hex_bytes(raw).is_suffix_of(unrecognised_point(what, raw)),
        shows(unrecognised_point(what, raw), " encoding ("@ + decimal(raw.len()) + " bytes): "@),
        what.is_prefix_of(invalid_spki(what, raw)),
        shows(
            invalid_spki(what, raw),
            " SubjectPublicKeyInfo ("@ + decimal(raw.len()) + " bytes)"@,
        ),
        unrecognised_point(what, raw).len() == what.len() + " encoding ("@.len() + decimal(
            raw.len(),
        ).len() + " bytes): "@.len() + hex_bytes(raw).len(),
        invalid_spki(what, raw).len() == what.len() + " SubjectPublicKeyInfo ("@.len() + decimal(
            raw.len(),
        ).len() + " bytes)"@.len(),
{
    lemma_sandwich(what, " encoding ("@, decimal(raw.len()), " bytes): "@, hex_bytes(raw));
    lemma_sandwich(
        what,
        " SubjectPublicKeyInfo ("@,
        decimal(raw.len()),
        " bytes)"@,
        Seq::empty(),
    );
    assert(invalid_spki(what, raw) + Seq::<char>::empty() =~= invalid_spki(what, raw));
}

proof fn lemma_sandwich(
    a: Seq<char>,
    b: Seq<char>,
    c: Seq<char>,
    d: Seq<char>,
    e: Seq<char>,
)
    ensures
        a.is_prefix_of(a + b + c + d + e),
        e.is_suffix_of(a + b + c + d + e),
        shows(a + b + c + d + e, b + c + d),
{
    let whole = a + b + c + d + e;
    assert(a =~= whole.subrange(0, a.len() as int));
    assert(e =~= whole.subrange(whole.len() - e.len(), whole.len() as int));
    lemma_shows(a, b + c + d, e);
    assert(whole =~= a + (b + c + d) + e);
}

/// What is handed over to be signed is the message itself on Ed25519, the
/// SHA-256 digest of it on P-256. Only Ed25519 signs in one call.
pub proof fn law_what_is_signed(curve: Curve, message: Seq<u8>)
    ensures
        curve == Curve::Ed25519 ==> signing_input_of(curve, message) == message,
        curve == Curve::P256 ==> signing_input_of(curve, message) == sha256(message),
        curve.one_shot() <==> curve != Curve::P256,
        curve == Curve::Ed25519 ==> curve.signature_bound() == 64,
        curve == Curve::P256 ==> curve.signature_bound() == 2 + 2 * (2 + 33),
{
}

/// The codes are those of the standard.
pub proof fn law_codes_are_the_standards()
    ensures
        CKR_OK == 0,
        CKM_EC_KEY_PAIR_GEN == 0x1040,
        CKM_ECDSA == 0x1041,
        CKM_EC_EDWARDS_KEY_PAIR_GEN == 0x1055,
        CKM_EDDSA == 0x1057,
        CKA_CLASS == 0,
        CKA_TOKEN == 1,
        CKA_PRIVATE == 2,
        CKA_LABEL == 3,
        CKA_ID == 0x102,
        CKA_SENSITIVE == 0x103,
        CKA_SIGN == 0x108,
        CKA_VERIFY == 0x10a,
        CKA_EC_PARAMS == 0x180,
        CKA_EC_POINT == 0x181,
        CKO_PUBLIC_KEY == 2,
        CKO_PRIVATE_KEY == 3,
        CK_UNAVAILABLE_INFORMATION == u64::MAX,
        Curve::Ed25519.params() == seq![0x06u8, 0x03, 0x2b, 0x65, 0x70],
        Curve::P256.params() == seq![
            0x06u8,
            0x08,
            0x2a,
            0x86,
            0x48,
            0xce,
            0x3d,
            0x03,
            0x01,
            0x07,
        ],
{
    assert(ED25519_OID_DER@ =~= seq![0x06u8, 0x03, 0x2b, 0x65, 0x70]);
    assert(P256_OID_DER@ =~= seq![
        0x06u8,
        0x08,
        0x2a,
        0x86,
        0x48,
        0xce,
        0x3d,
        0x03,
        0x01,
        0x07,
    ]);
}

/// An entry of a template stands for its kind and its value.
pub proof fn law_templates_stand_for_their_entries(template: Seq<Attribute>, i: int)
    requires
        0 <= i < template.len(),
    ensures
        template_view(template).len() == template.len(),
        template_view(template)[i].0 == template[i].kind,
        template[i].value is True <==> template_view(template)[i].1 is True,
        template[i].value matches AttributeValue::Class(c) ==> template_view(template)[i].1
            == AttributeModel::Class(c),
        template[i].value matches AttributeValue::Bytes(b) ==> template_view(template)[i].1
            == AttributeModel::Bytes(b@),
{
}

/// The name of a curve's mechanism begins with that of the mechanism which signs
/// on it.
pub proof fn law_mechanism_is_that_of_the_curve(curve: Curve)
    ensures
        curve == Curve::Ed25519 ==> "CKM_EDDSA ("@.is_prefix_of(curve.spec_mechanism_name()),
        curve == Curve::P256 ==> "CKM_ECDSA ("@.is_prefix_of(curve.spec_mechanism_name()),
{
    reveal_strlit("CKM_EDDSA (");
    reveal_strlit("CKM_ECDSA (");
    reveal_strlit("CKM_EDDSA (Ed25519, pure)");
    reveal_strlit("CKM_ECDSA (P-256, DER-encoded, over SHA-256 digest)");
    let name = curve.spec_mechanism_name();
    match curve {
        Curve::Ed25519 => {
            assert("CKM_EDDSA ("@ =~= name.subrange(0, 11));
        },
        Curve::P256 => {
            assert("CKM_ECDSA ("@ =~= name.subrange(0, 11));
        },
    }
}

} // verus!
