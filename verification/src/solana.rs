//! Minimal Solana transfer transaction construction.
//!
//! Only what is needed to produce the exact bytes that get signed: a legacy
//! message containing a single System Program transfer instruction. The
//! signed payload is the serialized message, with no pre-hashing — Ed25519
//! over Solana is signed natively.

use crate::text::{decimal, decimal_text};
use vstd::prelude::*;
use vstd::string::StringExecFns;

verus! {

/// The System Program address, `11111111111111111111111111111111`.
pub const SYSTEM_PROGRAM_ID: [u8; 32] = [
    0, 0, 0, 0, 0, 0, 0, 0, 0, 0, 0, 0, 0, 0, 0, 0, 0, 0, 0, 0, 0, 0, 0, 0, 0, 0, 0, 0, 0, 0, 0, 0,
];

/// System Program instruction index for `Transfer`.
pub const INSTRUCTION_TRANSFER: u32 = 2;

#[derive(Debug, Clone)]
pub struct Transfer {
    pub from: [u8; 32],
    pub to: [u8; 32],
    pub lamports: u64,
    pub recent_blockhash: [u8; 32],
}

/// The last `width` bytes of `n`, least significant first.
pub open spec fn little_endian(n: nat, width: nat) -> Seq<u8>
    decreases width,
{
    if width == 0 {
        Seq::empty()
    } else {
        seq![(n % 256) as u8] + little_endian(n / 256, (width - 1) as nat)
    }
}

/// Solana's ShortVec encoding of a length: seven bits per byte, least
/// significant first, the top bit set on all bytes but the last.
pub open spec fn compact_u16(value: nat) -> Seq<u8>
    decreases value,
{
    if value < 128 {
        seq![value as u8]
    } else {
        seq![(128 + value % 128) as u8] + compact_u16(value / 128)
    }
}

/// The length that a ShortVec prefix encodes, and how many bytes it takes.
pub open spec fn read_compact(bytes: Seq<u8>) -> Option<(nat, nat)>
    decreases bytes.len(),
{
    if bytes.len() == 0 {
        None
    } else if bytes[0] < 128 {
        Some((bytes[0] as nat, 1))
    } else {
        match read_compact(bytes.drop_first()) {
            Some((rest, used)) => Some(((bytes[0] - 128) as nat + 128 * rest, used + 1)),
            None => None,
        }
    }
}

/// The serialized legacy message of a transfer.
pub open spec fn message_of(transfer: Transfer) -> Seq<u8> {
    message_for(transfer.from@, transfer.to@, transfer.lamports, transfer.recent_blockhash@)
}

/// The serialized legacy message of a transfer between two accounts.
pub open spec fn message_for(
    from: Seq<u8>,
    to: Seq<u8>,
    lamports: u64,
    recent_blockhash: Seq<u8>,
) -> Seq<u8> {
    // One required signature, no readonly signed account, one readonly
    // unsigned account: the System Program.
    seq![1u8, 0u8, 1u8]
    // The accounts.
     + compact_u16(3) + from + to + SYSTEM_PROGRAM_ID@
        + recent_blockhash
    // One instruction: the program, its two accounts, twelve bytes of data.
     + compact_u16(1) + seq![2u8] + compact_u16(2) + seq![0u8, 1u8] + compact_u16(12)
        + little_endian(INSTRUCTION_TRANSFER as nat, 4) + little_endian(lamports as nat, 8)
}

/// The full wire transaction: signature count, signature, then message.
pub open spec fn wire_of(transfer: Transfer, signature: Seq<u8>) -> Seq<u8> {
    compact_u16(1) + signature + message_of(transfer)
}

/// Append the last `width` bytes of `n`, least significant first.
pub fn push_little_endian(out: &mut Vec<u8>, n: u64, width: usize)
    ensures
        final(out)@ == old(out)@ + little_endian(n as nat, width as nat),
{
    let mut rest = n;
    let mut i: usize = 0;
    while i < width
        invariant
            i <= width,
            old(out)@ + little_endian(n as nat, width as nat) == out@ + little_endian(
                rest as nat,
                (width - i) as nat,
            ),
        decreases width - i,
    {
        let ghost before = out@;
        let byte: u8 = (rest % 256) as u8;
        out.push(byte);
        assert(before + little_endian(rest as nat, (width - i) as nat) =~= out@ + little_endian(
            rest as nat / 256,
            (width - i - 1) as nat,
        ));
        rest = rest / 256;
        i = i + 1;
    }
    assert(out@ + little_endian(rest as nat, 0) =~= out@);
}

/// Solana's ShortVec length prefix.
pub fn push_compact_u16(out: &mut Vec<u8>, value: u16)
    ensures
        final(out)@ == old(out)@ + compact_u16(value as nat),
{
    let mut rest = value;
    while rest >= 128
        invariant
            old(out)@ + compact_u16(value as nat) == out@ + compact_u16(rest as nat),
        decreases rest,
    {
        let ghost before = out@;
        let byte: u8 = (128 + rest % 128) as u8;
        out.push(byte);
        assert(before + compact_u16(rest as nat) =~= out@ + compact_u16(rest as nat / 128));
        rest = rest / 128;
    }
    let ghost before = out@;
    out.push(rest as u8);
    assert(out@ =~= before + compact_u16(rest as nat));
}

fn push_bytes(out: &mut Vec<u8>, bytes: &[u8])
    ensures
        final(out)@ == old(out)@ + bytes@,
{
    out.extend_from_slice(bytes);
    assert(out@ =~= old(out)@ + bytes@);
}

impl Transfer {
    /// Serialize the legacy message. These are the bytes that get signed.
    ///
    /// The length is constant for a given account set, which matters for the
    /// benchmark: varying only the blockhash keeps every payload unique
    /// without changing its size.
    pub fn message_bytes(&self) -> (bytes: Vec<u8>)
        ensures
            bytes@ == message_of(*self),
            bytes@.len() == 150,
    {
        let mut out: Vec<u8> = Vec::with_capacity(160);

        // Message header: 1 required signature, 0 readonly signed accounts,
        // 1 readonly unsigned account (the System Program).
        out.push(1);
        out.push(0);
        out.push(1);
        assert(out@ =~= seq![1u8, 0u8, 1u8]);

        // Account keys, ordered: writable signer, writable, readonly program.
        push_compact_u16(&mut out, 3);
        push_bytes(&mut out, &self.from);
        push_bytes(&mut out, &self.to);
        push_bytes(&mut out, &SYSTEM_PROGRAM_ID);

        push_bytes(&mut out, &self.recent_blockhash);

        // A single instruction.
        push_compact_u16(&mut out, 1);
        push_bytes(&mut out, &[2]);  // program id index -> System Program
        push_compact_u16(&mut out, 2);  // account indices
        push_bytes(&mut out, &[0, 1]);
        push_compact_u16(&mut out, 12);  // instruction data length
        push_little_endian(&mut out, INSTRUCTION_TRANSFER as u64, 4);
        push_little_endian(&mut out, self.lamports, 8);
        proof {
            law_message_length(*self);
        }
        out
    }

    /// The full wire transaction: signature count, signature, then message.
    ///
    /// Solana wire format expects a fixed 64-byte Ed25519 signature per
    /// signer. A `CKM_ECDSA` (P-256) signature is DER-encoded and
    /// variable-length, so it does not fit that slot; callers benchmarking
    /// P-256 get a byte stream of the same shape (count-prefixed signature
    /// + message) but not a valid, broadcastable Solana transaction. This
    /// tool never broadcasts, so only the payload shape/size matters here.
    pub fn to_wire(&self, signature: &[u8]) -> (wire: Vec<u8>)
        ensures
            wire@ == wire_of(*self, signature@),
            wire@.len() == 151 + signature@.len(),
    {
        let message = self.message_bytes();
        let mut out: Vec<u8> = Vec::new();
        push_compact_u16(&mut out, 1);
        assert(out@ =~= compact_u16(1));
        push_bytes(&mut out, signature);
        push_bytes(&mut out, message.as_slice());
        out
    }
}

/// What `bs58::decode` makes of a text: the bytes, or the words of its error.
pub uninterp spec fn base58_decoded(text: Seq<char>) -> Result<Seq<u8>, Seq<char>>;

/// What `bs58::encode` writes for given bytes.
pub uninterp spec fn base58_encoded(bytes: Seq<u8>) -> Seq<char>;

/// Decoded bytes or an error's words, as sequences.
pub open spec fn bytes_or_text(r: Result<Vec<u8>, String>) -> Result<Seq<u8>, Seq<char>> {
    match r {
        Ok(bytes) => Ok(bytes@),
        Err(text) => Err(text@),
    }
}

/// An address or an error's words, as sequences.
pub open spec fn key_or_text(r: Result<[u8; 32], String>) -> Result<Seq<u8>, Seq<char>> {
    match r {
        Ok(key) => Ok(key@),
        Err(text) => Err(text@),
    }
}

/// A decoding that succeeded with these bytes.
pub open spec fn decoded_to(bytes: Seq<u8>) -> Result<Seq<u8>, Seq<char>> {
    Ok(bytes)
}

/// Whether a text decodes to bytes exactly where it is what they are encoded
/// as, for bytes up to the length that can be encoded here.
pub open spec fn decodes_only_encodings(
    text: Seq<char>,
    decoded: Result<Seq<u8>, Seq<char>>,
) -> bool {
    forall|bytes: Seq<u8>|
        #![trigger base58_encoded(bytes)]
        #![trigger decoded_to(bytes)]
        bytes.len() <= 0x100_0000 ==> (decoded == decoded_to(bytes) <==> text == base58_encoded(
            bytes,
        ))
}

/// `bs58::decode(..).into_vec()` with the default alphabet: the decoded bytes,
/// or the error as it prints itself. A text stands for one sequence of bytes
/// only, and each sequence for one text: the leading ones count the leading
/// zeros, and the rest is a number without leading zeros either way.
#[verifier::external_body]
fn decode_base58(text: &str) -> (r: Result<Vec<u8>, String>)
    ensures
        bytes_or_text(r) == base58_decoded(text@),
        decodes_only_encodings(text@, bytes_or_text(r)),
{
    bs58::decode(text).into_vec().map_err(|e| e.to_string())
}

/// `bs58::encode(..).into_string()` with the default alphabet: the encoded
/// text, which decodes to the same bytes. Longer inputs are left out, as the
/// call sizes its buffer by a sum that could overflow.
#[verifier::external_body]
pub(crate) fn encode_base58(bytes: &[u8]) -> (text: String)
    requires
        bytes@.len() <= 0x100_0000,
    ensures
        text@ == base58_encoded(bytes@),
        base58_decoded(text@) == decoded_to(bytes@),
{
    bs58::encode(bytes).into_string()
}

/// The address that a text stands for, or why it is none, given what decoding
/// it gave.
pub open spec fn pubkey_of(decoded: Result<Seq<u8>, Seq<char>>) -> Result<Seq<u8>, Seq<char>> {
    match decoded {
        Err(e) => Err("invalid base58 public key: "@ + e),
        Ok(bytes) => if bytes.len() == 32 {
            Ok(bytes)
        } else {
            Err("public key must decode to 32 bytes, got "@ + decimal(bytes.len()))
        },
    }
}

/// An address from what base58 decoding gave.
pub fn pubkey_from_decoded(decoded: Result<Vec<u8>, String>) -> (r: Result<[u8; 32], String>)
    ensures
        key_or_text(r) == pubkey_of(bytes_or_text(decoded)),
{
    match decoded {
        Err(e) => {
            let mut text = String::from_str("invalid base58 public key: ");
            text.append(e.as_str());
            Err(text)
        },
        Ok(bytes) => {
            let n = bytes.len();
            if n != 32 {
                let mut text = String::from_str("public key must decode to 32 bytes, got ");
                let len = decimal_text(n as u128);
                text.append(len.as_str());
                return Err(text);
            }
            let mut key: [u8; 32] = [0;32];
            let mut i: usize = 0;
            while i < 32
                invariant
                    i <= 32,
                    bytes@.len() == 32,
                    key@.take(i as int) == bytes@.take(i as int),
                decreases 32 - i,
            {
                key[i] = bytes[i];
                i = i + 1;
            }
            assert(key@.take(32) == key@);
            assert(bytes@.take(32) == bytes@);
            Ok(key)
        },
    }
}

/// An address from its base58 text. A text gives an address exactly where it
/// is what `encode_pubkey` writes for that address.
pub fn decode_pubkey(encoded: &str) -> (r: Result<[u8; 32], String>)
    ensures
        key_or_text(r) == pubkey_of(base58_decoded(encoded@)),
        forall|key: Seq<u8>|
            #![trigger base58_encoded(key)]
            #![trigger decoded_to(key)]
            key.len() == 32 ==> (key_or_text(r) == decoded_to(key) <==> encoded@ == base58_encoded(
                key,
            )),
        r matches Ok(key) ==> encoded@ == base58_encoded(key@),
{
    let decoded = decode_base58(encoded);
    let ghost named = bytes_or_text(decoded);
    let r = pubkey_from_decoded(decoded);
    proof {
        if let Ok(key) = r {
            assert(decoded_to(key@) == named);
        }
        assert forall|key: Seq<u8>| key.len() == 32 implies (key_or_text(r) == decoded_to(key)
            <==> encoded@ == #[trigger] base58_encoded(key)) by {
            assert(named == decoded_to(key) <==> encoded@ == base58_encoded(key));
        }
    }
    r
}

/// The base58 text of an address, from which `decode_pubkey` gives the address
/// back.
pub fn encode_pubkey(key: &[u8; 32]) -> (text: String)
    ensures
        text@ == base58_encoded(key@),
        pubkey_of(base58_decoded(text@)) == decoded_to(key@),
{
    encode_base58(key)
}

/// The bytes of a number are as many as asked for.
pub proof fn lemma_little_endian_len(n: nat, width: nat)
    ensures
        little_endian(n, width).len() == width,
    decreases width,
{
    if width > 0 {
        lemma_little_endian_len(n / 256, (width - 1) as nat);
    }
}

pub open spec fn pow256(width: nat) -> nat
    decreases width,
{
    if width == 0 {
        1
    } else {
        256 * pow256((width - 1) as nat)
    }
}

/// Numbers that fit the width and have the same bytes are the same.
pub proof fn law_little_endian_injective(a: nat, b: nat, width: nat)
    requires
        a < pow256(width),
        b < pow256(width),
        little_endian(a, width) == little_endian(b, width),
    ensures
        a == b,
    decreases width,
{
    if width > 0 {
        let w = (width - 1) as nat;
        let (x, y) = (little_endian(a, width), little_endian(b, width));
        assert(x[0] == (a % 256) as u8 && y[0] == (b % 256) as u8);
        assert(x.drop_first() =~= little_endian(a / 256, w));
        assert(y.drop_first() =~= little_endian(b / 256, w));
        law_little_endian_injective(a / 256, b / 256, w);
    }
}

/// A ShortVec prefix is read back as the length that it was written for,
/// whatever follows it.
pub proof fn law_compact_reads_back(value: nat, rest: Seq<u8>)
    ensures
        read_compact(compact_u16(value) + rest) == Some((value, compact_u16(value).len())),
    decreases value,
{
    let all = compact_u16(value) + rest;
    if value >= 128 {
        law_compact_reads_back(value / 128, rest);
        assert(all.drop_first() =~= compact_u16(value / 128) + rest);
    }
}

/// A ShortVec prefix of a sixteen-bit length takes one to three bytes.
pub proof fn law_compact_length(value: u16)
    ensures
        compact_u16(value as nat).len() == (if value < 128 {
            1nat
        } else if value < 16384 {
            2
        } else {
            3
        }),
{
    reveal_with_fuel(compact_u16, 3);
}

/// Every transfer message is 150 bytes long.
pub proof fn law_message_length(transfer: Transfer)
    ensures
        message_of(transfer).len() == 150,
{
    lemma_little_endian_len(INSTRUCTION_TRANSFER as nat, 4);
    lemma_little_endian_len(transfer.lamports as nat, 8);
}

/// Transfers with the same message agree in all they hold; so two that differ
/// in their blockhash alone have different messages of the same length.
pub proof fn law_message_injective(a: Transfer, b: Transfer)
    requires
        message_of(a) == message_of(b),
    ensures
        a.from@ == b.from@,
        a.to@ == b.to@,
        a.recent_blockhash@ == b.recent_blockhash@,
        a.lamports == b.lamports,
{
    let (x, y) = (message_of(a), message_of(b));
    lemma_message_parts(a);
    lemma_message_parts(b);
    reveal_with_fuel(pow256, 9);
    law_little_endian_injective(a.lamports as nat, b.lamports as nat, 8);
}

proof fn lemma_message_parts(t: Transfer)
    ensures
        message_of(t).subrange(4, 36) == t.from@,
        message_of(t).subrange(36, 68) == t.to@,
        message_of(t).subrange(100, 132) == t.recent_blockhash@,
        message_of(t).subrange(142, 150) == little_endian(t.lamports as nat, 8),
{
    lemma_little_endian_len(INSTRUCTION_TRANSFER as nat, 4);
    lemma_little_endian_len(t.lamports as nat, 8);
    let m = message_of(t);
    assert(m.subrange(4, 36) =~= t.from@);
    assert(m.subrange(36, 68) =~= t.to@);
    assert(m.subrange(100, 132) =~= t.recent_blockhash@);
    assert(m.subrange(142, 150) =~= little_endian(t.lamports as nat, 8));
}

/// A wire transaction starts with the signature count, and the signature and
/// the message can be cut out of it.
pub proof fn law_wire_parts(transfer: Transfer, signature: Seq<u8>)
    ensures
        wire_of(transfer, signature)[0] == 1,
        wire_of(transfer, signature).subrange(1, 1 + signature.len() as int) == signature,
        wire_of(transfer, signature).skip(1 + signature.len() as int) == message_of(transfer),
{
    let wire = wire_of(transfer, signature);
    assert(wire.subrange(1, 1 + signature.len() as int) =~= signature);
    assert(wire.skip(1 + signature.len() as int) =~= message_of(transfer));
}

/// The number that bytes stand for, least significant first.
pub open spec fn from_little_endian(bytes: Seq<u8>) -> nat
    decreases bytes.len(),
{
    if bytes.len() == 0 {
        0
    } else {
        bytes[0] as nat + 256 * from_little_endian(bytes.drop_first())
    }
}

/// Bytes of a number read back as the number, as far as they can hold it, and
/// are as many as asked for.
pub proof fn law_little_endian_reads_back(n: nat, width: nat)
    ensures
        little_endian(n, width).len() == width,
        n < pow256(width) ==> from_little_endian(little_endian(n, width)) == n,
    decreases width,
{
    lemma_little_endian_len(n, width);
    if width > 0 {
        let rest = (width - 1) as nat;
        law_little_endian_reads_back(n / 256, rest);
        let bytes = little_endian(n, width);
        assert(bytes[0] == (n % 256) as u8);
        assert(bytes.drop_first() =~= little_endian(n / 256, rest));
    }
}

/// The layout of a message: one signature by the first of three accounts, the
/// last of which, the System Program, is read only; the two accounts and the
/// program; the blockhash; and one instruction, a transfer from the first
/// account to the second, with the amount at its end.
pub proof fn law_message_layout(transfer: Transfer)
    ensures
        ({
            let bytes = message_of(transfer);
            &&& bytes.len() == 150
            &&& bytes.subrange(0, 4) == seq![1u8, 0u8, 1u8, 3u8]
            &&& bytes.subrange(4, 36) == transfer.from@
            &&& bytes.subrange(36, 68) == transfer.to@
            &&& bytes.subrange(68, 100) == Seq::new(32, |i: int| 0u8)
            &&& bytes.subrange(100, 132) == transfer.recent_blockhash@
            &&& bytes.subrange(132, 142) == seq![1u8, 2u8, 2u8, 0u8, 1u8, 12u8, 2u8, 0u8, 0u8, 0u8]
            &&& from_little_endian(bytes.subrange(142, 150)) == transfer.lamports
        }),
{
    law_message_parts(
        transfer.from@,
        transfer.to@,
        transfer.lamports,
        transfer.recent_blockhash@,
    );
}

/// A decoded text is an address exactly where it decoded to 32 bytes, and then
/// it is those bytes; a text that could not be decoded is reported with the
/// reason at its end, and a wrong length with the length at its end.
pub proof fn law_addresses_have_32_bytes(decoded: Result<Seq<u8>, Seq<char>>)
    ensures
        pubkey_of(decoded) is Ok <==> decoded is Ok && decoded->Ok_0.len() == 32,
        pubkey_of(decoded) is Ok ==> pubkey_of(decoded) == decoded,
        decoded matches Err(e) ==> (pubkey_of(decoded) matches Err(text) && e.is_suffix_of(text)),
        decoded is Ok && decoded->Ok_0.len() != 32 ==> (pubkey_of(decoded) matches Err(text)
            && decimal(decoded->Ok_0.len()).is_suffix_of(text)),
{
    if let Err(e) = decoded {
        let text = "invalid base58 public key: "@ + e;
        assert(e =~= text.skip(text.len() - e.len()));
    }
    if let Ok(bytes) = decoded {
        let text = "public key must decode to 32 bytes, got "@ + decimal(bytes.len());
        assert(decimal(bytes.len()) =~= text.skip(text.len() - decimal(bytes.len()).len()));
    }
}

/// The parts of a message between any two accounts are read back from it.
pub proof fn law_message_parts(
    from: Seq<u8>,
    to: Seq<u8>,
    lamports: u64,
    recent_blockhash: Seq<u8>,
)
    requires
        from.len() == 32,
        to.len() == 32,
        recent_blockhash.len() == 32,
    ensures
        ({
            let bytes = message_for(from, to, lamports, recent_blockhash);
            &&& bytes.len() == 150
            &&& bytes.subrange(0, 4) == seq![1u8, 0u8, 1u8, 3u8]
            &&& bytes.subrange(4, 36) == from
            &&& bytes.subrange(36, 68) == to
            &&& bytes.subrange(68, 100) == Seq::new(32, |i: int| 0u8)
            &&& bytes.subrange(100, 132) == recent_blockhash
            &&& bytes.subrange(132, 142) == seq![1u8, 2u8, 2u8, 0u8, 1u8, 12u8, 2u8, 0u8, 0u8, 0u8]
            &&& from_little_endian(bytes.subrange(142, 150)) == lamports
        }),
{
    let bytes = message_for(from, to, lamports, recent_blockhash);
    assert(pow256(8) == 0x1_0000_0000_0000_0000) by {
        reveal_with_fuel(pow256, 9);
    }
    law_little_endian_reads_back(lamports as nat, 8);
    lemma_little_endian_len(INSTRUCTION_TRANSFER as nat, 4);
    lemma_little_endian_len(lamports as nat, 8);
    assert(little_endian(2, 4) =~= seq![2u8, 0u8, 0u8, 0u8]) by {
        reveal_with_fuel(little_endian, 5);
    }
    assert(compact_u16(3) =~= seq![3u8]);
    assert(bytes.subrange(0, 4) =~= seq![1u8, 0u8, 1u8, 3u8]);
    assert(bytes.subrange(4, 36) =~= from);
    assert(bytes.subrange(36, 68) =~= to);
    assert(bytes.subrange(68, 100) =~= Seq::new(32, |i: int| 0u8));
    assert(bytes.subrange(100, 132) =~= recent_blockhash);
    assert(bytes.subrange(132, 142) =~= seq![
        1u8,
        2u8,
        2u8,
        0u8,
        1u8,
        12u8,
        2u8,
        0u8,
        0u8,
        0u8,
    ]);
    assert(bytes.subrange(142, 150) =~= little_endian(lamports as nat, 8));
}

/// Bytes and addresses stand for themselves, an error for its characters.
pub proof fn law_decoded_bytes_stand_for_themselves(bytes: Vec<u8>, key: [u8; 32], error: String)
    ensures
        bytes_or_text(Ok(bytes)) == Ok::<Seq<u8>, Seq<char>>(bytes@),
        bytes_or_text(Err(error)) == Err::<Seq<u8>, Seq<char>>(error@),
        key_or_text(Ok(key)) == Ok::<Seq<u8>, Seq<char>>(key@),
        key_or_text(Err(error)) == Err::<Seq<u8>, Seq<char>>(error@),
{
}

/// Of a number that takes more bytes the low ones are kept.
pub proof fn law_little_endian_keeps_the_low_bytes(n: nat, width: nat)
    ensures
        pow256(width) > 0,
        from_little_endian(little_endian(n, width)) == n % pow256(width),
    decreases width,
{
    if width > 0 {
        let rest = (width - 1) as nat;
        law_little_endian_keeps_the_low_bytes(n / 256, rest);
        let bytes = little_endian(n, width);
        assert(bytes[0] == (n % 256) as u8);
        assert(bytes.drop_first() =~= little_endian(n / 256, rest));
        vstd::arithmetic::div_mod::lemma_mod_breakdown(n as int, 256, pow256(rest) as int);
    } else {
        assert(n % 1 == 0);
    }
}

} // verus!
