//! The messages that get signed: pre-generated, distinct, all of one length.

use crate::random::{is_random_uuid, random_bits};
use crate::solana::{
    from_little_endian, law_little_endian_injective, law_little_endian_reads_back,
    law_message_parts, lemma_little_endian_len, little_endian, message_for, pow256,
    push_little_endian, Transfer,
};
use vstd::prelude::*;

verus! {

/// The account that stands for a public key: its first 32 bytes, with zeros
/// where it is shorter.
pub open spec fn account_of(public_key: Seq<u8>) -> Seq<u8> {
    Seq::new(
        32,
        |i: int|
            if i < public_key.len() {
                public_key[i]
            } else {
                0
            },
    )
}

/// Solana account addresses are 32 bytes (Ed25519 public keys). A P-256
/// public key does not fit that shape, so for that curve the "from" field is
/// the first 32 bytes of the uncompressed SEC1 point. The resulting
/// transaction is not a valid, broadcastable Solana transaction in that case;
/// this tool never broadcasts, so only the signing payload shape and size
/// matter for the measurement.
pub fn account_bytes(public_key: &[u8]) -> (account: [u8; 32])
    ensures
        account@ == account_of(public_key@),
{
    let mut account = [0u8; 32];
    let mut i: usize = 0;
    while i < 32 && i < public_key.len()
        invariant
            i <= 32,
            i <= public_key@.len(),
            forall|j: int| 0 <= j < i ==> #[trigger] account@[j] == public_key@[j],
            forall|j: int| i <= j < 32 ==> #[trigger] account@[j] == 0,
        decreases 32 - i,
    {
        account[i] = public_key[i];
        i = i + 1;
    }
    assert(account@ =~= account_of(public_key@));
    account
}

/// The blockhash of a payload: its index, eight random bytes, and zeros.
pub open spec fn blockhash_of(index: u64, salt: u128) -> Seq<u8> {
    little_endian(index as nat, 8) + little_endian(salt as nat % 0x1_0000_0000_0000_0000, 8)
        + little_endian(0, 16)
}

/// The payload number `index`.
pub open spec fn payload_of(
    from: Seq<u8>,
    to: Seq<u8>,
    lamports: u64,
    index: u64,
    salt: u128,
) -> Seq<
    u8,
> {
    message_for(from, to, lamports, blockhash_of(index, salt))
}

/// Whether bytes are a payload number `index`, whatever its random bytes are.
pub open spec fn is_payload(
    bytes: Seq<u8>,
    from: Seq<u8>,
    to: Seq<u8>,
    lamports: u64,
    index: u64,
) -> bool {
    exists|salt: u128|
        is_random_uuid(salt) && bytes == #[trigger] payload_of(from, to, lamports, index, salt)
}

/// The payload number `index` with given random bits.
pub fn payload(from: &[u8; 32], to: &[u8; 32], lamports: u64, index: u64, salt: u128) -> (bytes:
    Vec<u8>)
    ensures
        bytes@ == payload_of(from@, to@, lamports, index, salt),
        bytes@.len() == 150,
{
    let mut hash: Vec<u8> = Vec::new();
    push_little_endian(&mut hash, index, 8);
    push_little_endian(&mut hash, (salt % 0x1_0000_0000_0000_0000) as u64, 8);
    push_little_endian(&mut hash, 0, 16);
    assert(hash@ =~= blockhash_of(index, salt));
    proof {
        lemma_little_endian_len(index as nat, 8);
        lemma_little_endian_len(salt as nat % 0x1_0000_0000_0000_0000, 8);
        lemma_little_endian_len(0, 16);
    }
    let recent_blockhash = account_bytes(hash.as_slice());
    assert(recent_blockhash@ =~= hash@);
    let transfer = Transfer { from: *from, to: *to, lamports, recent_blockhash };
    transfer.message_bytes()
}

/// A payload number `index` with fresh random bytes.
pub fn fresh_payload(from: &[u8; 32], to: &[u8; 32], lamports: u64, index: u64) -> (bytes: Vec<u8>)
    ensures
        is_payload(bytes@, from@, to@, lamports, index),
        bytes@.len() == 150,
{
    let salt = random_bits();
    payload(from, to, lamports, index, salt)
}

/// The first `count` payloads. Serialization so never lands in a timed loop.
pub fn payloads(from: &[u8; 32], to: &[u8; 32], lamports: u64, count: usize) -> (messages: Vec<
    Vec<u8>,
>)
    ensures
        messages@.len() == count,
        forall|i: int|
            0 <= i < count ==> is_payload(
                (#[trigger] messages@[i])@,
                from@,
                to@,
                lamports,
                i as u64,
            ) && messages@[i]@.len() == 150,
{
    let mut messages: Vec<Vec<u8>> = Vec::new();
    while messages.len() < count
        invariant
            messages@.len() <= count,
            forall|i: int|
                0 <= i < messages@.len() ==> is_payload(
                    (#[trigger] messages@[i])@,
                    from@,
                    to@,
                    lamports,
                    i as u64,
                ) && messages@[i]@.len() == 150,
        decreases count - messages.len(),
    {
        let index: u64 = messages.len() as u64;
        messages.push(fresh_payload(from, to, lamports, index));
    }
    messages
}

/// Payloads of different numbers differ, whatever their random bytes are: none
/// is ever signed twice, so no cache on the way can answer for the key.
pub proof fn law_payloads_are_distinct(
    from: Seq<u8>,
    to: Seq<u8>,
    lamports: u64,
    i: u64,
    j: u64,
    a: Seq<u8>,
    b: Seq<u8>,
)
    requires
        from.len() == 32,
        to.len() == 32,
        i != j,
        is_payload(a, from, to, lamports, i),
        is_payload(b, from, to, lamports, j),
    ensures
        a != b,
{
    let x = choose|salt: u128|
        is_random_uuid(salt) && a == #[trigger] payload_of(from, to, lamports, i, salt);
    let y = choose|salt: u128|
        is_random_uuid(salt) && b == #[trigger] payload_of(from, to, lamports, j, salt);
    if a == b {
        let (p, q) = (little_endian(i as nat, 8), little_endian(j as nat, 8));
        lemma_little_endian_len(i as nat, 8);
        lemma_little_endian_len(j as nat, 8);
        assert(a.subrange(100, 108) =~= p);
        assert(b.subrange(100, 108) =~= q);
        reveal_with_fuel(pow256, 9);
        law_little_endian_injective(i as nat, j as nat, 8);
    }
}

proof fn lemma_payload_parts(from: Seq<u8>, to: Seq<u8>, lamports: u64, index: u64, salt: u128)
    requires
        from.len() == 32,
        to.len() == 32,
    ensures
        ({
            let bytes = payload_of(from, to, lamports, index, salt);
            &&& bytes.len() == 150
            &&& bytes.subrange(4, 36) == from
            &&& bytes.subrange(36, 68) == to
            &&& bytes.subrange(100, 108) == little_endian(index as nat, 8)
            &&& bytes.subrange(108, 116) == little_endian(
                salt as nat % 0x1_0000_0000_0000_0000,
                8,
            )
            &&& bytes.subrange(116, 132) == Seq::new(16, |i: int| 0u8)
            &&& bytes.subrange(142, 150) == little_endian(lamports as nat, 8)
        }),
{
    let bytes = payload_of(from, to, lamports, index, salt);
    lemma_little_endian_len(index as nat, 8);
    lemma_little_endian_len(salt as nat % 0x1_0000_0000_0000_0000, 8);
    lemma_little_endian_len(0, 16);
    lemma_little_endian_len(lamports as nat, 8);
    lemma_little_endian_len(2, 4);
    lemma_zeros(16);
    assert(bytes.subrange(4, 36) =~= from);
    assert(bytes.subrange(36, 68) =~= to);
    assert(bytes.subrange(100, 108) =~= little_endian(index as nat, 8));
    assert(bytes.subrange(108, 116) =~= little_endian(salt as nat % 0x1_0000_0000_0000_0000, 8));
    assert(bytes.subrange(116, 132) =~= little_endian(0, 16));
    assert(bytes.subrange(142, 150) =~= little_endian(lamports as nat, 8));
}

proof fn lemma_zeros(width: nat)
    ensures
        little_endian(0, width) == Seq::new(width, |i: int| 0u8),
    decreases width,
{
    if width > 0 {
        lemma_zeros((width - 1) as nat);
    }
    assert(little_endian(0, width) =~= Seq::new(width, |i: int| 0u8));
}

/// A payload is a transfer of the asked amount between the asked accounts, with
/// its number at the front of the blockhash. So the payloads of one benchmark
/// differ in the blockhash only.
pub proof fn law_payload_carries_what_was_asked(
    bytes: Seq<u8>,
    from: Seq<u8>,
    to: Seq<u8>,
    lamports: u64,
    index: u64,
)
    requires
        from.len() == 32,
        to.len() == 32,
        is_payload(bytes, from, to, lamports, index),
    ensures
        bytes.len() == 150,
        bytes.subrange(4, 36) == from,
        bytes.subrange(36, 68) == to,
        bytes.subrange(142, 150) == little_endian(lamports as nat, 8),
        bytes.subrange(100, 108) == little_endian(index as nat, 8),
        bytes.subrange(116, 132) == Seq::new(16, |i: int| 0u8),
        from_little_endian(bytes.subrange(142, 150)) == lamports,
        from_little_endian(bytes.subrange(100, 108)) == index,
        bytes.subrange(0, 4) == seq![1u8, 0u8, 1u8, 3u8],
        bytes.subrange(68, 100) == Seq::new(32, |i: int| 0u8),
        bytes.subrange(132, 142) == seq![1u8, 2u8, 2u8, 0u8, 1u8, 12u8, 2u8, 0u8, 0u8, 0u8],
{
    let salt = choose|salt: u128|
        is_random_uuid(salt) && bytes == #[trigger] payload_of(from, to, lamports, index, salt);
    lemma_payload_parts(from, to, lamports, index, salt);
    lemma_little_endian_len(index as nat, 8);
    lemma_little_endian_len(salt as nat % 0x1_0000_0000_0000_0000, 8);
    lemma_little_endian_len(0, 16);
    law_message_parts(from, to, lamports, blockhash_of(index, salt));
    assert(pow256(8) == 0x1_0000_0000_0000_0000) by {
        reveal_with_fuel(pow256, 9);
    }
    law_little_endian_reads_back(index as nat, 8);
}

/// Two payloads with the same accounts and amount agree everywhere but in the
/// first sixteen bytes of the blockhash.
pub proof fn law_payloads_differ_in_the_blockhash_only(
    a: Seq<u8>,
    b: Seq<u8>,
    from: Seq<u8>,
    to: Seq<u8>,
    lamports: u64,
    i: u64,
    j: u64,
)
    requires
        from.len() == 32,
        to.len() == 32,
        is_payload(a, from, to, lamports, i),
        is_payload(b, from, to, lamports, j),
    ensures
        a.take(100) == b.take(100),
        a.skip(116) == b.skip(116),
{
    let x = choose|salt: u128|
        is_random_uuid(salt) && a == #[trigger] payload_of(from, to, lamports, i, salt);
    let y = choose|salt: u128|
        is_random_uuid(salt) && b == #[trigger] payload_of(from, to, lamports, j, salt);
    lemma_little_endian_len(i as nat, 8);
    lemma_little_endian_len(j as nat, 8);
    lemma_little_endian_len(x as nat % 0x1_0000_0000_0000_0000, 8);
    lemma_little_endian_len(y as nat % 0x1_0000_0000_0000_0000, 8);
    lemma_little_endian_len(0, 16);
    lemma_little_endian_len(lamports as nat, 8);
    lemma_little_endian_len(2, 4);
    assert(a.take(100) =~= b.take(100));
    assert(a.skip(116) =~= b.skip(116));
}

/// With given random bits, the low 64 of them follow the number.
pub proof fn law_payload_is_salted(
    from: Seq<u8>,
    to: Seq<u8>,
    lamports: u64,
    index: u64,
    salt: u128,
)
    requires
        from.len() == 32,
        to.len() == 32,
    ensures
        payload_of(from, to, lamports, index, salt).subrange(108, 116) == little_endian(
            salt as nat % 0x1_0000_0000_0000_0000,
            8,
        ),
        payload_of(from, to, lamports, index, salt).subrange(142, 150) == little_endian(
            lamports as nat,
            8,
        ),
        payload_of(from, to, lamports, index, salt).subrange(4, 36) == from,
        payload_of(from, to, lamports, index, salt).subrange(36, 68) == to,
        payload_of(from, to, lamports, index, salt).subrange(100, 108) == little_endian(
            index as nat,
            8,
        ),
{
    lemma_payload_parts(from, to, lamports, index, salt);
}

/// The account of a key is its first 32 bytes; a shorter key is filled up with
/// zeros, and one of 32 bytes is its own account.
pub proof fn law_account_is_the_front_of_the_key(key: Seq<u8>, i: int)
    ensures
        account_of(key).len() == 32,
        0 <= i < 32 && i < key.len() ==> account_of(key)[i] == key[i],
        key.len() <= i < 32 ==> account_of(key)[i] == 0,
        key.len() == 32 ==> account_of(key) == key,
{
    if key.len() == 32 {
        assert(account_of(key) =~= key);
    }
}

} // verus!
