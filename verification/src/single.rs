//! What a single signature is reported as.

use crate::chart::{lemma_shows, shows};
use crate::export::{
    as_line, fields_of, json_pretty, json_text, line_of, text_or_text, Json, JsonModel,
};
use crate::payload::{account_bytes, account_of, law_account_is_the_front_of_the_key};
use crate::pkcs11::Curve;
use crate::report::{lemma_named_between, width_for};
use crate::run::{judged, Iteration, IterationModel, Signed, SingleOptions};
use crate::signer::{Signer, SignerModel};
use crate::solana::{
    base58_encoded, encode_base58, encode_pubkey, from_little_endian, law_message_parts,
    message_for, message_of, Transfer,
};
use crate::stats::{format_whole_nanos, whole_nanos, Phase};
use crate::text::{decimal, decimal_text, pad_right, pad_right_text};
use vstd::prelude::*;
use vstd::string::StringExecFns;

verus! {

pub open spec fn spec_verifier_name(curve: Curve) -> Seq<char> {
    match curve {
        Curve::Ed25519 => "ed25519-dalek"@,
        Curve::P256 => "p256 (ecdsa)"@,
    }
}

/// What verifies the signatures of a curve.
pub fn verifier_name(curve: Curve) -> (name: &'static str)
    ensures
        name@ == spec_verifier_name(curve),
{
    match curve {
        Curve::Ed25519 => "ed25519-dalek",
        Curve::P256 => "p256 (ecdsa)",
    }
}

/// The message that a single signature is of.
pub open spec fn single_message(signer: SignerModel, options: SingleOptions) -> Seq<u8> {
    message_for(
        account_of(signer.key.bytes),
        options.to@,
        options.lamports,
        options.blockhash@,
    )
}

/// The transfer that a single signature is of: from the account of the key.
pub fn single_transfer(signer: &Signer, options: &SingleOptions) -> (transfer: Transfer)
    ensures
        transfer.from@ == account_of(signer@.key.bytes),
        transfer.to@ == options.to@,
        transfer.lamports == options.lamports,
        transfer.recent_blockhash@ == options.blockhash@,
        message_of(transfer) == single_message(signer@, *options),
{
    let public_key = signer.public_key_bytes();
    Transfer {
        from: account_bytes(public_key.as_slice()),
        to: options.to,
        lamports: options.lamports,
        recent_blockhash: options.blockhash,
    }
}

/// The time that is shown for initialising. With one-shot message signing that
/// happened once during setup.
pub open spec fn shown_init(curve: Curve, setup_init: u64, timing: IterationModel) -> u64 {
    if curve.one_shot() {
        setup_init
    } else {
        timing.sign_init
    }
}

/// One line on a phase.
pub open spec fn phase_line(phase: Phase, curve: Curve, nanos: u64) -> Seq<char> {
    "  "@ + pad_right(phase.spec_label_for_curve(curve), 18) + " "@ + whole_nanos(nanos as nat)
        + "\n"@
}

fn phase_line_text(phase: Phase, curve: Curve, nanos: u64) -> (text: String)
    ensures
        text@ == phase_line(phase, curve, nanos),
{
    let mut text = String::from_str("  ");
    let label = pad_right_text(phase.label_for_curve(curve), 18);
    text.append(label.as_str());
    text.append(" ");
    let time = format_whole_nanos(nanos as u128);
    text.append(time.as_str());
    text.append("\n");
    text
}

/// A single signature for human eyes.
#[verifier::opaque]
pub open spec fn single_text(
    signer: SignerModel,
    options: SingleOptions,
    signature: Seq<u8>,
    wire: Seq<u8>,
    timing: IterationModel,
    init: u64,
) -> Seq<char> {
    "Key id          "@
        + signer.label
        + "\nFrom            "@
        + base58_encoded(account_of(signer.key.bytes))
        + "\nTo              "@
        + base58_encoded(options.to@)
        + "\nLamports        "@
        + decimal(options.lamports as nat)
        + "\nBlockhash       "@
        + base58_encoded(options.blockhash@)
        + "\nMessage         "@
        + decimal(single_message(signer, options).len())
        + " bytes\nSignature       "@
        + base58_encoded(signature)
        + "\nVerified        yes (locally, "@
        + spec_verifier_name(signer.key.curve)
        + ")\nBroadcast       no\n\n"@
        + phase_line(Phase::SignInit, signer.key.curve, init)
        + phase_line(Phase::Sign, signer.key.curve, timing.sign)
        + phase_line(Phase::Verify, signer.key.curve, timing.verify)
        + phase_line(Phase::Total, signer.key.curve, timing.total)
        + "\nTransaction (base58, not broadcast):\n"@
        + base58_encoded(wire)
        + "\n"@
}

fn print_single(
    signer: &Signer,
    options: &SingleOptions,
    from: &[u8; 32],
    message_len: usize,
    signature: &[u8],
    wire: &[u8],
    timing: &Iteration,
    init: u64,
) -> (text: String)
    requires
        from@ == account_of(signer@.key.bytes),
        message_len == single_message(signer@, *options).len(),
        signature@.len() <= 0x1000,
        wire@.len() <= 0x2000,
    ensures
        text@ == single_text(signer@, *options, signature@, wire@, timing@, init),
{
    proof {
        reveal(single_text);
    }
    let mut text = String::from_str("Key id          ");
    text.append(signer.label());
    text.append("\nFrom            ");
    let source = encode_pubkey(from);
    text.append(source.as_str());
    text.append("\nTo              ");
    let target = encode_pubkey(&options.to);
    text.append(target.as_str());
    text.append("\nLamports        ");
    let lamports = decimal_text(options.lamports as u128);
    text.append(lamports.as_str());
    text.append("\nBlockhash       ");
    let hash = encode_pubkey(&options.blockhash);
    text.append(hash.as_str());
    text.append("\nMessage         ");
    let len = decimal_text(message_len as u128);
    text.append(len.as_str());
    text.append(" bytes\nSignature       ");
    let signed = encode_base58(signature);
    text.append(signed.as_str());
    text.append("\nVerified        yes (locally, ");
    text.append(verifier_name(signer.curve()));
    text.append(")\nBroadcast       no\n\n");
    let p1 = phase_line_text(Phase::SignInit, signer.curve(), init);
    text.append(p1.as_str());
    let p2 = phase_line_text(Phase::Sign, signer.curve(), timing.timing(Phase::Sign));
    text.append(p2.as_str());
    let p3 = phase_line_text(Phase::Verify, signer.curve(), timing.timing(Phase::Verify));
    text.append(p3.as_str());
    let p4 = phase_line_text(Phase::Total, signer.curve(), timing.timing(Phase::Total));
    text.append(p4.as_str());
    text.append("\nTransaction (base58, not broadcast):\n");
    let transaction = encode_base58(wire);
    text.append(transaction.as_str());
    text.append("\n");
    text
}

/// A single signature as the fields of a JSON object.
pub open spec fn single_fields(
    signer: SignerModel,
    options: SingleOptions,
    signature: Seq<u8>,
    wire: Seq<u8>,
    timing: IterationModel,
    init: u64,
) -> Seq<(Seq<char>, JsonModel)> {
    let message = single_message(signer, options);
    seq![
        ("key_id"@, JsonModel::Text(signer.label)),
        ("from"@, JsonModel::Text(base58_encoded(account_of(signer.key.bytes)))),
        ("to"@, JsonModel::Text(base58_encoded(options.to@))),
        ("lamports"@, JsonModel::Number(options.lamports)),
        ("recent_blockhash"@, JsonModel::Text(base58_encoded(options.blockhash@))),
        ("message_len"@, JsonModel::Number(message.len() as u64)),
        ("message_base58"@, JsonModel::Text(base58_encoded(message))),
        ("signature_base58"@, JsonModel::Text(base58_encoded(signature))),
        ("transaction_base58"@, JsonModel::Text(base58_encoded(wire))),
        ("verified"@, JsonModel::Flag(true)),
        ("broadcast"@, JsonModel::Flag(false)),
        (
            "timings_ns"@,
            JsonModel::Group(
                seq![
                    ("sign_init"@, init),
                    ("sign"@, timing.sign),
                    ("verify"@, timing.verify),
                    ("total"@, timing.total),
                ],
            ),
        ),
    ]
}

fn push_text(fields: &mut Vec<(String, Json)>, name: &str, value: String)
    ensures
        fields_of(final(fields)@) == fields_of(old(fields)@).push(
            (name@, JsonModel::Text(value@)),
        ),
{
    fields.push((String::from_str(name), Json::Text(value)));
    assert(fields_of(fields@) =~= fields_of(old(fields)@).push((name@, JsonModel::Text(value@))));
}

fn push_number(fields: &mut Vec<(String, Json)>, name: &str, value: u64)
    ensures
        fields_of(final(fields)@) == fields_of(old(fields)@).push(
            (name@, JsonModel::Number(value)),
        ),
{
    fields.push((String::from_str(name), Json::Number(value)));
    assert(fields_of(fields@) =~= fields_of(old(fields)@).push((name@, JsonModel::Number(value))));
}

fn push_flag(fields: &mut Vec<(String, Json)>, name: &str, value: bool)
    ensures
        fields_of(final(fields)@) == fields_of(old(fields)@).push((name@, JsonModel::Flag(value))),
{
    fields.push((String::from_str(name), Json::Flag(value)));
    assert(fields_of(fields@) =~= fields_of(old(fields)@).push((name@, JsonModel::Flag(value))));
}

fn timings(timing: &Iteration, init: u64) -> (group: Vec<(String, u64)>)
    ensures
        Json::Group(group)@ == JsonModel::Group(
            seq![
                ("sign_init"@, init),
                ("sign"@, timing@.sign),
                ("verify"@, timing@.verify),
                ("total"@, timing@.total),
            ],
        ),
{
    let mut group: Vec<(String, u64)> = Vec::new();
    group.push((String::from_str("sign_init"), init));
    group.push((String::from_str("sign"), timing.timing(Phase::Sign)));
    group.push((String::from_str("verify"), timing.timing(Phase::Verify)));
    group.push((String::from_str("total"), timing.timing(Phase::Total)));
    assert(group@.map_values(|f: (String, u64)| (f.0@, f.1)) =~= seq![
        ("sign_init"@, init),
        ("sign"@, timing@.sign),
        ("verify"@, timing@.verify),
        ("total"@, timing@.total),
    ]);
    group
}

/// The report of a single signature, as text or as JSON.
pub open spec fn single_report_of(
    signer: SignerModel,
    options: SingleOptions,
    signature: Seq<u8>,
    timing: IterationModel,
    setup_init: u64,
) -> Result<Seq<char>, Seq<char>> {
    let init = shown_init(signer.key.curve, setup_init, timing);
    let wire = seq![1u8] + signature + single_message(signer, options);
    if options.json {
        line_of(json_text(single_fields(signer, options, signature, wire, timing, init)))
    } else {
        Ok(single_text(signer, options, signature, wire, timing, init))
    }
}

/// What is printed of a single signature. It is said to be verified, and it
/// is: there is no other way to come by a signed message.
pub fn single_report(
    signer: &Signer,
    options: &SingleOptions,
    signed: &Signed,
    timing: &Iteration,
    setup_init: u64,
) -> (r: Result<String, String>)
    requires
        signed@.key == signer@.key,
        signed@.message == single_message(signer@, *options),
        signed@.signature.len() <= signer@.key.curve.signature_bound(),
    ensures
        text_or_text(r) == single_report_of(
            signer@,
            *options,
            signed@.signature,
            timing@,
            setup_init,
        ),
        judged(signer@.key, single_message(signer@, *options), signed@.signature) is Ok,
{
    let transfer = single_transfer(signer, options);
    let signature = signed.signature();
    let wire = transfer.to_wire(signature);
    let message = transfer.message_bytes();
    assert(wire@ =~= seq![1u8] + signature@ + message@);
    let init: u64 = if signer.curve().uses_message_signing() {
        setup_init
    } else {
        timing.timing(Phase::SignInit)
    };
    if !options.json {
        return Ok(
            print_single(
                signer,
                options,
                &transfer.from,
                message.len(),
                signature,
                wire.as_slice(),
                timing,
                init,
            ),
        );
    }
    let mut fields: Vec<(String, Json)> = Vec::new();
    assert(fields_of(fields@) =~= Seq::<(Seq<char>, JsonModel)>::empty());
    push_text(&mut fields, "key_id", String::from_str(signer.label()));
    push_text(&mut fields, "from", encode_pubkey(&transfer.from));
    push_text(&mut fields, "to", encode_pubkey(&options.to));
    push_number(&mut fields, "lamports", options.lamports);
    push_text(&mut fields, "recent_blockhash", encode_pubkey(&options.blockhash));
    push_number(&mut fields, "message_len", message.len() as u64);
    push_text(&mut fields, "message_base58", encode_base58(message.as_slice()));
    push_text(&mut fields, "signature_base58", encode_base58(signature));
    push_text(&mut fields, "transaction_base58", encode_base58(wire.as_slice()));
    push_flag(&mut fields, "verified", true);
    push_flag(&mut fields, "broadcast", false);
    let ghost before = fields@;
    let group = timings(timing, init);
    fields.push((String::from_str("timings_ns"), Json::Group(group)));
    assert(fields_of(fields@) =~= fields_of(before).push(
        ("timings_ns"@, Json::Group(group)@),
    ));
    assert(fields_of(fields@) =~= single_fields(
        signer@,
        *options,
        signature@,
        wire@,
        timing@,
        init,
    ));
    as_line(json_pretty(fields))
}

/// With one-shot signing the initialisation that is shown is that of the setup,
/// otherwise that of the iteration.
pub proof fn law_shown_initialisation(setup_init: u64, timing: IterationModel)
    ensures
        shown_init(Curve::Ed25519, setup_init, timing) == setup_init,
        shown_init(Curve::P256, setup_init, timing) == timing.sign_init,
{
}

/// A line on a phase has the label in front and the time at its end.
pub proof fn law_phase_line_gives_the_time(phase: Phase, curve: Curve, nanos: u64)
    ensures
        ("  "@ + phase.spec_label_for_curve(curve)).is_prefix_of(phase_line(phase, curve, nanos)),
        (" "@ + whole_nanos(nanos as nat) + "\n"@).is_suffix_of(phase_line(phase, curve, nanos)),
        phase_line(phase, curve, nanos).len() == "  "@.len() + width_for(
            phase.spec_label_for_curve(curve),
            18,
        ) + " "@.len() + whole_nanos(nanos as nat).len() + "\n"@.len(),
{
    let line = phase_line(phase, curve, nanos);
    let label = phase.spec_label_for_curve(curve);
    let front = "  "@ + label;
    let padded = pad_right(label, 18);
    assert(label =~= padded.subrange(0, label.len() as int));
    let back = " "@ + whole_nanos(nanos as nat) + "\n"@;
    assert(line =~= "  "@ + padded + back);
    assert(back =~= line.subrange(line.len() - back.len(), line.len() as int));
    assert forall|i: int| 0 <= i < front.len() implies front[i] == line[i] by {
        if i >= "  "@.len() {
            assert(padded.subrange(0, label.len() as int)[i - "  "@.len()] == padded[i
                - "  "@.len()]);
        }
    }
    assert(front =~= line.subrange(0, front.len() as int));
}

/// The text on a single signature names the key, the two accounts, the amount,
/// the blockhash, the length of the message, the signature and what verified
/// it, each behind its own name; then the four phases with their times in their
/// order; and at its end the transaction.
pub proof fn law_text_names_what_was_signed(
    signer: SignerModel,
    options: SingleOptions,
    signature: Seq<u8>,
    wire: Seq<u8>,
    timing: IterationModel,
    init: u64,
)
    ensures
        ({
            let text = single_text(signer, options, signature, wire, timing, init);
            let curve = signer.key.curve;
            let p1 = phase_line(Phase::SignInit, curve, init);
            let p2 = phase_line(Phase::Sign, curve, timing.sign);
            let p3 = phase_line(Phase::Verify, curve, timing.verify);
            let p4 = phase_line(Phase::Total, curve, timing.total);
            &&& shows(text, "Key id          "@ + signer.label + "\nFrom            "@)
            &&& shows(
                text,
                "\nFrom            "@ + base58_encoded(account_of(signer.key.bytes))
                    + "\nTo              "@,
            )
            &&& shows(
                text,
                "\nTo              "@ + base58_encoded(options.to@) + "\nLamports        "@,
            )
            &&& shows(
                text,
                "\nLamports        "@ + decimal(options.lamports as nat) + "\nBlockhash       "@,
            )
            &&& shows(
                text,
                "\nBlockhash       "@ + base58_encoded(options.blockhash@) + "\nMessage         "@,
            )
            &&& shows(
                text,
                "\nMessage         "@ + decimal(single_message(signer, options).len())
                    + " bytes\nSignature       "@,
            )
            &&& shows(
                text,
                " bytes\nSignature       "@ + base58_encoded(signature)
                    + "\nVerified        yes (locally, "@,
            )
            &&& shows(
                text,
                "\nVerified        yes (locally, "@ + spec_verifier_name(signer.key.curve)
                    + ")\nBroadcast       no\n\n"@,
            )
            &&& shows(text, p1 + p2 + p3 + p4)
            &&& ("\nTransaction (base58, not broadcast):\n"@ + base58_encoded(wire)
                + "\n"@).is_suffix_of(text)
            &&& text.len() == "Key id          "@.len() + signer.label.len()
                + "\nFrom            "@.len() + base58_encoded(account_of(signer.key.bytes)).len()
                + "\nTo              "@.len() + base58_encoded(options.to@).len()
                + "\nLamports        "@.len() + decimal(options.lamports as nat).len()
                + "\nBlockhash       "@.len() + base58_encoded(options.blockhash@).len()
                + "\nMessage         "@.len()
                + decimal(single_message(signer, options).len()).len()
                + " bytes\nSignature       "@.len() + base58_encoded(signature).len()
                + "\nVerified        yes (locally, "@.len()
                + spec_verifier_name(signer.key.curve).len() + ")\nBroadcast       no\n\n"@.len()
                + phase_line(Phase::SignInit, signer.key.curve, init).len()
                + phase_line(Phase::Sign, signer.key.curve, timing.sign).len()
                + phase_line(Phase::Verify, signer.key.curve, timing.verify).len()
                + phase_line(Phase::Total, signer.key.curve, timing.total).len()
                + "\nTransaction (base58, not broadcast):\n"@.len() + base58_encoded(wire).len()
                + "\n"@.len()
        }),
{
    reveal(single_text);
    let text = single_text(signer, options, signature, wire, timing, init);
    let curve = signer.key.curve;
    let p1 = phase_line(Phase::SignInit, curve, init);
    let p2 = phase_line(Phase::Sign, curve, timing.sign);
    let p3 = phase_line(Phase::Verify, curve, timing.verify);
    let p4 = phase_line(Phase::Total, curve, timing.total);
    let note = "\nTransaction (base58, not broadcast):\n"@;
    let m0 = Seq::<char>::empty();
    let v0 = signer.label;
    let v1 = base58_encoded(account_of(signer.key.bytes));
    let v2 = base58_encoded(options.to@);
    let v3 = decimal(options.lamports as nat);
    let v4 = base58_encoded(options.blockhash@);
    let v5 = decimal(single_message(signer, options).len());
    let v6 = base58_encoded(signature);
    let v7 = spec_verifier_name(signer.key.curve);
    let m1 = m0 + "Key id          "@ + v0;
    let m2 = m1 + "\nFrom            "@ + v1;
    let m3 = m2 + "\nTo              "@ + v2;
    let m4 = m3 + "\nLamports        "@ + v3;
    let m5 = m4 + "\nBlockhash       "@ + v4;
    let m6 = m5 + "\nMessage         "@ + v5;
    let m7 = m6 + " bytes\nSignature       "@ + v6;
    let m8 = m7 + "\nVerified        yes (locally, "@ + v7;
    let top = m8 + ")\nBroadcast       no\n\n"@;
    assert(m0 + "Key id          "@ =~= "Key id          "@);
    assert(text == top + p1 + p2 + p3 + p4 + note + base58_encoded(wire) + "\n"@);
    lemma_rest_of_text(top, p1, p2, p3, p4, note, base58_encoded(wire), "\n"@);
    lemma_named_between(
        text,
        m7,
        "\nVerified        yes (locally, "@,
        v7,
        ")\nBroadcast       no\n\n"@,
    );
    lemma_named_between(
        text,
        m6,
        " bytes\nSignature       "@,
        v6,
        "\nVerified        yes (locally, "@,
    );
    lemma_named_between(text, m5, "\nMessage         "@, v5, " bytes\nSignature       "@);
    lemma_named_between(text, m4, "\nBlockhash       "@, v4, "\nMessage         "@);
    lemma_named_between(text, m3, "\nLamports        "@, v3, "\nBlockhash       "@);
    lemma_named_between(text, m2, "\nTo              "@, v2, "\nLamports        "@);
    lemma_named_between(text, m1, "\nFrom            "@, v1, "\nTo              "@);
    lemma_named_between(text, m0, "Key id          "@, v0, "\nFrom            "@);
}

proof fn lemma_rest_of_text(
    top: Seq<char>,
    p1: Seq<char>,
    p2: Seq<char>,
    p3: Seq<char>,
    p4: Seq<char>,
    note: Seq<char>,
    wire: Seq<char>,
    end: Seq<char>,
)
    ensures
        ({
            let text = top + p1 + p2 + p3 + p4 + note + wire + end;
            &&& top.is_prefix_of(text)
            &&& shows(text, p1 + p2 + p3 + p4)
            &&& (note + wire + end).is_suffix_of(text)
        }),
{
    let text = top + p1 + p2 + p3 + p4 + note + wire + end;
    let phases = p1 + p2 + p3 + p4;
    let back = note + wire + end;
    assert(text =~= top + phases + back);
    lemma_shows(top, phases, back);
    assert(top =~= text.subrange(0, top.len() as int));
    assert(back =~= text.subrange(text.len() - back.len(), text.len() as int));
}

/// Whether an object has a field with a given name and value.
pub open spec fn has_field(
    fields: Seq<(Seq<char>, JsonModel)>,
    name: Seq<char>,
    value: JsonModel,
) -> bool {
    exists|i: int| 0 <= i < fields.len() && #[trigger] fields[i] == (name, value)
}

/// The JSON object on a single signature has twelve fields: the key, the two
/// accounts, the amount, the blockhash, the message with its length, the
/// signature, the transaction, that it is verified and not broadcast, and the
/// times of the four phases.
pub proof fn law_json_names_what_was_signed(
    signer: SignerModel,
    options: SingleOptions,
    signature: Seq<u8>,
    wire: Seq<u8>,
    timing: IterationModel,
    init: u64,
)
    requires
        single_message(signer, options).len() <= u64::MAX,
    ensures
        ({
            let fields = single_fields(signer, options, signature, wire, timing, init);
            let message = single_message(signer, options);
            &&& fields.len() == 12
            &&& has_field(fields, "key_id"@, JsonModel::Text(signer.label))
            &&& has_field(
                fields,
                "from"@,
                JsonModel::Text(base58_encoded(account_of(signer.key.bytes))),
            )
            &&& has_field(fields, "to"@, JsonModel::Text(base58_encoded(options.to@)))
            &&& has_field(fields, "lamports"@, JsonModel::Number(options.lamports))
            &&& has_field(
                fields,
                "recent_blockhash"@,
                JsonModel::Text(base58_encoded(options.blockhash@)),
            )
            &&& has_field(fields, "message_len"@, JsonModel::Number(message.len() as u64))
            &&& has_field(fields, "message_base58"@, JsonModel::Text(base58_encoded(message)))
            &&& has_field(fields, "signature_base58"@, JsonModel::Text(base58_encoded(signature)))
            &&& has_field(fields, "transaction_base58"@, JsonModel::Text(base58_encoded(wire)))
            &&& has_field(fields, "verified"@, JsonModel::Flag(true))
            &&& has_field(fields, "broadcast"@, JsonModel::Flag(false))
            &&& has_field(
                fields,
                "timings_ns"@,
                JsonModel::Group(
                    seq![
                        (Phase::SignInit.spec_key(), init),
                        (Phase::Sign.spec_key(), timing.sign),
                        (Phase::Verify.spec_key(), timing.verify),
                        (Phase::Total.spec_key(), timing.total),
                    ],
                ),
            )
        }),
{
    let fields = single_fields(signer, options, signature, wire, timing, init);
    assert(fields[0].0 == "key_id"@ && fields[1].0 == "from"@ && fields[2].0 == "to"@);
    assert(fields[3].0 == "lamports"@ && fields[4].0 == "recent_blockhash"@);
    assert(fields[5].0 == "message_len"@ && fields[6].0 == "message_base58"@);
    assert(fields[7].0 == "signature_base58"@ && fields[8].0 == "transaction_base58"@);
    assert(fields[9].0 == "verified"@ && fields[10].0 == "broadcast"@);
    assert(fields[11].0 == "timings_ns"@);
}

/// Whether bytes are one signature, with the count of one before it and the
/// message behind it.
pub open spec fn is_wire(wire: Seq<u8>, signature: Seq<u8>, message: Seq<u8>) -> bool {
    &&& wire.len() == 1 + signature.len() + message.len()
    &&& wire[0] == 1
    &&& forall|i: int| 0 <= i < signature.len() ==> #[trigger] wire[1 + i] == signature[i]
    &&& forall|i: int|
        0 <= i < message.len() ==> #[trigger] wire[1 + signature.len() + i] == message[i]
}

/// A report is JSON where that was asked for, else text, of the transaction
/// that the signature completes.
pub proof fn law_report_is_in_the_form_asked_for(
    signer: SignerModel,
    options: SingleOptions,
    signature: Seq<u8>,
    timing: IterationModel,
    setup_init: u64,
)
    ensures
        ({
            let report = single_report_of(signer, options, signature, timing, setup_init);
            let init = shown_init(signer.key.curve, setup_init, timing);
            exists|wire: Seq<u8>| #[trigger]
                is_wire(wire, signature, single_message(signer, options)) && (if options.json {
                    match json_text(single_fields(signer, options, signature, wire, timing, init)) {
                        Ok(text) => report == Ok::<Seq<char>, Seq<char>>(text.push('\n')),
                        Err(e) => report == Err::<Seq<char>, Seq<char>>(e),
                    }
                } else {
                    report == Ok::<Seq<char>, Seq<char>>(
                        single_text(signer, options, signature, wire, timing, init),
                    )
                })
        }),
{
    let message = single_message(signer, options);
    let wire = seq![1u8] + signature + message;
    assert(is_wire(wire, signature, message));
    let init = shown_init(signer.key.curve, setup_init, timing);
    reveal_strlit("\n");
    if let Ok(text) = json_text(single_fields(signer, options, signature, wire, timing, init)) {
        assert(text + "\n"@ =~= text.push('\n'));
    }
}

/// The message carries what was asked for: the account of the key as the
/// sender, the recipient, the amount and the blockhash.
pub proof fn law_single_message_carries_what_was_asked(
    signer: SignerModel,
    options: SingleOptions,
)
    ensures
        ({
            let bytes = single_message(signer, options);
            &&& bytes.len() == 150
            &&& bytes.subrange(4, 36) == account_of(signer.key.bytes)
            &&& bytes.subrange(36, 68) == options.to@
            &&& bytes.subrange(100, 132) == options.blockhash@
            &&& from_little_endian(bytes.subrange(142, 150)) == options.lamports
        }),
{
    law_account_is_the_front_of_the_key(signer.key.bytes, 0);
    law_message_parts(
        account_of(signer.key.bytes),
        options.to@,
        options.lamports,
        options.blockhash@,
    );
}

/// What verifies the signatures of a curve goes by the curve's name.
pub proof fn law_verifier_is_that_of_the_curve(curve: Curve)
    ensures
        curve.spec_name().is_prefix_of(spec_verifier_name(curve)),
{
    reveal_strlit("ed25519");
    reveal_strlit("p256");
    reveal_strlit("ed25519-dalek");
    reveal_strlit("p256 (ecdsa)");
    let name = curve.spec_name();
    assert(name =~= spec_verifier_name(curve).subrange(0, name.len() as int));
}

/// A phase that is a call of the module is labelled with the call's name.
pub proof fn law_labels_name_the_calls(curve: Curve)
    ensures
        curve.spec_init_call().is_prefix_of(Phase::SignInit.spec_label_for_curve(curve)),
        curve.spec_sign_call().is_prefix_of(Phase::Sign.spec_label_for_curve(curve)),
        "C_Message"@.is_prefix_of(curve.spec_init_call()) <==> curve.one_shot(),
{
    reveal_strlit("C_Message");
    reveal_strlit("C_MessageSignInit");
    reveal_strlit("C_SignInit");
    reveal_strlit("C_SignMessage");
    reveal_strlit("C_Sign");
    reveal_strlit("C_MessageSignInit (setup)");
    reveal_strlit("C_SignMessage (network)");
    reveal_strlit("C_Sign (network)");
    let init = curve.spec_init_call();
    let sign = curve.spec_sign_call();
    assert(init =~= Phase::SignInit.spec_label_for_curve(curve).subrange(0, init.len() as int));
    assert(sign =~= Phase::Sign.spec_label_for_curve(curve).subrange(0, sign.len() as int));
    if curve.one_shot() {
        assert("C_Message"@ =~= init.subrange(0, 9));
    } else if "C_Message"@.is_prefix_of(init) {
        assert(init.subrange(0, 9)[2] == init[2]);
    }
}

} // verus!
