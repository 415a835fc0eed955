use ed25519_dalek::Signer as _;
use p256::ecdsa::signature::hazmat::PrehashSigner;
use sign_tx::decimal::Ratio;
use sign_tx::export::{is_json, samples_csv, samples_json};
use sign_tx::payload::{account_bytes, fresh_payload, payload, payloads};
use sign_tx::pkcs11::{Curve, KeyPair, ModuleInfo, Slot};
use sign_tx::random::label_of;
use sign_tx::report::{chart_title_text, header_text};
use sign_tx::run::{BenchOptions, Benchmark, Iteration, Measured, Next, SingleOptions};
use sign_tx::setup::{Event, Setup, SignerConfig, PROBE};
use sign_tx::signer::Signer;
use sign_tx::single::{single_report, single_transfer, verifier_name};
use sign_tx::solana::encode_pubkey;
use sign_tx::stats::{Phase, Samples};

fn ed25519_key() -> ed25519_dalek::SigningKey {
    ed25519_dalek::SigningKey::from_bytes(&[9u8; 32])
}

fn ed25519_signer() -> Signer {
    let config = SignerConfig {
        slot: None,
        key_id: None,
        pin: None,
        curve: Curve::Ed25519,
        public_key_der: Some(ed25519_key().verifying_key().to_bytes().to_vec()),
    };
    let setup = Setup::with_label(config, "bench-x".to_string())
        .step(Event::Slots(Ok(vec![Slot::from_info(1, None, None)])))
        .step(Event::Done(Ok(())))
        .step(Event::Generated(Ok(KeyPair { public: 1, private: 2 })))
        .step(Event::Done(Ok(())))
        .step(Event::Bytes(Ok(ed25519_key().sign(&PROBE).to_bytes().to_vec())));
    match setup.finish() {
        Some(Ok(signer)) => signer,
        _ => panic!("no signer"),
    }
}

fn p256_sign(message: &[u8]) -> Vec<u8> {
    let key = p256::ecdsa::SigningKey::from_slice(&[9u8; 32]).unwrap();
    let digest = Curve::P256.signing_input(message);
    let signature: p256::ecdsa::Signature = key.sign_prehash(&digest).unwrap();
    signature.to_der().as_bytes().to_vec()
}

fn p256_signer() -> Signer {
    let key = p256::ecdsa::SigningKey::from_slice(&[9u8; 32]).unwrap();
    let config = SignerConfig {
        slot: None,
        key_id: None,
        pin: None,
        curve: Curve::P256,
        public_key_der: Some(key.verifying_key().to_encoded_point(false).as_bytes().to_vec()),
    };
    let setup = Setup::with_label(config, "bench-y".to_string())
        .step(Event::Slots(Ok(vec![Slot::from_info(1, None, None)])))
        .step(Event::Done(Ok(())))
        .step(Event::Generated(Ok(KeyPair { public: 1, private: 2 })))
        .step(Event::Done(Ok(())))
        .step(Event::Bytes(Ok(p256_sign(&PROBE))));
    match setup.finish() {
        Some(Ok(signer)) => signer,
        _ => panic!("no signer"),
    }
}

fn options(iterations: usize, warmup: usize, warmup_time: u64) -> BenchOptions {
    BenchOptions {
        iterations,
        warmup,
        warmup_time,
        lamports: 1_000_000,
        to: [2; 32],
        output: None,
        chart: None,
    }
}

fn iteration(sign_init: u64, sign: u64, verify: u64) -> Iteration {
    Iteration::new(sign_init, sign, verify).unwrap()
}

fn benchmark(curve: Curve, options: &BenchOptions) -> Benchmark {
    Benchmark::new(curve, options).unwrap_or_else(|e| panic!("{}", e))
}

fn measured(benchmark: Benchmark) -> Measured {
    benchmark.conclude().unwrap_or_else(|e| panic!("{}", e))
}

fn reason(benchmark: Benchmark) -> String {
    match benchmark.conclude() {
        Ok(_) => panic!("concluded"),
        Err(e) => e,
    }
}

#[test]
fn accounts_are_padded_or_cut() {
    assert_eq!(account_bytes(&[7; 32]), [7; 32]);
    let mut expected = [0u8; 32];
    expected[..3].copy_from_slice(&[1, 2, 3]);
    assert_eq!(account_bytes(&[1, 2, 3]), expected);
    let long: Vec<u8> = (0..65).collect();
    assert_eq!(account_bytes(&long)[..], long[..32]);
}

#[test]
fn payloads_carry_index_and_salt() {
    let bytes = payload(&[1; 32], &[2; 32], 5, 0x0102, 0xaabb_0011_2233_4455_6677);
    assert_eq!(bytes.len(), 150);
    assert_eq!(&bytes[100..108], &[2, 1, 0, 0, 0, 0, 0, 0]);
    assert_eq!(&bytes[108..116], &[0x77, 0x66, 0x55, 0x44, 0x33, 0x22, 0x11, 0x00]);
    assert_eq!(&bytes[116..132], &[0; 16]);
    assert_eq!(&bytes[4..36], &[1; 32]);
    assert_eq!(&bytes[36..68], &[2; 32]);
}

#[test]
fn payloads_are_distinct_and_of_one_length() {
    let messages = payloads(&[1; 32], &[2; 32], 5, 40);
    assert_eq!(messages.len(), 40);
    for (i, a) in messages.iter().enumerate() {
        assert_eq!(a.len(), 150);
        for b in &messages[..i] {
            assert_ne!(a, b);
        }
    }
    let again = fresh_payload(&[1; 32], &[2; 32], 5, 0);
    assert_ne!(again, messages[0]);
    assert_eq!(again[100..108], messages[0][100..108]);
}

#[test]
fn labels_are_hyphenated() {
    assert_eq!(
        label_of(0x0123_4567_89ab_4def_8123_4567_89ab_cdef),
        "bench-01234567-89ab-4def-8123-456789abcdef"
    );
}

#[test]
fn phases_of_an_iteration_add_up() {
    let i = iteration(1, 20, 300);
    assert_eq!(i.timing(Phase::SignInit), 1);
    assert_eq!(i.timing(Phase::Sign), 20);
    assert_eq!(i.timing(Phase::Verify), 300);
    assert_eq!(i.timing(Phase::Total), 321);
    assert!(Iteration::new(u64::MAX, 1, 0).is_none());
    assert!(Iteration::new(u64::MAX - 1, 1, 0).is_some());
}

#[test]
fn a_benchmark_needs_an_iteration() {
    match Benchmark::new(Curve::P256, &options(0, 5, 0)) {
        Err(e) => assert_eq!(e, "--iterations must be at least 1"),
        Ok(_) => panic!("accepted"),
    }
}

#[test]
fn warmup_runs_until_both_are_satisfied() {
    let b = benchmark(Curve::Ed25519, &options(3, 2, 1));
    let (b, next) = b.next(0, false);
    assert_eq!(next, Next::WarmUp(0));
    let b = b.record(&iteration(0, 5, 5));
    let (b, next) = b.next(2_000_000_000, false);
    assert_eq!(next, Next::WarmUp(1));
    let b = b.record(&iteration(0, 6, 5));
    let (b, next) = b.next(999_999_999, false);
    assert_eq!(next, Next::WarmUp(5));
    let b = b.record(&iteration(0, 7, 5));
    let (b, next) = b.next(1_000_000_000, true);
    assert_eq!(next, Next::Begin);
    let (b, next) = b.next(1_000_000_000, false);
    assert_eq!(next, Next::Measure(2));
    assert_eq!(b.completed(), 0);
    let b = b.record(&iteration(0, 1, 1));
    assert_eq!(measured(b).warmup().raw(), &[10, 11, 12]);
}

#[test]
fn an_interrupted_warmup_is_given_up() {
    let b = benchmark(Curve::Ed25519, &options(3, 2, 1));
    let (b, next) = b.next(999_999_999, true);
    assert_eq!(next, Next::Abort);
    let (b, next) = b.next(2_000_000_000, false);
    assert_eq!(next, Next::Abort);
    assert_eq!(reason(b.record(&iteration(0, 1, 1))), "interrupted during warmup");
}

#[test]
fn nothing_measured_is_no_result() {
    let b = benchmark(Curve::Ed25519, &options(3, 0, 0)).next(0, false).0;
    let (b, next) = b.next(0, true);
    assert_eq!(next, Next::Interrupted(0));
    assert_eq!(reason(b), "no iterations completed");
}

#[test]
fn measurements_are_recorded_per_phase() {
    let mut b = benchmark(Curve::P256, &options(2, 0, 0)).next(0, false).0;
    for k in 0..2 {
        let (next_b, next) = b.next(0, false);
        assert_eq!(next, Next::Measure(k));
        b = next_b.record(&iteration(1 + k, 10, 100));
    }
    let (b, next) = b.next(0, true);
    assert_eq!(next, Next::Finish);
    assert_eq!(b.completed(), 2);
    let b = b.record(&iteration(9, 9, 9));
    let b = measured(b);
    let keys: Vec<&str> = b.phases().iter().map(|(p, _)| p.key()).collect();
    assert_eq!(keys, vec!["sign_init", "sign", "verify", "total"]);
    assert_eq!(b.phases()[0].1.raw(), &[1, 2]);
    assert_eq!(b.phases()[3].1.raw(), &[111, 112]);
    assert_eq!(b.completed(), 2);
}

#[test]
fn message_signing_records_no_initialisation() {
    let b = benchmark(Curve::Ed25519, &options(1, 0, 0)).next(0, false).0;
    let b = measured(b.record(&iteration(0, 10, 100)));
    let keys: Vec<&str> = b.phases().iter().map(|(p, _)| p.key()).collect();
    assert_eq!(keys, vec!["sign", "verify", "total"]);
    assert_eq!(b.curve(), Curve::Ed25519);
}

#[test]
fn an_interrupted_measurement_keeps_what_it_has() {
    let b = benchmark(Curve::P256, &options(5, 1, 0));
    let b = b.record(&iteration(1, 1, 1)).next(0, false).0;
    let b = b.record(&iteration(1, 1, 1)).record(&iteration(1, 1, 1));
    let (b, next) = b.next(0, true);
    assert_eq!(next, Next::Interrupted(2));
    assert_eq!(measured(b).completed(), 2);
}

#[test]
fn the_first_failure_ends_a_measurement() {
    let b = benchmark(Curve::P256, &options(5, 1, 0));
    let b = b.record(&iteration(1, 1, 1)).next(0, false).0;
    let b = b.record(&iteration(1, 1, 1)).record(&iteration(1, 1, 1));
    let b = b.fail("x").fail("y");
    let (b, next) = b.next(0, false);
    assert_eq!(next, Next::Abort);
    let b = b.record(&iteration(1, 1, 1));
    assert_eq!(b.completed(), 2);
    assert_eq!(reason(b), "signing failed at iteration 2 of 5: x");
}

#[test]
fn the_first_failure_ends_a_warmup() {
    let b = benchmark(Curve::P256, &options(5, 1, 0)).fail("x");
    let (b, next) = b.next(u128::MAX, false);
    assert_eq!(next, Next::Abort);
    assert_eq!(reason(b), "warmup iteration failed: x");
}

fn info() -> ModuleInfo {
    ModuleInfo::from_info((3, 1), b"Cosmian ", b"KMS provider  ", (5, 27))
}

#[test]
fn the_header_is_exact() {
    let text = header_text(
        "host-1",
        &info(),
        &ed25519_signer(),
        150,
        &options(1000, 50, 3),
        Ratio { num: 304_000, den: 10_000 },
        Ratio { num: 1_260_000, den: 1050 },
    );
    let expected = [
        "=== sign-tx benchmark ===",
        "Host              host-1",
        "Module            KMS provider 5.27 (Cryptoki 3.1)",
        "Manufacturer      Cosmian",
        "Key id            bench-x",
        "Mechanism         CKM_EDDSA (Ed25519, pure)",
        "Payload           Solana transfer message, 150 bytes",
        "Iterations        1000",
        "Warmup            50",
        "Concurrency       1 (sequential — latency, not throughput under load)",
        "Clock             std::time::Instant, overhead ~30 ns",
        "Serialize         1.20 µs per message (pre-generated, outside the timed loop)",
        "Broadcast         no",
        "",
        "",
    ];
    assert_eq!(text, expected.join("\n"));
}

#[test]
fn the_report_is_exact() {
    let mut b = benchmark(Curve::P256, &options(3, 2, 0));
    b = b.record(&iteration(1, 2, 3)).record(&iteration(1, 1, 1));
    b = b.next(0, false).0;
    for k in 0..3u64 {
        b = b.record(&iteration(2_600 + k, 1_204_000 * (k + 1), 141_150));
    }
    let text = measured(b).report(554_828_000);
    let row = |cells: [&str; 9]| {
        format!(
            "{:<18} {:>8} {:>11} {:>11} {:>11} {:>11} {:>11} {:>11} {:>11}",
            cells[0], cells[1], cells[2], cells[3], cells[4], cells[5], cells[6], cells[7],
            cells[8]
        )
    };
    let expected = [
        "Warmup (discarded): n=2 first=6 ns p50=3 ns last-min=3 ns".to_string(),
        String::new(),
        row(["phase", "n", "min", "p50", "p90", "p99", "p999", "max", "stddev"]),
        "-".repeat(116),
        row([
            "C_SignInit", "3", "2.60 µs", "2.60 µs", "2.60 µs", "2.60 µs", "2.60 µs", "2.60 µs",
            "1 ns",
        ]),
        row([
            "C_Sign (network)", "3", "1.204 ms", "2.408 ms", "3.612 ms", "3.612 ms", "3.612 ms",
            "3.612 ms", "983.06 µs",
        ]),
        row([
            "verify (local)", "3", "141.15 µs", "141.15 µs", "141.15 µs", "141.15 µs",
            "141.15 µs", "141.15 µs", "0 ns",
        ]),
        row([
            "total", "3", "1.348 ms", "2.552 ms", "3.756 ms", "3.756 ms", "3.756 ms", "3.756 ms",
            "983.06 µs",
        ]),
        String::new(),
        "Throughput        391.9 sig/s at p50, 391.9 sig/s at mean".to_string(),
        "C_Sign share      94.4% of total (the network-bound component)".to_string(),
        "Wall clock        554.828 ms for 3 iterations".to_string(),
        String::new(),
    ];
    assert_eq!(text, expected.join("\n"));
}

#[test]
fn a_report_without_time_has_no_bounds() {
    let b = benchmark(Curve::Ed25519, &options(1, 0, 0)).next(0, false).0;
    let b = b.record(&iteration(0, 0, 0));
    let text = measured(b).report(0);
    assert!(!text.contains("Warmup"));
    assert!(text.contains("C_SignMessage (network) "));
    assert!(text.contains("Throughput        inf sig/s at p50, inf sig/s at mean\n"));
    assert!(text.contains("C_Sign share      NaN% of total"));
    assert!(text.ends_with("Wall clock        0 ns for 1 iterations\n"));
}

#[test]
fn charts_are_titled_after_the_module() {
    assert_eq!(chart_title_text(Some("KMS"), 7), "KMS — 7 signatures via PKCS#11");
    assert_eq!(chart_title_text(None, 7), "PKCS#11 module — 7 signatures via PKCS#11");
}

#[test]
fn extensions_choose_the_format() {
    assert!(is_json(Some("json")));
    assert!(is_json(Some("JsOn")));
    assert!(!is_json(Some("jsonl")));
    assert!(!is_json(Some("csv")));
    assert!(!is_json(Some("")));
    assert!(!is_json(None));
}

fn recorded() -> Measured {
    let b = benchmark(Curve::P256, &options(2, 0, 0)).next(0, false).0;
    measured(b.record(&iteration(1, 20, 300)).record(&iteration(2, 30, 400)))
}

#[test]
fn samples_go_out_as_csv() {
    let expected = "iteration,sign_init_ns,sign_ns,verify_ns,total_ns\n0,1,20,300,321\n1,2,30,400,432\n";
    assert_eq!(recorded().samples(Some("csv")), Ok(expected.to_string()));
    assert_eq!(recorded().samples(None), Ok(expected.to_string()));
    assert_eq!(samples_csv(&[]), "iteration,\n");
    let none = vec![(Phase::Sign, Samples::with_capacity(0))];
    assert_eq!(samples_csv(&none), "iteration,sign_ns\n");
    let mut sign = Samples::with_capacity(1);
    sign.push(7);
    let mut verify = Samples::with_capacity(2);
    verify.push(8);
    verify.push(9);
    let longer = vec![(Phase::Sign, sign), (Phase::Verify, verify)];
    assert_eq!(samples_csv(&longer), "iteration,sign_ns,verify_ns\n0,7,8\n");
}

#[test]
fn samples_go_out_as_json() {
    let expected = "{\n  \"sign\": [\n    20,\n    30\n  ],\n  \"sign_init\": [\n    1,\n    2\n  ],\n  \"total\": [\n    321,\n    432\n  ],\n  \"verify\": [\n    300,\n    400\n  ]\n}";
    assert_eq!(recorded().samples(Some("JSON")), Ok(expected.to_string()));
    assert_eq!(samples_json(&[]), Ok("{}".to_string()));
}

fn single(json: bool) -> SingleOptions {
    SingleOptions { to: [2; 32], lamports: 77, blockhash: [3; 32], json }
}

#[test]
fn a_single_signature_is_reported() {
    let signer = ed25519_signer();
    let options = single(false);
    let transfer = single_transfer(&signer, &options);
    let public = ed25519_key().verifying_key().to_bytes();
    assert_eq!(transfer.from, public);
    assert_eq!(transfer.to, [2; 32]);
    assert_eq!(transfer.recent_blockhash, [3; 32]);
    let message = transfer.message_bytes();
    let signature = ed25519_key().sign(&message).to_bytes();
    let signed = match signer.accept(&message, &signature) {
        Ok(signed) => signed,
        Err(e) => panic!("{}", e),
    };
    assert_eq!(signed.message(), &message[..]);
    assert_eq!(signed.signature(), &signature);
    let text = single_report(&signer, &options, &signed, &iteration(0, 2_500_000, 1_500), 900);
    let expected = [
        "Key id          bench-x".to_string(),
        format!("From            {}", encode_pubkey(&public)),
        format!("To              {}", encode_pubkey(&[2; 32])),
        "Lamports        77".to_string(),
        format!("Blockhash       {}", encode_pubkey(&[3; 32])),
        "Message         150 bytes".to_string(),
        format!("Signature       {}", bs58::encode(&signature).into_string()),
        "Verified        yes (locally, ed25519-dalek)".to_string(),
        "Broadcast       no".to_string(),
        String::new(),
        "  C_MessageSignInit (setup) 900 ns".to_string(),
        "  C_SignMessage (network) 2.500 ms".to_string(),
        "  verify (local)     1.50 µs".to_string(),
        "  total              2.502 ms".to_string(),
        String::new(),
        "Transaction (base58, not broadcast):".to_string(),
        bs58::encode(transfer.to_wire(&signature)).into_string(),
        String::new(),
    ];
    assert_eq!(text, Ok(expected.join("\n")));
}

#[test]
fn a_single_signature_is_reported_as_json() {
    let signer = p256_signer();
    let options = single(true);
    let transfer = single_transfer(&signer, &options);
    let message = transfer.message_bytes();
    let signature = p256_sign(&message);
    let signed = match signer.accept(&message, &signature) {
        Ok(signed) => signed,
        Err(e) => panic!("{}", e),
    };
    let text = single_report(&signer, &options, &signed, &iteration(5, 20, 300), 900).unwrap();
    assert!(text.starts_with("{\n  \"broadcast\": false,\n"));
    assert!(text.ends_with("}\n"));
    let value: serde_json::Value = serde_json::from_str(&text).unwrap();
    assert_eq!(value.as_object().unwrap().len(), 12);
    assert_eq!(value["key_id"], "bench-y");
    assert_eq!(value["from"], encode_pubkey(&transfer.from));
    assert_eq!(value["to"], encode_pubkey(&[2; 32]));
    assert_eq!(value["lamports"], 77);
    assert_eq!(value["recent_blockhash"], encode_pubkey(&[3; 32]));
    assert_eq!(value["message_len"], 150);
    assert_eq!(value["message_base58"], bs58::encode(&message).into_string());
    assert_eq!(value["signature_base58"], bs58::encode(&signature).into_string());
    assert_eq!(
        value["transaction_base58"],
        bs58::encode(transfer.to_wire(&signature)).into_string()
    );
    assert_eq!(value["verified"], true);
    assert_eq!(value["timings_ns"]["sign_init"], 5);
    assert_eq!(value["timings_ns"]["sign"], 20);
    assert_eq!(value["timings_ns"]["verify"], 300);
    assert_eq!(value["timings_ns"]["total"], 325);
}

fn refusal(signer: &Signer, message: &[u8], signature: &[u8]) -> String {
    match signer.accept(message, signature) {
        Ok(_) => panic!("accepted"),
        Err(e) => e,
    }
}

#[test]
fn only_verified_signatures_are_accepted() {
    let signature = ed25519_key().sign(b"m").to_bytes();
    assert!(ed25519_signer().accept(b"m", &signature).is_ok());
    assert_eq!(
        refusal(&ed25519_signer(), b"m", &signature[..10]),
        "expected a 64-byte signature, module returned 10 bytes"
    );
    assert!(refusal(&ed25519_signer(), b"n", &signature)
        .starts_with("Ed25519 signature verification failed: "));
    assert!(p256_signer().accept(b"m", &p256_sign(b"m")).is_ok());
    assert_eq!(
        refusal(&p256_signer(), b"n", &p256_sign(b"m")),
        "P-256 signature verification failed: signature error"
    );
    assert_eq!(p256_signer().verify(b"m", &p256_sign(b"m")), Ok(()));
}

#[test]
fn verifiers_have_names() {
    assert_eq!(verifier_name(Curve::Ed25519), "ed25519-dalek");
    assert_eq!(verifier_name(Curve::P256), "p256 (ecdsa)");
}

#[test]
fn csv_has_a_line_per_iteration() {
    let text = recorded().samples(None).unwrap();
    assert_eq!(text.matches('\n').count(), 3);
    assert!(text.ends_with('\n'));
}

#[test]
fn the_course_of_a_whole_benchmark() {
    let options = options(4, 3, 0);
    let mut b = benchmark(Curve::P256, &options);
    let mut numbers = Vec::new();
    loop {
        let (moved, next) = b.next(0, false);
        b = moved;
        match next {
            Next::WarmUp(n) | Next::Measure(n) => {
                numbers.push(n);
                b = b.record(&iteration(1, 2, 3));
            }
            Next::Begin => assert_eq!(numbers, vec![0, 1, 2]),
            Next::Finish => break,
            other => panic!("{:?}", other),
        }
    }
    assert_eq!(numbers, vec![0, 1, 2, 3, 4, 5, 6]);
    assert_eq!(b.completed(), 4);
    for (_, samples) in measured(b).phases() {
        assert_eq!(samples.len(), 4);
    }
}
