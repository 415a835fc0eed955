use sign_tx::decimal::Ratio;
use sign_tx::pkcs11::Curve;
use sign_tx::spread::Deviation;
use sign_tx::stats::{
    format_deviation, format_nanos, format_whole_nanos, percentile, Phase, Samples,
};
use sign_tx::wide::Wide;

fn samples_of(values: &[u64]) -> Samples {
    let mut s = Samples::with_capacity(values.len());
    for v in values {
        s.push(*v);
    }
    s
}

fn value(r: Ratio) -> f64 {
    r.num as f64 / r.den as f64
}

fn root(d: Deviation) -> f64 {
    assert_eq!(d.square.hi, 0);
    (d.square.lo as f64).sqrt() / d.den as f64
}

#[test]
fn empty_samples_have_no_summary() {
    assert!(Samples::with_capacity(4).summary().is_none());
}

#[test]
fn summary_computes_exact_percentiles() {
    let values: Vec<u64> = (1..=100).collect();
    let summary = samples_of(&values).summary().unwrap();
    assert_eq!(summary.n, 100);
    assert_eq!(summary.min, 1);
    assert_eq!(summary.max, 100);
    assert_eq!(summary.p50, 50);
    assert_eq!(summary.p90, 90);
    assert_eq!(summary.p99, 99);
    assert_eq!(value(summary.mean), 50.5);
}

#[test]
fn percentiles_are_order_independent() {
    let ascending = samples_of(&[1, 2, 3, 4, 5]).summary().unwrap();
    let shuffled = samples_of(&[4, 1, 5, 3, 2]).summary().unwrap();
    assert_eq!(ascending.p50, shuffled.p50);
    assert_eq!(ascending.max, shuffled.max);
}

#[test]
fn outlier_moves_mean_but_not_median() {
    let clean = samples_of(&[10; 99]);
    let mut noisy = clean.clone();
    noisy.push(100_000);
    let a = clean.summary().unwrap();
    let b = noisy.summary().unwrap();
    assert_eq!(a.p50, b.p50);
    assert!(value(b.mean) > value(a.mean) * 10.0);
}

#[test]
fn single_sample_summary() {
    let summary = samples_of(&[42]).summary().unwrap();
    assert_eq!(summary.min, 42);
    assert_eq!(summary.p999, 42);
    assert_eq!(root(summary.stddev), 0.0);
}

#[test]
fn throughput_derives_from_p50() {
    let summary = samples_of(&[1_000_000]).summary().unwrap();
    assert!((value(summary.throughput_p50().unwrap()) - 1000.0).abs() < 1e-6);
}

#[test]
fn formats_units_by_magnitude() {
    assert_eq!(format_nanos(Ratio::whole(500)), "500 ns");
    assert_eq!(format_nanos(Ratio::whole(1_500)), "1.50 µs");
    assert_eq!(format_nanos(Ratio::whole(2_500_000)), "2.500 ms");
    assert_eq!(format_nanos(Ratio::whole(3_000_000_000)), "3.000 s");
}

#[test]
fn summaries_are_ordered_and_order_independent() {
    let a = samples_of(&[9, 2, 7, 2, 5, 1, 8]).summary().unwrap();
    let b = samples_of(&[1, 2, 2, 5, 7, 8, 9]).summary().unwrap();
    assert_eq!(a, b);
    assert_eq!(a.min, 1);
    assert_eq!(a.p50, 5);
    assert_eq!(a.p90, 9);
    assert_eq!(a.p999, 9);
    assert_eq!(a.max, 9);
    assert_eq!(a.total, 34);
    assert_eq!(a.mean, Ratio { num: 34, den: 7 });
}

#[test]
fn nearest_rank_is_the_smallest_that_covers() {
    let sorted: Vec<u64> = (1..=10).collect();
    assert_eq!(percentile(&sorted, 500), 5);
    assert_eq!(percentile(&sorted, 501), 6);
    assert_eq!(percentile(&sorted, 999), 10);
    assert_eq!(percentile(&sorted, 0), 1);
    assert_eq!(percentile(&sorted, 5000), 10);
    assert_eq!(percentile(&[], 500), 0);
}

#[test]
fn spread_is_exact_where_it_can_be() {
    // 2, 4, 4, 4, 5, 5, 7, 9: mean 5, standard deviation 2.
    let s = samples_of(&[2, 4, 4, 4, 5, 5, 7, 9]).summary().unwrap();
    assert_eq!(root(s.stddev), 2.0);
    // 1, 2: standard deviation one half.
    let s = samples_of(&[1, 2]).summary().unwrap();
    assert_eq!(root(s.stddev), 0.5);
    // 1, 2, 3: the root of two thirds.
    let s = samples_of(&[1, 2, 3]).summary().unwrap();
    assert_eq!(s.stddev, Deviation { square: Wide::of(6), den: 3 });
    assert!((root(s.stddev) - (2.0f64 / 3.0).sqrt()).abs() < 1e-15);
    assert_eq!(format_deviation(s.stddev), "1 ns");
    // Equal samples have none.
    let s = samples_of(&[u64::MAX; 5]).summary().unwrap();
    assert_eq!(root(s.stddev), 0.0);
    assert_eq!(s.total, 5 * u64::MAX as u128);
}

#[test]
fn spread_prints_as_the_real_deviation_does() {
    for values in [vec![100, 110, 105, 120, 400], vec![1_204_000, 2_480_123, 5_632_777]] {
        let n = values.len() as f64;
        let mean = values.iter().map(|v| *v as f64).sum::<f64>() / n;
        let variance = values.iter().map(|v| (*v as f64 - mean).powi(2)).sum::<f64>() / n;
        let deviation = variance.sqrt();
        let s = samples_of(&values).summary().unwrap();
        assert!((root(s.stddev) - deviation).abs() <= deviation * 1e-12);
        let printed = format_deviation(s.stddev);
        if deviation < 1_000.0 {
            assert_eq!(printed, format!("{deviation:.0} ns"));
        } else {
            assert_eq!(printed, format!("{:.3} ms", deviation / 1_000_000.0));
        }
    }
}

#[test]
fn rates_without_bound_are_none() {
    let s = samples_of(&[0, 0, 9]).summary().unwrap();
    assert_eq!(s.throughput_p50(), None);
    assert_eq!(s.throughput_mean(), Some(Ratio { num: 3_000_000_000, den: 9 }));
    let s = samples_of(&[0]).summary().unwrap();
    assert_eq!(s.throughput_mean(), None);
}

#[test]
fn units_change_at_their_bounds() {
    assert_eq!(format_whole_nanos(0), "0 ns");
    assert_eq!(format_whole_nanos(999), "999 ns");
    assert_eq!(format_whole_nanos(1_000), "1.00 µs");
    assert_eq!(format_whole_nanos(999_999), "1000.00 µs");
    assert_eq!(format_whole_nanos(1_000_000), "1.000 ms");
    assert_eq!(format_whole_nanos(999_999_999), "1000.000 ms");
    assert_eq!(format_whole_nanos(1_000_000_000), "1.000 s");
    assert_eq!(format_nanos(Ratio { num: 1, den: 3 }), "0 ns");
    assert_eq!(format_nanos(Ratio { num: 1, den: 2 }), "0 ns");
    assert_eq!(format_nanos(Ratio { num: 3, den: 2 }), "2 ns");
}

#[test]
fn printed_like_floating_point() {
    let mut x: u64 = 7;
    for _ in 0..2000 {
        x = x.wrapping_mul(6364136223846793005).wrapping_add(1442695040888963407);
        let n = (x >> 24) % 4_000_000_000;
        let v = n as f64;
        let expected = if v < 1_000.0 {
            format!("{v:.0} ns")
        } else if v < 1_000_000.0 {
            format!("{:.2} µs", v / 1_000.0)
        } else if v < 1_000_000_000.0 {
            format!("{:.3} ms", v / 1_000_000.0)
        } else {
            format!("{:.3} s", v / 1_000_000_000.0)
        };
        assert_eq!(format_whole_nanos(n as u128), expected);
    }
}

#[test]
fn ties_follow_the_nearest_float() {
    for n in [1_005u64, 1_015, 1_025, 1_035, 1_045, 2_675, 8_345, 1_000_500, 1_001_500, 4_503_500] {
        let v = n as f64;
        let expected = if v < 1_000_000.0 {
            format!("{:.2} µs", v / 1_000.0)
        } else {
            format!("{:.3} ms", v / 1_000_000.0)
        };
        assert_eq!(format_whole_nanos(n as u128), expected);
    }
}

#[test]
fn phases_have_labels_and_keys() {
    assert_eq!(Phase::ALL.len(), 4);
    assert_eq!(Phase::SignInit.key(), "sign_init");
    assert_eq!(Phase::Sign.key(), "sign");
    assert_eq!(Phase::Verify.key(), "verify");
    assert_eq!(Phase::Total.key(), "total");
    assert_eq!(Phase::SignInit.label(), "C_SignInit");
    assert_eq!(Phase::SignInit.label_for_curve(Curve::Ed25519), "C_MessageSignInit (setup)");
    assert_eq!(Phase::Sign.label_for_curve(Curve::Ed25519), "C_SignMessage (network)");
    assert_eq!(Phase::Sign.label_for_curve(Curve::P256), "C_Sign (network)");
    assert_eq!(Phase::Total.label_for_curve(Curve::Ed25519), "total");
}

#[test]
fn samples_are_kept_in_order() {
    let s = samples_of(&[3, 1, 2]);
    assert_eq!(s.len(), 3);
    assert!(!s.is_empty());
    assert_eq!(s.raw(), &[3, 1, 2]);
    assert!(samples_of(&[]).is_empty());
}

#[test]
fn the_mean_lies_between_the_extremes() {
    let s = samples_of(&[7, 1, 100]).summary().unwrap();
    assert_eq!(s.mean, Ratio { num: 108, den: 3 });
    assert!(s.min as u128 * s.mean.den <= s.mean.num);
    assert!(s.mean.num <= s.max as u128 * s.mean.den);
}
