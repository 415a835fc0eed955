use sign_tx::chart::render;
use sign_tx::histogram::fill_buckets;
use sign_tx::stats::{Phase, Samples};
use sign_tx::svg::{above_text, below_text, escape, phase_colour};
use sign_tx::timeline::timeline;

fn samples_of(values: &[u64]) -> Samples {
    let mut s = Samples::with_capacity(values.len());
    for v in values {
        s.push(*v);
    }
    s
}

fn phases() -> Vec<(Phase, Samples)> {
    vec![
        (Phase::SignInit, samples_of(&[10, 12, 11, 13, 40])),
        (Phase::Sign, samples_of(&[100, 110, 105, 120, 400])),
        (Phase::Verify, samples_of(&[50, 52, 51, 53, 60])),
        (Phase::Total, samples_of(&[160, 174, 167, 186, 500])),
    ]
}

#[test]
fn renders_well_formed_svg() {
    let svg = render(&phases(), "test run");
    assert!(svg.starts_with("<svg"));
    assert!(svg.trim_end().ends_with("</svg>"));
    assert_eq!(svg.matches("<svg").count(), 1);
}

#[test]
fn includes_every_phase_label() {
    let svg = render(&phases(), "test run");
    for phase in Phase::ALL {
        assert!(svg.contains(phase.label()), "missing {}", phase.label());
    }
}

#[test]
fn empty_input_renders_nothing() {
    assert!(render(&[], "empty").is_empty());
    let empty = vec![(Phase::Sign, Samples::with_capacity(0))];
    assert!(render(&empty, "empty").is_empty());
}

#[test]
fn escapes_title_markup() {
    let svg = render(&phases(), "a <b> & c");
    assert!(svg.contains("a &lt;b&gt; &amp; c"));
    assert!(!svg.contains("<b>"));
}

#[test]
fn handles_identical_samples_without_dividing_by_zero() {
    let flat = vec![(Phase::Sign, samples_of(&[500; 40]))];
    let svg = render(&flat, "flat");
    assert!(svg.contains("</svg>"));
    assert!(!svg.contains("NaN"));
    assert!(!svg.contains("inf"));
}

#[test]
fn handles_single_sample() {
    let one = vec![(Phase::Sign, samples_of(&[42]))];
    let svg = render(&one, "one");
    assert!(svg.contains("</svg>"));
    assert!(!svg.contains("NaN"));
}

#[test]
fn large_runs_switch_to_envelope_rendering() {
    let values: Vec<u64> = (0..4000).map(|i| 1000 + (i % 97)).collect();
    let big = vec![(Phase::Sign, samples_of(&values))];
    let svg = render(&big, "big");
    assert!(svg.contains("<polygon"));
    assert!(!svg.contains("NaN"));
}

#[test]
fn small_runs_plot_individual_points() {
    let svg = render(&phases(), "small");
    assert!(svg.contains("<circle"));
}

#[test]
fn the_whole_chart_is_exact() {
    let expected: Vec<&str> = vec![
        r##"<svg xmlns="http://www.w3.org/2000/svg" width="960" height="2088" viewBox="0 0 960 2088" font-family="ui-sans-serif, system-ui, sans-serif">"##,
        "\n",
        r##"<rect width="960" height="2088" fill="#ffffff"/>"##,
        "\n",
        r##"<text x="88" y="42" font-size="20" font-weight="600" fill="#1a1d23">test run</text>"##,
        "\n",
        r##"<text x="88" y="64" font-size="12" fill="#6b7280">"##,
        r##"Per-step signing latency &#183; sequential &#183; every sample retained</text>"##,
        "\n",
        r##"<text x="88" y="104.0" font-size="13" font-weight="600" fill="#1a1d23">Where the time goes</text>"##,
        r##"<rect x="88.00" y="116.0" width="61.15" height="26" fill="#7c8cf8"/>"##,
        r##"<rect x="149.15" y="116.0" width="593.72" height="26" fill="#e8734a"/>"##,
        r##"<text x="446.01" y="133.0" font-size="11" font-weight="600" fill="#ffffff" text-anchor="middle">70.3%</text>"##,
        r##"<rect x="742.86" y="116.0" width="189.14" height="26" fill="#4fb286"/>"##,
        r##"<text x="837.43" y="133.0" font-size="11" font-weight="600" fill="#ffffff" text-anchor="middle">22.4%</text>"##,
        r##"<rect x="88.0" y="151.0" width="10" height="10" rx="2" fill="#7c8cf8"/>"##,
        r##"<text x="103.0" y="160.0" font-size="11" fill="#4b5563">C_SignInit &#183; 86 ns total</text>"##,
        r##"<rect x="369.3" y="151.0" width="10" height="10" rx="2" fill="#e8734a"/>"##,
        r##"<text x="384.3" y="160.0" font-size="11" fill="#4b5563">C_Sign (network) &#183; 835 ns total</text>"##,
        r##"<rect x="650.7" y="151.0" width="10" height="10" rx="2" fill="#4fb286"/>"##,
        r##"<text x="665.7" y="160.0" font-size="11" fill="#4b5563">verify (local) &#183; 266 ns total</text>"##,
        r##"<text x="88" y="214.0" font-size="14" font-weight="600" fill="#1a1d23">C_SignInit</text>"##,
        r##"<text x="932.0" y="214.0" font-size="11" fill="#6b7280" text-anchor="end">"##,
        r##"n=5 &#183; p50 12 ns &#183; p99 40 ns &#183; max 40 ns</text>"##,
        r##"<rect x="88.00" y="240.00" width="16.58" height="178.00" fill="#7c8cf8" opacity="0.75"/>"##,
        r##"<rect x="123.17" y="240.00" width="16.58" height="178.00" fill="#7c8cf8" opacity="0.75"/>"##,
        r##"<rect x="140.75" y="240.00" width="16.58" height="178.00" fill="#7c8cf8" opacity="0.75"/>"##,
        r##"<rect x="175.92" y="240.00" width="16.58" height="178.00" fill="#7c8cf8" opacity="0.75"/>"##,
        r##"<rect x="914.42" y="240.00" width="16.58" height="178.00" fill="#7c8cf8" opacity="0.75"/>"##,
        r##"<line x1="88" y1="418.0" x2="932.0" y2="418.0" stroke="#d1d5db" stroke-width="1"/>"##,
        r##"<line x1="144.27" y1="232.0" x2="144.27" y2="418.0" stroke="#1a1d23" stroke-width="1.2" stroke-dasharray="none" opacity="0.65"/>"##,
        r##"<text x="148.27" y="241.0" font-size="10" fill="#1a1d23">p50 12 ns</text>"##,
        r##"<line x1="932.00" y1="232.0" x2="932.00" y2="418.0" stroke="#1a1d23" stroke-width="1.2" stroke-dasharray="3 3" opacity="0.65"/>"##,
        r##"<text x="936.00" y="241.0" font-size="10" fill="#1a1d23">p99 40 ns</text>"##,
        r##"<text x="88" y="432.0" font-size="10" fill="#6b7280">10 ns</text>"##,
        r##"<text x="932.0" y="432.0" font-size="10" fill="#6b7280" text-anchor="end">40 ns</text>"##,
        r##"<text x="58.0" y="323.0" font-size="10" fill="#9ca3af" text-anchor="middle" transform="rotate(-90 58.0 323.0)">"##,
        r##"count</text><rect x="88" y="466.0" width="844" height="170" fill="#fafafa" stroke="#e5e7eb" stroke-width="1"/>"##,
        r##"<line x1="88" y1="624.67" x2="932.0" y2="624.67" stroke="#1a1d23" stroke-width="1" opacity="0.45"/>"##,
        r##"<text x="92.0" y="620.67" font-size="10" fill="#1a1d23" opacity="0.7">p50</text>"##,
        r##"<circle cx="88.00" cy="636.00" r="1.6" fill="#7c8cf8" opacity="0.55"/>"##,
        r##"<circle cx="299.00" cy="624.67" r="1.6" fill="#7c8cf8" opacity="0.55"/>"##,
        r##"<circle cx="510.00" cy="630.33" r="1.6" fill="#7c8cf8" opacity="0.55"/>"##,
        r##"<circle cx="721.00" cy="619.00" r="1.6" fill="#7c8cf8" opacity="0.55"/>"##,
        r##"<circle cx="932.00" cy="466.00" r="1.6" fill="#7c8cf8" opacity="0.55"/>"##,
        r##"<text x="88" y="650.0" font-size="10" fill="#6b7280">iteration 0</text>"##,
        r##"<text x="932.0" y="650.0" font-size="10" fill="#6b7280" text-anchor="end">4</text>"##,
        r##"<text x="80.0" y="476.0" font-size="10" fill="#9ca3af" text-anchor="end">40 ns</text>"##,
        r##"<text x="80.0" y="636.0" font-size="10" fill="#9ca3af" text-anchor="end">10 ns</text>"##,
        r##"<text x="88" y="682.0" font-size="14" font-weight="600" fill="#1a1d23">C_Sign (network)</text>"##,
        r##"<text x="932.0" y="682.0" font-size="11" fill="#6b7280" text-anchor="end">"##,
        r##"n=5 &#183; p50 110 ns &#183; p99 400 ns &#183; max 400 ns</text>"##,
        r##"<rect x="88.00" y="708.00" width="16.58" height="178.00" fill="#e8734a" opacity="0.75"/>"##,
        r##"<rect x="105.58" y="708.00" width="16.58" height="178.00" fill="#e8734a" opacity="0.75"/>"##,
        r##"<rect x="123.17" y="708.00" width="16.58" height="178.00" fill="#e8734a" opacity="0.75"/>"##,
        r##"<rect x="140.75" y="708.00" width="16.58" height="178.00" fill="#e8734a" opacity="0.75"/>"##,
        r##"<rect x="914.42" y="708.00" width="16.58" height="178.00" fill="#e8734a" opacity="0.75"/>"##,
        r##"<line x1="88" y1="886.0" x2="932.0" y2="886.0" stroke="#d1d5db" stroke-width="1"/>"##,
        r##"<line x1="116.13" y1="700.0" x2="116.13" y2="886.0" stroke="#1a1d23" stroke-width="1.2" stroke-dasharray="none" opacity="0.65"/>"##,
        r##"<text x="120.13" y="709.0" font-size="10" fill="#1a1d23">p50 110 ns</text>"##,
        r##"<line x1="932.00" y1="700.0" x2="932.00" y2="886.0" stroke="#1a1d23" stroke-width="1.2" stroke-dasharray="3 3" opacity="0.65"/>"##,
        r##"<text x="936.00" y="709.0" font-size="10" fill="#1a1d23">p99 400 ns</text>"##,
        r##"<text x="88" y="900.0" font-size="10" fill="#6b7280">100 ns</text>"##,
        r##"<text x="932.0" y="900.0" font-size="10" fill="#6b7280" text-anchor="end">400 ns</text>"##,
        r##"<text x="58.0" y="791.0" font-size="10" fill="#9ca3af" text-anchor="middle" transform="rotate(-90 58.0 791.0)">"##,
        r##"count</text><rect x="88" y="934.0" width="844" height="170" fill="#fafafa" stroke="#e5e7eb" stroke-width="1"/>"##,
        r##"<line x1="88" y1="1098.33" x2="932.0" y2="1098.33" stroke="#1a1d23" stroke-width="1" opacity="0.45"/>"##,
        r##"<text x="92.0" y="1094.33" font-size="10" fill="#1a1d23" opacity="0.7">p50</text>"##,
        r##"<circle cx="88.00" cy="1104.00" r="1.6" fill="#e8734a" opacity="0.55"/>"##,
        r##"<circle cx="299.00" cy="1098.33" r="1.6" fill="#e8734a" opacity="0.55"/>"##,
        r##"<circle cx="510.00" cy="1101.17" r="1.6" fill="#e8734a" opacity="0.55"/>"##,
        r##"<circle cx="721.00" cy="1092.67" r="1.6" fill="#e8734a" opacity="0.55"/>"##,
        r##"<circle cx="932.00" cy="934.00" r="1.6" fill="#e8734a" opacity="0.55"/>"##,
        r##"<text x="88" y="1118.0" font-size="10" fill="#6b7280">iteration 0</text>"##,
        r##"<text x="932.0" y="1118.0" font-size="10" fill="#6b7280" text-anchor="end">4</text>"##,
        r##"<text x="80.0" y="944.0" font-size="10" fill="#9ca3af" text-anchor="end">400 ns</text>"##,
        r##"<text x="80.0" y="1104.0" font-size="10" fill="#9ca3af" text-anchor="end">100 ns</text>"##,
        r##"<text x="88" y="1150.0" font-size="14" font-weight="600" fill="#1a1d23">verify (local)</text>"##,
        r##"<text x="932.0" y="1150.0" font-size="11" fill="#6b7280" text-anchor="end">"##,
        r##"n=5 &#183; p50 52 ns &#183; p99 60 ns &#183; max 60 ns</text>"##,
        r##"<rect x="88.00" y="1176.00" width="16.58" height="178.00" fill="#4fb286" opacity="0.75"/>"##,
        r##"<rect x="175.92" y="1176.00" width="16.58" height="178.00" fill="#4fb286" opacity="0.75"/>"##,
        r##"<rect x="246.25" y="1176.00" width="16.58" height="178.00" fill="#4fb286" opacity="0.75"/>"##,
        r##"<rect x="334.17" y="1176.00" width="16.58" height="178.00" fill="#4fb286" opacity="0.75"/>"##,
        r##"<rect x="914.42" y="1176.00" width="16.58" height="178.00" fill="#4fb286" opacity="0.75"/>"##,
        r##"<line x1="88" y1="1354.0" x2="932.0" y2="1354.0" stroke="#d1d5db" stroke-width="1"/>"##,
        r##"<line x1="256.80" y1="1168.0" x2="256.80" y2="1354.0" stroke="#1a1d23" stroke-width="1.2" stroke-dasharray="none" opacity="0.65"/>"##,
        r##"<text x="260.80" y="1177.0" font-size="10" fill="#1a1d23">p50 52 ns</text>"##,
        r##"<line x1="932.00" y1="1168.0" x2="932.00" y2="1354.0" stroke="#1a1d23" stroke-width="1.2" stroke-dasharray="3 3" opacity="0.65"/>"##,
        r##"<text x="936.00" y="1177.0" font-size="10" fill="#1a1d23">p99 60 ns</text>"##,
        r##"<text x="88" y="1368.0" font-size="10" fill="#6b7280">50 ns</text>"##,
        r##"<text x="932.0" y="1368.0" font-size="10" fill="#6b7280" text-anchor="end">60 ns</text>"##,
        r##"<text x="58.0" y="1259.0" font-size="10" fill="#9ca3af" text-anchor="middle" transform="rotate(-90 58.0 1259.0)">"##,
        r##"count</text>"##,
        r##"<rect x="88" y="1402.0" width="844" height="170" fill="#fafafa" stroke="#e5e7eb" stroke-width="1"/>"##,
        r##"<line x1="88" y1="1538.00" x2="932.0" y2="1538.00" stroke="#1a1d23" stroke-width="1" opacity="0.45"/>"##,
        r##"<text x="92.0" y="1534.00" font-size="10" fill="#1a1d23" opacity="0.7">p50</text>"##,
        r##"<circle cx="88.00" cy="1572.00" r="1.6" fill="#4fb286" opacity="0.55"/>"##,
        r##"<circle cx="299.00" cy="1538.00" r="1.6" fill="#4fb286" opacity="0.55"/>"##,
        r##"<circle cx="510.00" cy="1555.00" r="1.6" fill="#4fb286" opacity="0.55"/>"##,
        r##"<circle cx="721.00" cy="1521.00" r="1.6" fill="#4fb286" opacity="0.55"/>"##,
        r##"<circle cx="932.00" cy="1402.00" r="1.6" fill="#4fb286" opacity="0.55"/>"##,
        r##"<text x="88" y="1586.0" font-size="10" fill="#6b7280">iteration 0</text>"##,
        r##"<text x="932.0" y="1586.0" font-size="10" fill="#6b7280" text-anchor="end">4</text>"##,
        r##"<text x="80.0" y="1412.0" font-size="10" fill="#9ca3af" text-anchor="end">60 ns</text>"##,
        r##"<text x="80.0" y="1572.0" font-size="10" fill="#9ca3af" text-anchor="end">50 ns</text>"##,
        r##"<text x="88" y="1618.0" font-size="14" font-weight="600" fill="#1a1d23">total</text>"##,
        r##"<text x="932.0" y="1618.0" font-size="11" fill="#6b7280" text-anchor="end">"##,
        r##"n=5 &#183; p50 174 ns &#183; p99 500 ns &#183; max 500 ns</text>"##,
        r##"<rect x="88.00" y="1644.00" width="16.58" height="178.00" fill="#8a8f98" opacity="0.75"/>"##,
        r##"<rect x="105.58" y="1644.00" width="16.58" height="178.00" fill="#8a8f98" opacity="0.75"/>"##,
        r##"<rect x="123.17" y="1644.00" width="16.58" height="178.00" fill="#8a8f98" opacity="0.75"/>"##,
        r##"<rect x="158.33" y="1644.00" width="16.58" height="178.00" fill="#8a8f98" opacity="0.75"/>"##,
        r##"<rect x="914.42" y="1644.00" width="16.58" height="178.00" fill="#8a8f98" opacity="0.75"/>"##,
        r##"<line x1="88" y1="1822.0" x2="932.0" y2="1822.0" stroke="#d1d5db" stroke-width="1"/>"##,
        r##"<line x1="122.75" y1="1636.0" x2="122.75" y2="1822.0" stroke="#1a1d23" stroke-width="1.2" stroke-dasharray="none" opacity="0.65"/>"##,
        r##"<text x="126.75" y="1645.0" font-size="10" fill="#1a1d23">p50 174 ns</text>"##,
        r##"<line x1="932.00" y1="1636.0" x2="932.00" y2="1822.0" stroke="#1a1d23" stroke-width="1.2" stroke-dasharray="3 3" opacity="0.65"/>"##,
        r##"<text x="936.00" y="1645.0" font-size="10" fill="#1a1d23">p99 500 ns</text>"##,
        r##"<text x="88" y="1836.0" font-size="10" fill="#6b7280">160 ns</text>"##,
        r##"<text x="932.0" y="1836.0" font-size="10" fill="#6b7280" text-anchor="end">500 ns</text>"##,
        r##"<text x="58.0" y="1727.0" font-size="10" fill="#9ca3af" text-anchor="middle" transform="rotate(-90 58.0 1727.0)">"##,
        r##"count</text>"##,
        r##"<rect x="88" y="1870.0" width="844" height="170" fill="#fafafa" stroke="#e5e7eb" stroke-width="1"/>"##,
        r##"<line x1="88" y1="2033.00" x2="932.0" y2="2033.00" stroke="#1a1d23" stroke-width="1" opacity="0.45"/>"##,
        r##"<text x="92.0" y="2029.00" font-size="10" fill="#1a1d23" opacity="0.7">p50</text>"##,
        r##"<circle cx="88.00" cy="2040.00" r="1.6" fill="#8a8f98" opacity="0.55"/>"##,
        r##"<circle cx="299.00" cy="2033.00" r="1.6" fill="#8a8f98" opacity="0.55"/>"##,
        r##"<circle cx="510.00" cy="2036.50" r="1.6" fill="#8a8f98" opacity="0.55"/>"##,
        r##"<circle cx="721.00" cy="2027.00" r="1.6" fill="#8a8f98" opacity="0.55"/>"##,
        r##"<circle cx="932.00" cy="1870.00" r="1.6" fill="#8a8f98" opacity="0.55"/>"##,
        r##"<text x="88" y="2054.0" font-size="10" fill="#6b7280">iteration 0</text>"##,
        r##"<text x="932.0" y="2054.0" font-size="10" fill="#6b7280" text-anchor="end">4</text>"##,
        r##"<text x="80.0" y="1880.0" font-size="10" fill="#9ca3af" text-anchor="end">500 ns</text>"##,
        r##"<text x="80.0" y="2040.0" font-size="10" fill="#9ca3af" text-anchor="end">160 ns</text></svg>"##,
        "\n",
    ];
    assert_eq!(render(&phases(), "test run"), expected.concat());
}

#[test]
fn a_chart_of_one_sample_is_exact() {
    let expected: Vec<&str> = vec![
        r##"<svg xmlns="http://www.w3.org/2000/svg" width="960" height="684" viewBox="0 0 960 684" font-family="ui-sans-serif, system-ui, sans-serif">"##,
        "\n",
        r##"<rect width="960" height="684" fill="#ffffff"/>"##,
        "\n",
        r##"<text x="88" y="42" font-size="20" font-weight="600" fill="#1a1d23">one</text>"##,
        "\n",
        r##"<text x="88" y="64" font-size="12" fill="#6b7280">"##,
        r##"Per-step signing latency &#183; sequential &#183; every sample retained</text>"##,
        "\n",
        r##"<text x="88" y="118.0" font-size="14" font-weight="600" fill="#1a1d23">C_Sign (network)</text>"##,
        r##"<text x="932.0" y="118.0" font-size="11" fill="#6b7280" text-anchor="end">"##,
        r##"n=1 &#183; p50 42 ns &#183; p99 42 ns &#183; max 42 ns</text>"##,
        r##"<rect x="88.00" y="144.00" width="16.58" height="178.00" fill="#e8734a" opacity="0.75"/>"##,
        r##"<line x1="88" y1="322.0" x2="932.0" y2="322.0" stroke="#d1d5db" stroke-width="1"/>"##,
        r##"<line x1="88.00" y1="136.0" x2="88.00" y2="322.0" stroke="#1a1d23" stroke-width="1.2" stroke-dasharray="none" opacity="0.65"/>"##,
        r##"<text x="92.00" y="145.0" font-size="10" fill="#1a1d23">p50 42 ns</text>"##,
        r##"<line x1="88.00" y1="136.0" x2="88.00" y2="322.0" stroke="#1a1d23" stroke-width="1.2" stroke-dasharray="3 3" opacity="0.65"/>"##,
        r##"<text x="92.00" y="145.0" font-size="10" fill="#1a1d23">p99 42 ns</text>"##,
        r##"<text x="88" y="336.0" font-size="10" fill="#6b7280">42 ns</text>"##,
        r##"<text x="932.0" y="336.0" font-size="10" fill="#6b7280" text-anchor="end">43 ns</text>"##,
        r##"<text x="58.0" y="227.0" font-size="10" fill="#9ca3af" text-anchor="middle" transform="rotate(-90 58.0 227.0)">"##,
        r##"count</text><rect x="88" y="370.0" width="844" height="170" fill="#fafafa" stroke="#e5e7eb" stroke-width="1"/>"##,
        r##"<line x1="88" y1="540.00" x2="932.0" y2="540.00" stroke="#1a1d23" stroke-width="1" opacity="0.45"/>"##,
        r##"<text x="92.0" y="536.00" font-size="10" fill="#1a1d23" opacity="0.7">p50</text>"##,
        r##"<circle cx="88.00" cy="540.00" r="1.6" fill="#e8734a" opacity="0.55"/>"##,
        r##"<text x="88" y="554.0" font-size="10" fill="#6b7280">iteration 0</text>"##,
        r##"<text x="932.0" y="554.0" font-size="10" fill="#6b7280" text-anchor="end">0</text>"##,
        r##"<text x="80.0" y="380.0" font-size="10" fill="#9ca3af" text-anchor="end">43 ns</text>"##,
        r##"<text x="80.0" y="540.0" font-size="10" fill="#9ca3af" text-anchor="end">42 ns</text></svg>"##,
        "\n",
    ];
    let one = vec![(Phase::Sign, samples_of(&[42]))];
    assert_eq!(render(&one, "one"), expected.concat());
}

/// Numbers that look random.
fn scattered(seed: u64, n: usize, range: u64, base: u64) -> Vec<u64> {
    let mut x = seed;
    let mut values = Vec::new();
    for _ in 0..n {
        x = x.wrapping_mul(6364136223846793005).wrapping_add(1442695040888963407);
        values.push(base + (x >> 33) % range);
    }
    values
}

fn fingerprint(text: &str) -> u64 {
    let mut h: u64 = 0xcbf29ce484222325;
    for b in text.bytes() {
        h = (h ^ b as u64).wrapping_mul(0x100000001b3);
    }
    h
}

fn scattered_chart(seed: u64, n: usize, range: u64, base: u64) -> String {
    let sign = scattered(seed, n, range, base);
    let total: Vec<u64> = sign.iter().map(|v| v + v % 7).collect();
    let phases = vec![(Phase::Sign, samples_of(&sign)), (Phase::Total, samples_of(&total))];
    render(&phases, "a & b <c>")
}

#[test]
fn scattered_chart_five() {
    let svg = scattered_chart(1, 5, 1000, 0);
    assert_eq!(svg.len(), 5648);
    assert_eq!(fingerprint(&svg), 0x56266d5ff2c128a7);
}

#[test]
fn scattered_chart_hundred() {
    let svg = scattered_chart(2, 100, 900000, 1000);
    assert_eq!(svg.len(), 26141);
    assert_eq!(fingerprint(&svg), 0xcfd3a6bdb75496c3);
}

#[test]
fn scattered_chart_many() {
    let svg = scattered_chart(3, 700, 5000000, 1000000);
    assert_eq!(svg.len(), 109606);
    assert_eq!(fingerprint(&svg), 0x284f6ca68c7a1d6a);
}

#[test]
fn scattered_chart_envelope() {
    let svg = scattered_chart(4, 2000, 3000000000, 10);
    assert_eq!(svg.len(), 35754);
    assert_eq!(fingerprint(&svg), 0xe26f64f38ac33918);
}

#[test]
fn scattered_chart_uneven() {
    let svg = scattered_chart(5, 1921, 77, 5);
    assert_eq!(svg.len(), 34706);
    assert_eq!(fingerprint(&svg), 0xc2ca19b52ae20c2c);
}

#[test]
fn a_phase_without_samples_has_no_panel() {
    let with_empty = vec![
        (Phase::SignInit, Samples::with_capacity(3)),
        (Phase::Sign, samples_of(&[42])),
    ];
    let without = vec![(Phase::Sign, samples_of(&[42]))];
    assert_eq!(render(&with_empty, "one"), render(&without, "one"));
}

#[test]
fn unattributed_time_is_noted_above_a_hundredth() {
    let exact = vec![(Phase::Sign, samples_of(&[99])), (Phase::Total, samples_of(&[100]))];
    assert!(!render(&exact, "t").contains("unattributed"));
    let more = vec![(Phase::Sign, samples_of(&[98])), (Phase::Total, samples_of(&[100]))];
    assert!(render(&more, "t").contains("2.0% unattributed (loop overhead)"));
}

#[test]
fn no_time_at_all_draws_no_bar() {
    let none = vec![(Phase::Sign, samples_of(&[0, 0])), (Phase::Total, samples_of(&[0, 0]))];
    let svg = render(&none, "t");
    assert!(!svg.contains("Where the time goes"));
    assert!(svg.contains("</svg>"));
}

#[test]
fn every_sample_falls_into_one_bucket_or_beyond() {
    let values = [10, 11, 12, 57, 58, 1000];
    let (buckets, beyond) = fill_buckets(&values, 10, 58);
    assert_eq!(buckets.len(), 48);
    assert_eq!(beyond, 1);
    assert_eq!(buckets.iter().sum::<usize>() + beyond, values.len());
    assert_eq!(buckets[0], 1);
    assert_eq!(buckets[1], 1);
    assert_eq!(buckets[2], 1);
    assert_eq!(buckets[46], 1);
    assert_eq!(buckets[47], 1);
}

#[test]
fn outliers_beyond_the_axis_are_noted() {
    let mut values: Vec<u64> = vec![100; 1999];
    values.push(90);
    values.push(7_000_000);
    let svg = render(&[(Phase::Sign, samples_of(&values))], "t");
    assert!(svg.contains("1 sample(s) beyond p999, up to 7.000 ms"));
}

#[test]
fn markup_is_escaped_and_other_text_kept() {
    assert_eq!(escape("a <b> & c"), "a &lt;b&gt; &amp; c");
    assert_eq!(escape("&lt;"), "&amp;lt;");
    assert_eq!(escape("1.50 µs"), "1.50 µs");
}

#[test]
fn positions_are_rounded_where_printed() {
    assert_eq!(above_text(88, 844 * 5, 48, 2), "175.92");
    assert_eq!(below_text(418, 170 * 2, 3, 2), "304.67");
    assert_eq!(above_text(88, 844, 3, 1), "369.3");
}

#[test]
fn phases_have_their_colours() {
    assert_eq!(phase_colour(Phase::SignInit), "#7c8cf8");
    assert_eq!(phase_colour(Phase::Sign), "#e8734a");
    assert_eq!(phase_colour(Phase::Verify), "#4fb286");
    assert_eq!(phase_colour(Phase::Total), "#8a8f98");
}

#[test]
fn the_envelope_has_two_corners_per_column() {
    // 1501 samples are four to a column, which makes 376 columns.
    let values: Vec<u64> = (0..1501).map(|i| 100 + (i * 7919) % 1000).collect();
    let svg = render(&[(Phase::Sign, samples_of(&values))], "t");
    let start = svg.find("<polygon points=\"").unwrap() + "<polygon points=\"".len();
    let end = start + svg[start..].find('"').unwrap();
    assert_eq!(svg[start..end].split(' ').count(), 752);
    assert!(!svg.contains("<circle"));
    let points = render(&[(Phase::Sign, samples_of(&values[..1500]))], "t");
    assert_eq!(points.matches("<circle").count(), 1500);
    assert!(!points.contains("<polygon"));
}

fn timeline_at(values: &[u64], y: u128) -> String {
    let summary = samples_of(values).summary().unwrap();
    timeline(values, &summary, "#e8734a", y)
}

#[test]
fn a_timeline_at_the_top_keeps_iteration_order() {
    let svg = timeline_at(&[30, 10, 20], 0);
    let circle = |x: &str, y: &str| {
        format!(
            "<circle cx=\"{x}\" cy=\"{y}\" r=\"1.6\" fill=\"#e8734a\" opacity=\"0.55\"/>"
        )
    };
    let circles = [
        circle("88.00", "0.00"),
        circle("510.00", "170.00"),
        circle("932.00", "85.00"),
    ];
    assert!(svg.contains(&circles.concat()));
    assert_eq!(svg.matches("<circle").count(), 3);
    assert!(!svg.contains("<polygon"));
    assert!(svg.contains("text-anchor=\"end\">2</text>"));
    assert!(svg.contains("<text x=\"92.0\" y=\"81.00\""));
}

#[test]
fn a_label_beyond_the_top_has_a_negative_height() {
    for y in 0..6u128 {
        for values in [[30, 30, 10], [0, 169_002, 170_000], [0, 168_990, 170_000], [0, 2, 3]] {
            let s = samples_of(&values).summary().unwrap();
            let (min, max) = (s.min as f64, s.max as f64);
            let line = y as f64 + 170.0 - ((s.p50 as f64 - min) / (max - min)) * 170.0;
            let expected = format!("<text x=\"92.0\" y=\"{:.2}\"", line - 4.0);
            assert!(timeline_at(&values, y).contains(&expected), "{} {:?}", y, values);
        }
    }
    assert!(timeline_at(&[30, 30, 10], 0).contains("<text x=\"92.0\" y=\"-4.00\""));
    assert!(timeline_at(&[0, 169_002, 170_000], 3).contains("<text x=\"92.0\" y=\"-0.00\""));
}
