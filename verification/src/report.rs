//! What the two modes print.

use crate::chart::{lemma_shows, runs_of, shows, stands_at, Run};
use crate::decimal::{fixed, fraction, fraction_text, Ratio};
use crate::pkcs11::{Curve, ModuleInfo};
use crate::reading::{law_fraction_is_nearest, power};
use crate::run::{consistent, phases_for, BenchModel, BenchOptions, Measured};
use crate::signer::Signer;
use crate::spread::{attainable, total};
use crate::stats::{
    deviation_text, format_deviation, format_nanos, format_whole_nanos, law_mean_is_between,
    law_stddev_is_exact, nanos_text, summary_of, whole_nanos, Phase, Samples, Summary,
};
use crate::text::{decimal, decimal_text, pad_left, pad_left_text, pad_right, pad_right_text};
use crate::wide::{lemma_limb_square, Wide};
use vstd::prelude::*;
use vstd::string::StringExecFns;

verus! {

/// What is printed before a benchmark.
#[verifier::opaque]
pub open spec fn header(
    host: Seq<char>,
    info: ModuleInfo,
    label: Seq<char>,
    curve: Curve,
    payload_len: nat,
    options: BenchOptions,
    clock: Ratio,
    serialize: Ratio,
) -> Seq<char> {
    "=== sign-tx benchmark ===\nHost              "@
        + host
        + "\nModule            "@
        + info.library_description@
        + " "@
        + decimal(info.library_version.0 as nat)
        + "."@
        + decimal(info.library_version.1 as nat)
        + " (Cryptoki "@
        + decimal(info.cryptoki_version.0 as nat)
        + "."@
        + decimal(info.cryptoki_version.1 as nat)
        + ")\nManufacturer      "@
        + info.manufacturer@
        + "\nKey id            "@
        + label
        + "\nMechanism         "@
        + curve.spec_mechanism_name()
        + "\nPayload           Solana transfer message, "@
        + decimal(payload_len)
        + " bytes\nIterations        "@
        + decimal(options.iterations as nat)
        + "\nWarmup            "@
        + decimal(options.warmup as nat)
        + "\nConcurrency       1 (sequential — latency, not throughput under load)\nClock             std::time::Instant, overhead ~"@
        + nanos_text(clock.num as nat, clock.den as nat)
        + "\nSerialize         "@
        + nanos_text(serialize.num as nat, serialize.den as nat)
        + " per message (pre-generated, outside the timed loop)\nBroadcast         no\n\n"@
}

/// What is printed before a benchmark: what is measured, on what and how.
pub fn header_text(
    host: &str,
    info: &ModuleInfo,
    signer: &Signer,
    payload_len: usize,
    options: &BenchOptions,
    clock: Ratio,
    serialize: Ratio,
) -> (text: String)
    requires
        clock.den > 0,
        serialize.den > 0,
    ensures
        text@ == header(
            host@,
            *info,
            signer@.label,
            signer@.key.curve,
            payload_len as nat,
            *options,
            clock,
            serialize,
        ),
{
    proof {
        reveal(header);
    }
    let mut text = String::from_str("=== sign-tx benchmark ===\nHost              ");
    text.append(host);
    text.append("\nModule            ");
    text.append(info.library_description.as_str());
    text.append(" ");
    let a = decimal_text(info.library_version.0 as u128);
    text.append(a.as_str());
    text.append(".");
    let b = decimal_text(info.library_version.1 as u128);
    text.append(b.as_str());
    text.append(" (Cryptoki ");
    let c = decimal_text(info.cryptoki_version.0 as u128);
    text.append(c.as_str());
    text.append(".");
    let d = decimal_text(info.cryptoki_version.1 as u128);
    text.append(d.as_str());
    text.append(")\nManufacturer      ");
    text.append(info.manufacturer.as_str());
    text.append("\nKey id            ");
    text.append(signer.label());
    text.append("\nMechanism         ");
    text.append(signer.curve().mechanism_name());
    text.append("\nPayload           Solana transfer message, ");
    let len = decimal_text(payload_len as u128);
    text.append(len.as_str());
    text.append(" bytes\nIterations        ");
    let iterations = decimal_text(options.iterations as u128);
    text.append(iterations.as_str());
    text.append("\nWarmup            ");
    let warmup = decimal_text(options.warmup as u128);
    text.append(warmup.as_str());
    text.append(
        "\nConcurrency       1 (sequential — latency, not throughput under load)\nClock             std::time::Instant, overhead ~",
    );
    let overhead = format_nanos(clock);
    text.append(overhead.as_str());
    text.append("\nSerialize         ");
    let each = format_nanos(serialize);
    text.append(each.as_str());
    text.append(" per message (pre-generated, outside the timed loop)\nBroadcast         no\n\n");
    text
}

/// The summary of the warmup, so that the cold-start cost stays visible.
#[verifier::opaque]
pub open spec fn warmup_line(warm: Seq<u64>) -> Seq<char> {
    "Warmup (discarded): n="@
        + decimal(warm.len())
        + " first="@
        + whole_nanos(warm[0] as nat)
        + " p50="@
        + whole_nanos(summary_of(warm).p50 as nat)
        + " last-min="@
        + whole_nanos(summary_of(warm).min as nat)
        + "\n\n"@
}

fn warmup_line_text(warm: &Samples, s: &Summary) -> (text: String)
    requires
        warm@.len() > 0,
        *s == summary_of(warm@),
    ensures
        text@ == warmup_line(warm@),
{
    proof {
        reveal(warmup_line);
    }
    let mut text = String::from_str("Warmup (discarded): n=");
    let n = decimal_text(warm.len() as u128);
    text.append(n.as_str());
    text.append(" first=");
    let start = format_whole_nanos(warm.raw()[0] as u128);
    text.append(start.as_str());
    text.append(" p50=");
    let p50 = format_whole_nanos(s.p50 as u128);
    text.append(p50.as_str());
    text.append(" last-min=");
    let min = format_whole_nanos(s.min as u128);
    text.append(min.as_str());
    text.append("\n\n");
    text
}

/// One row of the table.
#[verifier::opaque]
pub open spec fn row(label: Seq<char>, s: Summary) -> Seq<char> {
    pad_right(label, 18) + " "@ + pad_left(decimal(s.n as nat), 8)
        + " "@ + pad_left(whole_nanos(s.min as nat), 11)
        + " "@ + pad_left(whole_nanos(s.p50 as nat), 11)
        + " "@ + pad_left(whole_nanos(s.p90 as nat), 11)
        + " "@ + pad_left(whole_nanos(s.p99 as nat), 11)
        + " "@ + pad_left(whole_nanos(s.p999 as nat), 11)
        + " "@ + pad_left(whole_nanos(s.max as nat), 11)
        + " "@ + pad_left(deviation_text(s.stddev), 11) + "\n"@
}

fn cell(text: &mut String, nanos: u128)
    ensures
        final(text)@ == old(text)@ + " "@ + pad_left(whole_nanos(nanos as nat), 11),
{
    let plain = format_whole_nanos(nanos);
    let padded = pad_left_text(plain.as_str(), 11);
    text.append(" ");
    text.append(padded.as_str());
}

fn row_text(label: &str, s: &Summary) -> (text: String)
    requires
        attainable(s.stddev),
    ensures
        text@ == row(label@, *s),
{
    proof {
        reveal(row);
    }
    let mut text = pad_right_text(label, 18);
    let count = decimal_text(s.n as u128);
    let padded = pad_left_text(count.as_str(), 8);
    text.append(" ");
    text.append(padded.as_str());
    cell(&mut text, s.min as u128);
    cell(&mut text, s.p50 as u128);
    cell(&mut text, s.p90 as u128);
    cell(&mut text, s.p99 as u128);
    cell(&mut text, s.p999 as u128);
    cell(&mut text, s.max as u128);
    let spread = format_deviation(s.stddev);
    let last = pad_left_text(spread.as_str(), 11);
    text.append(" ");
    text.append(last.as_str());
    text.append("\n");
    text
}

/// The rows of the first `k` phases; one without samples has none.
pub open spec fn rows(runs: Seq<Run>, curve: Curve, k: nat) -> Seq<char>
    decreases k,
{
    if k == 0 {
        Seq::empty()
    } else if runs[k - 1].1.len() == 0 {
        rows(runs, curve, (k - 1) as nat)
    } else {
        rows(runs, curve, (k - 1) as nat) + row(
            runs[k - 1].0.spec_label_for_curve(curve),
            summary_of(runs[k - 1].1),
        )
    }
}

/// A rate to one decimal place.
pub open spec fn rate_of(rate: Option<Ratio>) -> Seq<char> {
    match rate {
        None => "inf"@,
        Some(r) => fraction(r.num as nat, r.den as nat, 1),
    }
}

fn rate_text(rate: Option<Ratio>) -> (text: String)
    requires
        rate matches Some(r) ==> r.den > 0 && r.num <= 0xffff_ffff_ffff_ffff_ffff_ffff_ffff,
    ensures
        text@ == rate_of(rate),
{
    match rate {
        None => String::from_str("inf"),
        Some(r) => {
            proof {
                lemma_limb_square();
            }
            fraction_text(Wide::of(r.num), Wide::of(r.den), 1)
        },
    }
}

/// The rate of signatures at the median, and at the mean.
pub open spec fn throughput_of(s: Summary) -> (Option<Ratio>, Option<Ratio>) {
    (
        if s.p50 == 0 {
            None
        } else {
            Some(Ratio { num: 1_000_000_000, den: s.p50 as u128 })
        },
        if s.mean.num == 0 {
            None
        } else {
            Some(Ratio { num: (1_000_000_000 * s.mean.den) as u128, den: s.mean.num })
        },
    )
}

/// The line on throughput.
#[verifier::opaque]
pub open spec fn throughput_line(s: Summary) -> Seq<char> {
    "Throughput        "@ + rate_of(throughput_of(s).0) + " sig/s at p50, "@ + rate_of(
        throughput_of(s).1,
    ) + " sig/s at mean\n"@
}

fn throughput_line_text(s: &Summary) -> (text: String)
    requires
        s.mean.den <= 0xffff_ffff_ffff_ffff,
    ensures
        text@ == throughput_line(*s),
{
    proof {
        reveal(throughput_line);
    }
    let mut text = String::from_str("Throughput        ");
    let median = rate_text(s.throughput_p50());
    text.append(median.as_str());
    text.append(" sig/s at p50, ");
    let mean = rate_text(s.throughput_mean());
    text.append(mean.as_str());
    text.append(" sig/s at mean\n");
    text
}

/// The throughput lines of the first `k` phases: one for each total.
pub open spec fn throughput_lines(runs: Seq<Run>, k: nat) -> Seq<char>
    decreases k,
{
    if k == 0 {
        Seq::empty()
    } else if runs[k - 1].1.len() == 0 || runs[k - 1].0 != Phase::Total {
        throughput_lines(runs, (k - 1) as nat)
    } else {
        throughput_lines(runs, (k - 1) as nat) + throughput_line(summary_of(runs[k - 1].1))
    }
}

/// The samples of the first run of a phase.
pub open spec fn first_run(runs: Seq<Run>, phase: Phase) -> Option<Seq<u64>>
    decreases runs.len(),
{
    if runs.len() == 0 {
        None
    } else if runs[0].0 == phase {
        Some(runs[0].1)
    } else {
        first_run(runs.drop_first(), phase)
    }
}

/// A part of a whole in per cent, to one decimal place.
pub open spec fn percentage(part: nat, whole: nat) -> Seq<char> {
    if whole == 0 {
        "NaN"@
    } else {
        fraction(100 * part, whole, 1)
    }
}

/// The line on the share of signing, where both it and the total have samples.
pub open spec fn share_line(runs: Seq<Run>) -> Seq<char> {
    match (first_run(runs, Phase::Sign), first_run(runs, Phase::Total)) {
        (Some(sign), Some(whole)) => if sign.len() > 0 && whole.len() > 0 {
            "C_Sign share      "@ + percentage(total(sign), total(whole))
                + "% of total (the network-bound component)\n"@
        } else {
            Seq::empty()
        },
        _ => Seq::empty(),
    }
}

/// The line on the time that the whole measurement took.
pub open spec fn wall_line(wall: nat, completed: nat) -> Seq<char> {
    "Wall clock        "@ + whole_nanos(wall) + " for "@ + decimal(completed) + " iterations\n"@
}

/// The report of a benchmark that took `wall` nanoseconds.
pub open spec fn report_of(m: BenchModel, wall: nat) -> Seq<char> {
    let n = m.runs.len();
    (if m.warm.len() > 0 {
        warmup_line(m.warm)
    } else {
        Seq::empty()
    }) + "phase                     n         min         p50         p90         p99        p999         max      stddev\n"@
        + "--------------------------------------------------------------------------------------------------------------------\n"@
        + rows(m.runs, m.curve, n) + "\n"@ + throughput_lines(m.runs, n) + share_line(m.runs)
        + wall_line(wall, m.completed)
}

fn rows_text(phases: &[(Phase, Samples)], curve: Curve) -> (text: String)
    ensures
        text@ == rows(runs_of(phases@), curve, phases@.len()),
{
    let ghost runs = runs_of(phases@);
    let mut text = String::new();
    let mut i: usize = 0;
    while i < phases.len()
        invariant
            i <= phases@.len(),
            runs == runs_of(phases@),
            text@ == rows(runs, curve, i as nat),
        decreases phases.len() - i,
    {
        let n: usize = phases[i].1.len();
        if let Some(s) = phases[i].1.summary() {
            proof {
                if n > 0 {
                    law_stddev_is_exact(phases@[i as int].1@);
                }
            }
            let line = row_text(phases[i].0.label_for_curve(curve), &s);
            text.append(line.as_str());
        }
        i = i + 1;
    }
    text
}

fn throughput_lines_text(phases: &[(Phase, Samples)]) -> (text: String)
    ensures
        text@ == throughput_lines(runs_of(phases@), phases@.len()),
{
    let ghost runs = runs_of(phases@);
    let mut text = String::new();
    let mut i: usize = 0;
    while i < phases.len()
        invariant
            i <= phases@.len(),
            runs == runs_of(phases@),
            text@ == throughput_lines(runs, i as nat),
        decreases phases.len() - i,
    {
        let n: usize = phases[i].1.len();
        if phases[i].0 == Phase::Total && n > 0 {
            if let Some(s) = phases[i].1.summary() {
                proof {
                    law_mean_is_between(phases@[i as int].1@);
                }
                let line = throughput_line_text(&s);
                text.append(line.as_str());
            }
        }
        i = i + 1;
    }
    text
}

proof fn lemma_first_run(runs: Seq<Run>, phase: Phase, k: int)
    requires
        0 <= k < runs.len(),
        runs[k].0 == phase,
        forall|j: int| 0 <= j < k ==> (#[trigger] runs[j]).0 != phase,
    ensures
        first_run(runs, phase) == Some(runs[k].1),
    decreases k,
{
    if k > 0 {
        assert(runs[0].0 != phase);
        lemma_first_run(runs.drop_first(), phase, k - 1);
    }
}

proof fn lemma_no_run(runs: Seq<Run>, phase: Phase)
    requires
        forall|j: int| 0 <= j < runs.len() ==> (#[trigger] runs[j]).0 != phase,
    ensures
        first_run(runs, phase) is None,
    decreases runs.len(),
{
    if runs.len() > 0 {
        assert(runs[0].0 != phase);
        lemma_no_run(runs.drop_first(), phase);
    }
}

/// The total time of the first run of a phase that has samples.
fn total_of_first(phases: &[(Phase, Samples)], phase: Phase) -> (sum: Option<u128>)
    ensures
        match first_run(runs_of(phases@), phase) {
            Some(values) => if values.len() > 0 {
                sum matches Some(t) && t as nat == total(values)
            } else {
                sum is None
            },
            None => sum is None,
        },
{
    let ghost runs = runs_of(phases@);
    let mut i: usize = 0;
    while i < phases.len()
        invariant
            i <= phases@.len(),
            runs == runs_of(phases@),
            forall|j: int| 0 <= j < i ==> (#[trigger] runs[j]).0 != phase,
        decreases phases.len() - i,
    {
        assert(runs[i as int].0 == phases@[i as int].0);
        if phases[i].0 == phase {
            proof {
                lemma_first_run(runs, phase, i as int);
            }
            let n: usize = phases[i].1.len();
            if n == 0 {
                return None;
            }
            return match phases[i].1.summary() {
                None => None,
                Some(s) => {
                    proof {
                        law_mean_is_between(phases@[i as int].1@);
                    }
                    Some(s.total)
                },
            };
        }
        i = i + 1;
    }
    proof {
        lemma_no_run(runs, phase);
    }
    None
}

fn percentage_text(part: u128, whole: u128) -> (text: String)
    requires
        part <= whole,
    ensures
        text@ == percentage(part as nat, whole as nat),
{
    if whole == 0 {
        return String::from_str("NaN");
    }
    proof {
        lemma_limb_square();
    }
    fraction_text(Wide::of(part).times(100), Wide::of(whole), 1)
}

proof fn lemma_totals_are_ordered(a: Seq<u64>, b: Seq<u64>)
    requires
        a.len() == b.len(),
        forall|i: int| 0 <= i < a.len() ==> #[trigger] a[i] <= b[i],
    ensures
        total(a) <= total(b),
    decreases a.len(),
{
    if a.len() > 0 {
        assert(a[a.len() - 1] <= b[a.len() - 1]);
        lemma_totals_are_ordered(a.drop_last(), b.drop_last());
    }
}

/// Over a whole benchmark signing took no longer than the total, so its share
/// is at most a hundred per cent.
pub proof fn law_signing_is_part_of_the_total(m: BenchModel)
    requires
        consistent(m),
    ensures
        first_run(m.runs, Phase::Sign) matches Some(sign) && first_run(m.runs, Phase::Total) matches
            Some(whole) && total(sign) <= total(whole),
{
    let s = m.runs.len() - 3;
    let t = m.runs.len() - 1;
    assert(m.runs[0].0 == phases_for(m.curve)[0]);
    assert(m.runs[1].0 == phases_for(m.curve)[1]);
    assert(m.runs[2].0 == phases_for(m.curve)[2]);
    assert(m.runs[t].0 == phases_for(m.curve)[t]);
    lemma_first_run(m.runs, Phase::Sign, s);
    lemma_first_run(m.runs, Phase::Total, t);
    lemma_totals_are_ordered(m.runs[s].1, m.runs[t].1);
}

fn share_line_text(phases: &[(Phase, Samples)]) -> (text: String)
    requires
        first_run(runs_of(phases@), Phase::Sign) matches Some(sign) && first_run(
            runs_of(phases@),
            Phase::Total,
        ) matches Some(whole) && total(sign) <= total(whole),
    ensures
        text@ == share_line(runs_of(phases@)),
{
    let sign = total_of_first(phases, Phase::Sign);
    let whole = total_of_first(phases, Phase::Total);
    match (sign, whole) {
        (Some(part), Some(all)) => {
            let mut text = String::from_str("C_Sign share      ");
            let share = percentage_text(part, all);
            text.append(share.as_str());
            text.append("% of total (the network-bound component)\n");
            text
        },
        _ => String::new(),
    }
}

fn wall_line_text(wall: u128, completed: usize) -> (text: String)
    ensures
        text@ == wall_line(wall as nat, completed as nat),
{
    let mut text = String::from_str("Wall clock        ");
    let time = format_whole_nanos(wall);
    text.append(time.as_str());
    text.append(" for ");
    let n = decimal_text(completed as u128);
    text.append(n.as_str());
    text.append(" iterations\n");
    text
}

impl Measured {
    /// What is printed after a measurement that took `wall` nanoseconds.
    pub fn report(&self, wall: u128) -> (text: String)
        ensures
            text@ == report_of(self@, wall as nat),
    {
        let phases = self.phases();
        proof {
            law_signing_is_part_of_the_total(self@);
        }
        let warm = self.warmup();
        let mut text = match warm.summary() {
            Some(s) => warmup_line_text(warm, &s),
            None => String::new(),
        };
        text.append(
            "phase                     n         min         p50         p90         p99        p999         max      stddev\n",
        );
        text.append(
            "--------------------------------------------------------------------------------------------------------------------\n",
        );
        let table = rows_text(phases, self.curve());
        text.append(table.as_str());
        text.append("\n");
        let rates = throughput_lines_text(phases);
        text.append(rates.as_str());
        let share = share_line_text(phases);
        text.append(share.as_str());
        let wall = wall_line_text(wall, self.completed());
        text.append(wall.as_str());
        text
    }
}

/// What the chart of a benchmark is called.
pub open spec fn chart_title(module: Option<Seq<char>>, completed: nat) -> Seq<char> {
    (match module {
        Some(name) => name,
        None => "PKCS#11 module"@,
    }) + " — "@ + decimal(completed) + " signatures via PKCS#11"@
}

/// The title of the chart, after the module where it says what it is.
pub fn chart_title_text(module: Option<&str>, completed: usize) -> (text: String)
    ensures
        text@ == chart_title(
            match module {
                Some(name) => Some(name@),
                None => None,
            },
            completed as nat,
        ),
{
    let mut text = match module {
        Some(name) => String::from_str(name),
        None => String::from_str("PKCS#11 module"),
    };
    text.append(" — ");
    let n = decimal_text(completed as u128);
    text.append(n.as_str());
    text.append(" signatures via PKCS#11");
    text
}

/// Whether a text stands at the right end of a field of a line, with nothing
/// but blanks before it in the field.
pub open spec fn right_aligned(line: Seq<char>, text: Seq<char>, from: int, to: int) -> bool {
    &&& 0 <= from <= to - text.len()
    &&& stands_at(line, text, to - text.len())
    &&& forall|i: int| from <= i < to - text.len() ==> #[trigger] line[i] == ' '
}

/// The width of a field for a text: the given one, unless the text needs more.
pub open spec fn width_for(text: Seq<char>, least: int) -> int {
    if text.len() < least {
        least
    } else {
        text.len() as int
    }
}

proof fn lemma_right_aligned(before: Seq<char>, text: Seq<char>, width: nat, after: Seq<char>)
    ensures
        right_aligned(
            before + pad_left(text, width) + after,
            text,
            before.len() as int,
            before.len() + width_for(text, width as int),
        ),
{
    let line = before + pad_left(text, width) + after;
    let to = before.len() + width_for(text, width as int);
    assert(line.subrange(to - text.len(), to) =~= text);
}

#[verifier::spinoff_prover]
#[verifier::rlimit(60)]
proof fn lemma_nine_fields(
    a: Seq<char>,
    b: Seq<char>,
    c: Seq<char>,
    d: Seq<char>,
    e: Seq<char>,
    f: Seq<char>,
    g: Seq<char>,
    h: Seq<char>,
    k: Seq<char>,
)
    ensures
        ({
            let line = pad_right(a, 18) + " "@ + pad_left(b, 8) + " "@ + pad_left(c, 11) + " "@
                + pad_left(d, 11) + " "@ + pad_left(e, 11) + " "@ + pad_left(f, 11) + " "@
                + pad_left(g, 11) + " "@ + pad_left(h, 11) + " "@ + pad_left(k, 11) + "\n"@;
            nine_fields(line, a, b, c, d, e, f, g, h, k)
        }),
{
    let m0 = pad_right(a, 18);
    let m1 = m0 + " "@ + pad_left(b, 8);
    let m2 = m1 + " "@ + pad_left(c, 11);
    let m3 = m2 + " "@ + pad_left(d, 11);
    let m4 = m3 + " "@ + pad_left(e, 11);
    let m5 = m4 + " "@ + pad_left(f, 11);
    let m6 = m5 + " "@ + pad_left(g, 11);
    let m7 = m6 + " "@ + pad_left(h, 11);
    let m8 = m7 + " "@ + pad_left(k, 11);
    let line = m8 + "\n"@;
    lemma_end_of_line(m8);
    lemma_field(line, m7, k, 11);
    lemma_field(line, m6, h, 11);
    lemma_field(line, m5, g, 11);
    lemma_field(line, m4, f, 11);
    lemma_field(line, m3, e, 11);
    lemma_field(line, m2, d, 11);
    lemma_field(line, m1, c, 11);
    lemma_field(line, m0, b, 8);
    lemma_label(line, a);
}

proof fn lemma_end_of_line(text: Seq<char>)
    ensures
        text.is_prefix_of(text + "\n"@),
        (text + "\n"@).len() == text.len() + 1,
        (text + "\n"@)[text.len() as int] == '\n',
{
    reveal_strlit("\n");
    assert(text =~= (text + "\n"@).subrange(0, text.len() as int));
}

proof fn lemma_label(line: Seq<char>, label: Seq<char>)
    requires
        pad_right(label, 18).is_prefix_of(line),
    ensures
        pad_right(label, 18).len() == width_for(label, 18),
        stands_at(line, label, 0),
        forall|i: int| label.len() <= i < width_for(label, 18) ==> #[trigger] line[i] == ' ',
{
    let front = pad_right(label, 18);
    assert(line.subrange(0, front.len() as int) == front);
    assert forall|i: int| 0 <= i < front.len() implies #[trigger] line[i] == front[i] by {
        assert(line.subrange(0, front.len() as int)[i] == line[i]);
    }
    assert(line.subrange(0, label.len() as int) =~= label);
}

proof fn lemma_field(line: Seq<char>, before: Seq<char>, text: Seq<char>, width: nat)
    requires
        (before + " "@ + pad_left(text, width)).is_prefix_of(line),
    ensures
        before.is_prefix_of(line),
        line[before.len() as int] == ' ',
        (before + " "@ + pad_left(text, width)).len() == before.len() + 1 + width_for(
            text,
            width as int,
        ),
        right_aligned(
            line,
            text,
            before.len() as int + 1,
            before.len() + 1 + width_for(text, width as int),
        ),
{
    reveal_strlit(" ");
    let front = before + " "@ + pad_left(text, width);
    let after = line.skip(front.len() as int);
    lemma_right_aligned(before + " "@, text, width, after);
    assert(line =~= front + after);
    assert(before =~= line.subrange(0, before.len() as int));
}

/// Whether a line holds a text at its left end and eight more behind it, each at
/// the right end of its field, the fields in this order with a blank between
/// them and the end of the line behind them.
pub open spec fn nine_fields(
    line: Seq<char>,
    a: Seq<char>,
    b: Seq<char>,
    c: Seq<char>,
    d: Seq<char>,
    e: Seq<char>,
    f: Seq<char>,
    g: Seq<char>,
    h: Seq<char>,
    k: Seq<char>,
) -> bool {
    let e0 = width_for(a, 18);
    let e1 = e0 + 1 + width_for(b, 8);
    let e2 = e1 + 1 + width_for(c, 11);
    let e3 = e2 + 1 + width_for(d, 11);
    let e4 = e3 + 1 + width_for(e, 11);
    let e5 = e4 + 1 + width_for(f, 11);
    let e6 = e5 + 1 + width_for(g, 11);
    let e7 = e6 + 1 + width_for(h, 11);
    let e8 = e7 + 1 + width_for(k, 11);
    &&& line.len() == e8 + 1
    &&& line[e8] == '\n'
    &&& stands_at(line, a, 0)
    &&& forall|i: int| a.len() <= i <= e0 ==> #[trigger] line[i] == ' '
    &&& line[e1] == ' ' && line[e2] == ' ' && line[e3] == ' ' && line[e4] == ' '
    &&& line[e5] == ' ' && line[e6] == ' ' && line[e7] == ' '
    &&& right_aligned(line, b, e0 + 1, e1)
    &&& right_aligned(line, c, e1 + 1, e2)
    &&& right_aligned(line, d, e2 + 1, e3)
    &&& right_aligned(line, e, e3 + 1, e4)
    &&& right_aligned(line, f, e4 + 1, e5)
    &&& right_aligned(line, g, e5 + 1, e6)
    &&& right_aligned(line, h, e6 + 1, e7)
    &&& right_aligned(line, k, e7 + 1, e8)
}

/// A row of the table holds the label, the number of samples and then, in the
/// order of the heading, the least, the four percentiles, the greatest and the
/// deviation, each at the right end of its column.
pub proof fn law_row_holds_the_summary(label: Seq<char>, s: Summary)
    ensures
        nine_fields(
            row(label, s),
            label,
            decimal(s.n as nat),
            whole_nanos(s.min as nat),
            whole_nanos(s.p50 as nat),
            whole_nanos(s.p90 as nat),
            whole_nanos(s.p99 as nat),
            whole_nanos(s.p999 as nat),
            whole_nanos(s.max as nat),
            deviation_text(s.stddev),
        ),
{
    reveal(row);
    lemma_nine_fields(
        label,
        decimal(s.n as nat),
        whole_nanos(s.min as nat),
        whole_nanos(s.p50 as nat),
        whole_nanos(s.p90 as nat),
        whole_nanos(s.p99 as nat),
        whole_nanos(s.p999 as nat),
        whole_nanos(s.max as nat),
        deviation_text(s.stddev),
    );
}

/// Whether every text of a row fits its column.
pub open spec fn fits_the_table(label: Seq<char>, s: Summary) -> bool {
    &&& label.len() <= 18
    &&& decimal(s.n as nat).len() <= 8
    &&& whole_nanos(s.min as nat).len() <= 11
    &&& whole_nanos(s.p50 as nat).len() <= 11
    &&& whole_nanos(s.p90 as nat).len() <= 11
    &&& whole_nanos(s.p99 as nat).len() <= 11
    &&& whole_nanos(s.p999 as nat).len() <= 11
    &&& whole_nanos(s.max as nat).len() <= 11
    &&& deviation_text(s.stddev).len() <= 11
}

/// In a row whose texts fit, each value ends where its name in the heading
/// ends.
pub proof fn law_columns_stand_under_their_names(label: Seq<char>, s: Summary)
    requires
        fits_the_table(label, s),
    ensures
        ({
            let heading =
                "phase                     n         min         p50         p90         p99        p999         max      stddev\n"@;
            let line = row(label, s);
            &&& line.len() == heading.len() == 112
            &&& right_aligned(heading, "n"@, 19, 27)
            &&& right_aligned(heading, "min"@, 28, 39)
            &&& right_aligned(heading, "p50"@, 40, 51)
            &&& right_aligned(heading, "p90"@, 52, 63)
            &&& right_aligned(heading, "p99"@, 64, 75)
            &&& right_aligned(heading, "p999"@, 76, 87)
            &&& right_aligned(heading, "max"@, 88, 99)
            &&& right_aligned(heading, "stddev"@, 100, 111)
            &&& right_aligned(line, decimal(s.n as nat), 19, 27)
            &&& right_aligned(line, whole_nanos(s.min as nat), 28, 39)
            &&& right_aligned(line, whole_nanos(s.p50 as nat), 40, 51)
            &&& right_aligned(line, whole_nanos(s.p90 as nat), 52, 63)
            &&& right_aligned(line, whole_nanos(s.p99 as nat), 64, 75)
            &&& right_aligned(line, whole_nanos(s.p999 as nat), 76, 87)
            &&& right_aligned(line, whole_nanos(s.max as nat), 88, 99)
            &&& right_aligned(line, deviation_text(s.stddev), 100, 111)
        }),
{
    law_row_holds_the_summary(label, s);
    lemma_heading();
}

#[verifier::spinoff_prover]
#[verifier::rlimit(60)]
proof fn lemma_heading()
    ensures
        ({
            let heading =
                "phase                     n         min         p50         p90         p99        p999         max      stddev\n"@;
            &&& heading.len() == 112
            &&& right_aligned(heading, "n"@, 19, 27)
            &&& right_aligned(heading, "min"@, 28, 39)
            &&& right_aligned(heading, "p50"@, 40, 51)
            &&& right_aligned(heading, "p90"@, 52, 63)
            &&& right_aligned(heading, "p99"@, 64, 75)
            &&& right_aligned(heading, "p999"@, 76, 87)
            &&& right_aligned(heading, "max"@, 88, 99)
            &&& right_aligned(heading, "stddev"@, 100, 111)
        }),
{
    reveal_strlit(
        "phase                     n         min         p50         p90         p99        p999         max      stddev\n",
    );
    reveal_strlit("n");
    reveal_strlit("min");
    reveal_strlit("p50");
    reveal_strlit("p90");
    reveal_strlit("p99");
    reveal_strlit("p999");
    reveal_strlit("max");
    reveal_strlit("stddev");
    let heading =
        "phase                     n         min         p50         p90         p99        p999         max      stddev\n"@;
    assert(heading.subrange(26, 27) =~= "n"@);
    assert(heading.subrange(36, 39) =~= "min"@);
    assert(heading.subrange(48, 51) =~= "p50"@);
    assert(heading.subrange(60, 63) =~= "p90"@);
    assert(heading.subrange(72, 75) =~= "p99"@);
    assert(heading.subrange(83, 87) =~= "p999"@);
    assert(heading.subrange(96, 99) =~= "max"@);
    assert(heading.subrange(105, 111) =~= "stddev"@);
}

/// The rows of two lists of phases are those of the first, then those of the
/// second, and a single phase has one row, of its label and its summary, or
/// none where it has no samples. So each phase with samples has its row, in the
/// order of the phases.
pub proof fn law_rows_follow_the_phases(a: Seq<Run>, b: Seq<Run>, r: Run, curve: Curve)
    ensures
        rows(a + b, curve, (a + b).len()) == rows(a, curve, a.len()) + rows(b, curve, b.len()),
        r.1.len() > 0 ==> rows(seq![r], curve, 1) == row(
            r.0.spec_label_for_curve(curve),
            summary_of(r.1),
        ),
        r.1.len() == 0 ==> rows(seq![r], curve, 1).len() == 0,
{
    lemma_rows_add(a, b, curve, b.len());
    assert(rows(a + b, curve, (a + b).len()) == rows(a, curve, a.len()) + rows(
        b,
        curve,
        b.len(),
    ));
    reveal_with_fuel(rows, 2);
    assert(rows(seq![r], curve, 0) =~= Seq::empty());
    if r.1.len() > 0 {
        let line = row(r.0.spec_label_for_curve(curve), summary_of(r.1));
        assert(Seq::<char>::empty() + line =~= line);
    }
}

proof fn lemma_rows_add(a: Seq<Run>, b: Seq<Run>, curve: Curve, k: nat)
    requires
        k <= b.len(),
    ensures
        rows(a + b, curve, a.len() + k) == rows(a, curve, a.len()) + rows(b, curve, k),
    decreases k,
{
    if k == 0 {
        lemma_rows_of_front(a, b, curve, a.len());
        assert(rows(b, curve, 0) =~= Seq::empty());
        assert(rows(a, curve, a.len()) + Seq::<char>::empty() =~= rows(a, curve, a.len()));
    } else {
        let k1 = (k - 1) as nat;
        lemma_rows_add(a, b, curve, k1);
        let r = (a + b)[a.len() + k - 1];
        assert(r == b[k - 1]);
        assert((a.len() + k - 1) as nat == a.len() + k1);
        if r.1.len() > 0 {
            let line = row(r.0.spec_label_for_curve(curve), summary_of(r.1));
            assert(rows(a + b, curve, a.len() + k) == rows(a + b, curve, a.len() + k1) + line);
            assert(rows(b, curve, k) == rows(b, curve, k1) + line);
            assert(rows(a, curve, a.len()) + rows(b, curve, k1) + line =~= rows(a, curve, a.len())
                + (rows(b, curve, k1) + line));
        }
    }
}

proof fn lemma_rows_of_front(a: Seq<Run>, b: Seq<Run>, curve: Curve, k: nat)
    requires
        k <= a.len(),
    ensures
        rows(a + b, curve, k) == rows(a, curve, k),
    decreases k,
{
    if k > 0 {
        lemma_rows_of_front(a, b, curve, (k - 1) as nat);
        assert((a + b)[k - 1] == a[k - 1]);
    }
}

/// Only a total with samples has a line on throughput.
pub proof fn law_throughput_is_that_of_the_total(a: Seq<Run>, r: Run)
    ensures
        throughput_lines(a.push(r), a.push(r).len()) == throughput_lines(a, a.len()) + (if r.0
            == Phase::Total && r.1.len() > 0 {
            throughput_line(summary_of(r.1))
        } else {
            Seq::empty()
        }),
        throughput_lines(Seq::empty(), 0).len() == 0,
{
    lemma_throughput_of_front(a, r, a.len());
    assert(a.push(r)[a.len() as int] == r);
    let front = throughput_lines(a, a.len());
    assert(front + Seq::<char>::empty() =~= front);
}

proof fn lemma_throughput_of_front(a: Seq<Run>, r: Run, k: nat)
    requires
        k <= a.len(),
    ensures
        throughput_lines(a.push(r), k) == throughput_lines(a, k),
    decreases k,
{
    if k > 0 {
        lemma_throughput_of_front(a, r, (k - 1) as nat);
        assert(a.push(r)[k - 1] == a[k - 1]);
    }
}

pub proof fn lemma_shown_in_front(whole: Seq<char>, before: Seq<char>, part: Seq<char>)
    requires
        (before + part).is_prefix_of(whole),
    ensures
        before.is_prefix_of(whole),
        shows(whole, part),
        stands_at(whole, part, before.len() as int),
{
    let after = whole.skip((before + part).len() as int);
    assert(whole =~= before + part + after);
    lemma_shows(before, part, after);
    assert(before =~= whole.subrange(0, before.len() as int));
    let i = before.len() as int;
    assert(whole.subrange(i, i + part.len()) =~= part);
}

pub proof fn lemma_named_between(
    whole: Seq<char>,
    before: Seq<char>,
    name: Seq<char>,
    value: Seq<char>,
    next: Seq<char>,
)
    requires
        (before + name + value + next).is_prefix_of(whole),
    ensures
        (before + name).is_prefix_of(whole),
        shows(whole, name + value + next),
{
    assert(before + name + value + next =~= before + (name + value + next));
    lemma_shown_in_front(whole, before, name + value + next);
    assert(before + name + value + next =~= (before + name) + (value + next));
    lemma_shown_in_front(whole, before + name, value + next);
}

/// The line on the warmup gives how many iterations were discarded, what the
/// first of them took, their median and the least that one took, each behind
/// its name.
pub proof fn law_warmup_line_says_what_was_discarded(warm: Seq<u64>)
    ensures
        ({
            let line = warmup_line(warm);
            let s = summary_of(warm);
            &&& "Warmup (discarded): n="@.is_prefix_of(line)
            &&& shows(line, "Warmup (discarded): n="@ + decimal(warm.len()) + " first="@)
            &&& shows(line, " first="@ + whole_nanos(warm[0] as nat) + " p50="@)
            &&& shows(line, " p50="@ + whole_nanos(s.p50 as nat) + " last-min="@)
            &&& shows(line, " last-min="@ + whole_nanos(s.min as nat) + "\n\n"@)
            &&& line.len() == "Warmup (discarded): n="@.len() + decimal(warm.len()).len()
                + " first="@.len() + whole_nanos(warm[0] as nat).len() + " p50="@.len()
                + whole_nanos(s.p50 as nat).len() + " last-min="@.len() + whole_nanos(
                s.min as nat,
            ).len() + "\n\n"@.len()
        }),
{
    reveal(warmup_line);
    let line = warmup_line(warm);
    let s = summary_of(warm);
    let m0 = Seq::<char>::empty();
    let m1 = m0 + "Warmup (discarded): n="@ + decimal(warm.len());
    let m2 = m1 + " first="@ + whole_nanos(warm[0] as nat);
    let m3 = m2 + " p50="@ + whole_nanos(s.p50 as nat);
    assert(m0 + "Warmup (discarded): n="@ =~= "Warmup (discarded): n="@);
    assert(line == m3 + " last-min="@ + whole_nanos(s.min as nat) + "\n\n"@);
    assert(line.subrange(0, line.len() as int) =~= line);
    lemma_named_between(line, m3, " last-min="@, whole_nanos(s.min as nat), "\n\n"@);
    lemma_named_between(line, m2, " p50="@, whole_nanos(s.p50 as nat), " last-min="@);
    lemma_named_between(line, m1, " first="@, whole_nanos(warm[0] as nat), " p50="@);
    lemma_named_between(line, m0, "Warmup (discarded): n="@, decimal(warm.len()), " first="@);
}

/// A rate times the time that it is the rate of is one second's worth of
/// nanoseconds, at the median and at the mean; without bound where that time is
/// zero.
pub proof fn law_rates_are_per_second(s: Summary)
    requires
        s.mean.den <= 0xffff_ffff_ffff_ffff,
    ensures
        throughput_of(s).0 is None <==> s.p50 == 0,
        throughput_of(s).1 is None <==> s.mean.num == 0,
        throughput_of(s).0 matches Some(r) ==> r.den > 0 && r.num * s.p50 == 1_000_000_000 * r.den,
        throughput_of(s).1 matches Some(r) ==> r.den > 0 && r.num * s.mean.num == 1_000_000_000 * (
        s.mean.den * r.den),
{
    let (n, d) = (s.mean.num as int, s.mean.den as int);
    assert((1_000_000_000 * d) * n == 1_000_000_000 * (d * n)) by (nonlinear_arith);
}

/// The line on throughput gives the rate at the median and the rate at the
/// mean, each to one decimal place or as unbounded.
pub proof fn law_throughput_line_gives_both_rates(s: Summary, r: Ratio)
    ensures
        shows(
            throughput_line(s),
            "Throughput        "@ + rate_of(throughput_of(s).0) + " sig/s at p50, "@,
        ),
        shows(
            throughput_line(s),
            " sig/s at p50, "@ + rate_of(throughput_of(s).1) + " sig/s at mean\n"@,
        ),
        throughput_line(s).len() == "Throughput        "@.len() + rate_of(throughput_of(s).0).len()
            + " sig/s at p50, "@.len() + rate_of(throughput_of(s).1).len()
            + " sig/s at mean\n"@.len(),
        rate_of(None) == "inf"@,
        rate_of(Some(r)) == fraction(r.num as nat, r.den as nat, 1),
{
    reveal(throughput_line);
    let line = throughput_line(s);
    let m0 = Seq::<char>::empty();
    let (a, b) = (rate_of(throughput_of(s).0), rate_of(throughput_of(s).1));
    assert(m0 + "Throughput        "@ =~= "Throughput        "@);
    let m1 = m0 + "Throughput        "@ + a;
    assert(line == m1 + " sig/s at p50, "@ + b + " sig/s at mean\n"@);
    assert(line.subrange(0, line.len() as int) =~= line);
    lemma_named_between(line, m1, " sig/s at p50, "@, b, " sig/s at mean\n"@);
    lemma_named_between(line, m0, "Throughput        "@, a, " sig/s at p50, "@);
}

/// What is looked for is the first run of the phase, if there is one.
pub proof fn law_first_run_is_the_first(runs: Seq<Run>, phase: Phase, k: int)
    requires
        0 <= k <= runs.len(),
        forall|j: int| 0 <= j < k ==> (#[trigger] runs[j]).0 != phase,
    ensures
        k == runs.len() ==> first_run(runs, phase) is None,
        k < runs.len() && runs[k].0 == phase ==> first_run(runs, phase) == Some(runs[k].1),
{
    if k == runs.len() {
        lemma_no_run(runs, phase);
    } else if runs[k].0 == phase {
        lemma_first_run(runs, phase, k);
    }
}

/// A share is the part over the whole in per cent to the nearest tenth; there
/// is none of nothing.
pub proof fn law_percentage_is_nearest(part: nat, whole: nat)
    ensures
        whole == 0 ==> percentage(part, whole) == "NaN"@,
        whole > 0 ==> exists|u: nat|
            percentage(part, whole) == #[trigger] fixed(u, 1) && 2 * (u * whole) <= 2 * (part
                * 1_000) + whole && 2 * (part * 1_000) <= 2 * (u * whole) + whole,
{
    if whole > 0 {
        law_fraction_is_nearest(100 * part, whole, 1);
        assert(power(10, 1) == 10) by {
            reveal_with_fuel(power, 2);
        }
        assert((100 * part) * power(10, 1) == part * 1_000);
    }
}

/// The line on the share compares what signing took in all with what the whole
/// iterations took in all; it is left out where one of them has no samples.
pub proof fn law_share_is_that_of_signing(runs: Seq<Run>, sign: Seq<u64>, whole: Seq<u64>)
    requires
        first_run(runs, Phase::Sign) == Some(sign),
        first_run(runs, Phase::Total) == Some(whole),
    ensures
        sign.len() > 0 && whole.len() > 0 ==> shows(
            share_line(runs),
            "C_Sign share      "@ + percentage(total(sign), total(whole)) + "% of total"@,
        ) && share_line(runs).len() == "C_Sign share      "@.len() + percentage(
            total(sign),
            total(whole),
        ).len() + "% of total (the network-bound component)\n"@.len(),
        sign.len() == 0 || whole.len() == 0 ==> share_line(runs).len() == 0,
{
    if sign.len() > 0 && whole.len() > 0 {
        reveal_strlit("% of total (the network-bound component)\n");
        reveal_strlit("% of total");
        let tail = "% of total (the network-bound component)\n"@;
        let share = percentage(total(sign), total(whole));
        let part = "C_Sign share      "@ + share + "% of total"@;
        assert(tail =~= "% of total"@ + tail.skip(10));
        lemma_shows(Seq::empty(), part, tail.skip(10));
        assert(share_line(runs) =~= Seq::<char>::empty() + part + tail.skip(10));
    }
}

/// The last line gives the time of the whole measurement and how many
/// iterations it was.
pub proof fn law_wall_line_gives_time_and_count(wall: nat, completed: nat)
    ensures
        shows(wall_line(wall, completed), "Wall clock        "@ + whole_nanos(wall) + " for "@),
        shows(wall_line(wall, completed), " for "@ + decimal(completed) + " iterations\n"@),
        wall_line(wall, completed).len() == "Wall clock        "@.len() + whole_nanos(wall).len()
            + " for "@.len() + decimal(completed).len() + " iterations\n"@.len(),
{
    let line = wall_line(wall, completed);
    let m0 = Seq::<char>::empty();
    assert(m0 + "Wall clock        "@ =~= "Wall clock        "@);
    let m1 = m0 + "Wall clock        "@ + whole_nanos(wall);
    assert(line == m1 + " for "@ + decimal(completed) + " iterations\n"@);
    assert(line.subrange(0, line.len() as int) =~= line);
    lemma_named_between(line, m1, " for "@, decimal(completed), " iterations\n"@);
    lemma_named_between(line, m0, "Wall clock        "@, whole_nanos(wall), " for "@);
}

/// A report opens with the warmup, where there was one, and then holds the
/// table with the rows of all phases, the lines on throughput, on the share of
/// signing and on the whole time, in this order and nothing else.
pub proof fn law_report_holds_every_part(m: BenchModel, wall: nat)
    ensures
        ({
            let n = m.runs.len();
            let report = report_of(m, wall);
            let table = rows(m.runs, m.curve, n);
            let rates = throughput_lines(m.runs, n);
            let share = share_line(m.runs);
            let last = wall_line(wall, m.completed);
            let top = if m.warm.len() > 0 {
                warmup_line(m.warm).len() as int
            } else {
                0
            };
            let at = top + 112 + 117;
            &&& m.warm.len() > 0 ==> stands_at(report, warmup_line(m.warm), 0)
            &&& stands_at(report, table, at)
            &&& report[at + table.len()] == '\n'
            &&& stands_at(report, rates, at + table.len() + 1)
            &&& stands_at(report, share, at + table.len() + 1 + rates.len())
            &&& stands_at(report, last, at + table.len() + 1 + rates.len() + share.len())
            &&& report.len() == at + table.len() + 1 + rates.len() + share.len() + last.len()
        }),
{
    let n = m.runs.len();
    let warm = if m.warm.len() > 0 {
        warmup_line(m.warm)
    } else {
        Seq::empty()
    };
    let heading =
        "phase                     n         min         p50         p90         p99        p999         max      stddev\n"@;
    let rule =
        "--------------------------------------------------------------------------------------------------------------------\n"@;
    lemma_heading();
    lemma_rule();
    lemma_report(
        warm,
        heading,
        rule,
        rows(m.runs, m.curve, n),
        throughput_lines(m.runs, n),
        share_line(m.runs),
        wall_line(wall, m.completed),
    );
}

proof fn lemma_rule()
    ensures
        "--------------------------------------------------------------------------------------------------------------------\n"@.len()
            == 117,
        "\n"@.len() == 1,
        "\n"@[0] == '\n',
{
    reveal_strlit(
        "--------------------------------------------------------------------------------------------------------------------\n",
    );
    reveal_strlit("\n");
}

proof fn lemma_report(
    warm: Seq<char>,
    heading: Seq<char>,
    rule: Seq<char>,
    table: Seq<char>,
    rates: Seq<char>,
    share: Seq<char>,
    last: Seq<char>,
)
    requires
        "\n"@.len() == 1,
        "\n"@[0] == '\n',
    ensures
        ({
            let report = warm + heading + rule + table + "\n"@ + rates + share + last;
            let at = warm.len() + heading.len() + rule.len() as int;
            &&& stands_at(report, warm, 0)
            &&& stands_at(report, table, at)
            &&& report[at + table.len()] == '\n'
            &&& stands_at(report, rates, at + table.len() + 1)
            &&& stands_at(report, share, at + table.len() + 1 + rates.len())
            &&& stands_at(report, last, at + table.len() + 1 + rates.len() + share.len())
            &&& report.len() == at + table.len() + 1 + rates.len() + share.len() + last.len()
        }),
{
    let m0 = warm + heading + rule;
    let m1 = m0 + table + "\n"@;
    let report = m1 + rates + share + last;
    assert(report.subrange(0, report.len() as int) =~= report);
    lemma_shown_in_front(report, m1 + rates + share, last);
    lemma_shown_in_front(report, m1 + rates, share);
    lemma_shown_in_front(report, m1, rates);
    lemma_shown_in_front(report, m0 + table, "\n"@);
    lemma_shown_in_front(report, m0, table);
    lemma_shown_in_front(report, warm + heading, rule);
    lemma_shown_in_front(report, warm, heading);
    assert(report.subrange(0, warm.len() as int) == warm);
    let i = (m0 + table).len() as int;
    assert(report.subrange(i, i + 1)[0] == report[i]);
}

/// The title of the chart begins with the module's name, where there is one,
/// and gives how many signatures were timed.
pub proof fn law_title_names_module_and_count(name: Seq<char>, completed: nat)
    ensures
        (name + " — "@).is_prefix_of(chart_title(Some(name), completed)),
        ("PKCS#11 module"@ + " — "@).is_prefix_of(chart_title(None, completed)),
        (" — "@ + decimal(completed) + " signatures via PKCS#11"@).is_suffix_of(
            chart_title(Some(name), completed),
        ),
        (" — "@ + decimal(completed) + " signatures via PKCS#11"@).is_suffix_of(
            chart_title(None, completed),
        ),
{
    lemma_title(name, decimal(completed));
    lemma_title("PKCS#11 module"@, decimal(completed));
}

proof fn lemma_title(name: Seq<char>, count: Seq<char>)
    ensures
        ({
            let title = name + " — "@ + count + " signatures via PKCS#11"@;
            &&& (name + " — "@).is_prefix_of(title)
            &&& (" — "@ + count + " signatures via PKCS#11"@).is_suffix_of(title)
        }),
{
    let title = name + " — "@ + count + " signatures via PKCS#11"@;
    let front = name + " — "@;
    let back = " — "@ + count + " signatures via PKCS#11"@;
    assert(front =~= title.subrange(0, front.len() as int));
    assert(back =~= title.subrange(title.len() - back.len(), title.len() as int));
}

/// The header names the host, the module with its two versions and its maker,
/// the key, the mechanism of the curve, the length of a payload, how many
/// iterations and warmup iterations there are, and the two times, each behind
/// its own name.
#[verifier::spinoff_prover]
#[verifier::rlimit(60)]
pub proof fn law_header_names_what_is_measured(
    host: Seq<char>,
    info: ModuleInfo,
    label: Seq<char>,
    curve: Curve,
    payload_len: nat,
    options: BenchOptions,
    clock: Ratio,
    serialize: Ratio,
)
    ensures
        ({
            let text = header(host, info, label, curve, payload_len, options, clock, serialize);
            &&& shows(
                text,
                "=== sign-tx benchmark ===\nHost              "@ + host + "\nModule            "@,
            )
            &&& shows(text, "\nModule            "@ + info.library_description@ + " "@)
            &&& shows(text, " (Cryptoki "@ + decimal(info.cryptoki_version.0 as nat) + "."@)
            &&& shows(text, ")\nManufacturer      "@ + info.manufacturer@ + "\nKey id            "@)
            &&& shows(text, "\nKey id            "@ + label + "\nMechanism         "@)
            &&& shows(
                text,
                "\nMechanism         "@ + curve.spec_mechanism_name()
                    + "\nPayload           Solana transfer message, "@,
            )
            &&& shows(
                text,
                "\nPayload           Solana transfer message, "@ + decimal(payload_len)
                    + " bytes\nIterations        "@,
            )
            &&& shows(
                text,
                " bytes\nIterations        "@ + decimal(options.iterations as nat)
                    + "\nWarmup            "@,
            )
            &&& shows(
                text,
                "\nWarmup            "@ + decimal(options.warmup as nat)
                    + "\nConcurrency       1 (sequential — latency, not throughput under load)\nClock             std::time::Instant, overhead ~"@,
            )
            &&& shows(
                text,
                "\nConcurrency       1 (sequential — latency, not throughput under load)\nClock             std::time::Instant, overhead ~"@
                    + nanos_text(clock.num as nat, clock.den as nat) + "\nSerialize         "@,
            )
            &&& shows(
                text,
                "\nSerialize         "@ + nanos_text(serialize.num as nat, serialize.den as nat)
                    + " per message (pre-generated, outside the timed loop)\nBroadcast         no\n\n"@,
            )
            &&& shows(text, " "@ + decimal(info.library_version.0 as nat) + "."@)
            &&& shows(text, "."@ + decimal(info.library_version.1 as nat) + " (Cryptoki "@)
            &&& shows(
                text,
                "."@ + decimal(info.cryptoki_version.1 as nat) + ")\nManufacturer      "@,
            )
            &&& text.len() == "=== sign-tx benchmark ===\nHost              "@.len() + host.len()
                + "\nModule            "@.len() + info.library_description@.len() + " "@.len()
                + decimal(info.library_version.0 as nat).len() + "."@.len()
                + decimal(info.library_version.1 as nat).len() + " (Cryptoki "@.len()
                + decimal(info.cryptoki_version.0 as nat).len() + "."@.len()
                + decimal(info.cryptoki_version.1 as nat).len() + ")\nManufacturer      "@.len()
                + info.manufacturer@.len() + "\nKey id            "@.len() + label.len()
                + "\nMechanism         "@.len() + curve.spec_mechanism_name().len()
                + "\nPayload           Solana transfer message, "@.len()
                + decimal(payload_len).len() + " bytes\nIterations        "@.len()
                + decimal(options.iterations as nat).len() + "\nWarmup            "@.len()
                + decimal(options.warmup as nat).len()
                + "\nConcurrency       1 (sequential — latency, not throughput under load)\nClock             std::time::Instant, overhead ~"@.len()
                + nanos_text(clock.num as nat, clock.den as nat).len()
                + "\nSerialize         "@.len()
                + nanos_text(serialize.num as nat, serialize.den as nat).len()
                + " per message (pre-generated, outside the timed loop)\nBroadcast         no\n\n"@.len()
        }),
{
    reveal(header);
    let text = header(host, info, label, curve, payload_len, options, clock, serialize);
    let m0 = Seq::<char>::empty();
    let v0 = host;
    let v1 = info.library_description@;
    let v2 = decimal(info.library_version.0 as nat);
    let v3 = decimal(info.library_version.1 as nat);
    let v4 = decimal(info.cryptoki_version.0 as nat);
    let v5 = decimal(info.cryptoki_version.1 as nat);
    let v6 = info.manufacturer@;
    let v7 = label;
    let v8 = curve.spec_mechanism_name();
    let v9 = decimal(payload_len);
    let v10 = decimal(options.iterations as nat);
    let v11 = decimal(options.warmup as nat);
    let v12 = nanos_text(clock.num as nat, clock.den as nat);
    let v13 = nanos_text(serialize.num as nat, serialize.den as nat);
    let m1 = m0 + "=== sign-tx benchmark ===\nHost              "@ + v0;
    let m2 = m1 + "\nModule            "@ + v1;
    let m3 = m2 + " "@ + v2;
    let m4 = m3 + "."@ + v3;
    let m5 = m4 + " (Cryptoki "@ + v4;
    let m6 = m5 + "."@ + v5;
    let m7 = m6 + ")\nManufacturer      "@ + v6;
    let m8 = m7 + "\nKey id            "@ + v7;
    let m9 = m8 + "\nMechanism         "@ + v8;
    let m10 = m9 + "\nPayload           Solana transfer message, "@ + v9;
    let m11 = m10 + " bytes\nIterations        "@ + v10;
    let m12 = m11 + "\nWarmup            "@ + v11;
    let m13 = m12
        + "\nConcurrency       1 (sequential — latency, not throughput under load)\nClock             std::time::Instant, overhead ~"@
        + v12;
    let m14 = m13 + "\nSerialize         "@ + v13;
    assert(
        m0
            + "=== sign-tx benchmark ===\nHost              "@ =~= "=== sign-tx benchmark ===\nHost              "@
    );
    assert(
        text == m14
            + " per message (pre-generated, outside the timed loop)\nBroadcast         no\n\n"@
    );
    assert(text.subrange(0, text.len() as int) =~= text);
    assert(
        (m13 + "\nSerialize         "@ + v13 + " per message (pre-generated, outside the timed loop)\nBroadcast         no\n\n"@).is_prefix_of(text)
    );
    lemma_named_between(
        text,
        m13,
        "\nSerialize         "@,
        v13,
        " per message (pre-generated, outside the timed loop)\nBroadcast         no\n\n"@,
    );
    lemma_named_between(
        text,
        m12,
        "\nConcurrency       1 (sequential — latency, not throughput under load)\nClock             std::time::Instant, overhead ~"@,
        v12,
        "\nSerialize         "@,
    );
    lemma_named_between(
        text,
        m11,
        "\nWarmup            "@,
        v11,
        "\nConcurrency       1 (sequential — latency, not throughput under load)\nClock             std::time::Instant, overhead ~"@,
    );
    lemma_named_between(text, m10, " bytes\nIterations        "@, v10, "\nWarmup            "@);
    lemma_named_between(
        text,
        m9,
        "\nPayload           Solana transfer message, "@,
        v9,
        " bytes\nIterations        "@,
    );
    lemma_named_between(
        text,
        m8,
        "\nMechanism         "@,
        v8,
        "\nPayload           Solana transfer message, "@,
    );
    lemma_named_between(text, m7, "\nKey id            "@, v7, "\nMechanism         "@);
    lemma_named_between(text, m6, ")\nManufacturer      "@, v6, "\nKey id            "@);
    lemma_named_between(text, m5, "."@, v5, ")\nManufacturer      "@);
    lemma_named_between(text, m4, " (Cryptoki "@, v4, "."@);
    lemma_named_between(text, m3, "."@, v3, " (Cryptoki "@);
    lemma_named_between(text, m2, " "@, v2, "."@);
    lemma_named_between(text, m1, "\nModule            "@, v1, " "@);
    lemma_named_between(
        text,
        m0,
        "=== sign-tx benchmark ===\nHost              "@,
        v0,
        "\nModule            "@,
    );
}

} // verus!
