//! The latency distribution of one phase, with percentile markers overlaid.

use crate::chart::{lemma_shows, lemma_still_shows, shows, stands_at};
use crate::report::{lemma_named_between, lemma_shown_in_front};
use crate::stats::{law_summary_is_ordered, summary_of, Summary};
use crate::svg::{
    above, above_text, axis_end, axis_end_of, below, below_text, nanos, nanos_label, tenths,
    tenths_text, MAX_Y,
};
use crate::text::{decimal, decimal_text};
use vstd::prelude::*;
use vstd::string::StringExecFns;

verus! {

/// The number of bars.
pub const BUCKETS: usize = 48;

/// The bucket of a sample on the axis from `min` to `end`: the nearest of the
/// equally spaced ones, the upper of two that are equally near.
pub open spec fn bucket_of(v: nat, min: nat, end: nat) -> nat {
    (((v - min) * 94 + (end - min)) / (2 * (end - min))) as nat
}

/// How many samples up to the end of the axis fall into bucket `b`.
pub open spec fn count_in(values: Seq<u64>, min: nat, end: nat, b: nat) -> nat
    decreases values.len(),
{
    if values.len() == 0 {
        0
    } else {
        let v = values.last() as nat;
        count_in(values.drop_last(), min, end, b) + (if v <= end && bucket_of(v, min, end) == b {
            1nat
        } else {
            0
        })
    }
}

/// How many samples lie beyond the end of the axis.
pub open spec fn count_beyond(values: Seq<u64>, end: nat) -> nat
    decreases values.len(),
{
    if values.len() == 0 {
        0
    } else {
        count_beyond(values.drop_last(), end) + (if values.last() as nat > end {
            1nat
        } else {
            0
        })
    }
}

/// The number of samples in each bucket.
pub open spec fn bucket_counts(values: Seq<u64>, min: nat, end: nat) -> Seq<nat> {
    Seq::new(BUCKETS as nat, |b: int| count_in(values, min, end, b as nat))
}

/// The largest count, at least one.
pub open spec fn peak_of(counts: Seq<nat>) -> nat
    decreases counts.len(),
{
    if counts.len() == 0 {
        1
    } else if counts.last() > peak_of(counts.drop_last()) {
        counts.last()
    } else {
        peak_of(counts.drop_last())
    }
}

/// How far along the axis a value is marked.
pub open spec fn clamped(value: nat, min: nat, end: nat) -> nat {
    if value <= min {
        0
    } else if value >= end {
        (end - min) as nat
    } else {
        (value - min) as nat
    }
}

/// One bar.
#[verifier::opaque]
pub open spec fn bar(b: nat, count: nat, peak: nat, colour: Seq<char>, baseline: nat) -> Seq<char> {
    r#"<rect x=""#@
        + above(88, 844 * b, 48, 2)
        + r#"" y=""#@
        + below(baseline, 178 * count, peak, 2)
        + r#"" width=""#@
        + above(0, 796, 48, 2)
        + r#"" height=""#@
        + above(0, 178 * count, peak, 2)
        + r#"" fill=""#@
        + colour
        + r#"" opacity="0.75"/>"#@
}

fn bar_text(b: u128, count: u128, peak: u128, colour: &str, baseline: u128) -> (text: String)
    requires
        b < 48,
        count <= peak,
        0 < peak <= 0xffff_ffff_ffff_ffff,
        190 <= baseline <= 2 * MAX_Y,
    ensures
        text@ == bar(b as nat, count as nat, peak as nat, colour@, baseline as nat),
{
    proof {
        reveal(bar);
    }
    assert(178 * count <= baseline * peak) by (nonlinear_arith)
        requires
            count <= peak,
            178 <= baseline,
    ;
    let mut text = String::from_str(r#"<rect x=""#);
    let x = above_text(88, 844 * b, 48, 2);
    text.append(x.as_str());
    text.append(r#"" y=""#);
    let y = below_text(baseline, 178 * count, peak, 2);
    text.append(y.as_str());
    text.append(r#"" width=""#);
    let width = above_text(0, 796, 48, 2);
    text.append(width.as_str());
    text.append(r#"" height=""#);
    let height = above_text(0, 178 * count, peak, 2);
    text.append(height.as_str());
    text.append(r#"" fill=""#);
    text.append(colour);
    text.append(r#"" opacity="0.75"/>"#);
    text
}

/// The bars of the first `k` buckets; an empty one has none.
pub open spec fn bars(counts: Seq<nat>, peak: nat, colour: Seq<char>, baseline: nat, k: nat) -> Seq<
    char,
>
    decreases k,
{
    if k == 0 {
        Seq::empty()
    } else if counts[k - 1] == 0 {
        bars(counts, peak, colour, baseline, (k - 1) as nat)
    } else {
        bars(counts, peak, colour, baseline, (k - 1) as nat) + bar(
            (k - 1) as nat,
            counts[k - 1],
            peak,
            colour,
            baseline,
        )
    }
}

/// The axis.
#[verifier::opaque]
pub open spec fn axis_line(baseline: nat) -> Seq<char> {
    r#"<line x1="88" y1=""#@
        + tenths(baseline)
        + r#"" x2="932.0" y2=""#@
        + tenths(baseline)
        + r##"" stroke="#d1d5db" stroke-width="1"/>"##@
}

fn axis_line_text(baseline: u128) -> (text: String)
    ensures
        text@ == axis_line(baseline as nat),
{
    proof {
        reveal(axis_line);
    }
    let mut text = String::from_str(r#"<line x1="88" y1=""#);
    let y1 = tenths_text(baseline);
    text.append(y1.as_str());
    text.append(r#"" x2="932.0" y2=""#);
    let y2 = tenths_text(baseline);
    text.append(y2.as_str());
    text.append(r##"" stroke="#d1d5db" stroke-width="1"/>"##);
    text
}

/// A percentile marker.
#[verifier::opaque]
pub open spec fn marker(
    value: nat,
    along: nat,
    span: nat,
    label: Seq<char>,
    dash: Seq<char>,
    y: nat,
) -> Seq<char> {
    r#"<line x1=""#@
        + above(88, 844 * along, span, 2)
        + r#"" y1=""#@
        + tenths(y + 4)
        + r#"" x2=""#@
        + above(88, 844 * along, span, 2)
        + r#"" y2=""#@
        + tenths(y + 190)
        + r##"" stroke="#1a1d23" stroke-width="1.2" stroke-dasharray=""##@
        + dash
        + r#"" opacity="0.65"/><text x=""#@
        + above(92, 844 * along, span, 2)
        + r#"" y=""#@
        + tenths(y + 13)
        + r##"" font-size="10" fill="#1a1d23">"##@
        + label
        + " "@
        + nanos(value)
        + "</text>"@
}

fn marker_text(
    value: u128,
    along: u128,
    span: u128,
    label: &str,
    dash: &str,
    y: u128,
) -> (text: String)
    requires
        0 < span <= 0x2_0000_0000_0000_0000,
        along <= span,
        y <= MAX_Y,
    ensures
        text@ == marker(value as nat, along as nat, span as nat, label@, dash@, y as nat),
{
    proof {
        reveal(marker);
    }
    let mut text = String::from_str(r#"<line x1=""#);
    let x1 = above_text(88, 844 * along, span, 2);
    text.append(x1.as_str());
    text.append(r#"" y1=""#);
    let y1 = tenths_text(y + 4);
    text.append(y1.as_str());
    text.append(r#"" x2=""#);
    let x2 = above_text(88, 844 * along, span, 2);
    text.append(x2.as_str());
    text.append(r#"" y2=""#);
    let y2 = tenths_text(y + 190);
    text.append(y2.as_str());
    text.append(r##"" stroke="#1a1d23" stroke-width="1.2" stroke-dasharray=""##);
    text.append(dash);
    text.append(r#"" opacity="0.65"/><text x=""#);
    let x3 = above_text(92, 844 * along, span, 2);
    text.append(x3.as_str());
    text.append(r#"" y=""#);
    let y3 = tenths_text(y + 13);
    text.append(y3.as_str());
    text.append(r##"" font-size="10" fill="#1a1d23">"##);
    text.append(label);
    text.append(" ");
    let v = nanos_label(value);
    text.append(v.as_str());
    text.append("</text>");
    text
}

/// The values at the two ends of the axis.
#[verifier::opaque]
pub open spec fn axis_ends(min: nat, end: nat, baseline: nat) -> Seq<char> {
    r#"<text x="88" y=""#@
        + tenths(baseline + 14)
        + r##"" font-size="10" fill="#6b7280">"##@
        + nanos(min)
        + r#"</text><text x="932.0" y=""#@
        + tenths(baseline + 14)
        + r##"" font-size="10" fill="#6b7280" text-anchor="end">"##@
        + nanos(end)
        + "</text>"@
}

fn axis_ends_text(min: u128, end: u128, baseline: u128) -> (text: String)
    requires
        baseline <= 2 * MAX_Y,
    ensures
        text@ == axis_ends(min as nat, end as nat, baseline as nat),
{
    proof {
        reveal(axis_ends);
    }
    let mut text = String::from_str(r#"<text x="88" y=""#);
    let y1 = tenths_text(baseline + 14);
    text.append(y1.as_str());
    text.append(r##"" font-size="10" fill="#6b7280">"##);
    let low = nanos_label(min);
    text.append(low.as_str());
    text.append(r#"</text><text x="932.0" y=""#);
    let y2 = tenths_text(baseline + 14);
    text.append(y2.as_str());
    text.append(r##"" font-size="10" fill="#6b7280" text-anchor="end">"##);
    let high = nanos_label(end);
    text.append(high.as_str());
    text.append("</text>");
    text
}

/// The note on the samples that the axis leaves out.
#[verifier::opaque]
pub open spec fn beyond_note(beyond: nat, max: nat, baseline: nat) -> Seq<char> {
    r#"<text x="932.0" y=""#@
        + tenths(baseline + 27)
        + r##"" font-size="10" fill="#9ca3af" text-anchor="end">"##@
        + decimal(beyond)
        + " sample(s) beyond p999, up to "@
        + nanos(max)
        + "</text>"@
}

fn beyond_note_text(beyond: u128, max: u128, baseline: u128) -> (text: String)
    requires
        baseline <= 2 * MAX_Y,
    ensures
        text@ == beyond_note(beyond as nat, max as nat, baseline as nat),
{
    proof {
        reveal(beyond_note);
    }
    let mut text = String::from_str(r#"<text x="932.0" y=""#);
    let y = tenths_text(baseline + 27);
    text.append(y.as_str());
    text.append(r##"" font-size="10" fill="#9ca3af" text-anchor="end">"##);
    let n = decimal_text(beyond);
    text.append(n.as_str());
    text.append(" sample(s) beyond p999, up to ");
    let high = nanos_label(max);
    text.append(high.as_str());
    text.append("</text>");
    text
}

/// The caption of the vertical direction.
#[verifier::opaque]
pub open spec fn count_caption(middle: nat) -> Seq<char> {
    r#"<text x="58.0" y=""#@
        + tenths(middle)
        + r##"" font-size="10" fill="#9ca3af" text-anchor="middle" transform="rotate(-90 58.0 "##@
        + tenths(middle)
        + r#")">count</text>"#@
}

fn count_caption_text(middle: u128) -> (text: String)
    ensures
        text@ == count_caption(middle as nat),
{
    proof {
        reveal(count_caption);
    }
    let mut text = String::from_str(r#"<text x="58.0" y=""#);
    let y1 = tenths_text(middle);
    text.append(y1.as_str());
    text.append(
        r##"" font-size="10" fill="#9ca3af" text-anchor="middle" transform="rotate(-90 58.0 "##,
    );
    let y2 = tenths_text(middle);
    text.append(y2.as_str());
    text.append(r#")">count</text>"#);
    text
}

/// The histogram of samples with summary `s`, at height `y`.
///
/// The axis is clamped at p999 so a lone outlier cannot squash the entire
/// distribution into the leftmost bucket. The excluded tail is annotated.
pub open spec fn histogram_svg(
    values: Seq<u64>,
    s: Summary,
    colour: Seq<char>,
    y: nat,
) -> Seq<char> {
    let min = s.min as nat;
    let end = axis_end(s.min, s.p999);
    let span = (end - min) as nat;
    let counts = bucket_counts(values, min, end);
    let beyond = count_beyond(values, end);
    let body = bars(counts, peak_of(counts), colour, y + 190, BUCKETS as nat) + axis_line(y + 190)
        + marker(s.p50 as nat, clamped(s.p50 as nat, min, end), span, "p50"@, "none"@, y) + marker(
        s.p99 as nat,
        clamped(s.p99 as nat, min, end),
        span,
        "p99"@,
        "3 3"@,
        y,
    ) + axis_ends(min, end, y + 190);
    (if beyond > 0 {
        body + beyond_note(beyond, s.max as nat, y + 190)
    } else {
        body
    }) + count_caption(y + 95)
}

fn clamped_of(value: u128, min: u128, end: u128) -> (along: u128)
    requires
        min < end,
    ensures
        along == clamped(value as nat, min as nat, end as nat),
        along <= end - min,
{
    if value <= min {
        0
    } else if value >= end {
        end - min
    } else {
        value - min
    }
}

proof fn lemma_bucket(v: nat, min: nat, end: nat)
    requires
        min <= v <= end,
        min < end,
    ensures
        bucket_of(v, min, end) < 48,
{
    let (x, s) = ((v - min) as int, (end - min) as int);
    assert((x * 94 + s) / (2 * s) < 48) by (nonlinear_arith)
        requires
            0 <= x <= s,
            s > 0,
    ;
    assert((x * 94 + s) / (2 * s) >= 0) by (nonlinear_arith)
        requires
            0 <= x <= s,
            s > 0,
    ;
}

proof fn lemma_count_bound(values: Seq<u64>, min: nat, end: nat, b: nat)
    ensures
        count_in(values, min, end, b) <= values.len(),
        count_beyond(values, end) <= values.len(),
    decreases values.len(),
{
    if values.len() > 0 {
        lemma_count_bound(values.drop_last(), min, end, b);
    }
}

/// Sort the samples into buckets; the rest lies beyond the end of the axis.
pub fn fill_buckets(values: &[u64], min: u64, end: u128) -> (r: (Vec<usize>, usize))
    requires
        forall|i: int| 0 <= i < values@.len() ==> min <= #[trigger] values@[i],
        min < end <= 0x1_0000_0000_0000_0000,
    ensures
        r.0@.len() == BUCKETS,
        r.0@.map_values(|c: usize| c as nat) == bucket_counts(values@, min as nat, end as nat),
        r.1 == count_beyond(values@, end as nat),
{
    let span: u128 = end - min as u128;
    let mut buckets: Vec<usize> = Vec::new();
    while buckets.len() < BUCKETS
        invariant
            buckets@.len() <= BUCKETS,
            forall|b: int| 0 <= b < buckets@.len() ==> #[trigger] buckets@[b] == 0,
        decreases BUCKETS - buckets.len(),
    {
        buckets.push(0);
    }
    let mut beyond: usize = 0;
    let mut i: usize = 0;
    let n = values.len();
    assert(values@.take(0) == Seq::<u64>::empty());
    while i < n
        invariant
            n == values@.len(),
            i <= n,
            min < end <= 0x1_0000_0000_0000_0000,
            span == end - min,
            forall|j: int| 0 <= j < values@.len() ==> min <= #[trigger] values@[j],
            buckets@.len() == BUCKETS,
            forall|b: int|
                0 <= b < BUCKETS ==> #[trigger] buckets@[b] == count_in(
                    values@.take(i as int),
                    min as nat,
                    end as nat,
                    b as nat,
                ),
            beyond == count_beyond(values@.take(i as int), end as nat),
        decreases n - i,
    {
        let v: u128 = values[i] as u128;
        let ghost taken = values@.take(i + 1);
        proof {
            assert(taken.drop_last() == values@.take(i as int));
            assert(taken.last() == values@[i as int]);
            lemma_count_bound(taken, min as nat, end as nat, 0);
        }
        if v > end {
            beyond = beyond + 1;
        } else {
            proof {
                lemma_bucket(v as nat, min as nat, end as nat);
                lemma_count_bound(
                    taken,
                    min as nat,
                    end as nat,
                    bucket_of(v as nat, min as nat, end as nat),
                );
            }
            let index: usize = (((v - min as u128) * 94 + span) / (2 * span)) as usize;
            assert(index == bucket_of(v as nat, min as nat, end as nat));
            let count: usize = buckets[index];
            buckets[index] = count + 1;
        }
        i = i + 1;
    }
    assert(values@.take(n as int) == values@);
    assert(buckets@.map_values(|c: usize| c as nat) =~= bucket_counts(
        values@,
        min as nat,
        end as nat,
    ));
    (buckets, beyond)
}

fn peak_count(buckets: &Vec<usize>) -> (peak: usize)
    ensures
        peak == peak_of(buckets@.map_values(|c: usize| c as nat)),
        peak > 0,
        forall|b: int| 0 <= b < buckets@.len() ==> #[trigger] buckets@[b] <= peak,
{
    let ghost counts = buckets@.map_values(|c: usize| c as nat);
    let mut peak: usize = 1;
    let mut i: usize = 0;
    while i < buckets.len()
        invariant
            i <= buckets@.len(),
            counts == buckets@.map_values(|c: usize| c as nat),
            peak == peak_of(counts.take(i as int)),
            peak > 0,
            forall|b: int| 0 <= b < i ==> #[trigger] buckets@[b] <= peak,
        decreases buckets.len() - i,
    {
        assert(counts.take(i + 1).drop_last() == counts.take(i as int));
        assert(counts.take(i + 1).last() == buckets@[i as int]);
        if buckets[i] > peak {
            peak = buckets[i];
        }
        i = i + 1;
    }
    assert(counts.take(i as int) == counts);
    peak
}

/// Latency distribution, with percentile markers overlaid.
pub fn histogram(values: &[u64], summary: &Summary, colour: &str, y: u128) -> (out: String)
    requires
        0 < values@.len(),
        *summary == summary_of(values@),
        y <= MAX_Y,
    ensures
        out@ == histogram_svg(values@, *summary, colour@, y as nat),
{
    let n: usize = values.len();
    proof {
        assert(values@.len() == n);
        law_summary_is_ordered(values@);
        assert forall|i: int| 0 <= i < values@.len() implies summary.min
            <= #[trigger] values@[i] by {
            assert(values@.contains(values@[i]));
        }
    }
    let baseline: u128 = y + 190;
    let min: u128 = summary.min as u128;
    let end = axis_end_of(summary.min, summary.p999);
    let span: u128 = end - min;
    let (buckets, beyond) = fill_buckets(values, summary.min, end);
    let peak = peak_count(&buckets);
    let ghost counts = bucket_counts(values@, min as nat, end as nat);

    let mut out = String::new();
    let mut b: usize = 0;
    while b < BUCKETS
        invariant
            b <= BUCKETS,
            buckets@.len() == BUCKETS,
            buckets@.map_values(|c: usize| c as nat) == counts,
            forall|b: int| 0 <= b < buckets@.len() ==> #[trigger] buckets@[b] <= peak,
            0 < peak,
            190 <= baseline <= 2 * MAX_Y,
            out@ == bars(counts, peak as nat, colour@, baseline as nat, b as nat),
        decreases BUCKETS - b,
    {
        let count: usize = buckets[b];
        assert(counts[b as int] == count);
        if count != 0 {
            let piece = bar_text(b as u128, count as u128, peak as u128, colour, baseline);
            out.append(piece.as_str());
        }
        b = b + 1;
    }

    let line = axis_line_text(baseline);
    out.append(line.as_str());
    let p50: u128 = summary.p50 as u128;
    let middle = marker_text(p50, clamped_of(p50, min, end), span, "p50", "none", y);
    out.append(middle.as_str());
    let p99: u128 = summary.p99 as u128;
    let tail = marker_text(p99, clamped_of(p99, min, end), span, "p99", "3 3", y);
    out.append(tail.as_str());
    let ends = axis_ends_text(min, end, baseline);
    out.append(ends.as_str());
    if beyond > 0 {
        let note = beyond_note_text(beyond as u128, summary.max as u128, baseline);
        out.append(note.as_str());
    }
    let caption = count_caption_text(y + 95);
    out.append(caption.as_str());
    out
}

pub open spec fn sum_of(counts: Seq<nat>) -> nat
    decreases counts.len(),
{
    if counts.len() == 0 {
        0
    } else {
        sum_of(counts.drop_last()) + counts.last()
    }
}

proof fn lemma_sum_step(a: Seq<nat>, b: Seq<nat>, k: int)
    requires
        a.len() == b.len(),
        0 <= k < a.len(),
        b[k] == a[k] + 1,
        forall|i: int| 0 <= i < a.len() && i != k ==> #[trigger] a[i] == b[i],
    ensures
        sum_of(b) == sum_of(a) + 1,
    decreases a.len(),
{
    if k == a.len() - 1 {
        assert(a.drop_last() =~= b.drop_last());
    } else {
        assert(a[a.len() - 1] == b[a.len() - 1]);
        lemma_sum_step(a.drop_last(), b.drop_last(), k);
    }
}

proof fn lemma_sum_of_zeros(counts: Seq<nat>)
    requires
        forall|i: int| 0 <= i < counts.len() ==> #[trigger] counts[i] == 0,
    ensures
        sum_of(counts) == 0,
    decreases counts.len(),
{
    if counts.len() > 0 {
        assert(counts[counts.len() - 1] == 0);
        lemma_sum_of_zeros(counts.drop_last());
    }
}

/// Every sample is counted exactly once: in one bucket, or beyond the axis.
pub proof fn law_every_sample_is_counted(values: Seq<u64>, min: nat, end: nat)
    requires
        min < end,
        forall|i: int| 0 <= i < values.len() ==> min <= #[trigger] values[i],
    ensures
        sum_of(bucket_counts(values, min, end)) + count_beyond(values, end) == values.len(),
    decreases values.len(),
{
    let counts = bucket_counts(values, min, end);
    if values.len() == 0 {
        lemma_sum_of_zeros(counts);
    } else {
        let rest = values.drop_last();
        let v = values.last() as nat;
        assert(values[values.len() - 1] == values.last());
        assert forall|i: int| 0 <= i < rest.len() implies min <= #[trigger] rest[i] by {
            assert(rest[i] == values[i]);
        }
        law_every_sample_is_counted(rest, min, end);
        let before = bucket_counts(rest, min, end);
        if v <= end {
            lemma_bucket(v, min, end);
            lemma_sum_step(before, counts, bucket_of(v, min, end) as int);
        } else {
            assert(before =~= counts);
        }
    }
}

/// A bar stands where its bucket is on the axis, is as high as its count is of
/// the largest, rises from the baseline and has the colour of the phase.
pub proof fn law_bar_stands_on_its_bucket(
    b: nat,
    count: nat,
    peak: nat,
    colour: Seq<char>,
    baseline: nat,
)
    ensures
        shows(
            bar(b, count, peak, colour, baseline),
            r#"<rect x=""#@ + above(88, 844 * b, 48, 2) + r#"" y=""#@,
        ),
        shows(
            bar(b, count, peak, colour, baseline),
            r#"" y=""#@ + below(baseline, 178 * count, peak, 2) + r#"" width=""#@,
        ),
        shows(
            bar(b, count, peak, colour, baseline),
            r#"" width=""#@ + above(0, 796, 48, 2) + r#"" height=""#@,
        ),
        shows(
            bar(b, count, peak, colour, baseline),
            r#"" height=""#@ + above(0, 178 * count, peak, 2) + r#"" fill=""#@,
        ),
        shows(
            bar(b, count, peak, colour, baseline),
            r#"" fill=""#@ + colour + r#"" opacity="0.75"/>"#@,
        ),
        bar(b, count, peak, colour, baseline).len() == r#"<rect x=""#@.len()
            + above(88, 844 * b, 48, 2).len() + r#"" y=""#@.len()
            + below(baseline, 178 * count, peak, 2).len() + r#"" width=""#@.len()
            + above(0, 796, 48, 2).len() + r#"" height=""#@.len()
            + above(0, 178 * count, peak, 2).len() + r#"" fill=""#@.len() + colour.len()
            + r#"" opacity="0.75"/>"#@.len(),
{
    reveal(bar);
    let text = bar(b, count, peak, colour, baseline);
    let m0 = Seq::<char>::empty();
    let v0 = above(88, 844 * b, 48, 2);
    let v1 = below(baseline, 178 * count, peak, 2);
    let v2 = above(0, 796, 48, 2);
    let v3 = above(0, 178 * count, peak, 2);
    let v4 = colour;
    let m1 = m0 + r#"<rect x=""#@ + v0;
    let m2 = m1 + r#"" y=""#@ + v1;
    let m3 = m2 + r#"" width=""#@ + v2;
    let m4 = m3 + r#"" height=""#@ + v3;
    let m5 = m4 + r#"" fill=""#@ + v4;
    assert(m0 + r#"<rect x=""#@ =~= r#"<rect x=""#@);
    assert(text == m5 + r#"" opacity="0.75"/>"#@);
    assert(text.subrange(0, text.len() as int) =~= text);
    lemma_named_between(text, m4, r#"" fill=""#@, v4, r#"" opacity="0.75"/>"#@);
    lemma_named_between(text, m3, r#"" height=""#@, v3, r#"" fill=""#@);
    lemma_named_between(text, m2, r#"" width=""#@, v2, r#"" height=""#@);
    lemma_named_between(text, m1, r#"" y=""#@, v1, r#"" width=""#@);
    lemma_named_between(text, m0, r#"<rect x=""#@, v0, r#"" y=""#@);
}

/// A marker runs through the height of the plot where its value is on the axis,
/// and is labelled with its name and the value.
pub proof fn law_marker_stands_at_its_value(
    value: nat,
    along: nat,
    span: nat,
    label: Seq<char>,
    dash: Seq<char>,
    y: nat,
)
    ensures
        shows(
            marker(value, along, span, label, dash, y),
            r#"<line x1=""#@ + above(88, 844 * along, span, 2) + r#"" y1=""#@,
        ),
        shows(
            marker(value, along, span, label, dash, y),
            r#"" y1=""#@ + tenths(y + 4) + r#"" x2=""#@,
        ),
        shows(
            marker(value, along, span, label, dash, y),
            r#"" x2=""#@ + above(88, 844 * along, span, 2) + r#"" y2=""#@,
        ),
        shows(
            marker(value, along, span, label, dash, y),
            r#"" y2=""#@ + tenths(y + 190)
                + r##"" stroke="#1a1d23" stroke-width="1.2" stroke-dasharray=""##@,
        ),
        shows(
            marker(value, along, span, label, dash, y),
            r##"" stroke="#1a1d23" stroke-width="1.2" stroke-dasharray=""##@ + dash
                + r#"" opacity="0.65"/><text x=""#@,
        ),
        shows(
            marker(value, along, span, label, dash, y),
            r#"" opacity="0.65"/><text x=""#@ + above(92, 844 * along, span, 2) + r#"" y=""#@,
        ),
        shows(
            marker(value, along, span, label, dash, y),
            r#"" y=""#@ + tenths(y + 13) + r##"" font-size="10" fill="#1a1d23">"##@,
        ),
        shows(
            marker(value, along, span, label, dash, y),
            r##"" font-size="10" fill="#1a1d23">"##@ + label + " "@,
        ),
        shows(marker(value, along, span, label, dash, y), " "@ + nanos(value) + "</text>"@),
        marker(value, along, span, label, dash, y).len() == r#"<line x1=""#@.len()
            + above(88, 844 * along, span, 2).len() + r#"" y1=""#@.len() + tenths(y + 4).len()
            + r#"" x2=""#@.len() + above(88, 844 * along, span, 2).len() + r#"" y2=""#@.len()
            + tenths(y + 190).len()
            + r##"" stroke="#1a1d23" stroke-width="1.2" stroke-dasharray=""##@.len() + dash.len()
            + r#"" opacity="0.65"/><text x=""#@.len() + above(92, 844 * along, span, 2).len()
            + r#"" y=""#@.len() + tenths(y + 13).len()
            + r##"" font-size="10" fill="#1a1d23">"##@.len() + label.len() + " "@.len()
            + nanos(value).len() + "</text>"@.len(),
{
    reveal(marker);
    let text = marker(value, along, span, label, dash, y);
    let m0 = Seq::<char>::empty();
    let v0 = above(88, 844 * along, span, 2);
    let v1 = tenths(y + 4);
    let v2 = above(88, 844 * along, span, 2);
    let v3 = tenths(y + 190);
    let v4 = dash;
    let v5 = above(92, 844 * along, span, 2);
    let v6 = tenths(y + 13);
    let v7 = label;
    let v8 = nanos(value);
    let m1 = m0 + r#"<line x1=""#@ + v0;
    let m2 = m1 + r#"" y1=""#@ + v1;
    let m3 = m2 + r#"" x2=""#@ + v2;
    let m4 = m3 + r#"" y2=""#@ + v3;
    let m5 = m4 + r##"" stroke="#1a1d23" stroke-width="1.2" stroke-dasharray=""##@ + v4;
    let m6 = m5 + r#"" opacity="0.65"/><text x=""#@ + v5;
    let m7 = m6 + r#"" y=""#@ + v6;
    let m8 = m7 + r##"" font-size="10" fill="#1a1d23">"##@ + v7;
    let m9 = m8 + " "@ + v8;
    assert(m0 + r#"<line x1=""#@ =~= r#"<line x1=""#@);
    assert(text == m9 + "</text>"@);
    assert(text.subrange(0, text.len() as int) =~= text);
    lemma_named_between(text, m8, " "@, v8, "</text>"@);
    lemma_named_between(text, m7, r##"" font-size="10" fill="#1a1d23">"##@, v7, " "@);
    lemma_named_between(text, m6, r#"" y=""#@, v6, r##"" font-size="10" fill="#1a1d23">"##@);
    lemma_named_between(text, m5, r#"" opacity="0.65"/><text x=""#@, v5, r#"" y=""#@);
    lemma_named_between(
        text,
        m4,
        r##"" stroke="#1a1d23" stroke-width="1.2" stroke-dasharray=""##@,
        v4,
        r#"" opacity="0.65"/><text x=""#@,
    );
    lemma_named_between(
        text,
        m3,
        r#"" y2=""#@,
        v3,
        r##"" stroke="#1a1d23" stroke-width="1.2" stroke-dasharray=""##@,
    );
    lemma_named_between(text, m2, r#"" x2=""#@, v2, r#"" y2=""#@);
    lemma_named_between(text, m1, r#"" y1=""#@, v1, r#"" x2=""#@);
    lemma_named_between(text, m0, r#"<line x1=""#@, v0, r#"" y1=""#@);
}

/// The left end of the axis is labelled with its start, the right end with its
/// end.
pub proof fn law_axis_ends_are_labelled(min: nat, end: nat, baseline: nat)
    ensures
        shows(
            axis_ends(min, end, baseline),
            r#"<text x="88" y=""#@ + tenths(baseline + 14)
                + r##"" font-size="10" fill="#6b7280">"##@,
        ),
        shows(
            axis_ends(min, end, baseline),
            r##"" font-size="10" fill="#6b7280">"##@ + nanos(min)
                + r#"</text><text x="932.0" y=""#@,
        ),
        shows(
            axis_ends(min, end, baseline),
            r#"</text><text x="932.0" y=""#@ + tenths(baseline + 14)
                + r##"" font-size="10" fill="#6b7280" text-anchor="end">"##@,
        ),
        shows(
            axis_ends(min, end, baseline),
            r##"" font-size="10" fill="#6b7280" text-anchor="end">"##@ + nanos(end) + "</text>"@,
        ),
        axis_ends(min, end, baseline).len() == r#"<text x="88" y=""#@.len()
            + tenths(baseline + 14).len() + r##"" font-size="10" fill="#6b7280">"##@.len()
            + nanos(min).len() + r#"</text><text x="932.0" y=""#@.len()
            + tenths(baseline + 14).len()
            + r##"" font-size="10" fill="#6b7280" text-anchor="end">"##@.len() + nanos(end).len()
            + "</text>"@.len(),
{
    reveal(axis_ends);
    let text = axis_ends(min, end, baseline);
    let m0 = Seq::<char>::empty();
    let v0 = tenths(baseline + 14);
    let v1 = nanos(min);
    let v2 = tenths(baseline + 14);
    let v3 = nanos(end);
    let m1 = m0 + r#"<text x="88" y=""#@ + v0;
    let m2 = m1 + r##"" font-size="10" fill="#6b7280">"##@ + v1;
    let m3 = m2 + r#"</text><text x="932.0" y=""#@ + v2;
    let m4 = m3 + r##"" font-size="10" fill="#6b7280" text-anchor="end">"##@ + v3;
    assert(m0 + r#"<text x="88" y=""#@ =~= r#"<text x="88" y=""#@);
    assert(text == m4 + "</text>"@);
    assert(text.subrange(0, text.len() as int) =~= text);
    lemma_named_between(
        text,
        m3,
        r##"" font-size="10" fill="#6b7280" text-anchor="end">"##@,
        v3,
        "</text>"@,
    );
    lemma_named_between(
        text,
        m2,
        r#"</text><text x="932.0" y=""#@,
        v2,
        r##"" font-size="10" fill="#6b7280" text-anchor="end">"##@,
    );
    lemma_named_between(
        text,
        m1,
        r##"" font-size="10" fill="#6b7280">"##@,
        v1,
        r#"</text><text x="932.0" y=""#@,
    );
    lemma_named_between(
        text,
        m0,
        r#"<text x="88" y=""#@,
        v0,
        r##"" font-size="10" fill="#6b7280">"##@,
    );
}

/// The note gives how many samples the axis leaves out, and the greatest.
pub proof fn law_note_counts_what_is_beyond(beyond: nat, max: nat, baseline: nat)
    ensures
        shows(
            beyond_note(beyond, max, baseline),
            r#"<text x="932.0" y=""#@ + tenths(baseline + 27)
                + r##"" font-size="10" fill="#9ca3af" text-anchor="end">"##@,
        ),
        shows(
            beyond_note(beyond, max, baseline),
            r##"" font-size="10" fill="#9ca3af" text-anchor="end">"##@ + decimal(beyond)
                + " sample(s) beyond p999, up to "@,
        ),
        shows(
            beyond_note(beyond, max, baseline),
            " sample(s) beyond p999, up to "@ + nanos(max) + "</text>"@,
        ),
        beyond_note(beyond, max, baseline).len() == r#"<text x="932.0" y=""#@.len()
            + tenths(baseline + 27).len()
            + r##"" font-size="10" fill="#9ca3af" text-anchor="end">"##@.len()
            + decimal(beyond).len() + " sample(s) beyond p999, up to "@.len() + nanos(max).len()
            + "</text>"@.len(),
{
    reveal(beyond_note);
    let text = beyond_note(beyond, max, baseline);
    let m0 = Seq::<char>::empty();
    let v0 = tenths(baseline + 27);
    let v1 = decimal(beyond);
    let v2 = nanos(max);
    let m1 = m0 + r#"<text x="932.0" y=""#@ + v0;
    let m2 = m1 + r##"" font-size="10" fill="#9ca3af" text-anchor="end">"##@ + v1;
    let m3 = m2 + " sample(s) beyond p999, up to "@ + v2;
    assert(m0 + r#"<text x="932.0" y=""#@ =~= r#"<text x="932.0" y=""#@);
    assert(text == m3 + "</text>"@);
    assert(text.subrange(0, text.len() as int) =~= text);
    lemma_named_between(text, m2, " sample(s) beyond p999, up to "@, v2, "</text>"@);
    lemma_named_between(
        text,
        m1,
        r##"" font-size="10" fill="#9ca3af" text-anchor="end">"##@,
        v1,
        " sample(s) beyond p999, up to "@,
    );
    lemma_named_between(
        text,
        m0,
        r#"<text x="932.0" y=""#@,
        v0,
        r##"" font-size="10" fill="#9ca3af" text-anchor="end">"##@,
    );
}


/// A sample falls into the nearest of the buckets, which are spaced equally
/// from the start of the axis to its end, the upper one where two are equally
/// near.
pub proof fn law_bucket_is_the_nearest(v: nat, min: nat, end: nat)
    requires
        min <= v <= end,
        min < end,
    ensures
        ({
            let span = end - min;
            let b = bucket_of(v, min, end);
            &&& b <= 47
            &&& 2 * span * b <= 2 * (47 * (v - min)) + span
            &&& 2 * (47 * (v - min)) + span < 2 * span * (b + 1)
        }),
{
    lemma_bucket(v, min, end);
    let span = end - min;
    let x = (v - min) * 94 + span;
    let b = bucket_of(v, min, end) as int;
    assert(x >= 0) by (nonlinear_arith)
        requires
            x == (v - min) * 94 + span,
            v >= min,
            span > 0,
    ;
    assert(2 * span * b <= x < 2 * span * (b + 1)) by (nonlinear_arith)
        requires
            b == x / (2 * span),
            span > 0,
            x >= 0,
    ;
}

/// A further sample counts one more in its own bucket and nowhere else, or one
/// more beyond the axis.
pub proof fn law_samples_count_once(values: Seq<u64>, v: u64, min: nat, end: nat, b: nat)
    ensures
        count_in(Seq::empty(), min, end, b) == 0,
        count_beyond(Seq::empty(), end) == 0,
        v <= end && bucket_of(v as nat, min, end) == b ==> count_in(values.push(v), min, end, b)
            == count_in(values, min, end, b) + 1,
        v > end || bucket_of(v as nat, min, end) != b ==> count_in(values.push(v), min, end, b)
            == count_in(values, min, end, b),
        v > end ==> count_beyond(values.push(v), end) == count_beyond(values, end) + 1,
        v <= end ==> count_beyond(values.push(v), end) == count_beyond(values, end),
        b < 48 ==> bucket_counts(values, min, end)[b as int] == count_in(values, min, end, b),
        bucket_counts(values, min, end).len() == 48,
{
    assert(values.push(v).drop_last() =~= values);
}

/// The peak is the largest count, or one where nothing was counted.
pub proof fn law_peak_is_the_largest(counts: Seq<nat>, i: int)
    ensures
        peak_of(counts) >= 1,
        0 <= i < counts.len() ==> counts[i] <= peak_of(counts),
        peak_of(counts) == 1 || counts.contains(peak_of(counts)),
    decreases counts.len(),
{
    if counts.len() > 0 {
        let front = counts.drop_last();
        law_peak_is_the_largest(front, i);
        if 0 <= i < front.len() {
            assert(front[i] == counts[i]);
        }
        if front.contains(peak_of(front)) {
            let j = choose|j: int| 0 <= j < front.len() && front[j] == peak_of(front);
            assert(counts[j] == peak_of(front));
        }
        assert(counts[counts.len() - 1] == counts.last());
    }
}

/// A value is marked where it is on the axis, one off the axis at the nearer
/// end.
pub proof fn law_marks_stay_on_the_axis(value: nat, min: nat, end: nat)
    requires
        min < end,
    ensures
        min <= value <= end ==> min + clamped(value, min, end) == value,
        value < min ==> clamped(value, min, end) == 0,
        value > end ==> min + clamped(value, min, end) == end,
{
}

/// Each bucket that counts anything has its bar, and no other has.
pub proof fn law_counted_buckets_have_bars(
    counts: Seq<nat>,
    peak: nat,
    colour: Seq<char>,
    baseline: nat,
    k: nat,
    b: nat,
)
    requires
        b < k <= counts.len(),
    ensures
        counts[b as int] > 0 ==> shows(
            bars(counts, peak, colour, baseline, k),
            bar(b, counts[b as int], peak, colour, baseline),
        ),
        b == k - 1 ==> bars(counts, peak, colour, baseline, k).len() == bars(
            counts,
            peak,
            colour,
            baseline,
            b,
        ).len() + (if counts[b as int] > 0 {
            bar(b, counts[b as int], peak, colour, baseline).len()
        } else {
            0
        }),
        bars(counts, peak, colour, baseline, 0).len() == 0,
    decreases k,
{
    let k1 = (k - 1) as nat;
    let earlier = bars(counts, peak, colour, baseline, k1);
    let wanted = bar(b, counts[b as int], peak, colour, baseline);
    if k1 > 0 {
        law_counted_buckets_have_bars(
            counts,
            peak,
            colour,
            baseline,
            k1,
            if b < k1 {
                b
            } else {
                0
            },
        );
    }
    if counts[k - 1] > 0 {
        let last = bar(k1, counts[k - 1], peak, colour, baseline);
        assert(bars(counts, peak, colour, baseline, k) == earlier + last);
        if b == k1 {
            lemma_shows(earlier, last, Seq::empty());
            assert(earlier + last + Seq::<char>::empty() =~= earlier + last);
        } else if counts[b as int] > 0 {
            lemma_still_shows(Seq::empty(), earlier, last, wanted);
            assert(Seq::<char>::empty() + earlier + last =~= earlier + last);
        }
    }
}

/// A histogram shows the bars of its buckets, the markers of the median and of
/// p99 and the ends of its axis, which runs from the smallest sample to p999,
/// and notes what lies beyond exactly where something does.
pub proof fn law_histogram_shows_its_parts(
    values: Seq<u64>,
    s: Summary,
    colour: Seq<char>,
    y: nat,
)
    ensures
        ({
            let svg = histogram_svg(values, s, colour, y);
            let min = s.min as nat;
            let end = axis_end(s.min, s.p999);
            let span = (end - min) as nat;
            let counts = bucket_counts(values, min, end);
            let all = bars(counts, peak_of(counts), colour, y + 190, 48);
            let median = marker(
                s.p50 as nat,
                clamped(s.p50 as nat, min, end),
                span,
                "p50"@,
                "none"@,
                y,
            );
            let late = marker(
                s.p99 as nat,
                clamped(s.p99 as nat, min, end),
                span,
                "p99"@,
                "3 3"@,
                y,
            );
            let ends = axis_ends(min, end, y + 190);
            let beyond = count_beyond(values, end);
            let note = beyond_note(beyond, s.max as nat, y + 190);
            let bare = all.len() + axis_line(y + 190).len() + median.len() + late.len()
                + ends.len() + count_caption(y + 95).len();
            &&& stands_at(svg, all, 0)
            &&& shows(svg, median)
            &&& shows(svg, late)
            &&& shows(svg, ends)
            &&& beyond > 0 ==> shows(svg, note) && svg.len() == bare + note.len()
            &&& beyond == 0 ==> svg.len() == bare
        }),
{
    let min = s.min as nat;
    let end = axis_end(s.min, s.p999);
    let span = (end - min) as nat;
    let counts = bucket_counts(values, min, end);
    let all = bars(counts, peak_of(counts), colour, y + 190, 48);
    let median = marker(s.p50 as nat, clamped(s.p50 as nat, min, end), span, "p50"@, "none"@, y);
    let late = marker(s.p99 as nat, clamped(s.p99 as nat, min, end), span, "p99"@, "3 3"@, y);
    let ends = axis_ends(min, end, y + 190);
    let beyond = count_beyond(values, end);
    let note = if beyond > 0 {
        beyond_note(beyond, s.max as nat, y + 190)
    } else {
        Seq::empty()
    };
    let svg = histogram_svg(values, s, colour, y);
    let m1 = all + axis_line(y + 190);
    let body = m1 + median + late + ends;
    assert(body + Seq::<char>::empty() =~= body);
    assert(svg == body + note + count_caption(y + 95));
    assert(svg.subrange(0, svg.len() as int) =~= svg);
    lemma_shown_in_front(svg, body + note, count_caption(y + 95));
    lemma_shown_in_front(svg, body, note);
    lemma_shown_in_front(svg, m1 + median + late, ends);
    lemma_shown_in_front(svg, m1 + median, late);
    lemma_shown_in_front(svg, m1, median);
    lemma_shown_in_front(svg, all, axis_line(y + 190));
    assert(svg.subrange(0, all.len() as int) == all);
}

/// The axis runs level along the baseline.
pub proof fn law_axis_runs_along_the_baseline(baseline: nat)
    ensures
        shows(
            axis_line(baseline),
            r#"<line x1="88" y1=""#@ + tenths(baseline) + r#"" x2="932.0" y2=""#@,
        ),
        shows(
            axis_line(baseline),
            r#"" x2="932.0" y2=""#@ + tenths(baseline)
                + r##"" stroke="#d1d5db" stroke-width="1"/>"##@,
        ),
        axis_line(baseline).len() == r#"<line x1="88" y1=""#@.len() + tenths(baseline).len()
            + r#"" x2="932.0" y2=""#@.len() + tenths(baseline).len()
            + r##"" stroke="#d1d5db" stroke-width="1"/>"##@.len(),
{
    reveal(axis_line);
    let text = axis_line(baseline);
    let m0 = Seq::<char>::empty();
    let v0 = tenths(baseline);
    let v1 = tenths(baseline);
    let m1 = m0 + r#"<line x1="88" y1=""#@ + v0;
    let m2 = m1 + r#"" x2="932.0" y2=""#@ + v1;
    assert(m0 + r#"<line x1="88" y1=""#@ =~= r#"<line x1="88" y1=""#@);
    assert(text == m2 + r##"" stroke="#d1d5db" stroke-width="1"/>"##@);
    assert(text.subrange(0, text.len() as int) =~= text);
    lemma_named_between(
        text,
        m1,
        r#"" x2="932.0" y2=""#@,
        v1,
        r##"" stroke="#d1d5db" stroke-width="1"/>"##@,
    );
    lemma_named_between(text, m0, r#"<line x1="88" y1=""#@, v0, r#"" x2="932.0" y2=""#@);
}

/// The caption stands in the middle of the height and is turned about itself.
pub proof fn law_caption_stands_in_the_middle(middle: nat)
    ensures
        shows(
            count_caption(middle),
            r#"<text x="58.0" y=""#@ + tenths(middle)
                + r##"" font-size="10" fill="#9ca3af" text-anchor="middle" transform="rotate(-90 58.0 "##@,
        ),
        shows(
            count_caption(middle),
            r##"" font-size="10" fill="#9ca3af" text-anchor="middle" transform="rotate(-90 58.0 "##@
                + tenths(middle) + r#")">count</text>"#@,
        ),
        count_caption(middle).len() == r#"<text x="58.0" y=""#@.len() + tenths(middle).len()
            + r##"" font-size="10" fill="#9ca3af" text-anchor="middle" transform="rotate(-90 58.0 "##@.len()
            + tenths(middle).len() + r#")">count</text>"#@.len(),
{
    reveal(count_caption);
    let text = count_caption(middle);
    let m0 = Seq::<char>::empty();
    let v0 = tenths(middle);
    let v1 = tenths(middle);
    let m1 = m0 + r#"<text x="58.0" y=""#@ + v0;
    let m2 = m1
        + r##"" font-size="10" fill="#9ca3af" text-anchor="middle" transform="rotate(-90 58.0 "##@
        + v1;
    assert(m0 + r#"<text x="58.0" y=""#@ =~= r#"<text x="58.0" y=""#@);
    assert(text == m2 + r#")">count</text>"#@);
    assert(text.subrange(0, text.len() as int) =~= text);
    lemma_named_between(
        text,
        m1,
        r##"" font-size="10" fill="#9ca3af" text-anchor="middle" transform="rotate(-90 58.0 "##@,
        v1,
        r#")">count</text>"#@,
    );
    lemma_named_between(
        text,
        m0,
        r#"<text x="58.0" y=""#@,
        v0,
        r##"" font-size="10" fill="#9ca3af" text-anchor="middle" transform="rotate(-90 58.0 "##@,
    );
}

} // verus!
