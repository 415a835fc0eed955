//! The samples of one phase in the order they were taken.

use crate::chart::{lemma_shows, lemma_still_shows, shows, stands_at};
use crate::decimal::{fixed, fraction};
use crate::reading::{law_fraction_is_nearest, power};
use crate::report::{lemma_named_between, lemma_shown_in_front};
use crate::stats::{law_summary_is_ordered, summary_of, Summary};
use crate::svg::{
    above, above_text, axis_end, axis_end_of, below, below_text, law_positions_are_nearest, nanos,
    nanos_label, tenths, tenths_text, MAX_Y,
};
use crate::text::{decimal, decimal_text};
use vstd::prelude::*;
use vstd::string::StringExecFns;

verus! {

/// The most samples that are drawn as one point each.
pub const MAX_POINTS: usize = 1500;

/// The number of columns that a longer run is reduced to.
pub const COLUMNS: usize = 480;

pub open spec fn lowest(values: Seq<u64>) -> u64
    decreases values.len(),
{
    if values.len() <= 1 {
        values[0]
    } else if values.last() < lowest(values.drop_last()) {
        values.last()
    } else {
        lowest(values.drop_last())
    }
}

pub open spec fn highest(values: Seq<u64>) -> u64
    decreases values.len(),
{
    if values.len() <= 1 {
        values[0]
    } else if values.last() > highest(values.drop_last()) {
        values.last()
    } else {
        highest(values.drop_last())
    }
}

/// The fewest samples to a column that keep the columns within `COLUMNS`.
pub open spec fn samples_per_column(n: nat) -> nat {
    (n + 479) / 480
}

/// How many columns of `per` samples `n` samples fill, the last one in part.
pub open spec fn column_count(n: nat, per: nat) -> nat {
    ((n + per - 1) / (per as int)) as nat
}

/// The samples of column `c`.
pub open spec fn column(values: Seq<u64>, per: nat, c: nat) -> Seq<u64> {
    let end = (c + 1) * per;
    values.subrange(
        (c * per) as int,
        if end < values.len() {
            end as int
        } else {
            values.len() as int
        },
    )
}

/// The height of a value on the axis from `min` to `end`.
pub open spec fn level(v: nat, min: nat, end: nat, baseline: nat, places: nat) -> Seq<char> {
    below(baseline, (170 * (v - min)) as nat, (end - min) as nat, places)
}

fn level_text(v: u128, min: u128, end: u128, baseline: u128, places: u32) -> (text: String)
    requires
        places <= 3,
        min <= v <= end,
        min < end <= 0x1_0000_0000_0000_0000,
        170 <= baseline <= 2 * MAX_Y,
    ensures
        text@ == level(v as nat, min as nat, end as nat, baseline as nat, places as nat),
{
    let along: u128 = v - min;
    let span: u128 = end - min;
    assert(170 * along <= baseline * span) by (nonlinear_arith)
        requires
            along <= span,
            170 <= baseline,
    ;
    below_text(baseline, 170 * along, span, places)
}

/// The height of a value's label, four above the value. Where that is beyond
/// the top of the picture it is negative: a minus sign and the distance.
pub open spec fn label_level(v: nat, min: nat, end: nat, baseline: nat) -> Seq<char> {
    let rise = (170 * (v - min)) as nat;
    let span = (end - min) as nat;
    if rise <= (baseline - 4) * span {
        below((baseline - 4) as nat, rise, span, 2)
    } else {
        "-"@ + fraction((rise - (baseline - 4) * span) as nat, span, 2)
    }
}

fn label_level_text(v: u128, min: u128, end: u128, baseline: u128) -> (text: String)
    requires
        min <= v <= end,
        min < end <= 0x1_0000_0000_0000_0000,
        170 <= baseline <= 2 * MAX_Y,
    ensures
        text@ == label_level(v as nat, min as nat, end as nat, baseline as nat),
{
    let rise: u128 = 170 * (v - min);
    let span: u128 = end - min;
    let base: u128 = baseline - 4;
    assert(base >= 170 ==> 170 * span <= base * span) by (nonlinear_arith)
        requires
            span > 0,
    ;
    assert(base < 170 ==> 166 * span <= base * span <= 170 * span) by (nonlinear_arith)
        requires
            base >= 166,
            span > 0,
    ;
    if base >= 170 || rise <= base * span {
        return below_text(base, rise, span, 2);
    }
    let mut text = String::from_str("-");
    let distance = above_text(0, rise - base * span, span, 2);
    text.append(distance.as_str());
    text
}

/// The frame of the plot.
#[verifier::opaque]
pub open spec fn frame(y: nat) -> Seq<char> {
    r#"<rect x="88" y=""#@
        + tenths(y)
        + r##"" width="844" height="170" fill="#fafafa" stroke="#e5e7eb" stroke-width="1"/>"##@
}

fn frame_text(y: u128) -> (text: String)
    ensures
        text@ == frame(y as nat),
{
    proof {
        reveal(frame);
    }
    let mut text = String::from_str(r#"<rect x="88" y=""#);
    let y1 = tenths_text(y);
    text.append(y1.as_str());
    text.append(
        r##"" width="844" height="170" fill="#fafafa" stroke="#e5e7eb" stroke-width="1"/>"##,
    );
    text
}

/// The median as a reference line.
#[verifier::opaque]
pub open spec fn median_line(v: nat, min: nat, end: nat, baseline: nat) -> Seq<char> {
    r#"<line x1="88" y1=""#@
        + level(v, min, end, baseline, 2)
        + r#"" x2="932.0" y2=""#@
        + level(v, min, end, baseline, 2)
        + r##"" stroke="#1a1d23" stroke-width="1" opacity="0.45"/><text x="92.0" y=""##@
        + label_level(v, min, end, baseline)
        + r##"" font-size="10" fill="#1a1d23" opacity="0.7">p50</text>"##@
}

fn median_line_text(v: u128, min: u128, end: u128, baseline: u128) -> (text: String)
    requires
        min <= v <= end,
        min < end <= 0x1_0000_0000_0000_0000,
        170 <= baseline <= 2 * MAX_Y,
    ensures
        text@ == median_line(v as nat, min as nat, end as nat, baseline as nat),
{
    proof {
        reveal(median_line);
    }
    let mut text = String::from_str(r#"<line x1="88" y1=""#);
    let y1 = level_text(v, min, end, baseline, 2);
    text.append(y1.as_str());
    text.append(r#"" x2="932.0" y2=""#);
    let y2 = level_text(v, min, end, baseline, 2);
    text.append(y2.as_str());
    text.append(r##"" stroke="#1a1d23" stroke-width="1" opacity="0.45"/><text x="92.0" y=""##);
    let y3 = label_level_text(v, min, end, baseline);
    text.append(y3.as_str());
    text.append(r##"" font-size="10" fill="#1a1d23" opacity="0.7">p50</text>"##);
    text
}

/// One sample.
#[verifier::opaque]
pub open spec fn point(
    i: nat,
    last: nat,
    v: nat,
    min: nat,
    end: nat,
    baseline: nat,
    radius: Seq<char>,
    colour: Seq<char>,
) -> Seq<char> {
    r#"<circle cx=""#@
        + above(88, 844 * i, last, 2)
        + r#"" cy=""#@
        + level(v, min, end, baseline, 2)
        + r#"" r=""#@
        + radius
        + r#"" fill=""#@
        + colour
        + r#"" opacity="0.55"/>"#@
}

fn point_text(
    i: u128,
    last: u128,
    v: u128,
    min: u128,
    end: u128,
    baseline: u128,
    radius: &str,
    colour: &str,
) -> (text: String)
    requires
        i <= last,
        0 < last <= 0xffff_ffff_ffff_ffff,
        min <= v <= end,
        min < end <= 0x1_0000_0000_0000_0000,
        170 <= baseline <= 2 * MAX_Y,
    ensures
        text@ == point(
            i as nat,
            last as nat,
            v as nat,
            min as nat,
            end as nat,
            baseline as nat,
            radius@,
            colour@,
        ),
{
    proof {
        reveal(point);
    }
    let mut text = String::from_str(r#"<circle cx=""#);
    let x = above_text(88, 844 * i, last, 2);
    text.append(x.as_str());
    text.append(r#"" cy=""#);
    let y = level_text(v, min, end, baseline, 2);
    text.append(y.as_str());
    text.append(r#"" r=""#);
    text.append(radius);
    text.append(r#"" fill=""#);
    text.append(colour);
    text.append(r#"" opacity="0.55"/>"#);
    text
}

/// The first `k` samples as points.
pub open spec fn points(
    values: Seq<u64>,
    min: nat,
    end: nat,
    baseline: nat,
    radius: Seq<char>,
    colour: Seq<char>,
    k: nat,
) -> Seq<char>
    decreases k,
{
    if k == 0 {
        Seq::empty()
    } else {
        points(values, min, end, baseline, radius, colour, (k - 1) as nat) + point(
            (k - 1) as nat,
            if values.len() > 2 {
                (values.len() - 1) as nat
            } else {
                1
            },
            values[k - 1] as nat,
            min,
            end,
            baseline,
            radius,
            colour,
        )
    }
}

/// A corner of the envelope, at column `c`.
pub open spec fn corner(c: nat, v: nat, min: nat, end: nat, baseline: nat) -> Seq<char> {
    above(88, 844 * c, 479, 2) + ","@ + level(v, min, end, baseline, 2)
}

/// The lower edge over the first `k` columns, from left to right.
pub open spec fn lower_edge(
    values: Seq<u64>,
    per: nat,
    min: nat,
    end: nat,
    baseline: nat,
    k: nat,
) -> Seq<char>
    decreases k,
{
    if k == 0 {
        Seq::empty()
    } else {
        let low = lowest(column(values, per, (k - 1) as nat)) as nat;
        lower_edge(values, per, min, end, baseline, (k - 1) as nat) + (if k == 1 {
            Seq::empty()
        } else {
            " "@
        }) + corner((k - 1) as nat, low, min, end, baseline)
    }
}

/// The upper edge over the last `k` of `columns` columns, from right to left.
pub open spec fn upper_edge(
    values: Seq<u64>,
    per: nat,
    columns: nat,
    min: nat,
    end: nat,
    baseline: nat,
    k: nat,
) -> Seq<char>
    decreases k,
{
    if k == 0 {
        Seq::empty()
    } else {
        let high = highest(column(values, per, (columns - k) as nat)) as nat;
        upper_edge(values, per, columns, min, end, baseline, (k - 1) as nat) + " "@ + corner(
            (columns - k) as nat,
            high,
            min,
            end,
            baseline,
        )
    }
}

/// Samples reduced to the range between the smallest and the largest of each
/// column, so that no outlier is lost.
pub open spec fn envelope(
    values: Seq<u64>,
    min: nat,
    end: nat,
    baseline: nat,
    colour: Seq<char>,
) -> Seq<char> {
    let per = samples_per_column(values.len());
    let columns = column_count(values.len(), per);
    r#"<polygon points=""#@ + lower_edge(values, per, min, end, baseline, columns) + upper_edge(
        values,
        per,
        columns,
        min,
        end,
        baseline,
        columns,
    ) + r#"" fill=""#@ + colour + r#"" opacity="0.5"/>"#@
}

/// The iterations at the two ends of the axis.
#[verifier::opaque]
pub open spec fn iteration_ends(last: nat, baseline: nat) -> Seq<char> {
    r#"<text x="88" y=""#@
        + tenths(baseline + 14)
        + r##"" font-size="10" fill="#6b7280">iteration 0</text><text x="932.0" y=""##@
        + tenths(baseline + 14)
        + r##"" font-size="10" fill="#6b7280" text-anchor="end">"##@
        + decimal(last)
        + "</text>"@
}

fn iteration_ends_text(last: u128, baseline: u128) -> (text: String)
    requires
        baseline <= 2 * MAX_Y,
    ensures
        text@ == iteration_ends(last as nat, baseline as nat),
{
    proof {
        reveal(iteration_ends);
    }
    let mut text = String::from_str(r#"<text x="88" y=""#);
    let y1 = tenths_text(baseline + 14);
    text.append(y1.as_str());
    text.append(r##"" font-size="10" fill="#6b7280">iteration 0</text><text x="932.0" y=""##);
    let y2 = tenths_text(baseline + 14);
    text.append(y2.as_str());
    text.append(r##"" font-size="10" fill="#6b7280" text-anchor="end">"##);
    let n = decimal_text(last);
    text.append(n.as_str());
    text.append("</text>");
    text
}

/// The values at the top and the bottom of the plot.
#[verifier::opaque]
pub open spec fn scale(min: nat, end: nat, y: nat) -> Seq<char> {
    r#"<text x="80.0" y=""#@
        + tenths(y + 10)
        + r##"" font-size="10" fill="#9ca3af" text-anchor="end">"##@
        + nanos(end)
        + r#"</text><text x="80.0" y=""#@
        + tenths(y + 170)
        + r##"" font-size="10" fill="#9ca3af" text-anchor="end">"##@
        + nanos(min)
        + "</text>"@
}

fn scale_text(min: u128, end: u128, y: u128) -> (text: String)
    requires
        y <= MAX_Y,
    ensures
        text@ == scale(min as nat, end as nat, y as nat),
{
    proof {
        reveal(scale);
    }
    let mut text = String::from_str(r#"<text x="80.0" y=""#);
    let y1 = tenths_text(y + 10);
    text.append(y1.as_str());
    text.append(r##"" font-size="10" fill="#9ca3af" text-anchor="end">"##);
    let high = nanos_label(end);
    text.append(high.as_str());
    text.append(r#"</text><text x="80.0" y=""#);
    let y2 = tenths_text(y + 170);
    text.append(y2.as_str());
    text.append(r##"" font-size="10" fill="#9ca3af" text-anchor="end">"##);
    let low = nanos_label(min);
    text.append(low.as_str());
    text.append("</text>");
    text
}

/// The timeline of samples with summary `s`, at height `y`.
pub open spec fn timeline_svg(
    values: Seq<u64>,
    s: Summary,
    colour: Seq<char>,
    y: nat,
) -> Seq<char> {
    let min = s.min as nat;
    let end = axis_end(s.min, s.max);
    let radius = if values.len() > 600 {
        "1"@
    } else {
        "1.6"@
    };
    if values.len() == 0 {
        Seq::empty()
    } else {
        frame(y) + median_line(s.p50 as nat, min, end, y + 170) + (if values.len()
            <= MAX_POINTS {
            points(values, min, end, y + 170, radius, colour, values.len())
        } else {
            envelope(values, min, end, y + 170, colour)
        }) + iteration_ends((values.len() - 1) as nat, y + 170) + scale(min, end, y)
    }
}

proof fn lemma_extremes(values: Seq<u64>)
    requires
        values.len() > 0,
    ensures
        values.contains(lowest(values)),
        values.contains(highest(values)),
    decreases values.len(),
{
    if values.len() == 1 {
        assert(values[0] == lowest(values));
    } else {
        let rest = values.drop_last();
        lemma_extremes(rest);
        let i = choose|i: int| 0 <= i < rest.len() && rest[i] == lowest(rest);
        let j = choose|j: int| 0 <= j < rest.len() && rest[j] == highest(rest);
        assert(values[i] == rest[i] && values[j] == rest[j]);
        assert(values[values.len() - 1] == values.last());
    }
}

/// The envelope touches an actual sample of the column at both edges and
/// leaves none of its samples outside.
pub proof fn law_extremes_enclose(values: Seq<u64>, i: int)
    requires
        0 <= i < values.len(),
    ensures
        lowest(values) <= values[i] <= highest(values),
        values.contains(lowest(values)),
        values.contains(highest(values)),
    decreases values.len(),
{
    lemma_extremes(values);
    if values.len() > 1 {
        if i < values.len() - 1 {
            law_extremes_enclose(values.drop_last(), i);
        }
    }
}

/// Every sample of a long run belongs to exactly one of at most `COLUMNS`
/// columns.
pub proof fn law_columns_cover(n: nat, i: nat)
    requires
        i < n,
    ensures
        ({
            let per = samples_per_column(n);
            &&& 0 < per
            &&& column_count(n, per) <= COLUMNS
            &&& i / per < column_count(n, per)
            &&& forall|c: nat| #[trigger] (c * per) <= i < (c + 1) * per <==> c == i / per
        }),
{
    let per = samples_per_column(n);
    lemma_columns(n, per);
    let q = i / per;
    assert(q * per <= i < (q + 1) * per) by (nonlinear_arith)
        requires
            q == i / per,
            per > 0,
    ;
    if q >= column_count(n, per) {
        let columns = column_count(n, per);
        assert(columns * per <= q * per) by (nonlinear_arith)
            requires
                columns <= q,
                per > 0,
        ;
    }
    assert forall|c: nat| #[trigger] (c * per) <= i < (c + 1) * per implies c == q by {
        assert(c == q) by (nonlinear_arith)
            requires
                c * per <= i < (c + 1) * per,
                q * per <= i < (q + 1) * per,
                per > 0,
        ;
    }
}

proof fn lemma_columns(n: nat, per: nat)
    requires
        0 < n,
        per == samples_per_column(n),
    ensures
        0 < per,
        0 < column_count(n, per) <= COLUMNS,
        column_count(n, per) * per >= n,
        (column_count(n, per) - 1) * per < n,
{
    let m = n + per - 1;
    let columns = m / (per as int);
    assert(columns * per <= m < (columns + 1) * per) by (nonlinear_arith)
        requires
            columns == m / (per as int),
            per > 0,
    ;
    assert((columns + 1) * per == columns * per + per) by (nonlinear_arith);
    assert((columns - 1) * per == columns * per - per) by (nonlinear_arith);
    assert(columns <= 480) by (nonlinear_arith)
        requires
            columns * per <= n + per - 1,
            n <= 480 * per,
            per > 0,
    ;
    assert(0 < columns) by (nonlinear_arith)
        requires
            n <= columns * per,
            per > 0,
            n > 0,
    ;
}

fn corner_text(c: u128, v: u128, min: u128, end: u128, baseline: u128) -> (text: String)
    requires
        c < 480,
        min <= v <= end,
        min < end <= 0x1_0000_0000_0000_0000,
        170 <= baseline <= 2 * MAX_Y,
    ensures
        text@ == corner(c as nat, v as nat, min as nat, end as nat, baseline as nat),
{
    let mut text = above_text(88, 844 * c, 479, 2);
    text.append(",");
    let y = level_text(v, min, end, baseline, 2);
    text.append(y.as_str());
    text
}

/// The smallest and the largest of `values[from..to]`.
fn extremes(values: &[u64], from: usize, to: usize) -> (r: (u64, u64))
    requires
        from < to <= values@.len(),
    ensures
        r.0 == lowest(values@.subrange(from as int, to as int)),
        r.1 == highest(values@.subrange(from as int, to as int)),
{
    let mut low: u64 = values[from];
    let mut high: u64 = values[from];
    let mut i: usize = from + 1;
    while i < to
        invariant
            from < i <= to <= values@.len(),
            low == lowest(values@.subrange(from as int, i as int)),
            high == highest(values@.subrange(from as int, i as int)),
        decreases to - i,
    {
        let ghost part = values@.subrange(from as int, i + 1);
        assert(part.drop_last() == values@.subrange(from as int, i as int));
        assert(part.last() == values@[i as int]);
        if values[i] < low {
            low = values[i];
        }
        if values[i] > high {
            high = values[i];
        }
        i = i + 1;
    }
    (low, high)
}

fn envelope_text(values: &[u64], min: u64, end: u128, baseline: u128, colour: &str) -> (out: String)
    requires
        0 < values@.len(),
        forall|i: int| 0 <= i < values@.len() ==> min <= #[trigger] values@[i] <= end,
        min < end <= 0x1_0000_0000_0000_0000,
        170 <= baseline <= 2 * MAX_Y,
    ensures
        out@ == envelope(values@, min as nat, end as nat, baseline as nat, colour@),
{
    let n: usize = values.len();
    let per: usize = if n % COLUMNS == 0 {
        n / COLUMNS
    } else {
        n / COLUMNS + 1
    };
    assert(per == samples_per_column(values@.len()));
    let ghost columns = column_count(values@.len(), per as nat);
    let ghost first = r#"<polygon points=""#@;
    proof {
        lemma_columns(values@.len(), per as nat);
    }

    let mut out = String::from_str(r#"<polygon points=""#);
    let mut highs: Vec<u64> = Vec::new();
    let mut start: usize = 0;
    assert(out@ == first + lower_edge(
        values@,
        per as nat,
        min as nat,
        end as nat,
        baseline as nat,
        0,
    ));
    while start < n
        invariant
            n == values@.len(),
            0 < n,
            0 < per,
            per == samples_per_column(n as nat),
            columns == column_count(n as nat, per as nat),
            columns <= COLUMNS,
            columns * per >= n,
            (columns - 1) * per < n,
            forall|i: int| 0 <= i < values@.len() ==> min <= #[trigger] values@[i] <= end,
            min < end <= 0x1_0000_0000_0000_0000,
            170 <= baseline <= 2 * MAX_Y,
            highs@.len() <= columns,
            start == if highs@.len() * per < n {
                highs@.len() * per
            } else {
                n as int
            },
            start < n ==> highs@.len() < columns,
            start >= n ==> highs@.len() == columns,
            forall|c: int|
                0 <= c < highs@.len() ==> #[trigger] highs@[c] == highest(
                    column(values@, per as nat, c as nat),
                ) && min <= highs@[c] <= end,
            out@ == first + lower_edge(
                values@,
                per as nat,
                min as nat,
                end as nat,
                baseline as nat,
                highs@.len(),
            ),
        decreases n - start,
    {
        let c: usize = highs.len();
        let ghost before = out@;
        let stop: usize = if n - start > per {
            start + per
        } else {
            n
        };
        let (low, high) = extremes(values, start, stop);
        proof {
            assert((c + 1) * per == c * per + per) by (nonlinear_arith);
            assert(column(values@, per as nat, c as nat) == values@.subrange(
                start as int,
                stop as int,
            ));
            lemma_extremes(column(values@, per as nat, c as nat));
            if stop < n {
                assert(c + 1 < columns) by (nonlinear_arith)
                    requires
                        (c + 1) * per < n,
                        n <= columns * per,
                        per > 0,
                ;
            } else {
                assert(c + 1 >= columns) by (nonlinear_arith)
                    requires
                        (c + 1) * per >= n,
                        (columns - 1) * per < n,
                        per > 0,
                ;
            }
        }
        if c > 0 {
            out.append(" ");
        }
        let corner = corner_text(c as u128, low as u128, min as u128, end, baseline);
        out.append(corner.as_str());
        assert(out@ == before + (if c == 0 {
            Seq::empty()
        } else {
            " "@
        }) + corner@);
        assert(out@ == first + lower_edge(
            values@,
            per as nat,
            min as nat,
            end as nat,
            baseline as nat,
            (c + 1) as nat,
        ));
        highs.push(high);
        start = stop;
    }

    let mut k: usize = 0;
    let ghost lower = out@;
    while k < highs.len()
        invariant
            k <= highs@.len(),
            highs@.len() == columns <= COLUMNS,
            forall|c: int|
                0 <= c < highs@.len() ==> #[trigger] highs@[c] == highest(
                    column(values@, per as nat, c as nat),
                ) && min <= highs@[c] <= end,
            min < end <= 0x1_0000_0000_0000_0000,
            170 <= baseline <= 2 * MAX_Y,
            out@ == lower + upper_edge(
                values@,
                per as nat,
                columns,
                min as nat,
                end as nat,
                baseline as nat,
                k as nat,
            ),
        decreases highs.len() - k,
    {
        let ghost before = out@;
        let c: usize = highs.len() - 1 - k;
        out.append(" ");
        let corner = corner_text(c as u128, highs[c] as u128, min as u128, end, baseline);
        out.append(corner.as_str());
        assert(out@ == lower + upper_edge(
            values@,
            per as nat,
            columns,
            min as nat,
            end as nat,
            baseline as nat,
            (k + 1) as nat,
        ));
        k = k + 1;
    }
    out.append(r#"" fill=""#);
    out.append(colour);
    out.append(r#"" opacity="0.5"/>"#);
    out
}

fn points_text(
    values: &[u64],
    min: u64,
    end: u128,
    baseline: u128,
    radius: &str,
    colour: &str,
) -> (out: String)
    requires
        forall|i: int| 0 <= i < values@.len() ==> min <= #[trigger] values@[i] <= end,
        min < end <= 0x1_0000_0000_0000_0000,
        170 <= baseline <= 2 * MAX_Y,
    ensures
        out@ == points(
            values@,
            min as nat,
            end as nat,
            baseline as nat,
            radius@,
            colour@,
            values@.len(),
        ),
{
    let n: usize = values.len();
    let last: u128 = if n > 2 {
        n as u128 - 1
    } else {
        1
    };
    let mut out = String::new();
    let mut i: usize = 0;
    while i < n
        invariant
            n == values@.len(),
            i <= n,
            last == if n > 2 {
                n - 1
            } else {
                1
            },
            forall|i: int| 0 <= i < values@.len() ==> min <= #[trigger] values@[i] <= end,
            min < end <= 0x1_0000_0000_0000_0000,
            170 <= baseline <= 2 * MAX_Y,
            out@ == points(
                values@,
                min as nat,
                end as nat,
                baseline as nat,
                radius@,
                colour@,
                i as nat,
            ),
        decreases n - i,
    {
        let v: u128 = values[i] as u128;
        let piece = point_text(i as u128, last, v, min as u128, end, baseline, radius, colour);
        out.append(piece.as_str());
        i = i + 1;
    }
    out
}

/// Latency over iterations.
///
/// A short run is drawn as one point per sample. A longer one is reduced to
/// its envelope, because drawing every sample would produce a file too large
/// to open without showing anything more.
pub fn timeline(values: &[u64], summary: &Summary, colour: &str, y: u128) -> (out: String)
    requires
        0 < values@.len() ==> *summary == summary_of(values@),
        y <= MAX_Y,
    ensures
        out@ == timeline_svg(values@, *summary, colour@, y as nat),
{
    let n: usize = values.len();
    if n == 0 {
        return String::new();
    }
    proof {
        assert(values@.len() == n);
        law_summary_is_ordered(values@);
        assert forall|i: int| 0 <= i < values@.len() implies summary.min <= #[trigger] values@[i]
            <= summary.max by {
            assert(values@.contains(values@[i]));
        }
    }
    let baseline: u128 = y + 170;
    let min: u128 = summary.min as u128;
    let end = axis_end_of(summary.min, summary.max);

    let mut out = frame_text(y);
    let line = median_line_text(summary.p50 as u128, min, end, baseline);
    out.append(line.as_str());
    if n <= MAX_POINTS {
        let radius = if n > 600 {
            "1"
        } else {
            "1.6"
        };
        let dots = points_text(values, summary.min, end, baseline, radius, colour);
        out.append(dots.as_str());
    } else {
        let band = envelope_text(values, summary.min, end, baseline, colour);
        out.append(band.as_str());
    }
    let ends = iteration_ends_text(n as u128 - 1, baseline);
    out.append(ends.as_str());
    let labels = scale_text(min, end, y);
    out.append(labels.as_str());
    out
}

/// The line of the median runs at the height of its value from one side to the
/// other and is labelled above it.
pub proof fn law_median_line_is_labelled(v: nat, min: nat, end: nat, baseline: nat)
    ensures
        shows(
            median_line(v, min, end, baseline),
            r#"<line x1="88" y1=""#@ + level(v, min, end, baseline, 2) + r#"" x2="932.0" y2=""#@,
        ),
        shows(
            median_line(v, min, end, baseline),
            r#"" x2="932.0" y2=""#@ + level(v, min, end, baseline, 2)
                + r##"" stroke="#1a1d23" stroke-width="1" opacity="0.45"/><text x="92.0" y=""##@,
        ),
        shows(
            median_line(v, min, end, baseline),
            r##"" stroke="#1a1d23" stroke-width="1" opacity="0.45"/><text x="92.0" y=""##@
                + label_level(v, min, end, baseline)
                + r##"" font-size="10" fill="#1a1d23" opacity="0.7">p50</text>"##@,
        ),
        median_line(v, min, end, baseline).len() == r#"<line x1="88" y1=""#@.len()
            + level(v, min, end, baseline, 2).len() + r#"" x2="932.0" y2=""#@.len()
            + level(v, min, end, baseline, 2).len()
            + r##"" stroke="#1a1d23" stroke-width="1" opacity="0.45"/><text x="92.0" y=""##@.len()
            + label_level(v, min, end, baseline).len()
            + r##"" font-size="10" fill="#1a1d23" opacity="0.7">p50</text>"##@.len(),
{
    reveal(median_line);
    let text = median_line(v, min, end, baseline);
    let m0 = Seq::<char>::empty();
    let v0 = level(v, min, end, baseline, 2);
    let v1 = level(v, min, end, baseline, 2);
    let v2 = label_level(v, min, end, baseline);
    let m1 = m0 + r#"<line x1="88" y1=""#@ + v0;
    let m2 = m1 + r#"" x2="932.0" y2=""#@ + v1;
    let m3 = m2 + r##"" stroke="#1a1d23" stroke-width="1" opacity="0.45"/><text x="92.0" y=""##@
        + v2;
    assert(m0 + r#"<line x1="88" y1=""#@ =~= r#"<line x1="88" y1=""#@);
    assert(text == m3 + r##"" font-size="10" fill="#1a1d23" opacity="0.7">p50</text>"##@);
    assert(text.subrange(0, text.len() as int) =~= text);
    lemma_named_between(
        text,
        m2,
        r##"" stroke="#1a1d23" stroke-width="1" opacity="0.45"/><text x="92.0" y=""##@,
        v2,
        r##"" font-size="10" fill="#1a1d23" opacity="0.7">p50</text>"##@,
    );
    lemma_named_between(
        text,
        m1,
        r#"" x2="932.0" y2=""#@,
        v1,
        r##"" stroke="#1a1d23" stroke-width="1" opacity="0.45"/><text x="92.0" y=""##@,
    );
    lemma_named_between(text, m0, r#"<line x1="88" y1=""#@, v0, r#"" x2="932.0" y2=""#@);
}

/// A point stands at its iteration and at the height of its sample, in the
/// colour of the phase.
pub proof fn law_point_stands_at_its_sample(
    i: nat,
    last: nat,
    v: nat,
    min: nat,
    end: nat,
    baseline: nat,
    radius: Seq<char>,
    colour: Seq<char>,
)
    ensures
        shows(
            point(i, last, v, min, end, baseline, radius, colour),
            r#"<circle cx=""#@ + above(88, 844 * i, last, 2) + r#"" cy=""#@,
        ),
        shows(
            point(i, last, v, min, end, baseline, radius, colour),
            r#"" cy=""#@ + level(v, min, end, baseline, 2) + r#"" r=""#@,
        ),
        shows(
            point(i, last, v, min, end, baseline, radius, colour),
            r#"" r=""#@ + radius + r#"" fill=""#@,
        ),
        shows(
            point(i, last, v, min, end, baseline, radius, colour),
            r#"" fill=""#@ + colour + r#"" opacity="0.55"/>"#@,
        ),
        point(i, last, v, min, end, baseline, radius, colour).len() == r#"<circle cx=""#@.len()
            + above(88, 844 * i, last, 2).len() + r#"" cy=""#@.len()
            + level(v, min, end, baseline, 2).len() + r#"" r=""#@.len() + radius.len()
            + r#"" fill=""#@.len() + colour.len() + r#"" opacity="0.55"/>"#@.len(),
{
    reveal(point);
    let text = point(i, last, v, min, end, baseline, radius, colour);
    let m0 = Seq::<char>::empty();
    let v0 = above(88, 844 * i, last, 2);
    let v1 = level(v, min, end, baseline, 2);
    let v2 = radius;
    let v3 = colour;
    let m1 = m0 + r#"<circle cx=""#@ + v0;
    let m2 = m1 + r#"" cy=""#@ + v1;
    let m3 = m2 + r#"" r=""#@ + v2;
    let m4 = m3 + r#"" fill=""#@ + v3;
    assert(m0 + r#"<circle cx=""#@ =~= r#"<circle cx=""#@);
    assert(text == m4 + r#"" opacity="0.55"/>"#@);
    assert(text.subrange(0, text.len() as int) =~= text);
    lemma_named_between(text, m3, r#"" fill=""#@, v3, r#"" opacity="0.55"/>"#@);
    lemma_named_between(text, m2, r#"" r=""#@, v2, r#"" fill=""#@);
    lemma_named_between(text, m1, r#"" cy=""#@, v1, r#"" r=""#@);
    lemma_named_between(text, m0, r#"<circle cx=""#@, v0, r#"" cy=""#@);
}

/// The axis is labelled with the last iteration at its end, below the plot.
pub proof fn law_last_iteration_is_named(last: nat, baseline: nat)
    ensures
        shows(
            iteration_ends(last, baseline),
            r#"<text x="88" y=""#@ + tenths(baseline + 14)
                + r##"" font-size="10" fill="#6b7280">iteration 0</text><text x="932.0" y=""##@,
        ),
        shows(
            iteration_ends(last, baseline),
            r##"" font-size="10" fill="#6b7280">iteration 0</text><text x="932.0" y=""##@
                + tenths(baseline + 14)
                + r##"" font-size="10" fill="#6b7280" text-anchor="end">"##@,
        ),
        shows(
            iteration_ends(last, baseline),
            r##"" font-size="10" fill="#6b7280" text-anchor="end">"##@ + decimal(last) + "</text>"@,
        ),
        iteration_ends(last, baseline).len() == r#"<text x="88" y=""#@.len()
            + tenths(baseline + 14).len()
            + r##"" font-size="10" fill="#6b7280">iteration 0</text><text x="932.0" y=""##@.len()
            + tenths(baseline + 14).len()
            + r##"" font-size="10" fill="#6b7280" text-anchor="end">"##@.len()
            + decimal(last).len() + "</text>"@.len(),
{
    reveal(iteration_ends);
    let text = iteration_ends(last, baseline);
    let m0 = Seq::<char>::empty();
    let v0 = tenths(baseline + 14);
    let v1 = tenths(baseline + 14);
    let v2 = decimal(last);
    let m1 = m0 + r#"<text x="88" y=""#@ + v0;
    let m2 = m1 + r##"" font-size="10" fill="#6b7280">iteration 0</text><text x="932.0" y=""##@
        + v1;
    let m3 = m2 + r##"" font-size="10" fill="#6b7280" text-anchor="end">"##@ + v2;
    assert(m0 + r#"<text x="88" y=""#@ =~= r#"<text x="88" y=""#@);
    assert(text == m3 + "</text>"@);
    assert(text.subrange(0, text.len() as int) =~= text);
    lemma_named_between(
        text,
        m2,
        r##"" font-size="10" fill="#6b7280" text-anchor="end">"##@,
        v2,
        "</text>"@,
    );
    lemma_named_between(
        text,
        m1,
        r##"" font-size="10" fill="#6b7280">iteration 0</text><text x="932.0" y=""##@,
        v1,
        r##"" font-size="10" fill="#6b7280" text-anchor="end">"##@,
    );
    lemma_named_between(
        text,
        m0,
        r#"<text x="88" y=""#@,
        v0,
        r##"" font-size="10" fill="#6b7280">iteration 0</text><text x="932.0" y=""##@,
    );
}

/// The end of the axis is written at the top of the plot, its start at the
/// bottom.
pub proof fn law_scale_has_the_end_on_top(min: nat, end: nat, y: nat)
    ensures
        shows(
            scale(min, end, y),
            r#"<text x="80.0" y=""#@ + tenths(y + 10)
                + r##"" font-size="10" fill="#9ca3af" text-anchor="end">"##@,
        ),
        shows(
            scale(min, end, y),
            r##"" font-size="10" fill="#9ca3af" text-anchor="end">"##@ + nanos(end)
                + r#"</text><text x="80.0" y=""#@,
        ),
        shows(
            scale(min, end, y),
            r#"</text><text x="80.0" y=""#@ + tenths(y + 170)
                + r##"" font-size="10" fill="#9ca3af" text-anchor="end">"##@,
        ),
        shows(
            scale(min, end, y),
            r##"" font-size="10" fill="#9ca3af" text-anchor="end">"##@ + nanos(min) + "</text>"@,
        ),
        scale(min, end, y).len() == r#"<text x="80.0" y=""#@.len() + tenths(y + 10).len()
            + r##"" font-size="10" fill="#9ca3af" text-anchor="end">"##@.len() + nanos(end).len()
            + r#"</text><text x="80.0" y=""#@.len() + tenths(y + 170).len()
            + r##"" font-size="10" fill="#9ca3af" text-anchor="end">"##@.len() + nanos(min).len()
            + "</text>"@.len(),
{
    reveal(scale);
    let text = scale(min, end, y);
    let m0 = Seq::<char>::empty();
    let v0 = tenths(y + 10);
    let v1 = nanos(end);
    let v2 = tenths(y + 170);
    let v3 = nanos(min);
    let m1 = m0 + r#"<text x="80.0" y=""#@ + v0;
    let m2 = m1 + r##"" font-size="10" fill="#9ca3af" text-anchor="end">"##@ + v1;
    let m3 = m2 + r#"</text><text x="80.0" y=""#@ + v2;
    let m4 = m3 + r##"" font-size="10" fill="#9ca3af" text-anchor="end">"##@ + v3;
    assert(m0 + r#"<text x="80.0" y=""#@ =~= r#"<text x="80.0" y=""#@);
    assert(text == m4 + "</text>"@);
    assert(text.subrange(0, text.len() as int) =~= text);
    lemma_named_between(
        text,
        m3,
        r##"" font-size="10" fill="#9ca3af" text-anchor="end">"##@,
        v3,
        "</text>"@,
    );
    lemma_named_between(
        text,
        m2,
        r#"</text><text x="80.0" y=""#@,
        v2,
        r##"" font-size="10" fill="#9ca3af" text-anchor="end">"##@,
    );
    lemma_named_between(
        text,
        m1,
        r##"" font-size="10" fill="#9ca3af" text-anchor="end">"##@,
        v1,
        r#"</text><text x="80.0" y=""#@,
    );
    lemma_named_between(
        text,
        m0,
        r#"<text x="80.0" y=""#@,
        v0,
        r##"" font-size="10" fill="#9ca3af" text-anchor="end">"##@,
    );
}


/// A height is printed to the nearest of its decimals, and rises from the
/// baseline by as much of the plot's 170 as the value is of the axis.
pub proof fn law_height_is_nearest(v: nat, min: nat, end: nat, baseline: nat, places: nat)
    requires
        min <= v,
        min < end,
        170 * (v - min) <= baseline * (end - min),
    ensures
        ({
            let span = end - min;
            let exact = (baseline * span - 170 * (v - min)) * power(10, places);
            exists|u: nat|
                level(v, min, end, baseline, places) == #[trigger] fixed(u, places) && 2 * (u
                    * span) <= 2 * exact + span && 2 * exact <= 2 * (u * span) + span
        }),
{
    law_positions_are_nearest(
        baseline,
        (170 * (v - min)) as nat,
        (end - min) as nat,
        places,
    );
}

/// A label is four above its value: at that height where it is in the picture,
/// else behind a minus sign the distance above the top.
pub proof fn law_label_is_four_above(v: nat, min: nat, end: nat, baseline: nat)
    requires
        min <= v,
        min < end,
        baseline >= 4,
    ensures
        170 * (v - min) <= (baseline - 4) * (end - min) ==> label_level(v, min, end, baseline)
            == level(v, min, end, (baseline - 4) as nat, 2),
        170 * (v - min) > (baseline - 4) * (end - min) ==> ({
            let text = label_level(v, min, end, baseline);
            let exact = (170 * (v - min) - (baseline - 4) * (end - min)) * 100;
            &&& text.len() > 0 && text[0] == '-'
            &&& exists|u: nat|
                text.skip(1) == #[trigger] fixed(u, 2) && 2 * (u * (end - min)) <= 2 * exact + (end
                    - min) && 2 * exact <= 2 * (u * (end - min)) + (end - min)
        }),
{
    if 170 * (v - min) > (baseline - 4) * (end - min) {
        let over = (170 * (v - min) - (baseline - 4) * (end - min)) as nat;
        law_fraction_is_nearest(over, (end - min) as nat, 2);
        assert(power(10, 2) == 100) by {
            reveal_with_fuel(power, 3);
        }
        reveal_strlit("-");
        let text = label_level(v, min, end, baseline);
        assert(text.skip(1) =~= fraction(over, (end - min) as nat, 2));
    }
}

/// A column holds the samples from its first on, in their order, as many as go
/// into one but no further than the last sample; no fewer columns' worth of
/// samples would do.
pub proof fn law_column_holds_its_samples(values: Seq<u64>, per: nat, c: nat, j: int)
    requires
        c * per <= values.len(),
        0 < per,
    ensures
        column(values, per, c).len() == (if (c + 1) * per <= values.len() {
            per as int
        } else {
            values.len() - c * per
        }),
        0 <= j < column(values, per, c).len() ==> column(values, per, c)[j] == values[c * per + j],
        values.len() > 0 ==> 480 * (samples_per_column(values.len()) - 1) < values.len() <= 480
            * samples_per_column(values.len()),
        values.len() > 0 ==> (column_count(values.len(), per) - 1) * per < values.len()
            <= column_count(values.len(), per) * per,
{
    assert((c + 1) * per == c * per + per) by (nonlinear_arith);
    if values.len() > 0 {
        let n = values.len() as int;
        let d = per as int;
        let q = (n + d - 1) / d;
        assert(0 <= q && (q - 1) * d < n <= q * d) by (nonlinear_arith)
            requires
                q == (n + d - 1) / d,
                d > 0,
                n > 0,
        ;
    }
}

/// A corner stands at its column and at the height of its value.
pub proof fn law_corner_stands_at_its_column(c: nat, v: nat, min: nat, end: nat, baseline: nat)
    ensures
        (above(88, 844 * c, 479, 2) + ","@).is_prefix_of(corner(c, v, min, end, baseline)),
        (","@ + level(v, min, end, baseline, 2)).is_suffix_of(corner(c, v, min, end, baseline)),
{
    let text = corner(c, v, min, end, baseline);
    let front = above(88, 844 * c, 479, 2) + ","@;
    let back = ","@ + level(v, min, end, baseline, 2);
    assert(front =~= text.subrange(0, front.len() as int));
    assert(back =~= text.subrange(text.len() - back.len(), text.len() as int));
}

/// The lower edge touches the smallest sample of every column, the upper edge
/// the largest. Each is as long as its corners and the blanks between them.
pub proof fn law_edges_touch_every_column(
    values: Seq<u64>,
    per: nat,
    columns: nat,
    min: nat,
    end: nat,
    baseline: nat,
    c: nat,
)
    requires
        c < columns,
    ensures
        shows(
            lower_edge(values, per, min, end, baseline, columns),
            corner(c, lowest(column(values, per, c)) as nat, min, end, baseline),
        ),
        shows(
            upper_edge(values, per, columns, min, end, baseline, columns),
            corner(c, highest(column(values, per, c)) as nat, min, end, baseline),
        ),
        ({
            let low = lowest(column(values, per, c)) as nat;
            let before = lower_edge(values, per, min, end, baseline, c);
            lower_edge(values, per, min, end, baseline, c + 1).len() == before.len() + (if c == 0 {
                0
            } else {
                1nat
            }) + corner(c, low, min, end, baseline).len()
        }),
        ({
            let high = highest(column(values, per, c)) as nat;
            let k = (columns - c) as nat;
            let before = upper_edge(values, per, columns, min, end, baseline, (k - 1) as nat);
            upper_edge(values, per, columns, min, end, baseline, k).len() == before.len() + 1
                + corner(c, high, min, end, baseline).len()
        }),
        lower_edge(values, per, min, end, baseline, 0).len() == 0,
        upper_edge(values, per, columns, min, end, baseline, 0).len() == 0,
{
    reveal_strlit(" ");
    lemma_lower_edge(values, per, min, end, baseline, columns, c);
    lemma_upper_edge(values, per, columns, min, end, baseline, columns, c);
}

proof fn lemma_lower_edge(
    values: Seq<u64>,
    per: nat,
    min: nat,
    end: nat,
    baseline: nat,
    k: nat,
    c: nat,
)
    requires
        c < k,
    ensures
        shows(
            lower_edge(values, per, min, end, baseline, k),
            corner(c, lowest(column(values, per, c)) as nat, min, end, baseline),
        ),
    decreases k,
{
    let k1 = (k - 1) as nat;
    let earlier = lower_edge(values, per, min, end, baseline, k1);
    let gap = if k == 1 {
        Seq::empty()
    } else {
        " "@
    };
    let last = corner(k1, lowest(column(values, per, k1)) as nat, min, end, baseline);
    let wanted = corner(c, lowest(column(values, per, c)) as nat, min, end, baseline);
    let whole = lower_edge(values, per, min, end, baseline, k);
    assert(whole == earlier + gap + last);
    if c == k1 {
        lemma_shows(earlier + gap, last, Seq::empty());
        assert(whole =~= earlier + gap + last + Seq::<char>::empty());
    } else {
        lemma_lower_edge(values, per, min, end, baseline, k1, c);
        lemma_still_shows(Seq::empty(), earlier, gap + last, wanted);
        assert(whole =~= Seq::<char>::empty() + earlier + (gap + last));
    }
}

proof fn lemma_upper_edge(
    values: Seq<u64>,
    per: nat,
    columns: nat,
    min: nat,
    end: nat,
    baseline: nat,
    k: nat,
    c: nat,
)
    requires
        k <= columns,
        columns - k <= c < columns,
    ensures
        shows(
            upper_edge(values, per, columns, min, end, baseline, k),
            corner(c, highest(column(values, per, c)) as nat, min, end, baseline),
        ),
    decreases k,
{
    let k1 = (k - 1) as nat;
    let here = (columns - k) as nat;
    let earlier = upper_edge(values, per, columns, min, end, baseline, k1);
    let last = corner(here, highest(column(values, per, here)) as nat, min, end, baseline);
    let wanted = corner(c, highest(column(values, per, c)) as nat, min, end, baseline);
    let whole = upper_edge(values, per, columns, min, end, baseline, k);
    assert(whole == earlier + " "@ + last);
    if c == here {
        lemma_shows(earlier + " "@, last, Seq::empty());
        assert(whole =~= earlier + " "@ + last + Seq::<char>::empty());
    } else {
        lemma_upper_edge(values, per, columns, min, end, baseline, k1, c);
        lemma_still_shows(Seq::empty(), earlier, " "@ + last, wanted);
        assert(whole =~= Seq::<char>::empty() + earlier + (" "@ + last));
    }
}

/// Every sample has its point, spread over the axis so that the first stands at
/// its start and the last at its end.
pub proof fn law_every_sample_has_a_point(
    values: Seq<u64>,
    min: nat,
    end: nat,
    baseline: nat,
    radius: Seq<char>,
    colour: Seq<char>,
    k: nat,
    i: nat,
)
    requires
        i < k <= values.len(),
    ensures
        shows(
            points(values, min, end, baseline, radius, colour, k),
            point(
                i,
                if values.len() > 1 {
                    (values.len() - 1) as nat
                } else {
                    1
                },
                values[i as int] as nat,
                min,
                end,
                baseline,
                radius,
                colour,
            ),
        ),
        i == k - 1 ==> points(values, min, end, baseline, radius, colour, k).len() == points(
            values,
            min,
            end,
            baseline,
            radius,
            colour,
            i,
        ).len() + point(
            i,
            if values.len() > 1 {
                (values.len() - 1) as nat
            } else {
                1
            },
            values[i as int] as nat,
            min,
            end,
            baseline,
            radius,
            colour,
        ).len(),
        points(values, min, end, baseline, radius, colour, 0).len() == 0,
    decreases k,
{
    let k1 = (k - 1) as nat;
    let steps = if values.len() > 1 {
        (values.len() - 1) as nat
    } else {
        1
    };
    let earlier = points(values, min, end, baseline, radius, colour, k1);
    let last = point(k1, steps, values[k - 1] as nat, min, end, baseline, radius, colour);
    let wanted = point(i, steps, values[i as int] as nat, min, end, baseline, radius, colour);
    let whole = points(values, min, end, baseline, radius, colour, k);
    assert(whole == earlier + last);
    if i == k1 {
        lemma_shows(earlier, last, Seq::empty());
        assert(whole =~= earlier + last + Seq::<char>::empty());
    } else {
        law_every_sample_has_a_point(values, min, end, baseline, radius, colour, k1, i);
        lemma_still_shows(Seq::empty(), earlier, last, wanted);
        assert(whole =~= Seq::<char>::empty() + earlier + last);
    }
}

/// The envelope is drawn along the lower edge and back along the upper one, over
/// all columns, in the colour of the phase.
pub proof fn law_envelope_has_both_edges(
    values: Seq<u64>,
    min: nat,
    end: nat,
    baseline: nat,
    colour: Seq<char>,
)
    ensures
        ({
            let per = samples_per_column(values.len());
            let columns = column_count(values.len(), per);
            let lower = lower_edge(values, per, min, end, baseline, columns);
            let upper = upper_edge(values, per, columns, min, end, baseline, columns);
            let svg = envelope(values, min, end, baseline, colour);
            &&& shows(svg, lower + upper)
            &&& shows(svg, r#"" fill=""#@ + colour + r#"" opacity="0.5"/>"#@)
            &&& svg.len() == r#"<polygon points=""#@.len() + lower.len() + upper.len()
                + r#"" fill=""#@.len() + colour.len() + r#"" opacity="0.5"/>"#@.len()
        }),
{
    let per = samples_per_column(values.len());
    let columns = column_count(values.len(), per);
    let lower = lower_edge(values, per, min, end, baseline, columns);
    let upper = upper_edge(values, per, columns, min, end, baseline, columns);
    let svg = envelope(values, min, end, baseline, colour);
    let m0 = r#"<polygon points=""#@;
    let fill = r#"" fill=""#@ + colour + r#"" opacity="0.5"/>"#@;
    lemma_shows(m0, lower + upper, fill);
    assert(svg =~= m0 + (lower + upper) + fill);
    lemma_shows(m0 + (lower + upper), fill, Seq::empty());
    assert(svg =~= m0 + (lower + upper) + fill + Seq::<char>::empty());
}

/// Up to 1500 samples are drawn as points, small ones above 600, more samples as
/// an envelope. Around them stand the frame, the line of the median, the last
/// iteration and the scale, which runs from the smallest to the largest sample.
pub proof fn law_timeline_shows_its_parts(
    values: Seq<u64>,
    s: Summary,
    colour: Seq<char>,
    y: nat,
)
    requires
        values.len() > 0,
    ensures
        ({
            let svg = timeline_svg(values, s, colour, y);
            let min = s.min as nat;
            let end = axis_end(s.min, s.max);
            let n = values.len();
            &&& stands_at(svg, frame(y), 0)
            &&& shows(svg, median_line(s.p50 as nat, min, end, y + 170))
            &&& n <= 600 ==> shows(svg, points(values, min, end, y + 170, "1.6"@, colour, n))
            &&& 600 < n <= 1500 ==> shows(svg, points(values, min, end, y + 170, "1"@, colour, n))
            &&& n > 1500 ==> shows(svg, envelope(values, min, end, y + 170, colour))
            &&& shows(svg, iteration_ends((n - 1) as nat, y + 170))
            &&& scale(min, end, y).is_suffix_of(svg)
            &&& svg.len() == frame(y).len() + median_line(s.p50 as nat, min, end, y + 170).len() + (
            if n <= 600 {
                points(values, min, end, y + 170, "1.6"@, colour, n).len()
            } else if n <= 1500 {
                points(values, min, end, y + 170, "1"@, colour, n).len()
            } else {
                envelope(values, min, end, y + 170, colour).len()
            }) + iteration_ends((n - 1) as nat, y + 170).len() + scale(min, end, y).len()
        }),
        timeline_svg(Seq::empty(), s, colour, y).len() == 0,
{
    let svg = timeline_svg(values, s, colour, y);
    let min = s.min as nat;
    let end = axis_end(s.min, s.max);
    let n = values.len();
    let radius = if n > 600 {
        "1"@
    } else {
        "1.6"@
    };
    let body = if n <= 1500 {
        points(values, min, end, y + 170, radius, colour, n)
    } else {
        envelope(values, min, end, y + 170, colour)
    };
    let median = median_line(s.p50 as nat, min, end, y + 170);
    let ends = iteration_ends((n - 1) as nat, y + 170);
    let last = scale(min, end, y);
    assert(svg == frame(y) + median + body + ends + last);
    assert(svg.subrange(0, svg.len() as int) =~= svg);
    lemma_shown_in_front(svg, frame(y) + median + body + ends, last);
    assert(last =~= svg.subrange(svg.len() - last.len(), svg.len() as int));
    lemma_shown_in_front(svg, frame(y) + median + body, ends);
    lemma_shown_in_front(svg, frame(y) + median, body);
    lemma_shown_in_front(svg, frame(y), median);
    assert(svg.subrange(0, frame(y).len() as int) == frame(y));
}

/// The frame begins at the top of the plot.
pub proof fn law_frame_begins_at_the_top(y: nat)
    ensures
        shows(
            frame(y),
            r#"<rect x="88" y=""#@ + tenths(y)
                + r##"" width="844" height="170" fill="#fafafa" stroke="#e5e7eb" stroke-width="1"/>"##@,
        ),
        frame(y).len() == r#"<rect x="88" y=""#@.len() + tenths(y).len()
            + r##"" width="844" height="170" fill="#fafafa" stroke="#e5e7eb" stroke-width="1"/>"##@.len(),
{
    reveal(frame);
    let text = frame(y);
    let m0 = Seq::<char>::empty();
    let v0 = tenths(y);
    let m1 = m0 + r#"<rect x="88" y=""#@ + v0;
    assert(m0 + r#"<rect x="88" y=""#@ =~= r#"<rect x="88" y=""#@);
    assert(
        text == m1
            + r##"" width="844" height="170" fill="#fafafa" stroke="#e5e7eb" stroke-width="1"/>"##@
    );
    assert(text.subrange(0, text.len() as int) =~= text);
    lemma_named_between(
        text,
        m0,
        r#"<rect x="88" y=""#@,
        v0,
        r##"" width="844" height="170" fill="#fafafa" stroke="#e5e7eb" stroke-width="1"/>"##@,
    );
}

} // verus!
