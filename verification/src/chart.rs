//! SVG chart of benchmark results.
//!
//! The output is three fixed chart types over samples that are all at hand: a
//! stacked bar of where the time goes, and per phase a histogram and a
//! timeline. The file is self-contained.

use crate::decimal::{fixed, fraction, fraction_text};
use crate::histogram::{histogram, histogram_svg};
use crate::reading::{law_fraction_is_nearest, power};
use crate::report::{lemma_named_between, lemma_shown_in_front};
use crate::stats::{summary_of, Phase, Samples, Summary};
use crate::svg::{
    above, above_text, colour_of, escape, escaped, law_plain_text_is_kept, nanos, nanos_label,
    phase_colour, tenths, tenths_text, MAX_Y,
};
use crate::text::{decimal, decimal_text};
use crate::timeline::{timeline, timeline_svg};
use crate::wide::{lemma_limb_square, limb, Wide};
use vstd::prelude::*;
use vstd::string::StringExecFns;

verus! {

/// A phase with its samples.
pub type Run = (Phase, Seq<u64>);

/// What the phases hold.
pub open spec fn runs_of(phases: Seq<(Phase, Samples)>) -> Seq<Run> {
    phases.map_values(|p: (Phase, Samples)| (p.0, p.1@))
}

/// The runs that hold samples: the ones with a panel.
pub open spec fn shown(runs: Seq<Run>) -> Seq<Run>
    decreases runs.len(),
{
    if runs.len() == 0 {
        Seq::empty()
    } else if runs.last().1.len() == 0 {
        shown(runs.drop_last())
    } else {
        shown(runs.drop_last()).push(runs.last())
    }
}

/// The time that the first run of `Phase::Total` took, where there is one.
pub open spec fn measured_total(runs: Seq<Run>) -> Option<u128>
    decreases runs.len(),
{
    if runs.len() == 0 {
        None
    } else if runs[0].0 == Phase::Total {
        Some(summary_of(runs[0].1).total)
    } else {
        measured_total(runs.drop_first())
    }
}

/// The time that each run of another phase took.
pub open spec fn components_of(runs: Seq<Run>) -> Seq<(Phase, u128)>
    decreases runs.len(),
{
    if runs.len() == 0 {
        Seq::empty()
    } else if runs.last().0 == Phase::Total {
        components_of(runs.drop_last())
    } else {
        components_of(runs.drop_last()).push((runs.last().0, summary_of(runs.last().1).total))
    }
}

pub open spec fn component_sum(components: Seq<(Phase, u128)>) -> nat
    decreases components.len(),
{
    if components.len() == 0 {
        0
    } else {
        component_sum(components.drop_last()) + components.last().1 as nat
    }
}

/// `base + scale * part / whole` to `places` decimal places.
pub open spec fn along(base: nat, scale: nat, part: nat, whole: nat, places: nat) -> Seq<char> {
    fraction(base * whole + scale * part, whole, places)
}

fn along_text(base: u128, scale: u128, part: Wide, whole: Wide, places: u32) -> (text: String)
    requires
        places <= 3,
        base <= 1000,
        scale <= 1000,
        part@ <= 2 * whole@,
        0 < whole@ < 0x10_0000_0000_0000_0000 * limb(),
    ensures
        text@ == along(base as nat, scale as nat, part@, whole@, places as nat),
{
    proof {
        let (b, s, p, w) = (base as nat, scale as nat, part@, whole@);
        assert(w * b <= 1000 * w) by (nonlinear_arith)
            requires
                b <= 1000,
        ;
        assert(p * s <= 2000 * w) by (nonlinear_arith)
            requires
                s <= 1000,
                p <= 2 * w,
        ;
        assert(b * w == w * b && s * p == p * s) by (nonlinear_arith);
        lemma_limb_square();
    }
    fraction_text(whole.times(base).plus(part.times(scale)), whole, places)
}

/// The title of the stacked bar.
#[verifier::opaque]
pub open spec fn composition_title(y: nat) -> Seq<char> {
    r#"<text x="88" y=""#@
        + tenths(y + 12)
        + r##"" font-size="13" font-weight="600" fill="#1a1d23">Where the time goes</text>"##@
}

fn composition_title_text(y: u128) -> (text: String)
    requires
        y <= MAX_Y,
    ensures
        text@ == composition_title(y as nat),
{
    proof {
        reveal(composition_title);
    }
    let mut text = String::from_str(r#"<text x="88" y=""#);
    let y1 = tenths_text(y + 12);
    text.append(y1.as_str());
    text.append(
        r##"" font-size="13" font-weight="600" fill="#1a1d23">Where the time goes</text>"##,
    );
    text
}

/// The box of one component.
#[verifier::opaque]
pub open spec fn segment_box(
    phase: Phase,
    before: nat,
    value: nat,
    sum: nat,
    bar_y: nat,
) -> Seq<char> {
    r#"<rect x=""#@
        + along(88, 844, before, sum, 2)
        + r#"" y=""#@
        + tenths(bar_y)
        + r#"" width=""#@
        + along(0, 844, value, sum, 2)
        + r#"" height="26" fill=""#@
        + colour_of(phase)
        + r#""/>"#@
}

fn segment_box_text(
    phase: Phase,
    before: Wide,
    value: Wide,
    sum: Wide,
    bar_y: u128,
) -> (text: String)
    requires
        before@ + value@ <= sum@,
        0 < sum@ < 0x10_0000_0000_0000_0000 * limb(),
        bar_y <= 2 * MAX_Y,
    ensures
        text@ == segment_box(phase, before@, value@, sum@, bar_y as nat),
{
    proof {
        reveal(segment_box);
    }
    let mut text = String::from_str(r#"<rect x=""#);
    let x = along_text(88, 844, before, sum, 2);
    text.append(x.as_str());
    text.append(r#"" y=""#);
    let y1 = tenths_text(bar_y);
    text.append(y1.as_str());
    text.append(r#"" width=""#);
    let width = along_text(0, 844, value, sum, 2);
    text.append(width.as_str());
    text.append(r#"" height="26" fill=""#);
    text.append(phase_colour(phase));
    text.append(r#""/>"#);
    text
}

/// The share that is written into a box.
#[verifier::opaque]
pub open spec fn segment_share(before: nat, value: nat, sum: nat, bar_y: nat) -> Seq<char> {
    r#"<text x=""#@
        + along(88, 422, before + before + value, sum, 2)
        + r#"" y=""#@
        + tenths(bar_y + 17)
        + r##"" font-size="11" font-weight="600" fill="#ffffff" text-anchor="middle">"##@
        + along(0, 100, value, sum, 1)
        + "%</text>"@
}

fn segment_share_text(before: Wide, value: Wide, sum: Wide, bar_y: u128) -> (text: String)
    requires
        before@ + value@ <= sum@,
        0 < sum@ < 0x10_0000_0000_0000_0000 * limb(),
        bar_y <= 2 * MAX_Y,
    ensures
        text@ == segment_share(before@, value@, sum@, bar_y as nat),
{
    proof {
        reveal(segment_share);
        lemma_limb_square();
    }
    let mut text = String::from_str(r#"<text x=""#);
    let x = along_text(88, 422, before.plus(before).plus(value), sum, 2);
    text.append(x.as_str());
    text.append(r#"" y=""#);
    let y1 = tenths_text(bar_y + 17);
    text.append(y1.as_str());
    text.append(r##"" font-size="11" font-weight="600" fill="#ffffff" text-anchor="middle">"##);
    let share = along_text(0, 100, value, sum, 1);
    text.append(share.as_str());
    text.append("%</text>");
    text
}

/// The first `k` boxes, side by side. Only one wide enough to hold text
/// legibly is labelled.
pub open spec fn segments(components: Seq<(Phase, u128)>, bar_y: nat, k: nat) -> Seq<char>
    decreases k,
{
    if k == 0 {
        Seq::empty()
    } else {
        let sum = component_sum(components);
        let before = component_sum(components.take(k - 1));
        let value = components[k - 1].1 as nat;
        let boxes = segments(components, bar_y, (k - 1) as nat) + segment_box(
            components[k - 1].0,
            before,
            value,
            sum,
            bar_y,
        );
        if value * 844 > sum * 62 {
            boxes + segment_share(before, value, sum, bar_y)
        } else {
            boxes
        }
    }
}

/// The legend of one component.
#[verifier::opaque]
pub open spec fn legend_entry(
    phase: Phase,
    value: nat,
    index: nat,
    count: nat,
    legend_y: nat,
) -> Seq<char> {
    r#"<rect x=""#@
        + above(88, 844 * index, count, 1)
        + r#"" y=""#@
        + tenths((legend_y - 9) as nat)
        + r#"" width="10" height="10" rx="2" fill=""#@
        + colour_of(phase)
        + r#""/><text x=""#@
        + above(103, 844 * index, count, 1)
        + r#"" y=""#@
        + tenths(legend_y)
        + r##"" font-size="11" fill="#4b5563">"##@
        + escaped(phase.spec_label())
        + " &#183; "@
        + nanos(value)
        + " total</text>"@
}

fn legend_entry_text(
    phase: Phase,
    value: u128,
    index: u128,
    count: u128,
    legend_y: u128,
) -> (text: String)
    requires
        index < count <= 0xffff_ffff_ffff_ffff,
        9 <= legend_y,
    ensures
        text@ == legend_entry(phase, value as nat, index as nat, count as nat, legend_y as nat),
{
    proof {
        reveal(legend_entry);
    }
    let mut text = String::from_str(r#"<rect x=""#);
    let x1 = above_text(88, 844 * index, count, 1);
    text.append(x1.as_str());
    text.append(r#"" y=""#);
    let y1 = tenths_text(legend_y - 9);
    text.append(y1.as_str());
    text.append(r#"" width="10" height="10" rx="2" fill=""#);
    text.append(phase_colour(phase));
    text.append(r#""/><text x=""#);
    let x2 = above_text(103, 844 * index, count, 1);
    text.append(x2.as_str());
    text.append(r#"" y=""#);
    let y2 = tenths_text(legend_y);
    text.append(y2.as_str());
    text.append(r##"" font-size="11" fill="#4b5563">"##);
    let label = escape(phase.label());
    text.append(label.as_str());
    text.append(" &#183; ");
    let time = nanos_label(value);
    text.append(time.as_str());
    text.append(" total</text>");
    text
}

/// The first `k` legends, on a fixed pitch.
pub open spec fn legend(components: Seq<(Phase, u128)>, legend_y: nat, k: nat) -> Seq<char>
    decreases k,
{
    if k == 0 {
        Seq::empty()
    } else {
        legend(components, legend_y, (k - 1) as nat) + legend_entry(
            components[k - 1].0,
            components[k - 1].1 as nat,
            (k - 1) as nat,
            components.len(),
            legend_y,
        )
    }
}

/// The note on time that no component accounts for.
#[verifier::opaque]
pub open spec fn unattributed_note(missing: nat, total: nat, bar_y: nat) -> Seq<char> {
    r#"<text x="932.0" y=""#@
        + tenths((bar_y - 6) as nat)
        + r##"" font-size="11" fill="#9ca3af" text-anchor="end">"##@
        + along(0, 100, missing, total, 1)
        + "% unattributed (loop overhead)</text>"@
}

fn unattributed_note_text(missing: u128, total: u128, bar_y: u128) -> (text: String)
    requires
        missing <= total,
        0 < total,
        6 <= bar_y,
    ensures
        text@ == unattributed_note(missing as nat, total as nat, bar_y as nat),
{
    proof {
        reveal(unattributed_note);
    }
    let mut text = String::from_str(r#"<text x="932.0" y=""#);
    let y1 = tenths_text(bar_y - 6);
    text.append(y1.as_str());
    text.append(r##"" font-size="11" fill="#9ca3af" text-anchor="end">"##);
    let share = along_text(0, 100, Wide::of(missing), Wide::of(total), 1);
    text.append(share.as_str());
    text.append("% unattributed (loop overhead)</text>");
    text
}

/// The stacked bar: the share of the time that each component accounts for,
/// with a note where more than a hundredth of the measured total is left.
pub open spec fn composition_svg(components: Seq<(Phase, u128)>, total: nat, y: nat) -> Seq<char> {
    let sum = component_sum(components);
    let body = composition_title(y) + segments(components, y + 24, components.len()) + legend(
        components,
        y + 68,
        components.len(),
    );
    if (total - sum) * 100 > total {
        body + unattributed_note((total - sum) as nat, total, y + 24)
    } else {
        body
    }
}

/// The name of a panel.
#[verifier::opaque]
pub open spec fn panel_name(phase: Phase, y: nat) -> Seq<char> {
    r#"<text x="88" y=""#@
        + tenths(y + 26)
        + r##"" font-size="14" font-weight="600" fill="#1a1d23">"##@
        + escaped(phase.spec_label())
        + "</text>"@
}

fn panel_name_text(phase: Phase, y: u128) -> (text: String)
    requires
        y <= MAX_Y,
    ensures
        text@ == panel_name(phase, y as nat),
{
    proof {
        reveal(panel_name);
    }
    let mut text = String::from_str(r#"<text x="88" y=""#);
    let y1 = tenths_text(y + 26);
    text.append(y1.as_str());
    text.append(r##"" font-size="14" font-weight="600" fill="#1a1d23">"##);
    let label = escape(phase.label());
    text.append(label.as_str());
    text.append("</text>");
    text
}

/// The figures beside the name of a panel.
#[verifier::opaque]
pub open spec fn panel_figures(s: Summary, y: nat) -> Seq<char> {
    r#"<text x="932.0" y=""#@
        + tenths(y + 26)
        + r##"" font-size="11" fill="#6b7280" text-anchor="end">n="##@
        + decimal(s.n as nat)
        + " &#183; p50 "@
        + nanos(s.p50 as nat)
        + " &#183; p99 "@
        + nanos(s.p99 as nat)
        + " &#183; max "@
        + nanos(s.max as nat)
        + "</text>"@
}

fn panel_figures_text(s: &Summary, y: u128) -> (text: String)
    requires
        y <= MAX_Y,
    ensures
        text@ == panel_figures(*s, y as nat),
{
    proof {
        reveal(panel_figures);
    }
    let mut text = String::from_str(r#"<text x="932.0" y=""#);
    let y2 = tenths_text(y + 26);
    text.append(y2.as_str());
    text.append(r##"" font-size="11" fill="#6b7280" text-anchor="end">n="##);
    let n = decimal_text(s.n as u128);
    text.append(n.as_str());
    text.append(" &#183; p50 ");
    let p50 = nanos_label(s.p50 as u128);
    text.append(p50.as_str());
    text.append(" &#183; p99 ");
    let p99 = nanos_label(s.p99 as u128);
    text.append(p99.as_str());
    text.append(" &#183; max ");
    let max = nanos_label(s.max as u128);
    text.append(max.as_str());
    text.append("</text>");
    text
}

/// One phase: a latency distribution and a timeline.
pub open spec fn panel_svg(phase: Phase, values: Seq<u64>, y: nat) -> Seq<char> {
    let s = summary_of(values);
    panel_name(phase, y) + panel_figures(s, y) + histogram_svg(
        values,
        s,
        colour_of(phase),
        y + 40,
    ) + timeline_svg(values, s, colour_of(phase), y + 278)
}

/// The first `k` panels, one below the other.
pub open spec fn panels_svg(runs: Seq<Run>, y: nat, k: nat) -> Seq<char>
    decreases k,
{
    if k == 0 {
        Seq::empty()
    } else {
        panels_svg(runs, y, (k - 1) as nat) + panel_svg(
            runs[k - 1].0,
            runs[k - 1].1,
            (y + 468 * (k - 1)) as nat,
        )
    }
}

/// The start of the document.
#[verifier::opaque]
pub open spec fn header(height: nat, title: Seq<char>) -> Seq<char> {
    r#"<svg xmlns="http://www.w3.org/2000/svg" width="960" height=""#@
        + decimal(height)
        + r#"" viewBox="0 0 960 "#@
        + decimal(height)
        + r#"" font-family="ui-sans-serif, system-ui, sans-serif">
<rect width="960" height=""#@
        + decimal(height)
        + r##"" fill="#ffffff"/>
<text x="88" y="42" font-size="20" font-weight="600" fill="#1a1d23">"##@
        + escaped(title)
        + r##"</text>
<text x="88" y="64" font-size="12" fill="#6b7280">Per-step signing latency &#183; sequential &#183; every sample retained</text>
"##@
}

fn header_text(height: u128, title: &str) -> (text: String)
    ensures
        text@ == header(height as nat, title@),
{
    proof {
        reveal(header);
    }
    let mut text = String::from_str(r#"<svg xmlns="http://www.w3.org/2000/svg" width="960" height=""#);
    let h1 = decimal_text(height);
    text.append(h1.as_str());
    text.append(r#"" viewBox="0 0 960 "#);
    let h2 = decimal_text(height);
    text.append(h2.as_str());
    text.append(r#"" font-family="ui-sans-serif, system-ui, sans-serif">
<rect width="960" height=""#);
    let h3 = decimal_text(height);
    text.append(h3.as_str());
    text.append(r##"" fill="#ffffff"/>
<text x="88" y="42" font-size="20" font-weight="600" fill="#1a1d23">"##);
    let heading = escape(title);
    text.append(heading.as_str());
    text.append(r##"</text>
<text x="88" y="64" font-size="12" fill="#6b7280">Per-step signing latency &#183; sequential &#183; every sample retained</text>
"##);
    text
}

/// The whole chart. Without samples there is nothing to draw.
pub open spec fn chart_svg(runs: Seq<Run>, title: Seq<char>) -> Seq<char> {
    let panels = shown(runs);
    let components = components_of(panels);
    let start = header(216 + 468 * panels.len(), title);
    if panels.len() == 0 {
        Seq::empty()
    } else {
        (match measured_total(panels) {
            None => start + panels_svg(panels, 92, panels.len()),
            Some(total) => (if component_sum(components) > 0 {
                start + composition_svg(components, total as nat, 92)
            } else {
                start
            }) + panels_svg(panels, 188, panels.len()),
        }) + "</svg>\n"@
    }
}

proof fn lemma_component_sums(components: Seq<(Phase, u128)>, k: int)
    requires
        0 <= k < components.len(),
    ensures
        component_sum(components.take(k)) + components[k].1 == component_sum(
            components.take(k + 1),
        ),
        component_sum(components.take(k + 1)) <= component_sum(components),
    decreases components.len(),
{
    assert(components.take(k + 1).drop_last() == components.take(k));
    if k == components.len() - 1 {
        assert(components.take(k + 1) == components);
    } else {
        lemma_component_sums(components.drop_last(), k);
        assert(components.drop_last().take(k + 1) == components.take(k + 1));
    }
}

proof fn lemma_component_bound(components: Seq<(Phase, u128)>)
    ensures
        component_sum(components) <= components.len() * limb(),
    decreases components.len(),
{
    if components.len() > 0 {
        lemma_component_bound(components.drop_last());
        let n = components.len() - 1;
        assert((n + 1) * limb() == n * limb() + limb()) by (nonlinear_arith);
    }
}

/// The sum of the first components, up to and without number `k`.
fn sum_before(components: &[(Phase, u128)], k: usize) -> (sum: Wide)
    requires
        k <= components@.len(),
    ensures
        sum@ == component_sum(components@.take(k as int)),
        sum@ < 0x10_0000_0000_0000_0000 * limb(),
{
    let mut sum = Wide::of(0);
    let mut i: usize = 0;
    proof {
        lemma_limb_square();
    }
    assert(components@.take(0) == Seq::<(Phase, u128)>::empty());
    while i < k
        invariant
            i <= k <= components@.len(),
            limb() * limb() >= 0x1000_0000_0000_0000_0000_0000_0000_0000 * limb(),
            sum@ == component_sum(components@.take(i as int)),
        decreases k - i,
    {
        proof {
            lemma_component_sums(components@, i as int);
            lemma_component_bound(components@.take(i as int));
            let n = i as nat;
            assert(n * limb() <= 0xffff_ffff_ffff_ffff * limb()) by (nonlinear_arith)
                requires
                    n <= 0xffff_ffff_ffff_ffff,
            ;
        }
        sum = sum.plus(Wide::of(components[i].1));
        i = i + 1;
    }
    proof {
        lemma_component_bound(components@.take(k as int));
        let n = k as nat;
        assert(n * limb() <= 0xffff_ffff_ffff_ffff * limb()) by (nonlinear_arith)
            requires
                n <= 0xffff_ffff_ffff_ffff,
        ;
    }
    sum
}

fn segments_text(components: &[(Phase, u128)], sum: Wide, bar_y: u128) -> (out: String)
    requires
        sum@ == component_sum(components@),
        0 < sum@ < 0x10_0000_0000_0000_0000 * limb(),
        bar_y <= 2 * MAX_Y,
    ensures
        out@ == segments(components@, bar_y as nat, components@.len()),
{
    let mut out = String::new();
    let mut before = Wide::of(0);
    let mut i: usize = 0;
    let n: usize = components.len();
    proof {
        lemma_limb_square();
        assert(components@.take(0) == Seq::<(Phase, u128)>::empty());
    }
    while i < n
        invariant
            i <= n == components@.len(),
            sum@ == component_sum(components@),
            0 < sum@ < 0x10_0000_0000_0000_0000 * limb(),
            limb() * limb() >= 0x1000_0000_0000_0000_0000_0000_0000_0000 * limb(),
            bar_y <= 2 * MAX_Y,
            before@ == component_sum(components@.take(i as int)),
            out@ == segments(components@, bar_y as nat, i as nat),
        decreases n - i,
    {
        proof {
            lemma_component_sums(components@, i as int);
        }
        let (phase, nanos) = components[i];
        let value = Wide::of(nanos);
        let piece = segment_box_text(phase, before, value, sum, bar_y);
        out.append(piece.as_str());
        if sum.times(62).less(value.times(844)) {
            let share = segment_share_text(before, value, sum, bar_y);
            out.append(share.as_str());
        }
        before = before.plus(value);
        i = i + 1;
    }
    out
}

fn legend_text(components: &[(Phase, u128)], legend_y: u128) -> (out: String)
    requires
        9 <= legend_y,
    ensures
        out@ == legend(components@, legend_y as nat, components@.len()),
{
    let mut out = String::new();
    let mut i: usize = 0;
    let n: usize = components.len();
    while i < n
        invariant
            i <= n == components@.len(),
            9 <= legend_y,
            out@ == legend(components@, legend_y as nat, i as nat),
        decreases n - i,
    {
        let (phase, value) = components[i];
        let piece = legend_entry_text(phase, value, i as u128, n as u128, legend_y);
        out.append(piece.as_str());
        i = i + 1;
    }
    out
}

/// Stacked bar: the share of total time each phase accounts for.
fn composition_bar(components: &[(Phase, u128)], sum: Wide, total: u128, y: u128) -> (out: String)
    requires
        sum@ == component_sum(components@),
        0 < sum@ < 0x10_0000_0000_0000_0000 * limb(),
        y <= MAX_Y,
    ensures
        out@ == composition_svg(components@, total as nat, y as nat),
{
    let mut out = composition_title_text(y);
    let boxes = segments_text(components, sum, y + 24);
    out.append(boxes.as_str());
    let names = legend_text(components, y + 68);
    out.append(names.as_str());
    let whole = Wide::of(total);
    if sum.less(whole) {
        let missing = whole.minus(sum);
        proof {
            assert(missing.hi == 0) by (nonlinear_arith)
                requires
                    missing.hi * limb() + missing.lo < limb(),
                    missing.hi >= 0,
                    missing.lo >= 0,
                    limb() > 0,
            ;
        }
        if whole.less(missing.times(100)) {
            let note = unattributed_note_text(missing.lo, total, y + 24);
            out.append(note.as_str());
        }
    }
    out
}

/// One phase: a latency distribution and a per-iteration timeline.
fn panel(phase: Phase, values: &[u64], summary: &Summary, y: u128) -> (out: String)
    requires
        0 < values@.len(),
        *summary == summary_of(values@),
        y + 278 <= MAX_Y,
    ensures
        out@ == panel_svg(phase, values@, y as nat),
{
    let colour = phase_colour(phase);
    let mut out = panel_name_text(phase, y);
    let figures = panel_figures_text(summary, y);
    out.append(figures.as_str());
    let distribution = histogram(values, summary, colour, y + 40);
    out.append(distribution.as_str());
    let course = timeline(values, summary, colour, y + 278);
    out.append(course.as_str());
    out
}

/// A phase that has samples: its place among the phases, and its summary.
struct Panel {
    index: usize,
    summary: Summary,
}

spec fn panels_match(panels: Seq<Panel>, runs: Seq<Run>, chosen: Seq<Run>) -> bool {
    &&& panels.len() == chosen.len()
    &&& forall|k: int|
        0 <= k < panels.len() ==> {
            &&& (#[trigger] panels[k]).index < runs.len()
            &&& runs[panels[k].index as int] == chosen[k]
            &&& chosen[k].1.len() > 0
            &&& panels[k].summary == summary_of(chosen[k].1)
        }
}

fn panels_for(phases: &[(Phase, Samples)]) -> (panels: Vec<Panel>)
    ensures
        panels_match(panels@, runs_of(phases@), shown(runs_of(phases@))),
{
    let mut panels: Vec<Panel> = Vec::new();
    let mut i: usize = 0;
    let ghost runs = runs_of(phases@);
    assert(runs.take(0) == Seq::<Run>::empty());
    while i < phases.len()
        invariant
            i <= phases@.len() == runs.len(),
            runs == runs_of(phases@),
            panels_match(panels@, runs, shown(runs.take(i as int))),
        decreases phases.len() - i,
    {
        assert(runs.take(i + 1).drop_last() == runs.take(i as int));
        assert(runs.take(i + 1).last() == runs[i as int]);
        if let Some(summary) = phases[i].1.summary() {
            panels.push(Panel { index: i, summary });
        }
        i = i + 1;
    }
    assert(runs.take(i as int) == runs);
    panels
}

proof fn lemma_measured_total(runs: Seq<Run>, k: int)
    requires
        0 <= k < runs.len(),
        runs[k].0 == Phase::Total,
        forall|j: int| 0 <= j < k ==> (#[trigger] runs[j]).0 != Phase::Total,
    ensures
        measured_total(runs) == Some(summary_of(runs[k].1).total),
    decreases k,
{
    if k > 0 {
        assert(runs[0].0 != Phase::Total);
        lemma_measured_total(runs.drop_first(), k - 1);
    }
}

proof fn lemma_no_measured_total(runs: Seq<Run>)
    requires
        forall|j: int| 0 <= j < runs.len() ==> (#[trigger] runs[j]).0 != Phase::Total,
    ensures
        measured_total(runs) is None,
    decreases runs.len(),
{
    if runs.len() > 0 {
        assert(runs[0].0 != Phase::Total);
        lemma_no_measured_total(runs.drop_first());
    }
}

/// Split the panels into the measured total and the components of it.
fn composition_of(phases: &[(Phase, Samples)], panels: &Vec<Panel>) -> (r: (
    Option<u128>,
    Vec<(Phase, u128)>,
))
    requires
        panels_match(panels@, runs_of(phases@), shown(runs_of(phases@))),
    ensures
        r.0 == measured_total(shown(runs_of(phases@))),
        r.1@ == components_of(shown(runs_of(phases@))),
{
    let ghost runs = runs_of(phases@);
    let ghost chosen = shown(runs);
    let mut total: Option<u128> = None;
    let mut components: Vec<(Phase, u128)> = Vec::new();
    let mut i: usize = 0;
    assert(chosen.take(0) == Seq::<Run>::empty());
    while i < panels.len()
        invariant
            i <= panels@.len(),
            runs == runs_of(phases@),
            panels_match(panels@, runs, chosen),
            components@ == components_of(chosen.take(i as int)),
            total is Some ==> total == measured_total(chosen),
            total is None ==> forall|j: int|
                0 <= j < i ==> (#[trigger] chosen[j]).0 != Phase::Total,
        decreases panels.len() - i,
    {
        let phase = phases[panels[i].index].0;
        let nanos: u128 = panels[i].summary.total;
        assert(runs[panels@[i as int].index as int] == chosen[i as int]);
        assert(chosen.take(i + 1).drop_last() == chosen.take(i as int));
        assert(chosen.take(i + 1).last() == chosen[i as int]);
        if phase == Phase::Total {
            if total.is_none() {
                proof {
                    lemma_measured_total(chosen, i as int);
                }
                total = Some(nanos);
            }
        } else {
            components.push((phase, nanos));
        }
        i = i + 1;
    }
    assert(chosen.take(i as int) == chosen);
    proof {
        if total is None {
            lemma_no_measured_total(chosen);
        }
    }
    (total, components)
}

fn panels_text(phases: &[(Phase, Samples)], panels: &Vec<Panel>, y: u128) -> (out: String)
    requires
        panels_match(panels@, runs_of(phases@), shown(runs_of(phases@))),
        y <= 1000,
    ensures
        out@ == panels_svg(shown(runs_of(phases@)), y as nat, panels@.len()),
{
    let ghost runs = runs_of(phases@);
    let ghost chosen = shown(runs);
    let mut out = String::new();
    let mut i: usize = 0;
    while i < panels.len()
        invariant
            i <= panels@.len(),
            runs == runs_of(phases@),
            panels_match(panels@, runs, chosen),
            y <= 1000,
            out@ == panels_svg(chosen, y as nat, i as nat),
        decreases panels.len() - i,
    {
        let index = panels[i].index;
        assert(runs[index as int] == chosen[i as int]);
        let piece = panel(
            phases[index].0,
            phases[index].1.raw(),
            &panels[i].summary,
            y + 468 * i as u128,
        );
        out.append(piece.as_str());
        i = i + 1;
    }
    out
}

/// Render the full report: one histogram and one timeline per phase, plus a
/// stacked bar showing where the time goes. The bar uses the total elapsed per
/// phase, so it reflects real cost share rather than a percentile artefact.
pub fn render(phases: &[(Phase, Samples)], title: &str) -> (svg: String)
    ensures
        svg@ == chart_svg(runs_of(phases@), title@),
{
    let panels = panels_for(phases);
    if panels.len() == 0 {
        return String::new();
    }
    let mut svg = header_text(216 + 468 * panels.len() as u128, title);
    let (measured, components) = composition_of(phases, &panels);
    let y: u128 = match measured {
        None => 92,
        Some(total) => {
            let sum = sum_before(components.as_slice(), components.len());
            assert(components@.take(components@.len() as int) == components@);
            if Wide::of(0).less(sum) {
                let bar = composition_bar(components.as_slice(), sum, total, 92);
                svg.append(bar.as_str());
            }
            188
        },
    };
    let body = panels_text(phases, &panels, y);
    svg.append(body.as_str());
    svg.append("</svg>\n");
    svg
}

proof fn lemma_shown_is_empty(runs: Seq<Run>)
    ensures
        shown(runs).len() == 0 <==> forall|i: int|
            0 <= i < runs.len() ==> (#[trigger] runs[i]).1.len() == 0,
    decreases runs.len(),
{
    if runs.len() > 0 {
        let rest = runs.drop_last();
        lemma_shown_is_empty(rest);
        if shown(runs).len() == 0 {
            assert forall|i: int| 0 <= i < runs.len() implies (#[trigger] runs[i]).1.len() == 0 by {
                if i < rest.len() {
                    assert(rest[i] == runs[i]);
                }
            }
        } else if runs.last().1.len() == 0 {
            let i = choose|i: int| 0 <= i < rest.len() && (#[trigger] rest[i]).1.len() != 0;
            assert(runs[i] == rest[i]);
        } else {
            assert(runs[runs.len() - 1] == runs.last());
        }
    }
}

/// Nothing is rendered exactly where no phase has a sample.
pub proof fn law_chart_is_empty_without_samples(runs: Seq<Run>, title: Seq<char>)
    ensures
        chart_svg(runs, title).len() == 0 <==> forall|i: int|
            0 <= i < runs.len() ==> (#[trigger] runs[i]).1.len() == 0,
{
    lemma_shown_is_empty(runs);
    reveal_strlit("</svg>\n");
}

/// What is rendered is one document: it begins with the opening tag and ends
/// with the closing one.
pub proof fn law_chart_is_a_document(runs: Seq<Run>, title: Seq<char>)
    requires
        chart_svg(runs, title).len() > 0,
    ensures
        "<svg "@.is_prefix_of(chart_svg(runs, title)),
        "</svg>\n"@.is_suffix_of(chart_svg(runs, title)),
{
    reveal(header);
    reveal_strlit("<svg ");
    reveal_strlit("</svg>\n");
    reveal_strlit(r#"<svg xmlns="http://www.w3.org/2000/svg" width="960" height=""#);
    let first = r#"<svg xmlns="http://www.w3.org/2000/svg" width="960" height=""#@;
    let start = header(216 + 468 * shown(runs).len(), title);
    assert("<svg "@ =~= first.take(5));
    assert(start.take(5) =~= first.take(5));
    let chart = chart_svg(runs, title);
    assert(chart.take(5) =~= start.take(5));
    assert("<svg "@ =~= chart.take(5));
    assert("</svg>\n"@ =~= chart.skip(chart.len() - 7));
}

/// Whether `part` stands in `whole` at `i`.
pub open spec fn stands_at(whole: Seq<char>, part: Seq<char>, i: int) -> bool {
    0 <= i && i + part.len() <= whole.len() && whole.subrange(i, i + part.len()) == part
}

/// Whether `part` stands somewhere in `whole`.
pub open spec fn shows(whole: Seq<char>, part: Seq<char>) -> bool {
    exists|i: int| stands_at(whole, part, i)
}

pub proof fn lemma_shows(before: Seq<char>, part: Seq<char>, after: Seq<char>)
    ensures
        shows(before + part + after, part),
{
    let whole = before + part + after;
    let i = before.len() as int;
    assert(whole.subrange(i, i + part.len()) =~= part);
    assert(stands_at(whole, part, i));
}

pub proof fn lemma_still_shows(
    before: Seq<char>,
    middle: Seq<char>,
    after: Seq<char>,
    part: Seq<char>,
)
    requires
        shows(middle, part),
    ensures
        shows(before + middle + after, part),
{
    let whole = before + middle + after;
    let i = choose|i: int| stands_at(middle, part, i);
    let j = before.len() + i;
    assert(whole.subrange(j, j + part.len()) =~= middle.subrange(i, i + part.len()));
    assert(stands_at(whole, part, j));
}

proof fn lemma_label_is_plain(phase: Phase)
    ensures
        escaped(phase.spec_label()) == phase.spec_label(),
{
    reveal_strlit("C_SignInit");
    reveal_strlit("C_Sign (network)");
    reveal_strlit("verify (local)");
    reveal_strlit("total");
    law_plain_text_is_kept(phase.spec_label());
}

proof fn lemma_panel_shows_label(phase: Phase, values: Seq<u64>, y: nat)
    ensures
        shows(panel_svg(phase, values, y), phase.spec_label()),
{
    reveal(panel_name);
    lemma_label_is_plain(phase);
    let label = phase.spec_label();
    let before = r#"<text x="88" y=""#@ + tenths(y + 26)
        + r##"" font-size="14" font-weight="600" fill="#1a1d23">"##@;
    lemma_shows(before, label, "</text>"@);
    let name = panel_name(phase, y);
    assert(name == before + label + "</text>"@);
    let s = summary_of(values);
    let rest = panel_figures(s, y) + histogram_svg(values, s, colour_of(phase), y + 40)
        + timeline_svg(values, s, colour_of(phase), y + 278);
    lemma_still_shows(Seq::empty(), name, rest, label);
    assert(Seq::<char>::empty() + name + rest =~= panel_svg(phase, values, y));
}

proof fn lemma_panels_show_label(runs: Seq<Run>, y: nat, k: nat, i: int)
    requires
        0 <= i < k <= runs.len(),
    ensures
        shows(panels_svg(runs, y, k), runs[i].0.spec_label()),
    decreases k,
{
    let label = runs[i].0.spec_label();
    let earlier = panels_svg(runs, y, (k - 1) as nat);
    let last = panel_svg(runs[k - 1].0, runs[k - 1].1, (y + 468 * (k - 1)) as nat);
    if i == k - 1 {
        lemma_panel_shows_label(runs[i].0, runs[i].1, (y + 468 * (k - 1)) as nat);
        lemma_still_shows(earlier, last, Seq::empty(), label);
        assert(earlier + last + Seq::<char>::empty() =~= panels_svg(runs, y, k));
    } else {
        lemma_panels_show_label(runs, y, (k - 1) as nat, i);
        lemma_still_shows(Seq::empty(), earlier, last, label);
        assert(Seq::<char>::empty() + earlier + last =~= panels_svg(runs, y, k));
    }
}

proof fn lemma_shown_keeps(runs: Seq<Run>, i: int) -> (k: int)
    requires
        0 <= i < runs.len(),
        runs[i].1.len() > 0,
    ensures
        0 <= k < shown(runs).len(),
        shown(runs)[k] == runs[i],
    decreases runs.len(),
{
    let rest = runs.drop_last();
    if i == runs.len() - 1 {
        shown(rest).len() as int
    } else {
        assert(rest[i] == runs[i]);
        lemma_shown_keeps(rest, i)
    }
}

/// Every phase that has samples is named in the chart.
pub proof fn law_chart_names_every_phase(runs: Seq<Run>, title: Seq<char>, i: int)
    requires
        0 <= i < runs.len(),
        runs[i].1.len() > 0,
    ensures
        shows(chart_svg(runs, title), runs[i].0.spec_label()),
{
    let panels = shown(runs);
    let k = lemma_shown_keeps(runs, i);
    let label = runs[i].0.spec_label();
    let start = header(216 + 468 * panels.len(), title);
    let components = components_of(panels);
    let (before, y) = match measured_total(panels) {
        None => (start, 92nat),
        Some(total) => (
            if component_sum(components) > 0 {
                start + composition_svg(components, total as nat, 92)
            } else {
                start
            },
            188nat,
        ),
    };
    let body = panels_svg(panels, y, panels.len());
    lemma_panels_show_label(panels, y, panels.len(), k);
    lemma_still_shows(before, body, "</svg>\n"@, label);
    assert(chart_svg(runs, title) == before + body + "</svg>\n"@);
}

/// The title stands in the chart with its markup escaped.
pub proof fn law_chart_shows_the_title(runs: Seq<Run>, title: Seq<char>)
    requires
        chart_svg(runs, title).len() > 0,
    ensures
        shows(chart_svg(runs, title), escaped(title)),
{
    reveal(header);
    let panels = shown(runs);
    let height = 216 + 468 * panels.len();
    let start = header(height, title);
    let before = r#"<svg xmlns="http://www.w3.org/2000/svg" width="960" height=""#@
        + decimal(height)
        + r#"" viewBox="0 0 960 "#@ + decimal(height)
        + r#"" font-family="ui-sans-serif, system-ui, sans-serif">
<rect width="960" height=""#@ + decimal(height) + r##"" fill="#ffffff"/>
<text x="88" y="42" font-size="20" font-weight="600" fill="#1a1d23">"##@;
    let after = start.skip((before + escaped(title)).len() as int);
    assert(start =~= before + escaped(title) + after);
    lemma_shows(before, escaped(title), after);
    let chart = chart_svg(runs, title);
    let rest = chart.skip(start.len() as int);
    assert(chart =~= Seq::<char>::empty() + start + rest);
    lemma_still_shows(Seq::empty(), start, rest, escaped(title));
}

/// A box begins where those before it end, is as wide as its component is of the
/// sum and has the colour of its phase.
pub proof fn law_box_spans_its_share(
    phase: Phase,
    before: nat,
    value: nat,
    sum: nat,
    bar_y: nat,
)
    ensures
        shows(
            segment_box(phase, before, value, sum, bar_y),
            r#"<rect x=""#@ + along(88, 844, before, sum, 2) + r#"" y=""#@,
        ),
        shows(
            segment_box(phase, before, value, sum, bar_y),
            r#"" y=""#@ + tenths(bar_y) + r#"" width=""#@,
        ),
        shows(
            segment_box(phase, before, value, sum, bar_y),
            r#"" width=""#@ + along(0, 844, value, sum, 2) + r#"" height="26" fill=""#@,
        ),
        shows(
            segment_box(phase, before, value, sum, bar_y),
            r#"" height="26" fill=""#@ + colour_of(phase) + r#""/>"#@,
        ),
        segment_box(phase, before, value, sum, bar_y).len() == r#"<rect x=""#@.len()
            + along(88, 844, before, sum, 2).len() + r#"" y=""#@.len() + tenths(bar_y).len()
            + r#"" width=""#@.len() + along(0, 844, value, sum, 2).len()
            + r#"" height="26" fill=""#@.len() + colour_of(phase).len() + r#""/>"#@.len(),
{
    reveal(segment_box);
    let text = segment_box(phase, before, value, sum, bar_y);
    let m0 = Seq::<char>::empty();
    let v0 = along(88, 844, before, sum, 2);
    let v1 = tenths(bar_y);
    let v2 = along(0, 844, value, sum, 2);
    let v3 = colour_of(phase);
    let m1 = m0 + r#"<rect x=""#@ + v0;
    let m2 = m1 + r#"" y=""#@ + v1;
    let m3 = m2 + r#"" width=""#@ + v2;
    let m4 = m3 + r#"" height="26" fill=""#@ + v3;
    assert(m0 + r#"<rect x=""#@ =~= r#"<rect x=""#@);
    assert(text == m4 + r#""/>"#@);
    assert(text.subrange(0, text.len() as int) =~= text);
    lemma_named_between(text, m3, r#"" height="26" fill=""#@, v3, r#""/>"#@);
    lemma_named_between(text, m2, r#"" width=""#@, v2, r#"" height="26" fill=""#@);
    lemma_named_between(text, m1, r#"" y=""#@, v1, r#"" width=""#@);
    lemma_named_between(text, m0, r#"<rect x=""#@, v0, r#"" y=""#@);
}

/// The share of a component is written in the middle of its box, in per cent.
pub proof fn law_share_stands_in_its_box(before: nat, value: nat, sum: nat, bar_y: nat)
    ensures
        shows(
            segment_share(before, value, sum, bar_y),
            r#"<text x=""#@ + along(88, 422, before + before + value, sum, 2) + r#"" y=""#@,
        ),
        shows(
            segment_share(before, value, sum, bar_y),
            r#"" y=""#@ + tenths(bar_y + 17)
                + r##"" font-size="11" font-weight="600" fill="#ffffff" text-anchor="middle">"##@,
        ),
        shows(
            segment_share(before, value, sum, bar_y),
            r##"" font-size="11" font-weight="600" fill="#ffffff" text-anchor="middle">"##@
                + along(0, 100, value, sum, 1) + "%</text>"@,
        ),
        segment_share(before, value, sum, bar_y).len() == r#"<text x=""#@.len()
            + along(88, 422, before + before + value, sum, 2).len() + r#"" y=""#@.len()
            + tenths(bar_y + 17).len()
            + r##"" font-size="11" font-weight="600" fill="#ffffff" text-anchor="middle">"##@.len()
            + along(0, 100, value, sum, 1).len() + "%</text>"@.len(),
{
    reveal(segment_share);
    let text = segment_share(before, value, sum, bar_y);
    let m0 = Seq::<char>::empty();
    let v0 = along(88, 422, before + before + value, sum, 2);
    let v1 = tenths(bar_y + 17);
    let v2 = along(0, 100, value, sum, 1);
    let m1 = m0 + r#"<text x=""#@ + v0;
    let m2 = m1 + r#"" y=""#@ + v1;
    let m3 = m2 + r##"" font-size="11" font-weight="600" fill="#ffffff" text-anchor="middle">"##@
        + v2;
    assert(m0 + r#"<text x=""#@ =~= r#"<text x=""#@);
    assert(text == m3 + "%</text>"@);
    assert(text.subrange(0, text.len() as int) =~= text);
    lemma_named_between(
        text,
        m2,
        r##"" font-size="11" font-weight="600" fill="#ffffff" text-anchor="middle">"##@,
        v2,
        "%</text>"@,
    );
    lemma_named_between(
        text,
        m1,
        r#"" y=""#@,
        v1,
        r##"" font-size="11" font-weight="600" fill="#ffffff" text-anchor="middle">"##@,
    );
    lemma_named_between(text, m0, r#"<text x=""#@, v0, r#"" y=""#@);
}

/// The legend of a component has the colour of its phase, its label and the time
/// that it took in all.
pub proof fn law_legend_names_its_component(
    phase: Phase,
    value: nat,
    index: nat,
    count: nat,
    legend_y: nat,
)
    ensures
        shows(
            legend_entry(phase, value, index, count, legend_y),
            r#"<rect x=""#@ + above(88, 844 * index, count, 1) + r#"" y=""#@,
        ),
        shows(
            legend_entry(phase, value, index, count, legend_y),
            r#"" y=""#@ + tenths((legend_y - 9) as nat)
                + r#"" width="10" height="10" rx="2" fill=""#@,
        ),
        shows(
            legend_entry(phase, value, index, count, legend_y),
            r#"" width="10" height="10" rx="2" fill=""#@ + colour_of(phase) + r#""/><text x=""#@,
        ),
        shows(
            legend_entry(phase, value, index, count, legend_y),
            r#""/><text x=""#@ + above(103, 844 * index, count, 1) + r#"" y=""#@,
        ),
        shows(
            legend_entry(phase, value, index, count, legend_y),
            r#"" y=""#@ + tenths(legend_y) + r##"" font-size="11" fill="#4b5563">"##@,
        ),
        shows(
            legend_entry(phase, value, index, count, legend_y),
            r##"" font-size="11" fill="#4b5563">"##@ + escaped(phase.spec_label()) + " &#183; "@,
        ),
        shows(
            legend_entry(phase, value, index, count, legend_y),
            " &#183; "@ + nanos(value) + " total</text>"@,
        ),
        legend_entry(phase, value, index, count, legend_y).len() == r#"<rect x=""#@.len()
            + above(88, 844 * index, count, 1).len() + r#"" y=""#@.len()
            + tenths((legend_y - 9) as nat).len()
            + r#"" width="10" height="10" rx="2" fill=""#@.len() + colour_of(phase).len()
            + r#""/><text x=""#@.len() + above(103, 844 * index, count, 1).len()
            + r#"" y=""#@.len() + tenths(legend_y).len()
            + r##"" font-size="11" fill="#4b5563">"##@.len() + escaped(phase.spec_label()).len()
            + " &#183; "@.len() + nanos(value).len() + " total</text>"@.len(),
{
    reveal(legend_entry);
    let text = legend_entry(phase, value, index, count, legend_y);
    let m0 = Seq::<char>::empty();
    let v0 = above(88, 844 * index, count, 1);
    let v1 = tenths((legend_y - 9) as nat);
    let v2 = colour_of(phase);
    let v3 = above(103, 844 * index, count, 1);
    let v4 = tenths(legend_y);
    let v5 = escaped(phase.spec_label());
    let v6 = nanos(value);
    let m1 = m0 + r#"<rect x=""#@ + v0;
    let m2 = m1 + r#"" y=""#@ + v1;
    let m3 = m2 + r#"" width="10" height="10" rx="2" fill=""#@ + v2;
    let m4 = m3 + r#""/><text x=""#@ + v3;
    let m5 = m4 + r#"" y=""#@ + v4;
    let m6 = m5 + r##"" font-size="11" fill="#4b5563">"##@ + v5;
    let m7 = m6 + " &#183; "@ + v6;
    assert(m0 + r#"<rect x=""#@ =~= r#"<rect x=""#@);
    assert(text == m7 + " total</text>"@);
    assert(text.subrange(0, text.len() as int) =~= text);
    lemma_named_between(text, m6, " &#183; "@, v6, " total</text>"@);
    lemma_named_between(text, m5, r##"" font-size="11" fill="#4b5563">"##@, v5, " &#183; "@);
    lemma_named_between(text, m4, r#"" y=""#@, v4, r##"" font-size="11" fill="#4b5563">"##@);
    lemma_named_between(text, m3, r#""/><text x=""#@, v3, r#"" y=""#@);
    lemma_named_between(
        text,
        m2,
        r#"" width="10" height="10" rx="2" fill=""#@,
        v2,
        r#""/><text x=""#@,
    );
    lemma_named_between(text, m1, r#"" y=""#@, v1, r#"" width="10" height="10" rx="2" fill=""#@);
    lemma_named_between(text, m0, r#"<rect x=""#@, v0, r#"" y=""#@);
}

/// The note gives the part of the total that no component accounts for, in per
/// cent.
pub proof fn law_note_gives_what_is_missing(missing: nat, total: nat, bar_y: nat)
    ensures
        shows(
            unattributed_note(missing, total, bar_y),
            r#"<text x="932.0" y=""#@ + tenths((bar_y - 6) as nat)
                + r##"" font-size="11" fill="#9ca3af" text-anchor="end">"##@,
        ),
        shows(
            unattributed_note(missing, total, bar_y),
            r##"" font-size="11" fill="#9ca3af" text-anchor="end">"##@
                + along(0, 100, missing, total, 1) + "% unattributed (loop overhead)</text>"@,
        ),
        unattributed_note(missing, total, bar_y).len() == r#"<text x="932.0" y=""#@.len()
            + tenths((bar_y - 6) as nat).len()
            + r##"" font-size="11" fill="#9ca3af" text-anchor="end">"##@.len()
            + along(0, 100, missing, total, 1).len()
            + "% unattributed (loop overhead)</text>"@.len(),
{
    reveal(unattributed_note);
    let text = unattributed_note(missing, total, bar_y);
    let m0 = Seq::<char>::empty();
    let v0 = tenths((bar_y - 6) as nat);
    let v1 = along(0, 100, missing, total, 1);
    let m1 = m0 + r#"<text x="932.0" y=""#@ + v0;
    let m2 = m1 + r##"" font-size="11" fill="#9ca3af" text-anchor="end">"##@ + v1;
    assert(m0 + r#"<text x="932.0" y=""#@ =~= r#"<text x="932.0" y=""#@);
    assert(text == m2 + "% unattributed (loop overhead)</text>"@);
    assert(text.subrange(0, text.len() as int) =~= text);
    lemma_named_between(
        text,
        m1,
        r##"" font-size="11" fill="#9ca3af" text-anchor="end">"##@,
        v1,
        "% unattributed (loop overhead)</text>"@,
    );
    lemma_named_between(
        text,
        m0,
        r#"<text x="932.0" y=""#@,
        v0,
        r##"" font-size="11" fill="#9ca3af" text-anchor="end">"##@,
    );
}

/// A panel gives how many samples it is of, their median, p99 and the largest,
/// each behind its name.
pub proof fn law_panel_gives_its_figures(s: Summary, y: nat)
    ensures
        shows(
            panel_figures(s, y),
            r#"<text x="932.0" y=""#@ + tenths(y + 26)
                + r##"" font-size="11" fill="#6b7280" text-anchor="end">n="##@,
        ),
        shows(
            panel_figures(s, y),
            r##"" font-size="11" fill="#6b7280" text-anchor="end">n="##@ + decimal(s.n as nat)
                + " &#183; p50 "@,
        ),
        shows(panel_figures(s, y), " &#183; p50 "@ + nanos(s.p50 as nat) + " &#183; p99 "@),
        shows(panel_figures(s, y), " &#183; p99 "@ + nanos(s.p99 as nat) + " &#183; max "@),
        shows(panel_figures(s, y), " &#183; max "@ + nanos(s.max as nat) + "</text>"@),
        panel_figures(s, y).len() == r#"<text x="932.0" y=""#@.len() + tenths(y + 26).len()
            + r##"" font-size="11" fill="#6b7280" text-anchor="end">n="##@.len()
            + decimal(s.n as nat).len() + " &#183; p50 "@.len() + nanos(s.p50 as nat).len()
            + " &#183; p99 "@.len() + nanos(s.p99 as nat).len() + " &#183; max "@.len()
            + nanos(s.max as nat).len() + "</text>"@.len(),
{
    reveal(panel_figures);
    let text = panel_figures(s, y);
    let m0 = Seq::<char>::empty();
    let v0 = tenths(y + 26);
    let v1 = decimal(s.n as nat);
    let v2 = nanos(s.p50 as nat);
    let v3 = nanos(s.p99 as nat);
    let v4 = nanos(s.max as nat);
    let m1 = m0 + r#"<text x="932.0" y=""#@ + v0;
    let m2 = m1 + r##"" font-size="11" fill="#6b7280" text-anchor="end">n="##@ + v1;
    let m3 = m2 + " &#183; p50 "@ + v2;
    let m4 = m3 + " &#183; p99 "@ + v3;
    let m5 = m4 + " &#183; max "@ + v4;
    assert(m0 + r#"<text x="932.0" y=""#@ =~= r#"<text x="932.0" y=""#@);
    assert(text == m5 + "</text>"@);
    assert(text.subrange(0, text.len() as int) =~= text);
    lemma_named_between(text, m4, " &#183; max "@, v4, "</text>"@);
    lemma_named_between(text, m3, " &#183; p99 "@, v3, " &#183; max "@);
    lemma_named_between(text, m2, " &#183; p50 "@, v2, " &#183; p99 "@);
    lemma_named_between(
        text,
        m1,
        r##"" font-size="11" fill="#6b7280" text-anchor="end">n="##@,
        v1,
        " &#183; p50 "@,
    );
    lemma_named_between(
        text,
        m0,
        r#"<text x="932.0" y=""#@,
        v0,
        r##"" font-size="11" fill="#6b7280" text-anchor="end">n="##@,
    );
}


/// The runs with samples are the runs, those without samples left out: in the
/// same order, each once.
pub proof fn law_shown_runs_have_samples(a: Seq<Run>, b: Seq<Run>, r: Run)
    ensures
        shown(a + b) == shown(a) + shown(b),
        r.1.len() > 0 ==> shown(seq![r]) == seq![r],
        r.1.len() == 0 ==> shown(seq![r]).len() == 0,
    decreases b.len(),
{
    assert(seq![r].drop_last() =~= Seq::empty());
    assert(seq![r].last() == r);
    assert(shown(seq![r].drop_last()) =~= Seq::empty());
    if b.len() == 0 {
        assert(a + b =~= a);
        assert(shown(a) + shown(b) =~= shown(a));
    } else {
        assert((a + b).drop_last() =~= a + b.drop_last());
        assert((a + b).last() == b.last());
        law_shown_runs_have_samples(a, b.drop_last(), r);
        assert(shown(a + b) =~= shown(a) + shown(b));
    }
}

/// The components are the runs of the other phases with what each took in all:
/// in the same order, each once.
pub proof fn law_components_are_the_other_phases(a: Seq<Run>, b: Seq<Run>, r: Run)
    ensures
        components_of(a + b) == components_of(a) + components_of(b),
        r.0 != Phase::Total ==> components_of(seq![r]) == seq![(r.0, summary_of(r.1).total)],
        r.0 == Phase::Total ==> components_of(seq![r]).len() == 0,
    decreases b.len(),
{
    assert(seq![r].drop_last() =~= Seq::empty());
    assert(seq![r].last() == r);
    assert(components_of(seq![r].drop_last()) =~= Seq::empty());
    assert(r.0 != Phase::Total ==> components_of(seq![r]) =~= seq![(r.0, summary_of(r.1).total)]);
    if b.len() == 0 {
        assert(a + b =~= a);
        assert(components_of(a) + components_of(b) =~= components_of(a));
    } else {
        assert((a + b).drop_last() =~= a + b.drop_last());
        assert((a + b).last() == b.last());
        law_components_are_the_other_phases(a, b.drop_last(), r);
        assert(components_of(a + b) =~= components_of(a) + components_of(b));
    }
}

/// The total is that of the first run of all steps together; without one there
/// is none.
pub proof fn law_total_is_that_of_the_first(runs: Seq<Run>, k: int)
    requires
        0 <= k <= runs.len(),
        forall|j: int| 0 <= j < k ==> (#[trigger] runs[j]).0 != Phase::Total,
    ensures
        k == runs.len() ==> measured_total(runs) is None,
        k < runs.len() && runs[k].0 == Phase::Total ==> measured_total(runs) == Some(
            summary_of(runs[k].1).total,
        ),
    decreases runs.len(),
{
    if k > 0 {
        assert(runs[0].0 != Phase::Total);
        let rest = runs.drop_first();
        assert forall|j: int| 0 <= j < k - 1 implies (#[trigger] rest[j]).0 != Phase::Total by {
            assert(runs[j + 1].0 != Phase::Total);
        }
        law_total_is_that_of_the_first(rest, k - 1);
    }
}

/// The components add up.
pub proof fn law_components_add_up(components: Seq<(Phase, u128)>, c: (Phase, u128))
    ensures
        component_sum(Seq::empty()) == 0,
        component_sum(components.push(c)) == component_sum(components) + c.1,
{
    assert(components.push(c).drop_last() =~= components);
}

/// A position along the bar is printed to the nearest of its decimals.
pub proof fn law_along_is_nearest(base: nat, scale: nat, part: nat, whole: nat, places: nat)
    requires
        whole > 0,
    ensures
        ({
            let exact = (base * whole + scale * part) * power(10, places);
            exists|u: nat|
                along(base, scale, part, whole, places) == #[trigger] fixed(u, places) && 2 * (u
                    * whole) <= 2 * exact + whole && 2 * exact <= 2 * (u * whole) + whole
        }),
{
    law_fraction_is_nearest(base * whole + scale * part, whole, places);
}

/// Every component has its box behind those before it, and its share is written
/// into it exactly where the box is wider than 62.
pub proof fn law_every_component_has_a_box(
    components: Seq<(Phase, u128)>,
    bar_y: nat,
    k: nat,
    i: int,
)
    requires
        0 <= i < k <= components.len(),
    ensures
        ({
            let sum = component_sum(components);
            let before = component_sum(components.take(i));
            let value = components[i].1 as nat;
            let svg = segments(components, bar_y, k);
            let boxed = segment_box(components[i].0, before, value, sum, bar_y);
            let share = segment_share(before, value, sum, bar_y);
            &&& shows(svg, boxed)
            &&& 844 * value > 62 * sum ==> shows(svg, boxed + share)
            &&& i == k - 1 ==> svg.len() == segments(components, bar_y, i as nat).len()
                + boxed.len() + (if 844 * value > 62 * sum {
                share.len()
            } else {
                0
            })
        }),
{
    let k1 = (k - 1) as nat;
    let earlier = segments(components, bar_y, k1);
    let rest = segment_at(components, bar_y, k - 1);
    assert(segments(components, bar_y, k) == earlier + rest) by {
        lemma_segments_grow(components, bar_y, k);
    }
    lemma_segment(components, bar_y, i);
    let wanted = segment_at(components, bar_y, i);
    lemma_segments_show(components, bar_y, k, i);
    let sum = component_sum(components);
    let before = component_sum(components.take(i));
    let value = components[i].1 as nat;
    let boxed = segment_box(components[i].0, before, value, sum, bar_y);
    lemma_shown_within(segments(components, bar_y, k), wanted, boxed);
}

/// What the bar has for component `i`.
spec fn segment_at(components: Seq<(Phase, u128)>, bar_y: nat, i: int) -> Seq<char> {
    let sum = component_sum(components);
    let before = component_sum(components.take(i));
    let value = components[i].1 as nat;
    let boxed = segment_box(components[i].0, before, value, sum, bar_y);
    if value * 844 > sum * 62 {
        boxed + segment_share(before, value, sum, bar_y)
    } else {
        boxed
    }
}

proof fn lemma_segments_grow(components: Seq<(Phase, u128)>, bar_y: nat, k: nat)
    requires
        0 < k <= components.len(),
    ensures
        segments(components, bar_y, k) == segments(components, bar_y, (k - 1) as nat) + segment_at(
            components,
            bar_y,
            k - 1,
        ),
{
    let earlier = segments(components, bar_y, (k - 1) as nat);
    let sum = component_sum(components);
    let before = component_sum(components.take(k - 1));
    let value = components[k - 1].1 as nat;
    let boxed = segment_box(components[k - 1].0, before, value, sum, bar_y);
    let share = segment_share(before, value, sum, bar_y);
    assert(earlier + boxed + share =~= earlier + (boxed + share));
}

proof fn lemma_segment(components: Seq<(Phase, u128)>, bar_y: nat, i: int)
    requires
        0 <= i < components.len(),
    ensures
        shows(
            segment_at(components, bar_y, i),
            segment_box(
                components[i].0,
                component_sum(components.take(i)),
                components[i].1 as nat,
                component_sum(components),
                bar_y,
            ),
        ),
{
    let sum = component_sum(components);
    let before = component_sum(components.take(i));
    let value = components[i].1 as nat;
    let boxed = segment_box(components[i].0, before, value, sum, bar_y);
    let whole = segment_at(components, bar_y, i);
    let rest = whole.skip(boxed.len() as int);
    assert(whole =~= Seq::<char>::empty() + boxed + rest);
    lemma_shows(Seq::empty(), boxed, rest);
}

proof fn lemma_segments_show(components: Seq<(Phase, u128)>, bar_y: nat, k: nat, i: int)
    requires
        0 <= i < k <= components.len(),
    ensures
        shows(segments(components, bar_y, k), segment_at(components, bar_y, i)),
    decreases k,
{
    let k1 = (k - 1) as nat;
    let earlier = segments(components, bar_y, k1);
    let last = segment_at(components, bar_y, k - 1);
    let wanted = segment_at(components, bar_y, i);
    lemma_segments_grow(components, bar_y, k);
    if i == k - 1 {
        lemma_shows(earlier, last, Seq::empty());
        assert(earlier + last + Seq::<char>::empty() =~= earlier + last);
    } else {
        lemma_segments_show(components, bar_y, k1, i);
        lemma_still_shows(Seq::empty(), earlier, last, wanted);
        assert(Seq::<char>::empty() + earlier + last =~= earlier + last);
    }
}

/// What stands in a part stands in the whole.
proof fn lemma_shown_within(whole: Seq<char>, middle: Seq<char>, part: Seq<char>)
    requires
        shows(whole, middle),
        shows(middle, part),
    ensures
        shows(whole, part),
{
    let i = choose|i: int| stands_at(whole, middle, i);
    let before = whole.take(i);
    let after = whole.skip(i + middle.len());
    assert(whole =~= before + middle + after);
    lemma_still_shows(before, middle, after, part);
}

/// Every component has its legend, and nothing else has.
pub proof fn law_every_component_has_a_legend(
    components: Seq<(Phase, u128)>,
    legend_y: nat,
    k: nat,
    i: nat,
)
    requires
        i < k <= components.len(),
    ensures
        shows(
            legend(components, legend_y, k),
            legend_entry(
                components[i as int].0,
                components[i as int].1 as nat,
                i,
                components.len(),
                legend_y,
            ),
        ),
        i == k - 1 ==> legend(components, legend_y, k).len() == legend(
            components,
            legend_y,
            i,
        ).len() + legend_entry(
            components[i as int].0,
            components[i as int].1 as nat,
            i,
            components.len(),
            legend_y,
        ).len(),
        legend(components, legend_y, 0).len() == 0,
    decreases k,
{
    let k1 = (k - 1) as nat;
    let n = components.len();
    let (phase, value) = components[i as int];
    let wanted = legend_entry(phase, value as nat, i, n, legend_y);
    let earlier = legend(components, legend_y, k1);
    let (p, v) = components[k - 1];
    let last = legend_entry(p, v as nat, k1, n, legend_y);
    let svg = legend(components, legend_y, k);
    assert(svg == earlier + last);
    if i == k1 {
        lemma_shows(earlier, last, Seq::empty());
        assert(svg =~= earlier + last + Seq::<char>::empty());
    } else {
        law_every_component_has_a_legend(components, legend_y, k1, i);
        lemma_still_shows(Seq::empty(), earlier, last, wanted);
        assert(svg =~= Seq::<char>::empty() + earlier + last);
    }
}

/// The stacked bar holds all boxes and all legends, and the note exactly where
/// more than a hundredth of the total is left.
pub proof fn law_bar_holds_all_components(components: Seq<(Phase, u128)>, total: nat, y: nat)
    ensures
        ({
            let svg = composition_svg(components, total, y);
            let sum = component_sum(components);
            let n = components.len();
            let title = composition_title(y);
            let boxes = segments(components, y + 24, n);
            let entries = legend(components, y + 68, n);
            let note = unattributed_note((total - sum) as nat, total, y + 24);
            &&& stands_at(svg, title, 0)
            &&& stands_at(svg, boxes, title.len() as int)
            &&& stands_at(svg, entries, title.len() + boxes.len() as int)
            &&& 100 * (total - sum) > total ==> note.is_suffix_of(svg) && svg.len() == title.len()
                + boxes.len() + entries.len() + note.len()
            &&& 100 * (total - sum) <= total ==> svg.len() == title.len() + boxes.len()
                + entries.len()
        }),
{
    let svg = composition_svg(components, total, y);
    let sum = component_sum(components);
    let n = components.len();
    let title = composition_title(y);
    let boxes = segments(components, y + 24, n);
    let entries = legend(components, y + 68, n);
    let note = if (total - sum) * 100 > total {
        unattributed_note((total - sum) as nat, total, y + 24)
    } else {
        Seq::empty()
    };
    assert(title + boxes + entries + Seq::<char>::empty() =~= title + boxes + entries);
    assert(svg == title + boxes + entries + note);
    assert(note =~= svg.subrange(svg.len() - note.len(), svg.len() as int));
    assert(svg.subrange(0, svg.len() as int) =~= svg);
    lemma_shown_in_front(svg, title + boxes + entries, note);
    lemma_shown_in_front(svg, title + boxes, entries);
    lemma_shown_in_front(svg, title, boxes);
    assert(svg.subrange(0, title.len() as int) == title);
}

/// A panel is made of its name, its figures, the histogram and the timeline, all
/// of the same samples.
pub proof fn law_panel_holds_both_plots(phase: Phase, values: Seq<u64>, y: nat)
    ensures
        ({
            let svg = panel_svg(phase, values, y);
            let s = summary_of(values);
            let name = panel_name(phase, y);
            let figures = panel_figures(s, y);
            let plot = histogram_svg(values, s, colour_of(phase), y + 40);
            let line = timeline_svg(values, s, colour_of(phase), y + 278);
            &&& stands_at(svg, name, 0)
            &&& stands_at(svg, figures, name.len() as int)
            &&& stands_at(svg, plot, name.len() + figures.len() as int)
            &&& stands_at(svg, line, name.len() + figures.len() + plot.len() as int)
            &&& svg.len() == name.len() + figures.len() + plot.len() + line.len()
        }),
{
    let svg = panel_svg(phase, values, y);
    let s = summary_of(values);
    let name = panel_name(phase, y);
    let figures = panel_figures(s, y);
    let plot = histogram_svg(values, s, colour_of(phase), y + 40);
    let line = timeline_svg(values, s, colour_of(phase), y + 278);
    assert(svg == name + figures + plot + line);
    assert(svg.subrange(0, svg.len() as int) =~= svg);
    lemma_shown_in_front(svg, name + figures + plot, line);
    lemma_shown_in_front(svg, name + figures, plot);
    lemma_shown_in_front(svg, name, figures);
    assert(svg.subrange(0, name.len() as int) == name);
}

/// Every run has its panel and nothing else has, one below the other at a fixed
/// pitch.
pub proof fn law_every_run_has_a_panel(runs: Seq<Run>, y: nat, k: nat, i: nat)
    requires
        i < k <= runs.len(),
    ensures
        shows(
            panels_svg(runs, y, k),
            panel_svg(runs[i as int].0, runs[i as int].1, y + 468 * i),
        ),
        i == k - 1 ==> panels_svg(runs, y, k).len() == panels_svg(runs, y, i).len() + panel_svg(
            runs[i as int].0,
            runs[i as int].1,
            y + 468 * i,
        ).len(),
        panels_svg(runs, y, 0).len() == 0,
    decreases k,
{
    let k1 = (k - 1) as nat;
    let wanted = panel_svg(runs[i as int].0, runs[i as int].1, y + 468 * i);
    let earlier = panels_svg(runs, y, k1);
    let last = panel_svg(runs[k - 1].0, runs[k - 1].1, y + 468 * k1);
    let svg = panels_svg(runs, y, k);
    assert(svg == earlier + last);
    if i == k1 {
        lemma_shows(earlier, last, Seq::empty());
        assert(svg =~= earlier + last + Seq::<char>::empty());
    } else {
        law_every_run_has_a_panel(runs, y, k1, i);
        lemma_still_shows(Seq::empty(), earlier, last, wanted);
        assert(svg =~= Seq::<char>::empty() + earlier + last);
    }
}

/// A chart has the panels of all runs with samples and, where there is a total
/// and the components took any time, the stacked bar above them; without a
/// total the panels move up.
pub proof fn law_chart_holds_all_panels(runs: Seq<Run>, title: Seq<char>)
    requires
        shown(runs).len() > 0,
    ensures
        ({
            let svg = chart_svg(runs, title);
            let panels = shown(runs);
            let n = panels.len();
            let components = components_of(panels);
            let start = header(216 + 468 * n, title);
            &&& stands_at(svg, start, 0)
            &&& measured_total(panels) is None ==> stands_at(
                svg,
                panels_svg(panels, 92, n),
                start.len() as int,
            ) && svg.len() == start.len() + panels_svg(panels, 92, n).len() + 7
            &&& measured_total(panels) matches Some(total) ==> ({
                let bar = composition_svg(components, total as nat, 92);
                let body = panels_svg(panels, 188, n);
                &&& component_sum(components) > 0 ==> stands_at(svg, bar, start.len() as int)
                    && stands_at(svg, body, start.len() + bar.len() as int) && svg.len()
                    == start.len() + bar.len() + body.len() + 7
                &&& component_sum(components) == 0 ==> stands_at(svg, body, start.len() as int)
                    && svg.len() == start.len() + body.len() + 7
            })
        }),
{
    let svg = chart_svg(runs, title);
    let panels = shown(runs);
    let n = panels.len();
    let components = components_of(panels);
    let start = header(216 + 468 * n, title);
    reveal_strlit("</svg>\n");
    let (bar, body) = match measured_total(panels) {
        None => (Seq::empty(), panels_svg(panels, 92, n)),
        Some(total) => (
            if component_sum(components) > 0 {
                composition_svg(components, total as nat, 92)
            } else {
                Seq::empty()
            },
            panels_svg(panels, 188, n),
        ),
    };
    assert(start + Seq::<char>::empty() =~= start);
    assert(svg == start + bar + body + "</svg>\n"@);
    assert(svg.subrange(0, svg.len() as int) =~= svg);
    lemma_shown_in_front(svg, start + bar + body, "</svg>\n"@);
    lemma_shown_in_front(svg, start + bar, body);
    lemma_shown_in_front(svg, start, bar);
    assert(svg.subrange(0, start.len() as int) == start);
}

/// What the phases hold is each phase with its samples, in their order.
pub proof fn law_runs_are_the_phases(phases: Seq<(Phase, Samples)>, p: int)
    requires
        0 <= p < phases.len(),
    ensures
        runs_of(phases).len() == phases.len(),
        runs_of(phases)[p].0 == phases[p].0,
        runs_of(phases)[p].1 == phases[p].1@,
{
}

/// The title of the stacked bar stands above it.
pub proof fn law_bar_title_stands_above(y: nat)
    ensures
        shows(
            composition_title(y),
            r#"<text x="88" y=""#@ + tenths(y + 12)
                + r##"" font-size="13" font-weight="600" fill="#1a1d23">Where the time goes</text>"##@,
        ),
        composition_title(y).len() == r#"<text x="88" y=""#@.len() + tenths(y + 12).len()
            + r##"" font-size="13" font-weight="600" fill="#1a1d23">Where the time goes</text>"##@.len(),
{
    reveal(composition_title);
    let text = composition_title(y);
    let m0 = Seq::<char>::empty();
    let v0 = tenths(y + 12);
    let m1 = m0 + r#"<text x="88" y=""#@ + v0;
    assert(m0 + r#"<text x="88" y=""#@ =~= r#"<text x="88" y=""#@);
    assert(
        text == m1
            + r##"" font-size="13" font-weight="600" fill="#1a1d23">Where the time goes</text>"##@
    );
    assert(text.subrange(0, text.len() as int) =~= text);
    lemma_named_between(
        text,
        m0,
        r#"<text x="88" y=""#@,
        v0,
        r##"" font-size="13" font-weight="600" fill="#1a1d23">Where the time goes</text>"##@,
    );
}

/// A panel is named with the label of its phase.
pub proof fn law_panel_is_named(phase: Phase, y: nat)
    ensures
        shows(
            panel_name(phase, y),
            r#"<text x="88" y=""#@ + tenths(y + 26)
                + r##"" font-size="14" font-weight="600" fill="#1a1d23">"##@,
        ),
        shows(
            panel_name(phase, y),
            r##"" font-size="14" font-weight="600" fill="#1a1d23">"##@
                + escaped(phase.spec_label()) + "</text>"@,
        ),
        panel_name(phase, y).len() == r#"<text x="88" y=""#@.len() + tenths(y + 26).len()
            + r##"" font-size="14" font-weight="600" fill="#1a1d23">"##@.len()
            + escaped(phase.spec_label()).len() + "</text>"@.len(),
{
    reveal(panel_name);
    let text = panel_name(phase, y);
    let m0 = Seq::<char>::empty();
    let v0 = tenths(y + 26);
    let v1 = escaped(phase.spec_label());
    let m1 = m0 + r#"<text x="88" y=""#@ + v0;
    let m2 = m1 + r##"" font-size="14" font-weight="600" fill="#1a1d23">"##@ + v1;
    assert(m0 + r#"<text x="88" y=""#@ =~= r#"<text x="88" y=""#@);
    assert(text == m2 + "</text>"@);
    assert(text.subrange(0, text.len() as int) =~= text);
    lemma_named_between(
        text,
        m1,
        r##"" font-size="14" font-weight="600" fill="#1a1d23">"##@,
        v1,
        "</text>"@,
    );
    lemma_named_between(
        text,
        m0,
        r#"<text x="88" y=""#@,
        v0,
        r##"" font-size="14" font-weight="600" fill="#1a1d23">"##@,
    );
}

/// The document, its view and its background have the height of the chart, and
/// the title stands on top.
pub proof fn law_document_has_its_height(height: nat, title: Seq<char>)
    ensures
        shows(
            header(height, title),
            r#"<svg xmlns="http://www.w3.org/2000/svg" width="960" height=""#@ + decimal(height)
                + r#"" viewBox="0 0 960 "#@,
        ),
        shows(header(height, title), r#"" viewBox="0 0 960 "#@ + decimal(height) + r#"" font-family="ui-sans-serif, system-ui, sans-serif">
<rect width="960" height=""#@),
        shows(header(height, title), r#"" font-family="ui-sans-serif, system-ui, sans-serif">
<rect width="960" height=""#@ + decimal(height) + r##"" fill="#ffffff"/>
<text x="88" y="42" font-size="20" font-weight="600" fill="#1a1d23">"##@),
        shows(header(height, title), r##"" fill="#ffffff"/>
<text x="88" y="42" font-size="20" font-weight="600" fill="#1a1d23">"##@ + escaped(title) + r##"</text>
<text x="88" y="64" font-size="12" fill="#6b7280">Per-step signing latency &#183; sequential &#183; every sample retained</text>
"##@),
        header(height, title).len() == r#"<svg xmlns="http://www.w3.org/2000/svg" width="960" height=""#@.len() + decimal(height).len() + r#"" viewBox="0 0 960 "#@.len() + decimal(height).len() + r#"" font-family="ui-sans-serif, system-ui, sans-serif">
<rect width="960" height=""#@.len() + decimal(height).len() + r##"" fill="#ffffff"/>
<text x="88" y="42" font-size="20" font-weight="600" fill="#1a1d23">"##@.len() + escaped(title).len() + r##"</text>
<text x="88" y="64" font-size="12" fill="#6b7280">Per-step signing latency &#183; sequential &#183; every sample retained</text>
"##@.len(),
{
    reveal(header);
    let text = header(height, title);
    let m0 = Seq::<char>::empty();
    let v0 = decimal(height);
    let v1 = decimal(height);
    let v2 = decimal(height);
    let v3 = escaped(title);
    let m1 = m0 + r#"<svg xmlns="http://www.w3.org/2000/svg" width="960" height=""#@ + v0;
    let m2 = m1 + r#"" viewBox="0 0 960 "#@ + v1;
    let m3 = m2 + r#"" font-family="ui-sans-serif, system-ui, sans-serif">
<rect width="960" height=""#@ + v2;
    let m4 = m3 + r##"" fill="#ffffff"/>
<text x="88" y="42" font-size="20" font-weight="600" fill="#1a1d23">"##@ + v3;
    assert(
        m0
            + r#"<svg xmlns="http://www.w3.org/2000/svg" width="960" height=""#@ =~= r#"<svg xmlns="http://www.w3.org/2000/svg" width="960" height=""#@
    );
    assert(text == m4 + r##"</text>
<text x="88" y="64" font-size="12" fill="#6b7280">Per-step signing latency &#183; sequential &#183; every sample retained</text>
"##@);
    assert(text.subrange(0, text.len() as int) =~= text);
    lemma_named_between(text, m3, r##"" fill="#ffffff"/>
<text x="88" y="42" font-size="20" font-weight="600" fill="#1a1d23">"##@, v3, r##"</text>
<text x="88" y="64" font-size="12" fill="#6b7280">Per-step signing latency &#183; sequential &#183; every sample retained</text>
"##@);
    lemma_named_between(text, m2, r#"" font-family="ui-sans-serif, system-ui, sans-serif">
<rect width="960" height=""#@, v2, r##"" fill="#ffffff"/>
<text x="88" y="42" font-size="20" font-weight="600" fill="#1a1d23">"##@);
    lemma_named_between(text, m1, r#"" viewBox="0 0 960 "#@, v1, r#"" font-family="ui-sans-serif, system-ui, sans-serif">
<rect width="960" height=""#@);
    lemma_named_between(
        text,
        m0,
        r#"<svg xmlns="http://www.w3.org/2000/svg" width="960" height=""#@,
        v0,
        r#"" viewBox="0 0 960 "#@,
    );
}

} // verus!
