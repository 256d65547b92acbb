//! Splitting the work does not change the map: with the overlay policy the
//! merged strip maps equal the map of one strip over the whole region.

use vstd::prelude::*;
use crate::engine::{dims_ok, region_height, region_width, scans_of, search_result};
use crate::image::Image;
use crate::merge::{MergePolicy, PartialMap, merge_one, merged, merged_upto, part_with_index};
use crate::metric::{Denominator, compared_pixels, lemma_exact_match, window_equals};
use crate::partition::{StripDescriptor, lemma_partition_coverage, partition_spec, window_owned};
use crate::worker::strip_value;

verus! {

/// The value of the one-strip map of the whole region at column `c`, row `r`.
pub open spec fn region_value(src: Image, tpl: Image, margin: nat, d: Denominator, c: int, r: int) -> u8 {
    strip_value(
        tpl,
        src,
        margin as int,
        region_width(src, margin),
        0,
        region_height(src, margin),
        d,
        c,
        r,
    )
}

/// Strip `s` scores the window centred at `(c, r)`.
pub open spec fn contributes(tpl: Image, rw: int, s: StripDescriptor, c: int, r: int) -> bool {
    let x = c - tpl.width / 2;
    let y = r - s.start - tpl.height / 2;
    0 <= x && x + tpl.width <= rw && 0 <= y && y + tpl.height <= s.height
}

/// One of the first `k` strips scores the window centred at `(c, r)`.
pub open spec fn any_contributes(tpl: Image, rw: int, strips: Seq<StripDescriptor>, k: nat, c: int, r: int) -> bool
    decreases k,
{
    if k == 0 {
        false
    } else {
        any_contributes(tpl, rw, strips, (k - 1) as nat, c, r) || contributes(tpl, rw, strips[k - 1], c, r)
    }
}

proof fn lemma_any_contributes(tpl: Image, rw: int, strips: Seq<StripDescriptor>, k: nat, i: int, c: int, r: int)
    requires
        0 <= i < k,
        contributes(tpl, rw, strips[i], c, r),
    ensures
        any_contributes(tpl, rw, strips, k, c, r),
    decreases k,
{
    if i < k - 1 {
        lemma_any_contributes(tpl, rw, strips, (k - 1) as nat, i, c, r);
    }
}

/// Pixel `(c, r)` after the first `k` strips are laid by overlay: the region
/// value where one of them scored the window centred there, zero elsewhere.
proof fn lemma_overlay_prefix(
    src: Image,
    tpl: Image,
    margin: nat,
    d: Denominator,
    strips: Seq<StripDescriptor>,
    parts: Seq<PartialMap>,
    k: nat,
    c: int,
    r: int,
)
    requires
        dims_ok(src, tpl, margin),
        scans_of(src, tpl, margin, d, strips, parts),
        forall|i: int| 0 <= i < strips.len() ==> #[trigger] strips[i].start + strips[i].height
            <= region_height(src, margin),
        k <= parts.len(),
        0 <= c < region_width(src, margin),
        0 <= r < region_height(src, margin),
    ensures
        ({
            let rw = region_width(src, margin);
            let rh = region_height(src, margin);
            let out = merged_upto(
                Seq::new((rw * rh) as nat, |i: int| 0u8),
                rw,
                parts,
                MergePolicy::Overlay,
                k,
            );
            &&& out.len() == rw * rh
            &&& out[r * rw + c] == if any_contributes(tpl, rw, strips, k, c, r) {
                region_value(src, tpl, margin, d, c, r)
            } else {
                0u8
            }
        }),
    decreases k,
{
    let rw = region_width(src, margin);
    let rh = region_height(src, margin);
    crate::arith::lemma_cell_in_grid(r, c, rw, rh);
    if k > 0 {
        let i = k - 1;
        lemma_overlay_prefix(src, tpl, margin, d, strips, parts, (k - 1) as nat, c, r);
        let prev = merged_upto(
            Seq::new((rw * rh) as nat, |i: int| 0u8),
            rw,
            parts,
            MergePolicy::Overlay,
            (k - 1) as nat,
        );
        assert(part_with_index(parts, i) == parts[i]) by {
            assert(parts[i].index == i);
            let j = choose|j: int| 0 <= j < parts.len() && #[trigger] parts[j].index == i;
            assert(parts[j].index == j);
        }
        let p = parts[i];
        let s = strips[i];
        let q = r * rw + c;
        let lo = p.start * rw;
        assert(p.map.data@.len() == s.height * rw) by (nonlinear_arith)
            requires p.map.data@.len() == p.map.width * p.map.height, p.map.width == rw,
                p.map.height == s.height;
        if s.start <= r < s.start + s.height {
            let rr = r - s.start;
            assert(q - lo == rr * rw + c && lo <= q) by (nonlinear_arith)
                requires q == r * rw + c, lo == s.start * rw, rr == r - s.start, rr >= 0, rw >= 0,
                    c >= 0;
            crate::arith::lemma_cell_in_grid(rr, c, rw, s.height as int);
            assert(p.map.at(c, rr) == strip_value(tpl, src, margin as int, rw, s.start as int, s.height as int, d, c, rr));
        } else if r < s.start {
            assert((r + 1) * rw <= s.start * rw) by (nonlinear_arith)
                requires r + 1 <= s.start, rw >= 0;
            assert(q < lo) by (nonlinear_arith)
                requires q == r * rw + c, lo == s.start * rw, (r + 1) * rw <= s.start * rw, c < rw;
        } else {
            assert(q >= lo + s.height * rw) by (nonlinear_arith)
                requires q == r * rw + c, lo == s.start * rw, r >= s.start + s.height, c >= 0, rw >= 0;
            assert(!contributes(tpl, rw, s, c, r));
        }
    }
}

/// With the overlay policy the merged scans of the strips of the region equal,
/// pixel for pixel, the map of one strip over the whole region.
pub proof fn lemma_overlay_matches_single_scan(
    src: Image,
    tpl: Image,
    margin: nat,
    workers: nat,
    d: Denominator,
    parts: Seq<PartialMap>,
)
    requires
        dims_ok(src, tpl, margin),
        src.width <= usize::MAX,
        src.height <= usize::MAX,
        scans_of(
            src,
            tpl,
            margin,
            d,
            partition_spec(region_height(src, margin) as nat, tpl.height as nat, workers),
            parts,
        ),
    ensures
        ({
            let rw = region_width(src, margin);
            let rh = region_height(src, margin);
            let out = merged(rw, rh, parts, MergePolicy::Overlay);
            &&& out.len() == rw * rh
            &&& forall|c: int, r: int|
                0 <= c < rw && 0 <= r < rh ==> #[trigger] out[r * rw + c] == region_value(
                    src,
                    tpl,
                    margin,
                    d,
                    c,
                    r,
                )
        }),
{
    let rw = region_width(src, margin);
    let rh = region_height(src, margin);
    let strips = partition_spec(rh as nat, tpl.height as nat, workers);
    lemma_partition_coverage(rh as nat, tpl.height as nat, workers);
    assert(merged(rw, rh, parts, MergePolicy::Overlay).len() == rw * rh) by {
        lemma_overlay_prefix(src, tpl, margin, d, strips, parts, parts.len(), 0, 0);
    }
    assert forall|c: int, r: int| 0 <= c < rw && 0 <= r < rh implies #[trigger] merged(
        rw,
        rh,
        parts,
        MergePolicy::Overlay,
    )[r * rw + c] == region_value(src, tpl, margin, d, c, r) by {
        lemma_overlay_prefix(src, tpl, margin, d, strips, parts, parts.len(), c, r);
        let x = c - tpl.width / 2;
        let y = r - tpl.height / 2;
        if 0 <= x && x + tpl.width <= rw && 0 <= y && y + tpl.height <= rh {
            assert(window_owned(strips, y, tpl.height as int));
            let i = choose|i: int|
                #![trigger strips[i]]
                0 <= i < strips.len() && strips[i].start <= y && y + tpl.height <= strips[i].start
                    + strips[i].height;
            assert(contributes(tpl, rw, strips[i], c, r));
            lemma_any_contributes(tpl, rw, strips, parts.len(), i, c, r);
        }
    }
}

/// The number of workers does not change the result of an overlay search:
/// any two such results are the same map.
pub proof fn lemma_worker_count_irrelevant(
    src: Image,
    tpl: Image,
    margin: nat,
    workers_a: nat,
    workers_b: nat,
    d: Denominator,
    out_a: Seq<u8>,
    out_b: Seq<u8>,
)
    requires
        dims_ok(src, tpl, margin),
        src.width <= usize::MAX,
        src.height <= usize::MAX,
        search_result(src, tpl, margin, workers_a, d, MergePolicy::Overlay, out_a),
        search_result(src, tpl, margin, workers_b, d, MergePolicy::Overlay, out_b),
    ensures
        out_a == out_b,
{
    let rw = region_width(src, margin);
    let rh = region_height(src, margin);
    let pa = choose|parts: Seq<PartialMap>|
        scans_of(src, tpl, margin, d, partition_spec(rh as nat, tpl.height as nat, workers_a), parts)
            && out_a == #[trigger] merged(rw, rh, parts, MergePolicy::Overlay);
    let pb = choose|parts: Seq<PartialMap>|
        scans_of(src, tpl, margin, d, partition_spec(rh as nat, tpl.height as nat, workers_b), parts)
            && out_b == #[trigger] merged(rw, rh, parts, MergePolicy::Overlay);
    lemma_overlay_matches_single_scan(src, tpl, margin, workers_a, d, pa);
    lemma_overlay_matches_single_scan(src, tpl, margin, workers_b, d, pb);
    assert forall|q: int| 0 <= q < out_a.len() implies out_a[q] == out_b[q] by {
        let r = q / rw;
        let c = q % rw;
        assert(q == r * rw + c && 0 <= c < rw) by (nonlinear_arith)
            requires r == q / rw, c == q % rw, rw > 0;
        assert(0 <= r < rh) by (nonlinear_arith)
            requires q == r * rw + c, 0 <= c < rw, 0 <= q < rw * rh, rw > 0;
        assert(out_a[r * rw + c] == region_value(src, tpl, margin, d, c, r));
        assert(out_b[r * rw + c] == region_value(src, tpl, margin, d, c, r));
    }
    assert(out_a =~= out_b);
}

/// A copy of the template placed in the search region at `(x0, y0)` gives
/// the largest possible value, 255, at the copy's centre, provided something
/// is divided by (a non-black template pixel, or the width as divisor).
pub proof fn lemma_exact_match_peak(
    src: Image,
    tpl: Image,
    margin: nat,
    d: Denominator,
    x0: int,
    y0: int,
)
    requires
        dims_ok(src, tpl, margin),
        0 <= x0 && x0 + tpl.width <= region_width(src, margin),
        0 <= y0 && y0 + tpl.height <= region_height(src, margin),
        window_equals(tpl, src, margin + x0, margin + y0),
        d == Denominator::ComparedPixels ==> compared_pixels(tpl) > 0,
    ensures
        region_value(src, tpl, margin, d, x0 + tpl.width / 2, y0 + tpl.height / 2) == 255,
        forall|c: int, r: int| #[trigger] region_value(src, tpl, margin, d, c, r) <= 255,
{
    lemma_exact_match(tpl, src, margin + x0, margin + y0, d);
}

} // verus!
