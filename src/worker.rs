//! Scanning one strip: every window whose rows lie in the strip is scored and
//! the score is written at the window's centre.

use vstd::prelude::*;
use crate::image::{ConfidenceMap, Image};
use crate::metric::{Denominator, window_confidence, window_fits, window_score};

verus! {

/// Value at column `c`, row `r` of the map of the strip that starts at region
/// row `start` and is `h` rows high, in a region of `rw` columns whose top-left
/// corner is `(m, m)` in the source: the confidence of the window centred
/// there, or zero where no window of the strip is centred.
pub open spec fn strip_value(
    t: Image,
    s: Image,
    m: int,
    rw: int,
    start: int,
    h: int,
    d: Denominator,
    c: int,
    r: int,
) -> u8 {
    let x = c - t.width / 2;
    let y = r - t.height / 2;
    if 0 <= x && x + t.width <= rw && 0 <= y && y + t.height <= h {
        window_confidence(t, s, m + x, m + start + y, d)
    } else {
        0
    }
}

/// The window with top-left `(x, y)` has been visited before `(cx, cy)` in
/// row-major order.
pub open spec fn visited_before(x: int, y: int, cx: int, cy: int) -> bool {
    y < cy || (y == cy && x < cx)
}

/// What the strip map holds after the windows before `(cx, cy)` were scored.
pub open spec fn scanned_value(
    t: Image,
    s: Image,
    m: int,
    rw: int,
    start: int,
    h: int,
    d: Denominator,
    c: int,
    r: int,
    cx: int,
    cy: int,
) -> u8 {
    let x = c - t.width / 2;
    let y = r - t.height / 2;
    if visited_before(x, y, cx, cy) {
        strip_value(t, s, m, rw, start, h, d, c, r)
    } else {
        0
    }
}

/// Scores every window of the strip that starts at region row `start` and is
/// `height` rows high. The region is `region_width` columns wide and its
/// top-left corner lies at `(margin, margin)` in the source. The map returned
/// is as wide as the region and as high as the strip; each score lands at the
/// centre of its window, and every other value is zero.
pub fn scan_strip(
    src: &Image,
    tpl: &Image,
    margin: usize,
    region_width: usize,
    start: usize,
    height: usize,
    denom: Denominator,
) -> (r: ConfidenceMap)
    requires
        src.wf(),
        tpl.wf(),
        0 < tpl.width <= region_width,
        0 < tpl.height <= height,
        margin + region_width <= src.width,
        margin + start + height <= src.height,
    ensures
        r.wf(),
        r.width == region_width,
        r.height == height,
        forall|c: int, row: int|
            0 <= c < region_width && 0 <= row < height ==> #[trigger] r.at(c, row) == strip_value(
                *tpl,
                *src,
                margin as int,
                region_width as int,
                start as int,
                height as int,
                denom,
                c,
                row,
            ),
{
    let ghost t = *tpl;
    let ghost s = *src;
    let ghost mm = margin as int;
    let ghost rw = region_width as int;
    let ghost st = start as int;
    let ghost h = height as int;
    let slen: usize = src.data.len();
    proof {
        assert(region_width * height <= src.width * src.height) by (nonlinear_arith)
            requires region_width <= src.width, height <= src.height;
        assert(src.width * src.height <= slen) by (nonlinear_arith)
            requires slen == 3 * src.width * src.height;
    }
    let mut map: ConfidenceMap = ConfidenceMap::zeroed(region_width, height);
    let tw: usize = tpl.width;
    let th: usize = tpl.height;
    let half_w: usize = tw / 2;
    let half_h: usize = th / 2;
    proof {
        assert forall|c: int, row: int|
            0 <= c < rw && 0 <= row < h implies #[trigger] map.at(c, row) == scanned_value(
                t,
                s,
                mm,
                rw,
                st,
                h,
                denom,
                c,
                row,
                0,
                0,
            ) by {
            crate::arith::lemma_cell_in_grid(row, c, rw, h);
        }
    }
    let mut y: usize = 0;
    while y <= height - th
        invariant
            t == *tpl,
            s == *src,
            mm == margin,
            rw == region_width,
            st == start,
            h == height,
            src.wf(),
            tpl.wf(),
            0 < tw <= region_width,
            0 < th <= height,
            tw == tpl.width,
            th == tpl.height,
            half_w == tw / 2,
            half_h == th / 2,
            margin + region_width <= src.width,
            margin + start + height <= src.height,
            map.wf(),
            map.width == region_width,
            map.height == height,
            y <= height - th + 1,
            forall|c: int, row: int|
                0 <= c < rw && 0 <= row < h ==> #[trigger] map.at(c, row) == scanned_value(
                    t,
                    s,
                    mm,
                    rw,
                    st,
                    h,
                    denom,
                    c,
                    row,
                    0,
                    y as int,
                ),
        decreases height - th + 1 - y,
    {
        let mut x: usize = 0;
        while x <= region_width - tw
            invariant
                t == *tpl,
                s == *src,
                mm == margin,
                rw == region_width,
                st == start,
                h == height,
                src.wf(),
                tpl.wf(),
                0 < tw <= region_width,
                0 < th <= height,
                tw == tpl.width,
                th == tpl.height,
                half_w == tw / 2,
                half_h == th / 2,
                margin + region_width <= src.width,
                margin + start + height <= src.height,
                map.wf(),
                map.width == region_width,
                map.height == height,
                y <= height - th,
                x <= region_width - tw + 1,
                forall|c: int, row: int|
                    0 <= c < rw && 0 <= row < h ==> #[trigger] map.at(c, row) == scanned_value(
                        t,
                        s,
                        mm,
                        rw,
                        st,
                        h,
                        denom,
                        c,
                        row,
                        x as int,
                        y as int,
                    ),
            decreases region_width - tw + 1 - x,
        {
            let v: u8 = window_score(tpl, src, margin + x, margin + start + y, denom);
            let cx: usize = x + half_w;
            let cy: usize = y + half_h;
            let ghost before = map.data@;
            let ghost m0 = map;
            let mlen: usize = map.data.len();
            assert(half_w < tw && half_h < th);
            proof {
                crate::arith::lemma_cell_in_grid(cy as int, cx as int, rw, h);
            }
            let k: usize = cy * region_width + cx;
            map.data.set(k, v);
            proof {
                assert forall|c: int, row: int|
                    0 <= c < rw && 0 <= row < h implies #[trigger] map.at(c, row) == scanned_value(
                        t,
                        s,
                        mm,
                        rw,
                        st,
                        h,
                        denom,
                        c,
                        row,
                        x + 1,
                        y as int,
                    ) by {
                    crate::arith::lemma_cell_in_grid(row, c, rw, h);
                    if row * rw + c == k {
                        crate::arith::lemma_cell_inject(row, c, cy as int, cx as int, rw);
                    } else {
                        assert(map.at(c, row) == m0.at(c, row));
                    }
                }
            }
            x = x + 1;
        }
        proof {
            assert forall|c: int, row: int|
                0 <= c < rw && 0 <= row < h implies #[trigger] map.at(c, row) == scanned_value(
                    t,
                    s,
                    mm,
                    rw,
                    st,
                    h,
                    denom,
                    c,
                    row,
                    0,
                    y + 1,
                ) by {
                assert(scanned_value(t, s, mm, rw, st, h, denom, c, row, x as int, y as int)
                    == scanned_value(t, s, mm, rw, st, h, denom, c, row, 0, y + 1));
            }
        }
        y = y + 1;
    }
    map
}

} // verus!
