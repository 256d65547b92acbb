//! The similarity metric: a root-mean-square error over the three colour
//! channels, where pure-black template pixels are masked out.

use vstd::prelude::*;
use crate::image::Image;

verus! {

/// What the accumulated squared error is divided by (besides the three
/// channels).
#[derive(Clone, Copy, Debug, PartialEq, Eq, Structural)]
pub enum Denominator {
    /// The number of template pixels that were compared (non-black ones).
    ComparedPixels,
    /// The template's width, whatever the number of pixels compared: a
    /// coarser scale that saturates sooner.
    TemplateWidth,
}

/// Largest squared error of a single pixel: three channels of 255 squared.
pub const MAX_PIXEL_ERROR: u128 = 195075;

/// Largest mean square that still has an integer root of at most 255.
pub const MAX_MEAN_SQUARE: u128 = 65535;

/// The square of a difference.
pub open spec fn sq(d: int) -> nat {
    (d * d) as nat
}

/// Squared error between template pixel `(tx, ty)` and source pixel `(sx, sy)`
/// over the three channels.
pub open spec fn pixel_error(t: Image, s: Image, tx: int, ty: int, sx: int, sy: int) -> nat {
    sq(t.chan(tx, ty, 0) - s.chan(sx, sy, 0)) + sq(t.chan(tx, ty, 1) - s.chan(sx, sy, 1)) + sq(
        t.chan(tx, ty, 2) - s.chan(sx, sy, 2),
    )
}

/// Contribution of template pixel `(x, y)` against the window whose top-left
/// corner is `(ox, oy)`: nothing where the template is black.
pub open spec fn masked_error(t: Image, s: Image, ox: int, oy: int, x: int, y: int) -> nat {
    if t.is_black(x, y) {
        0
    } else {
        pixel_error(t, s, x, y, ox + x, oy + y)
    }
}

/// Sum of the masked errors of the first `n` pixels of template row `y`.
pub open spec fn row_error(t: Image, s: Image, ox: int, oy: int, y: int, n: nat) -> nat
    decreases n,
{
    if n == 0 {
        0
    } else {
        row_error(t, s, ox, oy, y, (n - 1) as nat) + masked_error(t, s, ox, oy, n - 1, y)
    }
}

/// Sum of the masked errors of the first `m` template rows.
pub open spec fn grid_error(t: Image, s: Image, ox: int, oy: int, m: nat) -> nat
    decreases m,
{
    if m == 0 {
        0
    } else {
        grid_error(t, s, ox, oy, (m - 1) as nat) + row_error(t, s, ox, oy, m - 1, t.width as nat)
    }
}

/// Number of non-black pixels among the first `n` of template row `y`.
pub open spec fn row_count(t: Image, y: int, n: nat) -> nat
    decreases n,
{
    if n == 0 {
        0
    } else {
        row_count(t, y, (n - 1) as nat) + if t.is_black(n - 1, y) {
            0nat
        } else {
            1nat
        }
    }
}

/// Number of non-black pixels in the first `m` template rows.
pub open spec fn grid_count(t: Image, m: nat) -> nat
    decreases m,
{
    if m == 0 {
        0
    } else {
        grid_count(t, (m - 1) as nat) + row_count(t, m - 1, t.width as nat)
    }
}

/// Total masked squared error of the window at `(ox, oy)`.
pub open spec fn window_error(t: Image, s: Image, ox: int, oy: int) -> nat {
    grid_error(t, s, ox, oy, t.height as nat)
}

/// Number of template pixels that take part in the comparison.
pub open spec fn compared_pixels(t: Image) -> nat {
    grid_count(t, t.height as nat)
}

/// The largest `k <= r` with `k * k <= q` (zero when there is none).
pub open spec fn floor_sqrt_upto(q: nat, r: nat) -> nat
    decreases r,
{
    if r == 0 || r * r <= q {
        r
    } else {
        floor_sqrt_upto(q, (r - 1) as nat)
    }
}

/// The divisor of the squared error: three channels times the chosen count.
pub open spec fn divisor(t: Image, d: Denominator) -> nat {
    3 * match d {
        Denominator::ComparedPixels => compared_pixels(t),
        Denominator::TemplateWidth => t.width as nat,
    }
}

/// Root-mean-square error of `acc` over `div`, in whole units and capped at
/// 255; an empty divisor counts as the largest error.
pub open spec fn rmse_of(acc: nat, div: nat) -> nat {
    if div == 0 {
        255
    } else {
        let q = acc / div;
        floor_sqrt_upto(if q <= 65535 { q } else { 65535 }, 255)
    }
}

/// Root-mean-square error of the window at `(ox, oy)`.
pub open spec fn window_rmse(t: Image, s: Image, ox: int, oy: int, d: Denominator) -> nat {
    rmse_of(window_error(t, s, ox, oy), divisor(t, d))
}

/// Confidence of the window at `(ox, oy)`: 255 for a perfect match, lower as
/// the error grows.
pub open spec fn window_confidence(t: Image, s: Image, ox: int, oy: int, d: Denominator) -> u8 {
    (255 - window_rmse(t, s, ox, oy, d)) as u8
}

/// The template fits inside the source at offset `(ox, oy)`.
pub open spec fn window_fits(t: Image, s: Image, ox: int, oy: int) -> bool {
    0 <= ox && 0 <= oy && ox + t.width <= s.width && oy + t.height <= s.height
}

/// The bounded square root never exceeds its bound, and is a floor square
/// root when the bound is large enough.
pub proof fn lemma_floor_sqrt_upto(q: nat, r: nat)
    ensures
        floor_sqrt_upto(q, r) <= r,
        floor_sqrt_upto(q, r) * floor_sqrt_upto(q, r) <= q,
        q < (r + 1) * (r + 1) ==> q < (floor_sqrt_upto(q, r) + 1) * (floor_sqrt_upto(q, r) + 1),
    decreases r,
{
    if r == 0 {
        assert(0 * 0 == 0);
    } else if r * r <= q {
    } else {
        lemma_floor_sqrt_upto(q, (r - 1) as nat);
    }
}

/// The root of a mean square: the largest `r <= 255` whose square does not
/// exceed `acc / div` (the mean is capped first); 255 when `div` is zero.
fn rmse(acc: u128, div: u128) -> (r: u8)
    ensures
        r as nat == rmse_of(acc as nat, div as nat),
{
    if div == 0 {
        return 255;
    }
    let q0: u128 = acc / div;
    let q: u128 = if q0 <= MAX_MEAN_SQUARE { q0 } else { MAX_MEAN_SQUARE };
    let mut r: u128 = 255;
    let mut square: u128 = 65025;
    while r > 0 && square > q
        invariant
            r <= 255,
            square == r * r,
            square <= 65025,
            q <= 65535,
            floor_sqrt_upto(q as nat, r as nat) == floor_sqrt_upto(q as nat, 255),
        decreases r,
    {
        assert((r - 1) * (r - 1) == r * r - 2 * r + 1 && r * r >= 2 * r - 1) by (nonlinear_arith)
            requires r >= 1;
        assert(square + 1 >= 2 * r);
        square = square + 1 - 2 * r;
        r = r - 1;
    }
    r as u8
}

/// Reads channel `c` of the template and of the source, and squares the
/// difference.
fn channel_error(t: &Image, s: &Image, x: usize, y: usize, sx: usize, sy: usize, c: usize) -> (r: u128)
    requires
        t.wf(),
        s.wf(),
        x < t.width,
        y < t.height,
        sx < s.width,
        sy < s.height,
        c < 3,
    ensures
        r == sq(t.chan(x as int, y as int, c as int) - s.chan(sx as int, sy as int, c as int)),
        r <= 65025,
{
    let a: i32 = t.channel(x, y, c) as i32;
    let b: i32 = s.channel(sx, sy, c) as i32;
    let d: i32 = a - b;
    assert(0 <= d * d <= 65025) by (nonlinear_arith)
        requires -255 <= d <= 255;
    (d * d) as u128
}

/// Root-mean-square error between the template and the window of the source
/// whose top-left corner is `(ox, oy)`. Pure-black template pixels are left
/// out of both the sum and the pixel count; the result is in whole units,
/// at most 255, and 255 when nothing is left to divide by.
pub fn calc_root_error_squares_mean_full(
    tpl: &Image,
    src: &Image,
    ox: usize,
    oy: usize,
    denom: Denominator,
) -> (r: u8)
    requires
        tpl.wf(),
        src.wf(),
        window_fits(*tpl, *src, ox as int, oy as int),
    ensures
        r as nat == window_rmse(*tpl, *src, ox as int, oy as int, denom),
        r <= 255,
{
    let ghost t = *tpl;
    let ghost s = *src;
    let tlen: usize = tpl.data.len();
    let mut acc: u128 = 0;
    let mut count: u128 = 0;
    let mut y: usize = 0;
    while y < tpl.height
        invariant
            t == *tpl,
            s == *src,
            tpl.wf(),
            src.wf(),
            window_fits(t, s, ox as int, oy as int),
            tlen == tpl.data@.len(),
            y <= tpl.height,
            acc == grid_error(t, s, ox as int, oy as int, y as nat),
            count == grid_count(t, y as nat),
            acc <= MAX_PIXEL_ERROR * (y * tpl.width),
            count <= y * tpl.width,
            y * tpl.width <= tpl.width * tpl.height,
        decreases tpl.height - y,
    {
        let mut x: usize = 0;
        while x < tpl.width
            invariant
                t == *tpl,
                s == *src,
                tpl.wf(),
                src.wf(),
                window_fits(t, s, ox as int, oy as int),
                tlen == tpl.data@.len(),
                y < tpl.height,
                x <= tpl.width,
                acc == grid_error(t, s, ox as int, oy as int, y as nat) + row_error(
                    t,
                    s,
                    ox as int,
                    oy as int,
                    y as int,
                    x as nat,
                ),
                count == grid_count(t, y as nat) + row_count(t, y as int, x as nat),
                acc <= MAX_PIXEL_ERROR * (y * tpl.width + x),
                count <= y * tpl.width + x,
                y * tpl.width + x <= tpl.width * tpl.height,
            decreases tpl.width - x,
        {
            let b0: u8 = tpl.channel(x, y, 0);
            let b1: u8 = tpl.channel(x, y, 1);
            let b2: u8 = tpl.channel(x, y, 2);
            proof {
                crate::arith::lemma_cell_in_grid(y as int, x as int, tpl.width as int, tpl.height as int);
            }
            if !(b0 == 0 && b1 == 0 && b2 == 0) {
                let e0: u128 = channel_error(tpl, src, x, y, ox + x, oy + y, 0);
                let e1: u128 = channel_error(tpl, src, x, y, ox + x, oy + y, 1);
                let e2: u128 = channel_error(tpl, src, x, y, ox + x, oy + y, 2);
                proof {
                    assert(tpl.width * tpl.height <= tlen) by (nonlinear_arith)
                        requires tlen == 3 * tpl.width * tpl.height;
                }
                acc = acc + e0 + e1 + e2;
                count = count + 1;
            }
            x = x + 1;
        }
        proof {
            assert((y + 1) * tpl.width == y * tpl.width + tpl.width) by (nonlinear_arith);
        }
        y = y + 1;
    }
    proof {
        assert(tpl.width * tpl.height <= tlen) by (nonlinear_arith)
            requires tlen == 3 * tpl.width * tpl.height;
    }
    let div: u128 = match denom {
        Denominator::ComparedPixels => 3 * count,
        Denominator::TemplateWidth => 3 * (tpl.width as u128),
    };
    let r: u8 = rmse(acc, div);
    proof {
        lemma_floor_sqrt_upto(
            if acc / div <= 65535 { (acc / div) as nat } else { 65535 },
            255,
        );
    }
    r
}

/// Confidence byte of the window at `(ox, oy)`: 255 minus its root-mean-square
/// error.
pub fn window_score(tpl: &Image, src: &Image, ox: usize, oy: usize, denom: Denominator) -> (r: u8)
    requires
        tpl.wf(),
        src.wf(),
        window_fits(*tpl, *src, ox as int, oy as int),
    ensures
        r == window_confidence(*tpl, *src, ox as int, oy as int, denom),
{
    let e: u8 = calc_root_error_squares_mean_full(tpl, src, ox, oy, denom);
    255 - e
}

/// The template equals the source window at `(ox, oy)`, pixel for pixel.
pub open spec fn window_equals(t: Image, s: Image, ox: int, oy: int) -> bool {
    forall|x: int, y: int, c: int|
        0 <= x < t.width && 0 <= y < t.height && 0 <= c < 3 ==> #[trigger] s.chan(ox + x, oy + y, c)
            == t.chan(x, y, c)
}

proof fn lemma_row_error_zero(t: Image, s: Image, ox: int, oy: int, y: int, n: nat)
    requires
        window_equals(t, s, ox, oy),
        0 <= y < t.height,
        n <= t.width,
    ensures
        row_error(t, s, ox, oy, y, n) == 0,
    decreases n,
{
    if n > 0 {
        lemma_row_error_zero(t, s, ox, oy, y, (n - 1) as nat);
        let x = n - 1;
        assert(s.chan(ox + x, oy + y, 0) == t.chan(x, y, 0));
        assert(s.chan(ox + x, oy + y, 1) == t.chan(x, y, 1));
        assert(s.chan(ox + x, oy + y, 2) == t.chan(x, y, 2));
    }
}

proof fn lemma_grid_error_zero(t: Image, s: Image, ox: int, oy: int, m: nat)
    requires
        window_equals(t, s, ox, oy),
        m <= t.height,
    ensures
        grid_error(t, s, ox, oy, m) == 0,
    decreases m,
{
    if m > 0 {
        lemma_grid_error_zero(t, s, ox, oy, (m - 1) as nat);
        lemma_row_error_zero(t, s, ox, oy, m - 1, t.width as nat);
    }
}

proof fn lemma_floor_sqrt_zero(r: nat)
    ensures
        floor_sqrt_upto(0, r) == 0,
    decreases r,
{
    if r > 0 {
        assert(r * r > 0) by (nonlinear_arith)
            requires r > 0;
        lemma_floor_sqrt_zero((r - 1) as nat);
    }
}

/// A window that equals the template has no error, hence full confidence,
/// as long as something is divided by: some template pixel is not black, or
/// the template's width is the divisor.
pub proof fn lemma_exact_match(t: Image, s: Image, ox: int, oy: int, d: Denominator)
    requires
        window_equals(t, s, ox, oy),
        t.width > 0,
        d == Denominator::ComparedPixels ==> compared_pixels(t) > 0,
    ensures
        window_error(t, s, ox, oy) == 0,
        window_rmse(t, s, ox, oy, d) == 0,
        window_confidence(t, s, ox, oy, d) == 255,
{
    lemma_grid_error_zero(t, s, ox, oy, t.height as nat);
    lemma_floor_sqrt_zero(255);
    assert(divisor(t, d) > 0);
    assert(0nat / divisor(t, d) == 0);
}

/// Template pixel `(px, py)` is the only one that is not black.
pub open spec fn single_visible_pixel(t: Image, px: int, py: int) -> bool {
    &&& 0 <= px < t.width
    &&& 0 <= py < t.height
    &&& !t.is_black(px, py)
    &&& forall|x: int, y: int|
        0 <= x < t.width && 0 <= y < t.height && (x != px || y != py) ==> #[trigger] t.is_black(x, y)
}

proof fn lemma_single_row(t: Image, s: Image, ox: int, oy: int, px: int, py: int, y: int, n: nat)
    requires
        single_visible_pixel(t, px, py),
        0 <= y < t.height,
        n <= t.width,
    ensures
        row_error(t, s, ox, oy, y, n) == if y == py && px < n {
            pixel_error(t, s, px, py, ox + px, oy + py)
        } else {
            0
        },
        row_count(t, y, n) == if y == py && px < n { 1nat } else { 0nat },
    decreases n,
{
    if n > 0 {
        lemma_single_row(t, s, ox, oy, px, py, y, (n - 1) as nat);
        if n - 1 != px || y != py {
            assert(t.is_black(n - 1, y));
        }
    }
}

proof fn lemma_single_grid(t: Image, s: Image, ox: int, oy: int, px: int, py: int, m: nat)
    requires
        single_visible_pixel(t, px, py),
        m <= t.height,
    ensures
        grid_error(t, s, ox, oy, m) == if py < m { pixel_error(t, s, px, py, ox + px, oy + py) } else { 0 },
        grid_count(t, m) == if py < m { 1nat } else { 0nat },
    decreases m,
{
    if m > 0 {
        lemma_single_grid(t, s, ox, oy, px, py, (m - 1) as nat);
        lemma_single_row(t, s, ox, oy, px, py, m - 1, t.width as nat);
    }
}

/// With a single non-black template pixel the error is that pixel's error
/// alone: the rest of the window plays no part.
pub proof fn lemma_black_pixels_ignored(t: Image, s: Image, ox: int, oy: int, px: int, py: int, d: Denominator)
    requires
        single_visible_pixel(t, px, py),
    ensures
        window_error(t, s, ox, oy) == pixel_error(t, s, px, py, ox + px, oy + py),
        compared_pixels(t) == 1,
        window_rmse(t, s, ox, oy, d) == rmse_of(
            pixel_error(t, s, px, py, ox + px, oy + py),
            divisor(t, d),
        ),
{
    lemma_single_grid(t, s, ox, oy, px, py, t.height as nat);
}

/// `a` and `b` have the same size and are black at the same pixels.
pub open spec fn same_mask(a: Image, b: Image) -> bool {
    &&& a.width == b.width
    &&& a.height == b.height
    &&& forall|x: int, y: int|
        0 <= x < a.width && 0 <= y < a.height ==> #[trigger] a.is_black(x, y) == b.is_black(x, y)
}

proof fn lemma_sq_sym(u: int, v: int)
    ensures
        sq(u - v) == sq(v - u),
{
    assert((u - v) * (u - v) == (v - u) * (v - u)) by (nonlinear_arith);
}

proof fn lemma_row_sym(a: Image, b: Image, y: int, n: nat)
    requires
        same_mask(a, b),
        0 <= y < a.height,
        n <= a.width,
    ensures
        row_error(a, b, 0, 0, y, n) == row_error(b, a, 0, 0, y, n),
        row_count(a, y, n) == row_count(b, y, n),
    decreases n,
{
    if n > 0 {
        lemma_row_sym(a, b, y, (n - 1) as nat);
        let x = n - 1;
        assert(a.is_black(x, y) == b.is_black(x, y));
        lemma_sq_sym(a.chan(x, y, 0) as int, b.chan(x, y, 0) as int);
        lemma_sq_sym(a.chan(x, y, 1) as int, b.chan(x, y, 1) as int);
        lemma_sq_sym(a.chan(x, y, 2) as int, b.chan(x, y, 2) as int);
    }
}

proof fn lemma_grid_sym(a: Image, b: Image, m: nat)
    requires
        same_mask(a, b),
        m <= a.height,
    ensures
        grid_error(a, b, 0, 0, m) == grid_error(b, a, 0, 0, m),
        grid_count(a, m) == grid_count(b, m),
    decreases m,
{
    if m > 0 {
        lemma_grid_sym(a, b, (m - 1) as nat);
        lemma_row_sym(a, b, m - 1, a.width as nat);
    }
}

/// Swapping the template and the window (two images of one size, black at
/// the same pixels) leaves the error, and so the score, unchanged.
pub proof fn lemma_metric_symmetric(a: Image, b: Image, d: Denominator)
    requires
        same_mask(a, b),
    ensures
        window_error(a, b, 0, 0) == window_error(b, a, 0, 0),
        window_rmse(a, b, 0, 0, d) == window_rmse(b, a, 0, 0, d),
{
    lemma_grid_sym(a, b, a.height as nat);
}

} // verus!
