//! Splitting the search region into horizontal strips, one per worker, that
//! overlap by one template height.

use vstd::prelude::*;

verus! {

/// A band of rows of the search region: rows `start .. start + height`.
#[derive(Clone, Copy, Debug, PartialEq, Eq, Structural)]
pub struct StripDescriptor {
    pub start: usize,
    pub height: usize,
}

/// Fewest template-height bands that make splitting worth it.
pub const MIN_BANDS: usize = 4;

/// Number of strips for a region of `rh` rows, a template of `th` rows and
/// `workers` requested workers: the request capped at the number of whole
/// template heights in the region, and a single strip when fewer than four
/// fit or at most one worker is asked for.
pub open spec fn strip_count(rh: nat, th: nat, workers: nat) -> nat {
    let bands = rh / th;
    if bands < 4 || workers <= 1 {
        1
    } else if workers <= bands {
        workers
    } else {
        bands
    }
}

/// The `i`-th of `n` strips of a region of `rh` rows: strips start every
/// `rh / n` rows and reach one template height into the next one; the last
/// one reaches the bottom of the region.
pub open spec fn strip_at(rh: nat, th: nat, n: nat, i: nat) -> StripDescriptor {
    let base = rh / n;
    let start = i * base;
    StripDescriptor {
        start: start as usize,
        height: (if i + 1 == n { rh - start } else { (base + th) as int }) as usize,
    }
}

/// The strips for a region of `rh` rows, a template of `th` rows and
/// `workers` requested workers.
pub open spec fn partition_spec(rh: nat, th: nat, workers: nat) -> Seq<StripDescriptor> {
    let n = strip_count(rh, th, workers);
    Seq::new(n, |i: int| strip_at(rh, th, n, i as nat))
}

/// Row `y` lies in one of the strips.
pub open spec fn row_covered(p: Seq<StripDescriptor>, y: int) -> bool {
    exists|i: int| #![trigger p[i]] 0 <= i < p.len() && p[i].start <= y < p[i].start + p[i].height
}

/// The `th` rows from row `y` on lie wholly inside one of the strips.
pub open spec fn window_owned(p: Seq<StripDescriptor>, y: int, th: int) -> bool {
    exists|i: int| #![trigger p[i]] 0 <= i < p.len() && p[i].start <= y && y + th <= p[i].start + p[i].height
}

/// Facts on the number of strips and on the strip height.
pub proof fn lemma_strip_count(rh: nat, th: nat, workers: nat)
    requires
        th > 0,
        th <= rh,
    ensures
        strip_count(rh, th, workers) >= 1,
        strip_count(rh, th, workers) > 1 ==> th <= rh / strip_count(rh, th, workers),
        strip_count(rh, th, workers) <= rh,
{
    let n = strip_count(rh, th, workers);
    let bands = rh / th;
    assert(bands * th <= rh) by (nonlinear_arith)
        requires bands == rh / th, th > 0;
    assert(bands <= rh) by (nonlinear_arith)
        requires bands * th <= rh, th >= 1, bands >= 0;
    if n > 1 {
        assert(n * th <= rh) by (nonlinear_arith)
            requires n <= bands, bands * th <= rh, th >= 0;
        assert(th <= rh / n) by (nonlinear_arith)
            requires n * th <= rh, n > 0;
    }
}

/// Splits a region of `region_height` rows among at most `workers` workers,
/// for a template of `template_height` rows.
pub fn partition(region_height: usize, template_height: usize, workers: usize) -> (r: Vec<
    StripDescriptor,
>)
    requires
        0 < template_height <= region_height,
    ensures
        r@ == partition_spec(region_height as nat, template_height as nat, workers as nat),
{
    let bands: usize = region_height / template_height;
    let n: usize = if bands < MIN_BANDS || workers <= 1 {
        1
    } else if workers <= bands {
        workers
    } else {
        bands
    };
    proof {
        lemma_strip_count(region_height as nat, template_height as nat, workers as nat);
    }
    let ghost rh = region_height as nat;
    let ghost th = template_height as nat;
    let base: usize = region_height / n;
    let mut r: Vec<StripDescriptor> = Vec::new();
    let mut i: usize = 0;
    while i < n
        invariant
            n == strip_count(rh, th, workers as nat),
            n >= 1,
            n > 1 ==> th <= base,
            base == region_height / n,
            rh == region_height,
            th == template_height,
            i <= n,
            r@.len() == i,
            forall|k: int| 0 <= k < i ==> r@[k] == strip_at(rh, th, n as nat, k as nat),
        decreases n - i,
    {
        proof {
            assert(i * base <= (n - 1) * base) by (nonlinear_arith)
                requires i <= n - 1, base >= 0;
            assert(n * base <= rh) by (nonlinear_arith)
                requires base == region_height / n, n > 0, rh == region_height;
            assert((n - 1) * base + base == n * base) by (nonlinear_arith);
            assert(n > 1 ==> base + base <= n * base) by (nonlinear_arith)
                requires n >= 1, base >= 0;
        }
        let start: usize = i * base;
        let height: usize = if i + 1 == n {
            region_height - start
        } else {
            base + template_height
        };
        r.push(StripDescriptor { start, height });
        i = i + 1;
    }
    assert(r@ =~= partition_spec(rh, th, workers as nat));
    r
}

/// Every strip lies inside the region, its first row is `start`, and
/// consecutive strips overlap by exactly one template height; the strips
/// together cover every row of the region, and every window of `th` rows
/// lies wholly inside the strip that owns its top row.
pub proof fn lemma_partition_coverage(rh: nat, th: nat, workers: nat)
    requires
        0 < th <= rh <= usize::MAX,
    ensures
        ({
            let p = partition_spec(rh, th, workers);
            &&& p.len() >= 1
            &&& p[0].start == 0
            &&& p[p.len() - 1].start + p[p.len() - 1].height == rh
            &&& forall|i: int| 0 <= i < p.len() ==> p[i].start + p[i].height <= rh
            &&& forall|i: int| 0 <= i < p.len() ==> th <= #[trigger] p[i].height
            &&& forall|i: int|
                #![trigger p[i]]
                0 <= i < p.len() - 1 ==> p[i].start + p[i].height - p[i + 1].start == th
            &&& forall|y: int| 0 <= y < rh ==> #[trigger] row_covered(p, y)
            &&& forall|y: int| 0 <= y && y + th <= rh ==> #[trigger] window_owned(p, y, th as int)
        }),
{
    let p = partition_spec(rh, th, workers);
    let n = strip_count(rh, th, workers);
    lemma_strip_count(rh, th, workers);
    let base = rh / n;
    assert(n * base <= rh) by (nonlinear_arith)
        requires base == rh / n, n > 0;
    assert(rh < n * base + n) by (nonlinear_arith)
        requires base == rh / n, n > 0;
    assert forall|i: int| 0 <= i < p.len() implies th <= #[trigger] p[i].height by {
        assert(0 <= i * base) by (nonlinear_arith)
            requires 0 <= i, base >= 0;
        assert(i * base <= (n - 1) * base) by (nonlinear_arith)
            requires 0 <= i <= n - 1, base >= 0;
        assert((n - 1) * base + base == n * base) by (nonlinear_arith);
        assert(p[i] == strip_at(rh, th, n, i as nat));
        assert(n > 1 ==> base + base <= n * base) by (nonlinear_arith)
            requires n >= 1, base >= 0;
        if i + 1 == n {
            if n == 1 {
                assert(i * base == 0);
            } else {
                assert(i * base + base <= rh);
            }
        }
    }
    assert forall|i: int| 0 <= i < p.len() implies p[i].start + p[i].height <= rh by {
        assert(i * base + base <= n * base) by (nonlinear_arith)
            requires 0 <= i < n, base >= 0;
        assert(i + 1 < n ==> i * base + base + base <= n * base) by (nonlinear_arith)
            requires 0 <= i, base >= 0;
        assert(i * base <= (n - 1) * base) by (nonlinear_arith)
            requires 0 <= i <= n - 1, base >= 0;
        assert((n - 1) * base + base == n * base) by (nonlinear_arith);
    }
    assert forall|i: int| 0 <= i < p.len() - 1 implies p[i].start + p[i].height - p[i + 1].start
        == th by {
        assert((i + 1) * base == i * base + base) by (nonlinear_arith);
        assert(i * base + base + base <= n * base) by (nonlinear_arith)
            requires 0 <= i, i + 1 < n, base >= 0;
        assert(0 <= i * base) by (nonlinear_arith)
            requires 0 <= i, base >= 0;
    }
    assert((n - 1) * base <= rh) by (nonlinear_arith)
        requires n * base <= rh, n >= 1, base >= 0;
    assert forall|y: int| 0 <= y && y + th <= rh implies #[trigger] window_owned(p, y, th as int) by {
        if n == 1 {
            assert(p[0].start <= y && y + th <= p[0].start + p[0].height);
        } else {
            let q = y / (base as int);
            let i = if q < n - 1 { q } else { n - 1 };
            assert(base > 0);
            assert(q * base <= y && y < q * base + base) by (nonlinear_arith)
                requires q == y / (base as int), base > 0, y >= 0;
            assert(q >= 0) by (nonlinear_arith)
                requires q == y / (base as int), base > 0, y >= 0;
            assert(i * base <= y) by (nonlinear_arith)
                requires 0 <= i <= q, q * base <= y, base >= 0;
            assert(i * base + base <= n * base) by (nonlinear_arith)
                requires 0 <= i < n, base >= 0;
            assert(i * base <= (n - 1) * base) by (nonlinear_arith)
                requires 0 <= i <= n - 1, base >= 0;
            assert((n - 1) * base + base == n * base) by (nonlinear_arith);
            assert(0 <= i * base) by (nonlinear_arith)
                requires 0 <= i, base >= 0;
            assert(p[i] == strip_at(rh, th, n, i as nat));
            if i + 1 == n {
                assert(p[i].start == i * base);
                assert(p[i].start + p[i].height == rh);
            } else {
                assert(i == q);
                assert(base + base <= n * base) by (nonlinear_arith)
                    requires n >= 2, base >= 0;
                assert(p[i].start == i * base);
                assert(p[i].height == base + th);
            }
            assert(p[i].start <= y && y + th <= p[i].start + p[i].height);
        }
    }
    assert forall|y: int| 0 <= y < rh implies #[trigger] row_covered(p, y) by {
        if y + th <= rh {
            assert(window_owned(p, y, th as int));
            let i = choose|i: int|
                0 <= i < p.len() && p[i].start <= y && y + th <= p[i].start + p[i].height;
            assert(p[i].start <= y < p[i].start + p[i].height);
        } else {
            let i = n - 1;
            assert(0 <= i * base) by (nonlinear_arith)
                requires 0 <= i, base >= 0;
            assert(n > 1 ==> (n - 1) * base + base <= rh) by (nonlinear_arith)
                requires n * base <= rh, n >= 1;
            assert(p[i] == strip_at(rh, th, n, i as nat));
            assert(p[i].start <= y < p[i].start + p[i].height);
        }
    }
}

} // verus!
