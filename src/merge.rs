//! Putting the strip maps back together into one map of the whole region.

use vstd::prelude::*;
use crate::image::ConfidenceMap;

verus! {

/// How a strip map is laid over what is already in the output.
#[derive(Clone, Copy, Debug, PartialEq, Eq, Structural)]
pub enum MergePolicy {
    /// Non-zero values of the later strip replace what is there.
    Overlay,
    /// Values are added, saturating at 255.
    SaturatingAdd,
}

/// The map of one strip: the strip's index among all strips, its first row in
/// the region, and its values (as wide as the region).
pub struct PartialMap {
    pub index: usize,
    pub start: usize,
    pub map: ConfidenceMap,
}

/// One output value after laying `over` upon `base`.
pub open spec fn combine(policy: MergePolicy, base: u8, over: u8) -> u8 {
    match policy {
        MergePolicy::Overlay => if over != 0 { over } else { base },
        MergePolicy::SaturatingAdd => if base + over <= 255 { (base + over) as u8 } else { 255 },
    }
}

/// The output after laying one strip map upon `out`, a region `w` columns wide.
pub open spec fn merge_one(out: Seq<u8>, w: int, p: PartialMap, policy: MergePolicy) -> Seq<u8> {
    let lo = p.start * w;
    let pd = p.map.data@;
    Seq::new(
        out.len(),
        |i: int|
            if lo <= i < lo + pd.len() {
                combine(policy, out[i], pd[i - lo])
            } else {
                out[i]
            },
    )
}

/// The strip indices are exactly `0 .. parts.len()`, each once, and every
/// strip map is a well-formed band of a `w` by `h` region.
pub open spec fn parts_ok(parts: Seq<PartialMap>, w: int, h: int) -> bool {
    &&& forall|j: int| 0 <= j < parts.len() ==> #[trigger] parts[j].index < parts.len()
    &&& forall|j: int, k: int|
        0 <= j < parts.len() && 0 <= k < parts.len() && j != k ==> #[trigger] parts[j].index
            != #[trigger] parts[k].index
    &&& forall|j: int|
        0 <= j < parts.len() ==> {
            let p = #[trigger] parts[j];
            p.map.wf() && p.map.width == w && p.start + p.map.height <= h
        }
}

/// Some strip has index `k`.
pub open spec fn has_index(parts: Seq<PartialMap>, k: int) -> bool {
    exists|j: int| 0 <= j < parts.len() && #[trigger] parts[j].index == k
}

/// The strip with index `k`.
pub open spec fn part_with_index(parts: Seq<PartialMap>, k: int) -> PartialMap
    recommends
        has_index(parts, k),
{
    let j = choose|j: int| 0 <= j < parts.len() && #[trigger] parts[j].index == k;
    parts[j]
}

/// The output after the strips with indices `0 .. k` were laid, in index
/// order, upon `base`.
pub open spec fn merged_upto(
    base: Seq<u8>,
    w: int,
    parts: Seq<PartialMap>,
    policy: MergePolicy,
    k: nat,
) -> Seq<u8>
    decreases k,
{
    if k == 0 {
        base
    } else {
        merge_one(
            merged_upto(base, w, parts, policy, (k - 1) as nat),
            w,
            part_with_index(parts, k - 1),
            policy,
        )
    }
}

/// The merged map of a `w` by `h` region: every strip, in index order, laid
/// upon zeros.
pub open spec fn merged(w: int, h: int, parts: Seq<PartialMap>, policy: MergePolicy) -> Seq<u8> {
    merged_upto(Seq::new((w * h) as nat, |i: int| 0u8), w, parts, policy, parts.len())
}

/// Every index `0 .. parts.len()` belongs to exactly one strip.
pub proof fn lemma_indices_present(parts: Seq<PartialMap>, w: int, h: int, k: int)
    requires
        parts_ok(parts, w, h),
        0 <= k < parts.len(),
    ensures
        has_index(parts, k),
{
    if !has_index(parts, k) {
        let all = Set::new(|j: int| 0 <= j < parts.len());
        let f = |j: int| parts[j].index as int;
        let img = all.map(f);
        assert(all =~= vstd::set_lib::set_int_range(0, parts.len() as int));
        vstd::set_lib::lemma_int_range(0, parts.len() as int);
        assert forall|a: int, b: int| all.contains(a) && all.contains(b) && f(a) == f(b) implies a
            == b by {
            if a != b {
                assert(parts[a].index != parts[b].index);
            }
        }
        vstd::set_lib::lemma_map_size(all, img, f);
        let rng = vstd::set_lib::set_int_range(0, parts.len() as int);
        assert(img.subset_of(rng.remove(k))) by {
            assert forall|v: int| img.contains(v) implies rng.remove(k).contains(v) by {
                let j = choose|j: int| all.contains(j) && parts[j].index as int == v;
                assert(parts[j].index < parts.len());
                if v == k {
                    assert(has_index(parts, k));
                }
            }
        }
        vstd::set_lib::lemma_len_subset(img, rng.remove(k));
    }
}
/// Lays every strip map, in index order, upon a zero map of `width` by
/// `height`.
pub fn merge(width: usize, height: usize, parts: &Vec<PartialMap>, policy: MergePolicy) -> (r:
    ConfidenceMap)
    requires
        width * height <= usize::MAX,
        parts_ok(parts@, width as int, height as int),
    ensures
        r.wf(),
        r.width == width,
        r.height == height,
        r.data@ == merged(width as int, height as int, parts@, policy),
{
    let mut out: ConfidenceMap = ConfidenceMap::zeroed(width, height);
    let ghost w = width as int;
    let ghost h = height as int;
    let ghost zeros = Seq::new((w * h) as nat, |i: int| 0u8);
    assert(out.data@ =~= zeros);
    let n: usize = parts.len();
    let mut k: usize = 0;
    while k < n
        invariant
            n == parts@.len(),
            w == width,
            h == height,
            width * height <= usize::MAX,
            zeros == Seq::new((w * h) as nat, |i: int| 0u8),
            parts_ok(parts@, w, h),
            k <= n,
            out.wf(),
            out.width == width,
            out.height == height,
            out.data@ == merged_upto(zeros, w, parts@, policy, k as nat),
        decreases n - k,
    {
        let mut j: usize = 0;
        proof {
            lemma_indices_present(parts@, w, h, k as int);
        }
        while parts[j].index != k
            invariant
                n == parts@.len(),
                has_index(parts@, k as int),
                j < n,
                forall|i: int| 0 <= i < j ==> #[trigger] parts@[i].index != k,
            decreases n - j,
        {
            j = j + 1;
            if j == n {
                proof {
                    let i = choose|i: int| 0 <= i < parts@.len() && #[trigger] parts@[i].index == k;
                    assert(parts@[i].index != k);
                }
            }
        }
        proof {
            let i = choose|i: int| 0 <= i < parts@.len() && #[trigger] parts@[i].index == k;
            if i != j {
                assert(parts@[i].index != parts@[j as int].index);
            }
        }
        let part: &PartialMap = &parts[j];
        let ghost prev = out.data@;
        proof {
            assert(parts@[j as int] == *part);
            assert(part.map.wf() && part.map.width == w && part.start + part.map.height <= h);
            assert(part.start * width + part.map.height * width <= width * height) by (
            nonlinear_arith)
                requires part.start + part.map.height <= height;
            assert(part.map.height * width == width * part.map.height) by (nonlinear_arith);
            assert(part.map.data@.len() == part.map.height * width);
            assert(0 <= part.start * width) by (nonlinear_arith);
        }
        let lo: usize = part.start * width;
        let plen: usize = part.map.data.len();
        let mut i: usize = 0;
        while i < plen
            invariant
                w == width,
                out.wf(),
                out.width == width,
                out.height == height,
                prev.len() == out.data@.len(),
                lo == part.start * width,
                plen == part.map.data@.len(),
                lo + plen <= out.data@.len(),
                out.data@.len() <= usize::MAX,
                i <= plen,
                forall|q: int|
                    0 <= q < prev.len() ==> #[trigger] out.data@[q] == if lo <= q < lo + i {
                        combine(policy, prev[q], part.map.data@[q - lo])
                    } else {
                        prev[q]
                    },
            decreases plen - i,
        {
            let base: u8 = out.data[lo + i];
            let over: u8 = part.map.data[i];
            let v: u8 = match policy {
                MergePolicy::Overlay => if over != 0 { over } else { base },
                MergePolicy::SaturatingAdd => {
                    let sum: u16 = base as u16 + over as u16;
                    if sum <= 255 { sum as u8 } else { 255 }
                },
            };
            out.data.set(lo + i, v);
            i = i + 1;
        }
        assert(out.data@ =~= merge_one(prev, w, parts@[j as int], policy));
        k = k + 1;
    }
    out
}

/// Merging does not depend on the order in which the strips are listed: two
/// lists that hold the same strips, each index once, merge to the same map.
pub proof fn lemma_merge_order_independent(
    w: int,
    h: int,
    a: Seq<PartialMap>,
    b: Seq<PartialMap>,
    policy: MergePolicy,
)
    requires
        parts_ok(a, w, h),
        parts_ok(b, w, h),
        a.len() == b.len(),
        forall|j: int| 0 <= j < a.len() ==> b.contains(#[trigger] a[j]),
    ensures
        merged(w, h, a, policy) == merged(w, h, b, policy),
{
    let zeros = Seq::new((w * h) as nat, |i: int| 0u8);
    assert forall|k: int| 0 <= k < a.len() implies part_with_index(a, k) == part_with_index(b, k) by {
        lemma_indices_present(a, w, h, k);
        lemma_indices_present(b, w, h, k);
        let ja = choose|j: int| 0 <= j < a.len() && #[trigger] a[j].index == k;
        let jb = choose|j: int| 0 <= j < b.len() && #[trigger] b[j].index == k;
        assert(b.contains(a[ja]));
        let jc = choose|j: int| 0 <= j < b.len() && b[j] == a[ja];
        assert(b[jc].index == k);
        if jc != jb {
            assert(b[jc].index != b[jb].index);
        }
    }
    lemma_merged_upto_same(zeros, w, a, b, policy, a.len());
}

/// Index-wise equal strips give equal partial merges.
proof fn lemma_merged_upto_same(
    base: Seq<u8>,
    w: int,
    a: Seq<PartialMap>,
    b: Seq<PartialMap>,
    policy: MergePolicy,
    k: nat,
)
    requires
        forall|i: int| 0 <= i < k ==> part_with_index(a, i) == part_with_index(b, i),
    ensures
        merged_upto(base, w, a, policy, k) == merged_upto(base, w, b, policy, k),
    decreases k,
{
    if k > 0 {
        lemma_merged_upto_same(base, w, a, b, policy, (k - 1) as nat);
        assert(part_with_index(a, k - 1) == part_with_index(b, k - 1));
    }
}

} // verus!
