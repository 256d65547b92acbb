//! The search: checks the sizes, splits the region, scans every strip and
//! merges the strip maps.

use vstd::prelude::*;
use crate::image::{ConfidenceMap, Image};
use crate::merge::{MergePolicy, PartialMap, merge, merged, parts_ok};
use crate::metric::Denominator;
use crate::partition::{StripDescriptor, partition, partition_spec, lemma_partition_coverage};
use crate::worker::{scan_strip, strip_value};
use crate::equivalence::{lemma_overlay_matches_single_scan, region_value};

verus! {

/// Why a search was refused: the template does not fit the region left after
/// the border margin, or it is empty. Carries the offending sizes.
#[derive(Clone, Copy, Debug, PartialEq, Eq, Structural)]
pub enum SearchError {
    Dimension {
        source_width: usize,
        source_height: usize,
        template_width: usize,
        template_height: usize,
        margin: usize,
    },
}

/// The template is non-empty and strictly smaller than the source minus the
/// margin on every side.
pub open spec fn dims_ok(src: Image, tpl: Image, margin: nat) -> bool {
    &&& tpl.width > 0
    &&& tpl.height > 0
    &&& src.width > tpl.width + 2 * margin
    &&& src.height > tpl.height + 2 * margin
}

/// Width of the search region.
pub open spec fn region_width(src: Image, margin: nat) -> int {
    src.width - 2 * margin
}

/// Height of the search region.
pub open spec fn region_height(src: Image, margin: nat) -> int {
    src.height - 2 * margin
}

/// `parts` are the scans of `strips`, in order: strip `i` has index `i`, the
/// strip's first row, and the strip map of its window scores.
pub open spec fn scans_of(
    src: Image,
    tpl: Image,
    margin: nat,
    d: Denominator,
    strips: Seq<StripDescriptor>,
    parts: Seq<PartialMap>,
) -> bool {
    let rw = region_width(src, margin);
    &&& parts.len() == strips.len()
    &&& forall|i: int|
        0 <= i < parts.len() ==> {
            let p = #[trigger] parts[i];
            &&& p.index == i
            &&& p.start == strips[i].start
            &&& p.map.wf()
            &&& p.map.width == rw
            &&& p.map.height == strips[i].height
            &&& forall|c: int, r: int|
                0 <= c < rw && 0 <= r < strips[i].height ==> #[trigger] p.map.at(c, r)
                    == strip_value(
                    tpl,
                    src,
                    margin as int,
                    rw,
                    strips[i].start as int,
                    strips[i].height as int,
                    d,
                    c,
                    r,
                )
        }
}

/// The map a search with `workers` workers yields: the scans of the strips of
/// the region, merged by `policy`.
pub open spec fn search_result(
    src: Image,
    tpl: Image,
    margin: nat,
    workers: nat,
    d: Denominator,
    policy: MergePolicy,
    out: Seq<u8>,
) -> bool {
    let rw = region_width(src, margin);
    let rh = region_height(src, margin);
    exists|parts: Seq<PartialMap>|
        scans_of(src, tpl, margin, d, partition_spec(rh as nat, tpl.height as nat, workers), parts)
            && out == #[trigger] merged(rw, rh, parts, policy)
}

/// Checks the sizes of a search; the error carries them.
pub fn check_dimensions(src: &Image, tpl: &Image, margin: usize) -> (r: Result<(), SearchError>)
    ensures
        r.is_ok() <==> dims_ok(*src, *tpl, margin as nat),
        r matches Err(e) ==> e == (SearchError::Dimension {
            source_width: src.width,
            source_height: src.height,
            template_width: tpl.width,
            template_height: tpl.height,
            margin,
        }),
{
    let err = SearchError::Dimension {
        source_width: src.width,
        source_height: src.height,
        template_width: tpl.width,
        template_height: tpl.height,
        margin,
    };
    if tpl.width == 0 || tpl.height == 0 {
        return Err(err);
    }
    if margin > src.width / 2 || margin > src.height / 2 {
        return Err(err);
    }
    if src.width - 2 * margin <= tpl.width || src.height - 2 * margin <= tpl.height {
        return Err(err);
    }
    Ok(())
}

/// Searches for `tpl` in `src`, skipping `margin` pixels along every edge,
/// with the work split into at most `workers` strips. The map is as large as
/// the search region; its value at each window centre is the confidence of
/// that window, laid together by `policy` where strips overlap.
pub fn search_with_workers(
    src: &Image,
    tpl: &Image,
    margin: usize,
    workers: usize,
    denom: Denominator,
    policy: MergePolicy,
) -> (r: Result<ConfidenceMap, SearchError>)
    requires
        src.wf(),
        tpl.wf(),
    ensures
        r.is_ok() <==> dims_ok(*src, *tpl, margin as nat),
        r matches Err(e) ==> e == (SearchError::Dimension {
            source_width: src.width,
            source_height: src.height,
            template_width: tpl.width,
            template_height: tpl.height,
            margin,
        }),
        r matches Ok(map) ==> {
            &&& map.wf()
            &&& map.width == region_width(*src, margin as nat)
            &&& map.height == region_height(*src, margin as nat)
            &&& search_result(*src, *tpl, margin as nat, workers as nat, denom, policy, map.data@)
            &&& policy == MergePolicy::Overlay ==> forall|c: int, row: int|
                0 <= c < map.width && 0 <= row < map.height ==> #[trigger] map.at(c, row)
                    == region_value(*src, *tpl, margin as nat, denom, c, row)
        },
{
    check_dimensions(src, tpl, margin)?;
    let rw: usize = src.width - 2 * margin;
    let rh: usize = src.height - 2 * margin;
    let slen: usize = src.data.len();
    proof {
        assert(rw * rh <= src.width * src.height) by (nonlinear_arith)
            requires rw <= src.width, rh <= src.height;
        assert(src.width * src.height <= slen) by (nonlinear_arith)
            requires slen == 3 * src.width * src.height;
        lemma_partition_coverage(rh as nat, tpl.height as nat, workers as nat);
    }
    let strips: Vec<StripDescriptor> = partition(rh, tpl.height, workers);
    let ghost sp = strips@;
    let mut parts: Vec<PartialMap> = Vec::new();
    let mut i: usize = 0;
    while i < strips.len()
        invariant
            src.wf(),
            tpl.wf(),
            dims_ok(*src, *tpl, margin as nat),
            rw == region_width(*src, margin as nat),
            rh == region_height(*src, margin as nat),
            sp == strips@,
            sp == partition_spec(rh as nat, tpl.height as nat, workers as nat),
            forall|k: int| 0 <= k < sp.len() ==> #[trigger] sp[k].start + sp[k].height <= rh,
            forall|k: int| 0 <= k < sp.len() ==> tpl.height <= #[trigger] sp[k].height,
            i <= sp.len(),
            parts@.len() == i,
            scans_of(*src, *tpl, margin as nat, denom, sp.take(i as int), parts@),
        decreases sp.len() - i,
    {
        let s: StripDescriptor = strips[i];
        assert(sp[i as int].start + sp[i as int].height <= rh);
        assert(tpl.height <= sp[i as int].height);
        let map: ConfidenceMap = scan_strip(src, tpl, margin, rw, s.start, s.height, denom);
        let ghost before = parts@;
        parts.push(PartialMap { index: i, start: s.start, map });
        proof {
            assert(sp.take(i + 1) =~= sp.take(i as int).push(s));
            assert forall|k: int| 0 <= k < parts@.len() implies ({
                let p = #[trigger] parts@[k];
                p.index == k && p.start == sp.take(i + 1)[k].start
            }) by {
                if k < i {
                    assert(parts@[k] == before[k]);
                }
            }
        }
        i = i + 1;
    }
    proof {
        assert(sp.take(sp.len() as int) =~= sp);
        assert(parts_ok(parts@, rw as int, rh as int));
    }
    let out: ConfidenceMap = merge(rw, rh, &parts, policy);
    proof {
        assert(search_result(*src, *tpl, margin as nat, workers as nat, denom, policy, out.data@));
        if policy == MergePolicy::Overlay {
            lemma_overlay_matches_single_scan(*src, *tpl, margin as nat, workers as nat, denom, parts@);
        }
    }
    Ok(out)
}

/// Relies on num_cpus::get: the number of logical CPUs available to this
/// process, always at least one.
#[verifier::external_body]
fn available_workers() -> (r: usize)
    ensures
        r >= 1,
{
    num_cpus::get()
}

/// Searches as `search_with_workers` does, with one worker per available CPU.
pub fn search(
    src: &Image,
    tpl: &Image,
    margin: usize,
    denom: Denominator,
    policy: MergePolicy,
) -> (r: Result<ConfidenceMap, SearchError>)
    requires
        src.wf(),
        tpl.wf(),
    ensures
        r.is_ok() <==> dims_ok(*src, *tpl, margin as nat),
        r matches Err(e) ==> e == (SearchError::Dimension {
            source_width: src.width,
            source_height: src.height,
            template_width: tpl.width,
            template_height: tpl.height,
            margin,
        }),
        r matches Ok(map) ==> {
            &&& map.wf()
            &&& map.width == region_width(*src, margin as nat)
            &&& map.height == region_height(*src, margin as nat)
            &&& exists|workers: nat|
                workers >= 1 && search_result(*src, *tpl, margin as nat, workers, denom, policy, map.data@)
            &&& policy == MergePolicy::Overlay ==> forall|c: int, row: int|
                0 <= c < map.width && 0 <= row < map.height ==> #[trigger] map.at(c, row)
                    == region_value(*src, *tpl, margin as nat, denom, c, row)
        },
{
    let workers: usize = available_workers();
    let r = search_with_workers(src, tpl, margin, workers, denom, policy);
    proof {
        if r.is_ok() {
            let map = r.unwrap();
            assert(search_result(*src, *tpl, margin as nat, workers as nat, denom, policy, map.data@));
        }
    }
    r
}

} // verus!
